//! Privacy verification: who may see a proof, what may be disclosed of it,
//! and what its owner has consented to.

use vstd::prelude::*;
use crate::bytes::{byte_strings, same_bytes};
use crate::identity::{clone_identities, identity_models, Identity};
use crate::keyed::Keyed;

verus! {

/// Visibility: only the owner has access.
pub const PRIVATE: u32 = 0;

/// Visibility: everybody has access.
pub const PUBLIC: u32 = 1;

/// Visibility: the allowed viewers have access.
pub const SHARED: u32 = 2;

/// Action: to view a proof.
pub const VIEW: u32 = 0;

/// The privacy settings of a proof.
#[derive(Debug, PartialEq, Eq)]
pub struct PrivacySettings {
    /// `PRIVATE`, `PUBLIC` or `SHARED`.
    pub visibility: u32,
    /// The parties that have access to a shared proof.
    pub allowed_viewers: Vec<Identity>,
    /// What may be done with the proof: 0 to view, 1 to verify, 2 to share.
    pub allowed_actions: Vec<u32>,
    pub require_consent: bool,
    /// Whether only the essential fields of the proof are handed out.
    pub data_minimization: bool,
    pub encryption_required: bool,
}

/// The mathematical view of [`PrivacySettings`].
pub struct SettingsModel {
    pub visibility: u32,
    pub allowed_viewers: Seq<Seq<char>>,
    pub allowed_actions: Seq<u32>,
    pub require_consent: bool,
    pub data_minimization: bool,
    pub encryption_required: bool,
}

impl SettingsModel {
    /// The settings of a proof that has none of its own: private, to be
    /// viewed only, with every protection on.
    pub open spec fn default_settings() -> SettingsModel {
        SettingsModel {
            visibility: PRIVATE,
            allowed_viewers: Seq::empty(),
            allowed_actions: seq![VIEW],
            require_consent: true,
            data_minimization: true,
            encryption_required: true,
        }
    }

    /// Whether `requester` is among the allowed viewers.
    pub open spec fn allows(self, requester: Seq<char>) -> bool {
        self.allowed_viewers.contains(requester)
    }

    /// Whether `requester` has access: to a public proof everybody has, to
    /// a shared proof the allowed viewers have, to any other nobody has.
    pub open spec fn grants_access(self, requester: Seq<char>) -> bool {
        if self.visibility == PUBLIC {
            true
        } else if self.visibility == SHARED {
            self.allows(requester)
        } else {
            false
        }
    }
}

impl View for PrivacySettings {
    type V = SettingsModel;

    open spec fn view(&self) -> SettingsModel {
        SettingsModel {
            visibility: self.visibility,
            allowed_viewers: identity_models(self.allowed_viewers@),
            allowed_actions: self.allowed_actions@,
            require_consent: self.require_consent,
            data_minimization: self.data_minimization,
            encryption_required: self.encryption_required,
        }
    }
}

impl Clone for PrivacySettings {
    fn clone(&self) -> (r: Self)
        ensures
            r@ == self@,
    {
        let allowed_actions = self.allowed_actions.clone();
        proof {
            assert(allowed_actions@ =~= self.allowed_actions@);
        }
        PrivacySettings {
            visibility: self.visibility,
            allowed_viewers: clone_identities(&self.allowed_viewers),
            allowed_actions,
            require_consent: self.require_consent,
            data_minimization: self.data_minimization,
            encryption_required: self.encryption_required,
        }
    }
}

impl PrivacySettings {
    /// The settings of a proof that has none of its own.
    pub fn default_settings() -> (settings: Self)
        ensures
            settings@ == SettingsModel::default_settings(),
    {
        let mut allowed_actions: Vec<u32> = Vec::new();
        allowed_actions.push(VIEW);
        let settings = PrivacySettings {
            visibility: PRIVATE,
            allowed_viewers: Vec::new(),
            allowed_actions,
            require_consent: true,
            data_minimization: true,
            encryption_required: true,
        };
        proof {
            assert(settings@.allowed_viewers =~= Seq::empty());
            assert(settings@.allowed_actions =~= seq![VIEW]);
        }
        settings
    }
}

/// What a holder is willing to disclose of a proof, and to whom.
#[derive(Debug, PartialEq, Eq)]
pub struct SelectiveDisclosure {
    /// The names of the fields to disclose.
    pub disclosed_fields: Vec<String>,
    pub purpose: String,
    pub recipient: Identity,
    pub signature: Vec<u8>,
}

/// A zero-knowledge proof with what it takes to verify it.
#[derive(Debug, PartialEq, Eq)]
pub struct ZKProof {
    pub proof: Vec<u8>,
    pub public_inputs: Vec<Vec<u8>>,
    pub verification_key: Vec<u8>,
    pub circuit_id: String,
}

/// A named field of a proof.
#[derive(Debug, PartialEq, Eq)]
pub struct DataField {
    pub name: String,
    pub value: Vec<u8>,
}

/// The mathematical view of a [`DataField`].
pub struct FieldModel {
    pub name: Seq<char>,
    pub value: Seq<u8>,
}

impl View for DataField {
    type V = FieldModel;

    open spec fn view(&self) -> FieldModel {
        FieldModel { name: self.name@, value: self.value@ }
    }
}

impl Clone for DataField {
    fn clone(&self) -> (r: Self)
        ensures
            r@ == self@,
    {
        DataField { name: self.name.clone(), value: self.value.clone() }
    }
}

/// The views of the fields in a vector, in order.
pub open spec fn field_models(fields: Seq<DataField>) -> Seq<FieldModel> {
    fields.map_values(|f: DataField| f@)
}

/// The names of the fields, in order.
pub open spec fn field_names(fields: Seq<FieldModel>) -> Seq<Seq<char>> {
    fields.map_values(|f: FieldModel| f.name)
}

/// The views of the strings in a vector, in order.
pub open spec fn string_models(strings: Seq<String>) -> Seq<Seq<char>> {
    strings.map_values(|s: String| s@)
}

/// Whether what is disclosed is what the policy names: every field named is
/// disclosed, and every field disclosed is named.
pub open spec fn discloses_exactly(disclosed: Seq<Seq<char>>, named: Seq<Seq<char>>) -> bool {
    &&& forall|i: int| 0 <= i < named.len() ==> disclosed.contains(#[trigger] named[i])
    &&& forall|i: int| 0 <= i < disclosed.len() ==> named.contains(#[trigger] disclosed[i])
}

/// Whether every action asked for is among those consented to.
pub open spec fn covers(consented: Seq<u32>, requested: Seq<u32>) -> bool {
    forall|i: int| 0 <= i < requested.len() ==> consented.contains(#[trigger] requested[i])
}

/// The first field of `data` called `name`, if there is one, and nothing else.
pub open spec fn picked(data: Seq<FieldModel>, name: Seq<char>) -> Seq<FieldModel>
    decreases data.len(),
{
    if data.len() == 0 {
        Seq::empty()
    } else if data.first().name == name {
        seq![data.first()]
    } else {
        picked(data.drop_first(), name)
    }
}

/// What is handed out of `data` to `requester` under `settings`: all of it
/// without data minimization; with it, the fields `id`, `issuer`,
/// `timestamp` and `verified`, and the field `hash` too if the proof is
/// public or the requester an allowed viewer.
pub open spec fn minimized(data: Seq<FieldModel>, settings: SettingsModel, requester: Seq<char>)
    -> Seq<FieldModel> {
    if !settings.data_minimization {
        data
    } else {
        picked(data, "id"@) + picked(data, "issuer"@) + picked(data, "timestamp"@) + picked(
            data,
            "verified"@,
        ) + if settings.visibility == PUBLIC || settings.allows(requester) {
            picked(data, "hash"@)
        } else {
            Seq::empty()
        }
    }
}

/// The state of privacy verification.
pub struct PrivacyModel {
    /// The settings of the proofs that have settings of their own, by proof id.
    pub settings: Map<Seq<u8>, SettingsModel>,
    /// The actions consented to, by proof id.
    pub consents: Map<Seq<u8>, Seq<u32>>,
}

impl PrivacyModel {
    /// The settings that hold of the proof `proof_id`: its own, or the default.
    pub open spec fn settings_of(self, proof_id: Seq<u8>) -> SettingsModel {
        if self.settings.dom().contains(proof_id) {
            self.settings[proof_id]
        } else {
            SettingsModel::default_settings()
        }
    }

    /// Whether consent has been given for the proof `proof_id` to all of `requested`.
    pub open spec fn consents_to(self, proof_id: Seq<u8>, requested: Seq<u32>) -> bool {
        self.consents.dom().contains(proof_id) && covers(self.consents[proof_id], requested)
    }
}

/// Privacy verification.
///
/// Every operation takes the identities it is given as already authenticated.
pub struct PrivacyVerification {
    settings: Keyed<PrivacySettings>,
    consents: Keyed<Vec<u32>>,
}

impl View for PrivacyVerification {
    type V = PrivacyModel;

    closed spec fn view(&self) -> PrivacyModel {
        PrivacyModel { settings: self.settings@, consents: self.consents@ }
    }
}

/// Whether `text` is among `texts`.
fn is_listed(text: &String, texts: &Vec<String>) -> (found: bool)
    ensures
        found == string_models(texts@).contains(text@),
{
    let mut i: usize = 0;
    while i < texts.len()
        invariant
            i <= texts.len(),
            forall|j: int| 0 <= j < i ==> #[trigger] string_models(texts@)[j] != text@,
        decreases texts.len() - i,
    {
        if texts[i] == *text {
            proof {
                assert(string_models(texts@)[i as int] == text@);
            }
            return true;
        }
        i = i + 1;
    }
    false
}

/// Whether a field of `data` is called `name`.
fn has_field(data: &Vec<DataField>, name: &String) -> (found: bool)
    ensures
        found == field_names(field_models(data@)).contains(name@),
{
    let mut i: usize = 0;
    while i < data.len()
        invariant
            i <= data.len(),
            forall|j: int|
                0 <= j < i ==> #[trigger] field_names(field_models(data@))[j] != name@,
        decreases data.len() - i,
    {
        if data[i].name == *name {
            proof {
                assert(field_names(field_models(data@))[i as int] == name@);
            }
            return true;
        }
        i = i + 1;
    }
    false
}

/// Whether `number` is among `numbers`.
fn is_numbered(number: u32, numbers: &Vec<u32>) -> (found: bool)
    ensures
        found == numbers@.contains(number),
{
    let mut i: usize = 0;
    while i < numbers.len()
        invariant
            i <= numbers.len(),
            forall|j: int| 0 <= j < i ==> #[trigger] numbers@[j] != number,
        decreases numbers.len() - i,
    {
        if numbers[i] == number {
            return true;
        }
        i = i + 1;
    }
    false
}

/// Appends to `out` the first field of `data` called `name`, if there is one.
fn pick(out: &mut Vec<DataField>, data: &Vec<DataField>, name: &str)
    ensures
        field_models(final(out)@) == field_models(old(out)@) + picked(field_models(data@), name@),
{
    let ghost all = field_models(data@);
    let ghost before = field_models(out@);
    let wanted = name.to_owned();
    let mut i: usize = 0;
    proof {
        assert(all.skip(0) =~= all);
    }
    while i < data.len()
        invariant
            i <= data.len(),
            all == field_models(data@),
            wanted@ == name@,
            before == field_models(old(out)@),
            field_models(out@) == before,
            picked(all, name@) == picked(all.skip(i as int), name@),
        decreases data.len() - i,
    {
        proof {
            assert(all.skip(i as int).first() == data@[i as int]@);
            assert(all.skip(i as int).drop_first() =~= all.skip(i + 1));
        }
        if data[i].name == wanted {
            let copy = data[i].clone();
            out.push(copy);
            proof {
                assert(all.skip(i as int).first().name == name@);
                assert(picked(all.skip(i as int), name@) =~= seq![copy@]);
                assert(field_models(out@) =~= before + seq![copy@]);
            }
            return ;
        }
        i = i + 1;
    }
    proof {
        assert(all.skip(i as int) =~= Seq::empty());
        assert(before + Seq::empty() =~= before);
    }
}

impl PrivacyVerification {
    /// The stores are in order.
    pub closed spec fn wf(&self) -> bool {
        self.settings.wf() && self.consents.wf()
    }

    /// Privacy verification with no settings and no consents yet.
    pub fn initialize() -> (privacy: Self)
        ensures
            privacy.wf(),
            privacy@ == (PrivacyModel { settings: Map::empty(), consents: Map::empty() }),
    {
        PrivacyVerification { settings: Keyed::new(), consents: Keyed::new() }
    }

    /// The settings that hold of the proof `proof_id`: its own, or the default.
    pub fn get_privacy_settings(&self, proof_id: &Vec<u8>) -> (settings: PrivacySettings)
        requires
            self.wf(),
        ensures
            settings@ == self@.settings_of(proof_id@),
    {
        match self.settings.get(proof_id) {
            Some(settings) => settings.clone(),
            None => PrivacySettings::default_settings(),
        }
    }

    /// Gives the proof `proof_id` settings of its own.
    pub fn set_privacy_settings(&mut self, proof_id: &Vec<u8>, settings: PrivacySettings)
        requires
            old(self).wf(),
        ensures
            final(self).wf(),
            final(self)@ == (PrivacyModel {
                settings: old(self)@.settings.insert(proof_id@, settings@),
                ..old(self)@
            }),
    {
        self.settings.set(proof_id, settings);
    }

    /// Whether `requester` is among `allowed_viewers`. The actions asked
    /// for do not count.
    pub fn is_allowed_viewer(
        allowed_viewers: &Vec<Identity>,
        requester: &Identity,
        requested_actions: &Vec<u32>,
    ) -> (allowed: bool)
        ensures
            allowed == identity_models(allowed_viewers@).contains(requester@),
    {
        requester.is_among(allowed_viewers)
    }

    /// Whether `requester` has access to the proof `proof_id` under the
    /// settings that hold of it.
    pub fn verify_privacy(
        &self,
        proof_id: &Vec<u8>,
        requester: &Identity,
        requested_actions: &Vec<u32>,
    ) -> (granted: bool)
        requires
            self.wf(),
        ensures
            granted == self@.settings_of(proof_id@).grants_access(requester@),
    {
        let settings = self.get_privacy_settings(proof_id);
        if settings.visibility == PUBLIC {
            true
        } else if settings.visibility == SHARED {
            Self::is_allowed_viewer(&settings.allowed_viewers, requester, requested_actions)
        } else {
            false
        }
    }

    /// Whether `disclosed_data` may be disclosed to `requester`: whether
    /// the requester has access to the proof, and the fields disclosed are
    /// those that the policy names, no fewer and no more.
    pub fn verify_selective_disclosure(
        &self,
        proof_id: &Vec<u8>,
        disclosed_data: &Vec<DataField>,
        disclosure_policy: &SelectiveDisclosure,
        requester: &Identity,
    ) -> (valid: bool)
        requires
            self.wf(),
        ensures
            valid == (self@.settings_of(proof_id@).grants_access(requester@) && discloses_exactly(
                field_names(field_models(disclosed_data@)),
                string_models(disclosure_policy.disclosed_fields@),
            )),
    {
        let ghost disclosed = field_names(field_models(disclosed_data@));
        let ghost named = string_models(disclosure_policy.disclosed_fields@);
        let mut view_only: Vec<u32> = Vec::new();
        view_only.push(VIEW);
        if !self.verify_privacy(proof_id, requester, &view_only) {
            return false;
        }
        let mut i: usize = 0;
        while i < disclosure_policy.disclosed_fields.len()
            invariant
                i <= disclosure_policy.disclosed_fields.len(),
                disclosed == field_names(field_models(disclosed_data@)),
                named == string_models(disclosure_policy.disclosed_fields@),
                forall|j: int| 0 <= j < i ==> disclosed.contains(#[trigger] named[j]),
            decreases disclosure_policy.disclosed_fields.len() - i,
        {
            if !has_field(disclosed_data, &disclosure_policy.disclosed_fields[i]) {
                proof {
                    assert(!disclosed.contains(named[i as int]));
                }
                return false;
            }
            i = i + 1;
        }
        let mut k: usize = 0;
        while k < disclosed_data.len()
            invariant
                k <= disclosed_data.len(),
                disclosed == field_names(field_models(disclosed_data@)),
                named == string_models(disclosure_policy.disclosed_fields@),
                forall|j: int| 0 <= j < named.len() ==> disclosed.contains(#[trigger] named[j]),
                forall|j: int| 0 <= j < k ==> named.contains(#[trigger] disclosed[j]),
            decreases disclosed_data.len() - k,
        {
            proof {
                assert(disclosed[k as int] == disclosed_data@[k as int].name@);
            }
            if !is_listed(&disclosed_data[k].name, &disclosure_policy.disclosed_fields) {
                proof {
                    assert(!named.contains(disclosed[k as int]));
                }
                return false;
            }
            k = k + 1;
        }
        true
    }

    /// Whether `proof` and `verification_key` are both there: neither is empty.
    pub fn verify_zk_proof_internal(proof: &Vec<u8>, verification_key: &Vec<u8>) -> (valid: bool)
        ensures
            valid == (proof@.len() > 0 && verification_key@.len() > 0),
    {
        proof.len() > 0 && verification_key.len() > 0
    }

    /// Whether `zk_proof` is valid for `public_inputs`: whether these are
    /// the public inputs of the proof, and the proof and its verification
    /// key are both there.
    pub fn verify_zk_proof(zk_proof: &ZKProof, public_inputs: &Vec<Vec<u8>>) -> (valid: bool)
        ensures
            valid == (byte_strings(zk_proof.public_inputs@) == byte_strings(public_inputs@)
                && zk_proof.proof@.len() > 0 && zk_proof.verification_key@.len() > 0),
    {
        let ghost own = byte_strings(zk_proof.public_inputs@);
        let ghost given = byte_strings(public_inputs@);
        if zk_proof.public_inputs.len() != public_inputs.len() {
            proof {
                assert(own.len() != given.len());
            }
            return false;
        }
        let mut i: usize = 0;
        while i < public_inputs.len()
            invariant
                i <= public_inputs.len(),
                zk_proof.public_inputs.len() == public_inputs.len(),
                own == byte_strings(zk_proof.public_inputs@),
                given == byte_strings(public_inputs@),
                forall|j: int| 0 <= j < i ==> own[j] == given[j],
            decreases public_inputs.len() - i,
        {
            if !same_bytes(&zk_proof.public_inputs[i], &public_inputs[i]) {
                proof {
                    assert(own[i as int] != given[i as int]);
                }
                return false;
            }
            i = i + 1;
        }
        proof {
            assert(own =~= given);
        }
        Self::verify_zk_proof_internal(&zk_proof.proof, &zk_proof.verification_key)
    }

    /// Whether consent has been given for the proof `proof_id` to all of
    /// `requested_actions`. Consent is kept by proof: who gave it, and to
    /// whom, does not count.
    pub fn check_consent(
        &self,
        proof_id: &Vec<u8>,
        granter: &Identity,
        grantee: &Identity,
        requested_actions: &Vec<u32>,
    ) -> (consented: bool)
        requires
            self.wf(),
        ensures
            consented == self@.consents_to(proof_id@, requested_actions@),
    {
        let consent_actions = match self.consents.get(proof_id) {
            Some(actions) => actions,
            None => {
                return false;
            },
        };
        let mut i: usize = 0;
        while i < requested_actions.len()
            invariant
                i <= requested_actions.len(),
                consent_actions@ == self@.consents[proof_id@],
                self@.consents.dom().contains(proof_id@),
                forall|j: int|
                    0 <= j < i ==> consent_actions@.contains(#[trigger] requested_actions@[j]),
            decreases requested_actions.len() - i,
        {
            if !is_numbered(requested_actions[i], consent_actions) {
                return false;
            }
            i = i + 1;
        }
        true
    }

    /// Records the consent of `granter`, already authenticated, to
    /// `permissions` on the proof `proof_id`, in place of any consent
    /// recorded for the proof before.
    pub fn grant_consent(
        &mut self,
        proof_id: &Vec<u8>,
        granter: &Identity,
        grantee: &Identity,
        permissions: Vec<u32>,
    )
        requires
            old(self).wf(),
        ensures
            final(self).wf(),
            final(self)@ == (PrivacyModel {
                consents: old(self)@.consents.insert(proof_id@, permissions@),
                ..old(self)@
            }),
    {
        self.consents.set(proof_id, permissions);
    }

    /// Withdraws the consent recorded for the proof `proof_id`, if any.
    /// `granter` is already authenticated.
    pub fn revoke_consent(&mut self, proof_id: &Vec<u8>, granter: &Identity, grantee: &Identity)
        requires
            old(self).wf(),
        ensures
            final(self).wf(),
            final(self)@ == (PrivacyModel {
                consents: old(self)@.consents.remove(proof_id@),
                ..old(self)@
            }),
    {
        self.consents.remove(proof_id);
    }

    /// What is handed out of `proof_data` to `requester` under
    /// `privacy_settings`: all of it without data minimization; with it,
    /// the fields `id`, `issuer`, `timestamp` and `verified`, as far as
    /// they are there, and the field `hash` too if the proof is public or
    /// the requester an allowed viewer.
    pub fn apply_data_minimization(
        proof_data: Vec<DataField>,
        privacy_settings: &PrivacySettings,
        requester: &Identity,
    ) -> (handed_out: Vec<DataField>)
        ensures
            field_models(handed_out@) == minimized(
                field_models(proof_data@),
                privacy_settings@,
                requester@,
            ),
    {
        if !privacy_settings.data_minimization {
            return proof_data;
        }
        let mut handed_out: Vec<DataField> = Vec::new();
        proof {
            assert(field_models(handed_out@) =~= Seq::empty());
        }
        pick(&mut handed_out, &proof_data, "id");
        pick(&mut handed_out, &proof_data, "issuer");
        pick(&mut handed_out, &proof_data, "timestamp");
        pick(&mut handed_out, &proof_data, "verified");
        let mut view_only: Vec<u32> = Vec::new();
        view_only.push(VIEW);
        if privacy_settings.visibility == PUBLIC || Self::is_allowed_viewer(
            &privacy_settings.allowed_viewers,
            requester,
            &view_only,
        ) {
            pick(&mut handed_out, &proof_data, "hash");
        }
        proof {
            let data = field_models(proof_data@);
            assert(Seq::<FieldModel>::empty() + picked(data, "id"@) =~= picked(data, "id"@));
            assert(field_models(handed_out@) =~= minimized(data, privacy_settings@, requester@));
        }
        handed_out
    }

    /// The number of proofs that have settings of their own.
    pub fn settings_count(&self) -> (count: usize)
        requires
            self.wf(),
        ensures
            count == self.spec_settings_count(),
    {
        self.settings.len()
    }

    /// The number of proofs that have settings of their own.
    pub closed spec fn spec_settings_count(&self) -> nat {
        self.settings.spec_len()
    }

    /// The proof id and the settings at position `i` of the proofs that
    /// have settings of their own.
    pub fn settings_entry(&self, i: usize) -> (found: (&Vec<u8>, &PrivacySettings))
        requires
            self.wf(),
            i < self.spec_settings_count(),
        ensures
            self@.settings.dom().contains(found.0@),
            self@.settings[found.0@] == found.1@,
    {
        self.settings.entry(i)
    }

    /// The number of proofs that consent is recorded for.
    pub fn consents_count(&self) -> (count: usize)
        requires
            self.wf(),
        ensures
            count == self.spec_consents_count(),
    {
        self.consents.len()
    }

    /// The number of proofs that consent is recorded for.
    pub closed spec fn spec_consents_count(&self) -> nat {
        self.consents.spec_len()
    }

    /// The proof id and the actions at position `i` of the proofs that
    /// consent is recorded for.
    pub fn consents_entry(&self, i: usize) -> (found: (&Vec<u8>, &Vec<u32>))
        requires
            self.wf(),
            i < self.spec_consents_count(),
        ensures
            self@.consents.dom().contains(found.0@),
            self@.consents[found.0@] == found.1@,
    {
        self.consents.entry(i)
    }
}

} // verus!
