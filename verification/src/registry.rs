//! The proof registry: proofs issued by any party and verified by the
//! administrator, and the version history of a proof's document.

use vstd::prelude::*;
use crate::identity::{optional_identity, Identity};

verus! {

/// Why a call on the registry was rejected. A rejected call changes nothing.
#[derive(Clone, Copy, Debug, PartialEq, Eq, Structural)]
pub enum RegistryError {
    /// `initialize` was called on a registry that already has an administrator.
    AlreadyInitialized,
    /// The registry has no administrator yet.
    AdminNotFound,
    /// The caller is not the administrator.
    NotAuthorized,
    /// No proof has the given id.
    ProofNotFound,
}

/// A proof of an event, as issued.
#[derive(Debug, PartialEq, Eq)]
pub struct Proof {
    /// The id of the proof: proofs are numbered from 1 in the order of issue.
    pub id: u64,
    /// The party that issued the proof.
    pub issuer: Identity,
    /// The event the proof is about.
    pub event_data: Vec<u8>,
    /// When the proof was issued, in ledger seconds.
    pub timestamp: u64,
    /// Whether the administrator has verified the proof.
    pub verified: bool,
    /// The hash the issuer gave for the proof.
    pub hash: Vec<u8>,
}

/// The mathematical view of a [`Proof`].
pub struct ProofModel {
    pub id: nat,
    pub issuer: Seq<char>,
    pub event_data: Seq<u8>,
    pub timestamp: nat,
    pub verified: bool,
    pub hash: Seq<u8>,
}

impl ProofModel {
    /// The proof that `issuer` issues at `now` as the proof number `id`.
    pub open spec fn issued(
        id: nat,
        issuer: Seq<char>,
        event_data: Seq<u8>,
        hash: Seq<u8>,
        now: nat,
    ) -> ProofModel {
        ProofModel { id, issuer, event_data, timestamp: now, verified: false, hash }
    }

    /// The proof once verified.
    pub open spec fn verified(self) -> ProofModel {
        ProofModel { verified: true, ..self }
    }
}

impl View for Proof {
    type V = ProofModel;

    open spec fn view(&self) -> ProofModel {
        ProofModel {
            id: self.id as nat,
            issuer: self.issuer@,
            event_data: self.event_data@,
            timestamp: self.timestamp as nat,
            verified: self.verified,
            hash: self.hash@,
        }
    }
}

impl Clone for Proof {
    fn clone(&self) -> (r: Self)
        ensures
            r@ == self@,
    {
        Proof {
            id: self.id,
            issuer: self.issuer.clone(),
            event_data: self.event_data.clone(),
            timestamp: self.timestamp,
            verified: self.verified,
            hash: self.hash.clone(),
        }
    }
}

/// The views of the proofs in a vector, in order.
pub open spec fn proof_models(proofs: Seq<Proof>) -> Seq<ProofModel> {
    proofs.map_values(|p: Proof| p@)
}

/// The proofs among `proofs` that `issuer` issued, in order.
pub open spec fn issued_by(proofs: Seq<ProofModel>, issuer: Seq<char>) -> Seq<ProofModel> {
    proofs.filter(|p: ProofModel| p.issuer == issuer)
}

/// A version of the document that a proof is about.
#[derive(Debug, PartialEq, Eq)]
pub struct ProofVersion {
    /// The number of the version: versions are numbered from 1.
    pub version: u32,
    /// The hash of the document in this version.
    pub hash: String,
    /// Where the document is kept.
    pub uri: String,
    /// When the version was added, in ledger seconds.
    pub timestamp: u64,
    /// The party that added the version.
    pub author: Identity,
    /// What the author says of the version.
    pub message: String,
    /// The branch that the version belongs to.
    pub branch: String,
}

/// The mathematical view of a [`ProofVersion`].
pub struct VersionModel {
    pub version: nat,
    pub hash: Seq<char>,
    pub uri: Seq<char>,
    pub timestamp: nat,
    pub author: Seq<char>,
    pub message: Seq<char>,
    pub branch: Seq<char>,
}

impl View for ProofVersion {
    type V = VersionModel;

    open spec fn view(&self) -> VersionModel {
        VersionModel {
            version: self.version as nat,
            hash: self.hash@,
            uri: self.uri@,
            timestamp: self.timestamp as nat,
            author: self.author@,
            message: self.message@,
            branch: self.branch@,
        }
    }
}

impl Clone for ProofVersion {
    fn clone(&self) -> (r: Self)
        ensures
            r@ == self@,
    {
        ProofVersion {
            version: self.version,
            hash: self.hash.clone(),
            uri: self.uri.clone(),
            timestamp: self.timestamp,
            author: self.author.clone(),
            message: self.message.clone(),
            branch: self.branch.clone(),
        }
    }
}

/// The views of the versions in a vector, in order.
pub open spec fn version_models(versions: Seq<ProofVersion>) -> Seq<VersionModel> {
    versions.map_values(|v: ProofVersion| v@)
}

/// The versions of one proof's document, oldest first.
struct History {
    proof_id: String,
    versions: Vec<ProofVersion>,
}

/// Whether the versions are numbered from 1 in order.
pub open spec fn numbered(versions: Seq<VersionModel>) -> bool {
    forall|i: int| 0 <= i < versions.len() ==> (#[trigger] versions[i]).version == i + 1
}

/// The state of the registry.
pub struct RegistryModel {
    /// The administrator, once initialized.
    pub admin: Option<Seq<char>>,
    /// The proofs issued, in the order of issue.
    pub proofs: Seq<ProofModel>,
    /// The versions of each document that has any, oldest first, by the
    /// name of the proof that the document belongs to.
    pub histories: Map<Seq<char>, Seq<VersionModel>>,
}

impl RegistryModel {
    /// The registry before it is initialized.
    pub open spec fn empty() -> RegistryModel {
        RegistryModel { admin: None, proofs: Seq::empty(), histories: Map::empty() }
    }

    /// The rule of the registry: the proof at position `i` has the id
    /// `i + 1`, and so has the version at position `i` of every history the
    /// number `i + 1`.
    pub open spec fn inv(self) -> bool {
        &&& forall|i: int| 0 <= i < self.proofs.len() ==> (#[trigger] self.proofs[i]).id == i + 1
        &&& forall|name: Seq<char>, i: int|
            self.histories.dom().contains(name) && 0 <= i < self.histories[name].len() ==> (
            #[trigger] self.histories[name][i]).version == i + 1
    }

    /// The versions of the document of the proof called `name`, oldest
    /// first; none if no version of it was ever added.
    pub open spec fn history(self, name: Seq<char>) -> Seq<VersionModel> {
        if self.histories.dom().contains(name) {
            self.histories[name]
        } else {
            Seq::empty()
        }
    }

    /// Whether a proof with the given id has been issued.
    pub open spec fn has_proof(self, id: nat) -> bool {
        1 <= id <= self.proofs.len()
    }

    /// Whether `verify_proof` by `caller` of the proof `id` is accepted.
    pub open spec fn verify_outcome(self, caller: Seq<char>, id: nat) -> Result<
        (),
        RegistryError,
    > {
        if self.admin is None {
            Err(RegistryError::AdminNotFound)
        } else if self.admin != Some(caller) {
            Err(RegistryError::NotAuthorized)
        } else if !self.has_proof(id) {
            Err(RegistryError::ProofNotFound)
        } else {
            Ok(())
        }
    }
}

/// The proof registry.
///
/// Every operation takes the identity of its caller as already
/// authenticated, and the ledger time `now` in seconds where it needs it.
pub struct VerinodeContract {
    admin: Option<Identity>,
    proofs: Vec<Proof>,
    histories: Vec<History>,
}

/// Whether `histories` holds a history under `name` at `i`.
spec fn holds_at(histories: Seq<History>, name: Seq<char>, i: int) -> bool {
    0 <= i < histories.len() && histories[i].proof_id@ == name
}

/// No two histories go by the same name.
spec fn distinct_names(histories: Seq<History>) -> bool {
    forall|i: int, j: int|
        0 <= i < histories.len() && 0 <= j < histories.len() && #[trigger] histories[i].proof_id@
            == #[trigger] histories[j].proof_id@ ==> i == j
}

/// The histories by name.
spec fn histories_by_name(histories: Seq<History>) -> Map<Seq<char>, Seq<VersionModel>> {
    Map::new(
        |name: Seq<char>| exists|i: int| holds_at(histories, name, i),
        |name: Seq<char>|
            version_models(histories[choose|i: int| holds_at(histories, name, i)].versions@),
    )
}

/// Under distinct names, the history found under a name is the one held there.
proof fn lemma_history_held(histories: Seq<History>, i: int)
    requires
        distinct_names(histories),
        0 <= i < histories.len(),
    ensures
        histories_by_name(histories).dom().contains(histories[i].proof_id@),
        histories_by_name(histories)[histories[i].proof_id@] == version_models(
            histories[i].versions@,
        ),
{
    let name = histories[i].proof_id@;
    assert(holds_at(histories, name, i));
    let found = choose|j: int| holds_at(histories, name, j);
    assert(holds_at(histories, name, found));
    assert(found == i);
}

/// The rule of the registry carries over to a state with the same
/// histories and with proofs that are numbered in order.
proof fn lemma_same_histories(before: RegistryModel, after: RegistryModel)
    requires
        before.inv(),
        after.histories == before.histories,
        forall|i: int| 0 <= i < after.proofs.len() ==> (#[trigger] after.proofs[i]).id == i + 1,
    ensures
        after.inv(),
{
    assert forall|name: Seq<char>, i: int|
        after.histories.dom().contains(name) && 0 <= i < after.histories[name].len() implies (
    #[trigger] after.histories[name][i]).version == i + 1 by {
        assert(before.histories[name][i].version == i + 1);
    }
}

/// The rule of the registry carries over to a state with the same proofs
/// in which one history has changed, to versions that are numbered in order.
proof fn lemma_history_replaced(
    before: RegistryModel,
    after: RegistryModel,
    name: Seq<char>,
    versions: Seq<VersionModel>,
)
    requires
        before.inv(),
        after.proofs == before.proofs,
        after.histories == before.histories.insert(name, versions),
        forall|i: int| 0 <= i < versions.len() ==> (#[trigger] versions[i]).version == i + 1,
    ensures
        after.inv(),
{
    assert forall|i: int| 0 <= i < after.proofs.len() implies (#[trigger] after.proofs[i]).id == i
        + 1 by {
        assert(before.proofs[i].id == i + 1);
    }
    assert forall|other: Seq<char>, i: int|
        after.histories.dom().contains(other) && 0 <= i < after.histories[other].len() implies (
    #[trigger] after.histories[other][i]).version == i + 1 by {
        if other != name {
            assert(before.histories[other][i].version == i + 1);
        }
    }
}

impl View for VerinodeContract {
    type V = RegistryModel;

    closed spec fn view(&self) -> RegistryModel {
        RegistryModel {
            admin: optional_identity(self.admin),
            proofs: proof_models(self.proofs@),
            histories: histories_by_name(self.histories@),
        }
    }
}

impl VerinodeContract {
    /// No two histories are kept under the same name.
    pub closed spec fn keyed(&self) -> bool {
        distinct_names(self.histories@)
    }

    /// The registry obeys its rule.
    pub open spec fn wf(&self) -> bool {
        self@.inv() && self.keyed()
    }

    /// The position of the history kept under `name`, if there is one.
    fn find_history(&self, name: &String) -> (found: Option<usize>)
        requires
            self.keyed(),
        ensures
            match found {
                Some(i) => i < self.histories.len() && self.histories[i as int].proof_id@
                    == name@ && self@.histories.dom().contains(name@) && self@.histories[name@]
                    == version_models(self.histories[i as int].versions@),
                None => !self@.histories.dom().contains(name@) && forall|i: int|
                    0 <= i < self.histories.len() ==> (#[trigger] self.histories[i]).proof_id@
                        != name@,
            },
    {
        let mut i: usize = 0;
        while i < self.histories.len()
            invariant
                i <= self.histories.len(),
                distinct_names(self.histories@),
                forall|j: int| 0 <= j < i ==> (#[trigger] self.histories[j]).proof_id@ != name@,
            decreases self.histories.len() - i,
        {
            if self.histories[i].proof_id == *name {
                proof {
                    lemma_history_held(self.histories@, i as int);
                }
                return Some(i);
            }
            i = i + 1;
        }
        proof {
            assert forall|j: int| !holds_at(self.histories@, name@, j) by {
                if 0 <= j < self.histories.len() {
                    assert(self.histories[j].proof_id@ != name@);
                }
            }
        }
        None
    }

    /// A registry that is not initialized yet and holds no proof.
    pub fn new() -> (registry: Self)
        ensures
            registry@ == RegistryModel::empty(),
            registry.wf(),
    {
        let registry = VerinodeContract {
            admin: None,
            proofs: Vec::new(),
            histories: Vec::new(),
        };
        proof {
            assert(registry@.proofs =~= Seq::empty());
            assert(registry@.histories =~= Map::empty());
        }
        registry
    }

    /// Names the administrator of a registry that has none, and starts the
    /// count of proofs at zero. Fails with `AlreadyInitialized` otherwise.
    pub fn initialize(&mut self, admin: Identity) -> (res: Result<(), RegistryError>)
        requires
            old(self).wf(),
        ensures
            final(self).wf(),
            res is Ok <==> old(self)@.admin is None,
            res is Ok ==> final(self)@ == (RegistryModel {
                admin: Some(admin@),
                proofs: Seq::empty(),
                histories: old(self)@.histories,
            }),
            res is Err ==> res == Err::<(), RegistryError>(RegistryError::AlreadyInitialized)
                && final(self)@ == old(self)@,
    {
        if self.admin.is_some() {
            return Err(RegistryError::AlreadyInitialized);
        }
        self.admin = Some(admin);
        self.proofs = Vec::new();
        proof {
            assert(self@.proofs =~= Seq::empty());
            lemma_same_histories(old(self)@, self@);
        }
        Ok(())
    }

    /// Issues a proof for `issuer`, already authenticated, and returns its
    /// id: one more than the number of proofs issued before. The proof is
    /// not verified yet.
    pub fn issue_proof(&mut self, issuer: Identity, event_data: Vec<u8>, hash: Vec<u8>, now: u64)
        -> (id: u64)
        requires
            old(self).wf(),
            old(self)@.proofs.len() < u64::MAX,
        ensures
            final(self).wf(),
            id == old(self)@.proofs.len() + 1,
            final(self)@.admin == old(self)@.admin,
            final(self)@.histories == old(self)@.histories,
            final(self)@.proofs == old(self)@.proofs.push(
                ProofModel::issued(id as nat, issuer@, event_data@, hash@, now as nat),
            ),
    {
        let id: u64 = self.proofs.len() as u64 + 1;
        let proof = Proof { id, issuer, event_data, timestamp: now, verified: false, hash };
        self.proofs.push(proof);
        proof {
            assert(self@.proofs =~= old(self)@.proofs.push(proof@));
            assert forall|i: int| 0 <= i < self@.proofs.len() implies (#[trigger] self@.proofs[i]).id
                == i + 1 by {
                if i < old(self)@.proofs.len() {
                    assert(self@.proofs[i] == old(self)@.proofs[i]);
                }
            }
            lemma_same_histories(old(self)@, self@);
        }
        id
    }

    /// Marks the proof with the given id as verified, and returns `true`.
    ///
    /// `admin` is the caller, already authenticated. Fails with
    /// `AdminNotFound` if the registry has no administrator, else with
    /// `NotAuthorized` if `admin` is not the administrator, else with
    /// `ProofNotFound` if no proof has the id.
    pub fn verify_proof(&mut self, admin: &Identity, proof_id: u64) -> (res: Result<
        bool,
        RegistryError,
    >)
        requires
            old(self).wf(),
        ensures
            final(self).wf(),
            match res {
                Ok(done) => done && old(self)@.verify_outcome(admin@, proof_id as nat) is Ok,
                Err(e) => old(self)@.verify_outcome(admin@, proof_id as nat) == Err::<
                    (),
                    RegistryError,
                >(e),
            },
            final(self)@.admin == old(self)@.admin,
            final(self)@.histories == old(self)@.histories,
            res is Ok ==> final(self)@.proofs == old(self)@.proofs.update(
                proof_id - 1,
                old(self)@.proofs[proof_id - 1].verified(),
            ),
            res is Err ==> final(self)@ == old(self)@,
    {
        match &self.admin {
            None => {
                return Err(RegistryError::AdminNotFound);
            },
            Some(stored) => {
                if !stored.same_as(admin) {
                    return Err(RegistryError::NotAuthorized);
                }
            },
        }
        if proof_id == 0 || proof_id > self.proofs.len() as u64 {
            return Err(RegistryError::ProofNotFound);
        }
        let index: usize = (proof_id - 1) as usize;
        let proof = &self.proofs[index];
        let verified = Proof {
            id: proof.id,
            issuer: proof.issuer.clone(),
            event_data: proof.event_data.clone(),
            timestamp: proof.timestamp,
            verified: true,
            hash: proof.hash.clone(),
        };
        proof {
            assert(proof@ == old(self)@.proofs[index as int]);
            assert(verified@ == proof@.verified());
        }
        self.proofs.set(index, verified);
        proof {
            assert(self@.proofs =~= old(self)@.proofs.update(index as int, verified@));
            assert forall|i: int| 0 <= i < self@.proofs.len() implies (#[trigger] self@.proofs[i]).id
                == i + 1 by {
                assert(old(self)@.proofs[i].id == i + 1);
            }
            lemma_same_histories(old(self)@, self@);
        }
        Ok(true)
    }

    /// The proof with the given id, or `ProofNotFound`.
    pub fn get_proof(&self, proof_id: u64) -> (res: Result<Proof, RegistryError>)
        ensures
            match res {
                Ok(proof) => self@.has_proof(proof_id as nat) && proof@ == self@.proofs[proof_id
                    - 1],
                Err(e) => !self@.has_proof(proof_id as nat) && e == RegistryError::ProofNotFound,
            },
    {
        if proof_id == 0 || proof_id > self.proofs.len() as u64 {
            return Err(RegistryError::ProofNotFound);
        }
        let index: usize = (proof_id - 1) as usize;
        proof {
            assert(self.proofs@[index as int]@ == self@.proofs[index as int]);
        }
        Ok(self.proofs[index].clone())
    }

    /// The proofs that `issuer` issued, in the order of issue.
    pub fn get_proofs_by_issuer(&self, issuer: &Identity) -> (found: Vec<Proof>)
        ensures
            proof_models(found@) == issued_by(self@.proofs, issuer@),
    {
        let ghost all = self@.proofs;
        let mut found: Vec<Proof> = Vec::new();
        let mut i: usize = 0;
        proof {
            reveal(Seq::filter);
            assert(all.take(0) =~= Seq::empty());
            assert(proof_models(found@) =~= Seq::empty());
        }
        while i < self.proofs.len()
            invariant
                i <= self.proofs.len(),
                all == proof_models(self.proofs@),
                proof_models(found@) == issued_by(all.take(i as int), issuer@),
            decreases self.proofs.len() - i,
        {
            let proof = &self.proofs[i];
            let ghost found_before = proof_models(found@);
            proof {
                reveal(Seq::filter);
                assert(proof@ == all[i as int]);
                assert(all.take(i + 1).drop_last() =~= all.take(i as int));
                assert(all.take(i + 1).last() == proof@);
            }
            if proof.issuer.same_as(issuer) {
                let copy = proof.clone();
                found.push(copy);
                proof {
                    assert(proof_models(found@) =~= found_before.push(proof@));
                }
            }
            i = i + 1;
        }
        proof {
            assert(all.take(i as int) =~= all);
        }
        found
    }

    /// The administrator, if the registry is initialized.
    pub fn get_admin(&self) -> (admin: Option<Identity>)
        ensures
            match admin {
                Some(admin) => self@.admin == Some(admin@),
                None => self@.admin is None,
            },
    {
        match &self.admin {
            Some(admin) => Some(admin.clone()),
            None => None,
        }
    }

    /// The number of proofs issued.
    pub fn get_proof_count(&self) -> (count: u64)
        ensures
            count == self@.proofs.len(),
    {
        self.proofs.len() as u64
    }

    /// Keeps `versions` as the history under `proof_id`, in place of any
    /// kept there.
    fn put_history(&mut self, proof_id: &String, versions: Vec<ProofVersion>)
        requires
            old(self).wf(),
            numbered(version_models(versions@)),
        ensures
            final(self).wf(),
            final(self)@ == (RegistryModel {
                histories: old(self)@.histories.insert(proof_id@, version_models(versions@)),
                ..old(self)@
            }),
    {
        let ghost before = self.histories@;
        let ghost target = old(self)@.histories.insert(proof_id@, version_models(versions@));
        let kept = History { proof_id: proof_id.clone(), versions };
        match self.find_history(proof_id) {
            Some(i) => {
                self.histories.set(i, kept);
                proof {
                    let after = self.histories@;
                    assert(distinct_names(after)) by {
                        assert forall|a: int, b: int|
                            0 <= a < after.len() && 0 <= b < after.len() && #[trigger] after[a]
                                .proof_id@ == #[trigger] after[b].proof_id@ implies a == b by {
                            assert(after[a].proof_id@ == before[a].proof_id@);
                            assert(after[b].proof_id@ == before[b].proof_id@);
                        }
                    }
                    assert forall|name: Seq<char>|
                        histories_by_name(after).dom().contains(name) == target.dom().contains(
                            name,
                        ) by {
                        if histories_by_name(after).dom().contains(name) {
                            let j = choose|j: int| holds_at(after, name, j);
                            assert(holds_at(before, name, j));
                        }
                        if target.dom().contains(name) {
                            if name == proof_id@ {
                                assert(holds_at(after, name, i as int));
                            } else {
                                let j = choose|j: int| holds_at(before, name, j);
                                assert(holds_at(after, name, j));
                            }
                        }
                    }
                    assert forall|name: Seq<char>|
                        histories_by_name(after).dom().contains(name) implies histories_by_name(
                        after,
                    )[name] == target[name] by {
                        let j = choose|j: int| holds_at(after, name, j);
                        lemma_history_held(after, j);
                        if j != i {
                            assert(after[j] == before[j]);
                            lemma_history_held(before, j);
                        }
                    }
                    assert(histories_by_name(after) =~= target);
                }
            },
            None => {
                self.histories.push(kept);
                proof {
                    let after = self.histories@;
                    let last = after.len() - 1;
                    assert(distinct_names(after)) by {
                        assert forall|a: int, b: int|
                            0 <= a < after.len() && 0 <= b < after.len() && #[trigger] after[a]
                                .proof_id@ == #[trigger] after[b].proof_id@ implies a == b by {
                            if a < last {
                                assert(after[a] == before[a]);
                            }
                            if b < last {
                                assert(after[b] == before[b]);
                            }
                        }
                    }
                    assert forall|name: Seq<char>|
                        histories_by_name(after).dom().contains(name) == target.dom().contains(
                            name,
                        ) by {
                        if histories_by_name(after).dom().contains(name) {
                            let j = choose|j: int| holds_at(after, name, j);
                            if j < last {
                                assert(holds_at(before, name, j));
                            }
                        }
                        if target.dom().contains(name) {
                            if name == proof_id@ {
                                assert(holds_at(after, name, last));
                            } else {
                                let j = choose|j: int| holds_at(before, name, j);
                                assert(holds_at(after, name, j));
                            }
                        }
                    }
                    assert forall|name: Seq<char>|
                        histories_by_name(after).dom().contains(name) implies histories_by_name(
                        after,
                    )[name] == target[name] by {
                        let j = choose|j: int| holds_at(after, name, j);
                        lemma_history_held(after, j);
                        if j != last {
                            assert(after[j] == before[j]);
                            lemma_history_held(before, j);
                        }
                    }
                    assert(histories_by_name(after) =~= target);
                }
            },
        }
        proof {
            lemma_history_replaced(old(self)@, self@, proof_id@, version_models(kept.versions@));
        }
    }

    /// Takes `versions`, as they were read back from where they are kept,
    /// for the history of the document of the proof called `proof_id`, in
    /// place of any history kept for it, if they are numbered from 1 in
    /// order; changes nothing if they are not. Returns whether they are.
    pub fn adopt_history(&mut self, proof_id: &String, versions: Vec<ProofVersion>) -> (adopted:
        bool)
        requires
            old(self).wf(),
        ensures
            final(self).wf(),
            adopted == numbered(version_models(versions@)),
            adopted ==> final(self)@ == (RegistryModel {
                histories: old(self)@.histories.insert(proof_id@, version_models(versions@)),
                ..old(self)@
            }),
            !adopted ==> final(self)@ == old(self)@,
    {
        let ghost models = version_models(versions@);
        let mut i: usize = 0;
        while i < versions.len()
            invariant
                i <= versions.len(),
                self.wf(),
                self@ == old(self)@,
                models == version_models(versions@),
                forall|j: int| 0 <= j < i ==> (#[trigger] models[j]).version == j + 1,
            decreases versions.len() - i,
        {
            proof {
                assert(models[i as int] == versions@[i as int]@);
            }
            if versions[i].version as usize != i + 1 {
                proof {
                    assert(models[i as int].version != i + 1);
                }
                return false;
            }
            i = i + 1;
        }
        self.put_history(proof_id, versions);
        true
    }

    /// The registry made up of `admin` and `proofs`, as they were read back
    /// from where they are kept, without histories, if the proofs are
    /// numbered from 1 in order; `None` if they are not.
    pub fn restore(admin: Option<Identity>, proofs: Vec<Proof>) -> (res: Option<Self>)
        ensures
            res is Some <==> (RegistryModel {
                admin: optional_identity(admin),
                proofs: proof_models(proofs@),
                histories: Map::empty(),
            }).inv(),
            res matches Some(registry) ==> registry.wf() && registry@ == (RegistryModel {
                admin: optional_identity(admin),
                proofs: proof_models(proofs@),
                histories: Map::empty(),
            }),
    {
        let ghost target = RegistryModel {
            admin: optional_identity(admin),
            proofs: proof_models(proofs@),
            histories: Map::empty(),
        };
        let mut i: usize = 0;
        while i < proofs.len()
            invariant
                i <= proofs.len(),
                target == (RegistryModel {
                    admin: optional_identity(admin),
                    proofs: proof_models(proofs@),
                    histories: Map::empty(),
                }),
                forall|j: int| 0 <= j < i ==> (#[trigger] target.proofs[j]).id == j + 1,
            decreases proofs.len() - i,
        {
            proof {
                assert(target.proofs[i as int] == proofs@[i as int]@);
            }
            if proofs[i].id != i as u64 + 1 {
                proof {
                    assert(target.proofs[i as int].id != i + 1);
                    assert(!target.inv());
                }
                return None;
            }
            i = i + 1;
        }
        let registry = VerinodeContract { admin, proofs, histories: Vec::new() };
        proof {
            assert(registry@.histories =~= Map::empty());
        }
        Some(registry)
    }

    /// All proofs, in the order of issue.
    pub fn get_proofs(&self) -> (proofs: Vec<Proof>)
        ensures
            proof_models(proofs@) == self@.proofs,
    {
        let mut proofs: Vec<Proof> = Vec::new();
        let mut i: usize = 0;
        while i < self.proofs.len()
            invariant
                i <= self.proofs.len(),
                proof_models(proofs@) == proof_models(self.proofs@).take(i as int),
            decreases self.proofs.len() - i,
        {
            let ghost copied = proof_models(proofs@);
            let copy = self.proofs[i].clone();
            proofs.push(copy);
            proof {
                assert(proof_models(proofs@) =~= copied.push(copy@));
                assert(proof_models(proofs@) =~= proof_models(self.proofs@).take(i + 1));
            }
            i = i + 1;
        }
        proof {
            assert(proof_models(self.proofs@).take(i as int) =~= proof_models(self.proofs@));
        }
        proofs
    }

    /// Adds a version to the history of the document of the proof called
    /// `proof_id`, and returns its number: one more than the number of
    /// versions the history had. `author` is already authenticated.
    pub fn add_version(
        &mut self,
        proof_id: &String,
        hash: String,
        uri: String,
        author: Identity,
        message: String,
        branch: String,
        now: u64,
    ) -> (number: u32)
        requires
            old(self).wf(),
            old(self)@.history(proof_id@).len() < u32::MAX,
        ensures
            final(self).wf(),
            number == old(self)@.history(proof_id@).len() + 1,
            final(self)@ == (RegistryModel {
                histories: old(self)@.histories.insert(
                    proof_id@,
                    old(self)@.history(proof_id@).push(
                        VersionModel {
                            version: number as nat,
                            hash: hash@,
                            uri: uri@,
                            timestamp: now as nat,
                            author: author@,
                            message: message@,
                            branch: branch@,
                        },
                    ),
                ),
                ..old(self)@
            }),
    {
        let mut versions = self.get_history(proof_id);
        let ghost earlier = version_models(versions@);
        let number: u32 = versions.len() as u32 + 1;
        let version = ProofVersion {
            version: number,
            hash,
            uri,
            timestamp: now,
            author,
            message,
            branch,
        };
        versions.push(version);
        proof {
            assert(version_models(versions@) =~= earlier.push(version@));
            assert forall|k: int| 0 <= k < version_models(versions@).len() implies (
            #[trigger] version_models(versions@)[k]).version == k + 1 by {
                if k < earlier.len() {
                    assert(version_models(versions@)[k] == earlier[k]);
                    if self@.histories.dom().contains(proof_id@) {
                        assert(self@.histories[proof_id@][k].version == k + 1);
                    }
                }
            }
        }
        self.put_history(proof_id, versions);
        number
    }

    /// The versions of the document of the proof called `proof_id`, oldest
    /// first; none if no version of it was ever added.
    pub fn get_history(&self, proof_id: &String) -> (versions: Vec<ProofVersion>)
        requires
            self.wf(),
        ensures
            version_models(versions@) == self@.history(proof_id@),
    {
        let mut versions: Vec<ProofVersion> = Vec::new();
        proof {
            assert(version_models(versions@) =~= Seq::empty());
        }
        match self.find_history(proof_id) {
            None => {},
            Some(i) => {
                let held = &self.histories[i];
                let mut k: usize = 0;
                while k < held.versions.len()
                    invariant
                        k <= held.versions.len(),
                        version_models(versions@) == version_models(held.versions@).take(
                            k as int,
                        ),
                    decreases held.versions.len() - k,
                {
                    let ghost copied = version_models(versions@);
                    let copy = held.versions[k].clone();
                    versions.push(copy);
                    proof {
                        assert(version_models(versions@) =~= copied.push(copy@));
                        assert(version_models(versions@) =~= version_models(held.versions@).take(
                            k + 1,
                        ));
                    }
                    k = k + 1;
                }
                proof {
                    assert(version_models(held.versions@).take(k as int) =~= version_models(
                        held.versions@,
                    ));
                }
            },
        }
        versions
    }

    /// The version with the given number of the document of the proof
    /// called `proof_id`, if there is one.
    pub fn get_version(&self, proof_id: &String, version: u32) -> (found: Option<ProofVersion>)
        requires
            self.wf(),
        ensures
            found is Some <==> 1 <= version <= self@.history(proof_id@).len(),
            found matches Some(v) ==> v@ == self@.history(proof_id@)[version - 1],
    {
        match self.find_history(proof_id) {
            None => None,
            Some(i) => {
                let held = &self.histories[i];
                if version == 0 || version as usize > held.versions.len() {
                    None
                } else {
                    let index: usize = (version - 1) as usize;
                    proof {
                        assert(version_models(held.versions@)[index as int]
                            == held.versions@[index as int]@);
                    }
                    Some(held.versions[index].clone())
                }
            },
        }
    }
}

} // verus!
