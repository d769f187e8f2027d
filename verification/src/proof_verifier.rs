//! The proof verifier: proofs issued with a digest of what they state,
//! verified against that digest, and revoked by those entitled to.

use vstd::prelude::*;
use crate::bytes::{append_bytes, same_bytes};
use crate::digest::{host_sha256, sha256_digest, MAX_DIGEST_INPUT};
use crate::identity::{optional_identity, Identity};

verus! {

/// Why a call on the verifier was rejected. A rejected call changes nothing.
#[derive(Clone, Copy, Debug, PartialEq, Eq, Structural)]
pub enum VerifierError {
    /// `initialize` was called on a verifier that already has an administrator.
    AlreadyInitialized,
    /// The verifier has no administrator yet.
    AdminNotFound,
    /// No proof has the given id.
    ProofNotFound,
    /// The caller is not entitled to the operation.
    NotAuthorized,
    /// The proof was revoked before.
    AlreadyRevoked,
    /// What the proof states is longer than can be hashed.
    RequestTooLarge,
}

/// A named detail of a proof.
#[derive(Debug, PartialEq, Eq)]
pub struct MetadataEntry {
    pub key: Vec<u8>,
    pub value: Vec<u8>,
}

/// The mathematical view of a [`MetadataEntry`].
pub struct EntryModel {
    pub key: Seq<u8>,
    pub value: Seq<u8>,
}

impl View for MetadataEntry {
    type V = EntryModel;

    open spec fn view(&self) -> EntryModel {
        EntryModel { key: self.key@, value: self.value@ }
    }
}

impl Clone for MetadataEntry {
    fn clone(&self) -> (r: Self)
        ensures
            r@ == self@,
    {
        MetadataEntry { key: self.key.clone(), value: self.value.clone() }
    }
}

/// The views of the entries in a vector, in order.
pub open spec fn entry_models(entries: Seq<MetadataEntry>) -> Seq<EntryModel> {
    entries.map_values(|e: MetadataEntry| e@)
}

/// The keys and values of `metadata`, one after the other, in order.
pub open spec fn metadata_bytes(metadata: Seq<EntryModel>) -> Seq<u8>
    decreases metadata.len(),
{
    if metadata.len() == 0 {
        Seq::empty()
    } else {
        metadata_bytes(metadata.drop_last()) + metadata.last().key + metadata.last().value
    }
}

/// What a proof states, as the bytes that are hashed: the event, then the
/// metadata.
pub open spec fn hash_input(event_data: Seq<u8>, metadata: Seq<EntryModel>) -> Seq<u8> {
    event_data + metadata_bytes(metadata)
}

/// What an issuer asks a proof for.
#[derive(Debug, PartialEq, Eq)]
pub struct ProofRequest {
    /// The party that the proof is about.
    pub subject: Identity,
    /// The kind of proof.
    pub proof_type: String,
    /// The event that the proof is about.
    pub event_data: Vec<u8>,
    /// Named details, in the order in which they are hashed.
    pub metadata: Vec<MetadataEntry>,
}

/// The mathematical view of a [`ProofRequest`].
pub struct RequestModel {
    pub subject: Seq<char>,
    pub proof_type: Seq<char>,
    pub event_data: Seq<u8>,
    pub metadata: Seq<EntryModel>,
}

impl RequestModel {
    /// What the request states, as the bytes that are hashed.
    pub open spec fn hash_input(self) -> Seq<u8> {
        hash_input(self.event_data, self.metadata)
    }
}

impl View for ProofRequest {
    type V = RequestModel;

    open spec fn view(&self) -> RequestModel {
        RequestModel {
            subject: self.subject@,
            proof_type: self.proof_type@,
            event_data: self.event_data@,
            metadata: entry_models(self.metadata@),
        }
    }
}

/// A copy of `entries`.
fn clone_entries(entries: &Vec<MetadataEntry>) -> (copy: Vec<MetadataEntry>)
    ensures
        entry_models(copy@) == entry_models(entries@),
{
    let mut copy: Vec<MetadataEntry> = Vec::new();
    let mut i: usize = 0;
    while i < entries.len()
        invariant
            i <= entries.len(),
            entry_models(copy@) == entry_models(entries@).take(i as int),
        decreases entries.len() - i,
    {
        let ghost copied = entry_models(copy@);
        let entry = entries[i].clone();
        copy.push(entry);
        proof {
            assert(entry_models(copy@) =~= copied.push(entry@));
            assert(entry_models(copy@) =~= entry_models(entries@).take(i + 1));
        }
        i = i + 1;
    }
    proof {
        assert(entry_models(entries@).take(i as int) =~= entry_models(entries@));
    }
    copy
}

impl Clone for ProofRequest {
    fn clone(&self) -> (r: Self)
        ensures
            r@ == self@,
    {
        ProofRequest {
            subject: self.subject.clone(),
            proof_type: self.proof_type.clone(),
            event_data: self.event_data.clone(),
            metadata: clone_entries(&self.metadata),
        }
    }
}

/// A proof, as the verifier keeps it.
#[derive(Debug, PartialEq, Eq)]
pub struct Proof {
    /// The id of the proof: proofs are numbered from 1 in the order of issue.
    pub id: u64,
    /// The party that issued the proof.
    pub issuer: Identity,
    /// The party that the proof is about.
    pub subject: Identity,
    /// The kind of proof.
    pub proof_type: String,
    /// The event that the proof is about.
    pub event_data: Vec<u8>,
    /// When the proof was issued, in ledger seconds.
    pub timestamp: u64,
    /// Whether the proof has been verified, and not revoked since.
    pub verified: bool,
    /// The digest of what the proof stated when it was issued.
    pub hash: Vec<u8>,
    /// Whether the proof has been revoked.
    pub revoked: bool,
    /// Named details, in the order in which they are hashed.
    pub metadata: Vec<MetadataEntry>,
}

/// The mathematical view of a [`Proof`].
pub struct ProofModel {
    pub id: nat,
    pub issuer: Seq<char>,
    pub subject: Seq<char>,
    pub proof_type: Seq<char>,
    pub event_data: Seq<u8>,
    pub timestamp: nat,
    pub verified: bool,
    pub hash: Seq<u8>,
    pub revoked: bool,
    pub metadata: Seq<EntryModel>,
}

impl ProofModel {
    /// The proof that `issuer` is issued on `request` at `now`, as the proof
    /// number `id` and with the digest `hash`.
    pub open spec fn issued(
        id: nat,
        issuer: Seq<char>,
        request: RequestModel,
        hash: Seq<u8>,
        now: nat,
    ) -> ProofModel {
        ProofModel {
            id,
            issuer,
            subject: request.subject,
            proof_type: request.proof_type,
            event_data: request.event_data,
            timestamp: now,
            verified: false,
            hash,
            revoked: false,
            metadata: request.metadata,
        }
    }

    /// What the proof states, as the bytes that are hashed.
    pub open spec fn hash_input(self) -> Seq<u8> {
        hash_input(self.event_data, self.metadata)
    }

    /// Whether what the proof states can be hashed.
    pub open spec fn hashable(self) -> bool {
        self.hash_input().len() <= MAX_DIGEST_INPUT
    }

    /// Whether the proof passes verification against `digest`, the digest
    /// computed of what it states: it does unless it is revoked or its own
    /// digest is another.
    pub open spec fn passes(self, digest: Seq<u8>) -> bool {
        !self.revoked && self.hash == digest
    }

    /// The proof once verified.
    pub open spec fn confirmed(self) -> ProofModel {
        ProofModel { verified: true, ..self }
    }

    /// The proof once revoked: it no longer counts as verified.
    pub open spec fn withdrawn(self) -> ProofModel {
        ProofModel { revoked: true, verified: false, ..self }
    }
}

impl View for Proof {
    type V = ProofModel;

    open spec fn view(&self) -> ProofModel {
        ProofModel {
            id: self.id as nat,
            issuer: self.issuer@,
            subject: self.subject@,
            proof_type: self.proof_type@,
            event_data: self.event_data@,
            timestamp: self.timestamp as nat,
            verified: self.verified,
            hash: self.hash@,
            revoked: self.revoked,
            metadata: entry_models(self.metadata@),
        }
    }
}

impl Clone for Proof {
    fn clone(&self) -> (r: Self)
        ensures
            r@ == self@,
    {
        Proof {
            id: self.id,
            issuer: self.issuer.clone(),
            subject: self.subject.clone(),
            proof_type: self.proof_type.clone(),
            event_data: self.event_data.clone(),
            timestamp: self.timestamp,
            verified: self.verified,
            hash: self.hash.clone(),
            revoked: self.revoked,
            metadata: clone_entries(&self.metadata),
        }
    }
}

/// The views of the proofs in a vector, in order.
pub open spec fn proof_models(proofs: Seq<Proof>) -> Seq<ProofModel> {
    proofs.map_values(|p: Proof| p@)
}

/// The bytes that are hashed of `event_data` and `metadata`, if they are no
/// more than `MAX_DIGEST_INPUT`; `None` if they are more.
pub fn hash_input_of(event_data: &Vec<u8>, metadata: &Vec<MetadataEntry>) -> (input: Option<
    Vec<u8>,
>)
    ensures
        input is Some <==> hash_input(event_data@, entry_models(metadata@)).len()
            <= MAX_DIGEST_INPUT,
        input matches Some(bytes) ==> bytes@ == hash_input(event_data@, entry_models(metadata@)),
{
    let ghost entries = entry_models(metadata@);
    if event_data.len() > MAX_DIGEST_INPUT {
        return None;
    }
    let mut input: Vec<u8> = Vec::new();
    append_bytes(&mut input, event_data);
    let mut i: usize = 0;
    proof {
        assert(entries.take(0) =~= Seq::empty());
        assert(input@ =~= hash_input(event_data@, entries.take(0)));
    }
    while i < metadata.len()
        invariant
            i <= metadata.len(),
            entries == entry_models(metadata@),
            input@ == hash_input(event_data@, entries.take(i as int)),
            input@.len() <= MAX_DIGEST_INPUT,
        decreases metadata.len() - i,
    {
        let entry = &metadata[i];
        proof {
            assert(entries.take(i + 1).drop_last() =~= entries.take(i as int));
            assert(entries.take(i + 1).last() == entry@);
            lemma_hash_input_grows(event_data@, entries, i + 1);
        }
        if entry.key.len() > MAX_DIGEST_INPUT - input.len() {
            return None;
        }
        append_bytes(&mut input, &entry.key);
        if entry.value.len() > MAX_DIGEST_INPUT - input.len() {
            return None;
        }
        append_bytes(&mut input, &entry.value);
        proof {
            assert(input@ =~= hash_input(event_data@, entries.take(i + 1)));
        }
        i = i + 1;
    }
    proof {
        assert(entries.take(i as int) =~= entries);
    }
    Some(input)
}

/// The bytes hashed of some of the metadata are no more than those of all of it.
pub proof fn lemma_hash_input_grows(event_data: Seq<u8>, metadata: Seq<EntryModel>, n: int)
    requires
        0 <= n <= metadata.len(),
    ensures
        hash_input(event_data, metadata.take(n)).len() <= hash_input(event_data, metadata).len(),
    decreases metadata.len() - n,
{
    if n == metadata.len() {
        assert(metadata.take(n) =~= metadata);
    } else {
        lemma_hash_input_grows(event_data, metadata, n + 1);
        assert(metadata.take(n + 1).drop_last() =~= metadata.take(n));
    }
}

/// The kind of a batch operation that issues a proof.
pub const ISSUE: u32 = 1;

/// The kind of a batch operation that verifies a proof.
pub const VERIFY: u32 = 2;

/// The kind of a batch operation that revokes a proof.
pub const REVOKE: u32 = 3;

/// One operation of a batch.
#[derive(Debug, PartialEq, Eq)]
pub struct BatchOperation {
    /// `ISSUE`, `VERIFY` or `REVOKE`.
    pub operation_type: u32,
    /// The proof to verify or to revoke.
    pub proof_id: Option<u64>,
    /// What to issue a proof on.
    pub proof_request: Option<ProofRequest>,
}

/// The mathematical view of a [`BatchOperation`].
pub struct OperationModel {
    pub operation_type: nat,
    pub proof_id: Option<nat>,
    pub proof_request: Option<RequestModel>,
}

impl View for BatchOperation {
    type V = OperationModel;

    open spec fn view(&self) -> OperationModel {
        OperationModel {
            operation_type: self.operation_type as nat,
            proof_id: match self.proof_id {
                Some(id) => Some(id as nat),
                None => None,
            },
            proof_request: match self.proof_request {
                Some(request) => Some(request@),
                None => None,
            },
        }
    }
}

/// The views of the operations in a vector, in order.
pub open spec fn operation_models(operations: Seq<BatchOperation>) -> Seq<OperationModel> {
    operations.map_values(|o: BatchOperation| o@)
}

/// What became of one operation of a batch.
#[derive(Debug, PartialEq, Eq)]
pub struct BatchResult {
    /// Whether the operation was carried out, and, for a verification,
    /// whether the proof passed.
    pub success: bool,
    /// The proof issued, verified or revoked.
    pub proof_id: Option<u64>,
    /// Why the operation could not be carried out.
    pub error: Option<String>,
}

/// The mathematical view of a [`BatchResult`].
pub struct ResultModel {
    pub success: bool,
    pub proof_id: Option<nat>,
    pub error: Option<Seq<char>>,
}

impl ResultModel {
    /// The result of an operation carried out on the proof `id`.
    pub open spec fn of(success: bool, id: nat) -> ResultModel {
        ResultModel { success, proof_id: Some(id), error: None }
    }

    /// The result of an operation that could not be carried out.
    pub open spec fn failed(error: Seq<char>) -> ResultModel {
        ResultModel { success: false, proof_id: None, error: Some(error) }
    }
}

impl View for BatchResult {
    type V = ResultModel;

    open spec fn view(&self) -> ResultModel {
        ResultModel {
            success: self.success,
            proof_id: match self.proof_id {
                Some(id) => Some(id as nat),
                None => None,
            },
            error: match self.error {
                Some(error) => Some(error@),
                None => None,
            },
        }
    }
}

/// The views of the results in a vector, in order.
pub open spec fn result_models(results: Seq<BatchResult>) -> Seq<ResultModel> {
    results.map_values(|r: BatchResult| r@)
}

/// A state of the verifier together with the results of a batch so far.
pub struct BatchRun {
    pub state: VerifierModel,
    pub results: Seq<ResultModel>,
}

/// The proofs among `proofs` that `issuer` issued, in order.
pub open spec fn issued_by(proofs: Seq<ProofModel>, issuer: Seq<char>) -> Seq<ProofModel> {
    proofs.filter(|p: ProofModel| p.issuer == issuer)
}

/// The proofs among `proofs` that are about `subject`, in order.
pub open spec fn about(proofs: Seq<ProofModel>, subject: Seq<char>) -> Seq<ProofModel> {
    proofs.filter(|p: ProofModel| p.subject == subject)
}

/// The state of the verifier.
pub struct VerifierModel {
    /// The administrator, once initialized.
    pub admin: Option<Seq<char>>,
    /// The proofs issued, in the order of issue.
    pub proofs: Seq<ProofModel>,
    /// The ids of the proofs revoked, in the order of revocation.
    pub revoked: Seq<nat>,
}

impl VerifierModel {
    /// The verifier before it is initialized.
    pub open spec fn empty() -> VerifierModel {
        VerifierModel { admin: None, proofs: Seq::empty(), revoked: Seq::empty() }
    }

    /// Whether a proof with the given id has been issued.
    pub open spec fn has_proof(self, id: nat) -> bool {
        1 <= id <= self.proofs.len()
    }

    /// The proof with the given id.
    pub open spec fn proof_of(self, id: nat) -> ProofModel {
        self.proofs[id - 1]
    }

    /// The rule of the verifier: the proof at position `i` has the id
    /// `i + 1`; what every proof states can be hashed; and every id on the
    /// list of revocations is that of a revoked proof.
    pub open spec fn inv(self) -> bool {
        &&& forall|i: int|
            0 <= i < self.proofs.len() ==> (#[trigger] self.proofs[i]).id == i + 1
                && self.proofs[i].hashable()
        &&& forall|k: int|
            0 <= k < self.revoked.len() ==> self.has_proof(#[trigger] self.revoked[k])
                && self.proof_of(self.revoked[k]).revoked
    }

    /// The state after `issuer` is issued a proof on `request` at `now`,
    /// with the digest `hash`.
    pub open spec fn after_issue(
        self,
        issuer: Seq<char>,
        request: RequestModel,
        hash: Seq<u8>,
        now: nat,
    ) -> VerifierModel {
        VerifierModel {
            proofs: self.proofs.push(
                ProofModel::issued(self.proofs.len() + 1, issuer, request, hash, now),
            ),
            ..self
        }
    }

    /// The state after the proof `id` was verified against `digest`: the
    /// proof is marked as verified if it passes, and nothing changes if not.
    pub open spec fn after_verify(self, id: nat, digest: Seq<u8>) -> VerifierModel {
        if self.proof_of(id).passes(digest) {
            VerifierModel {
                proofs: self.proofs.update(id - 1, self.proof_of(id).confirmed()),
                ..self
            }
        } else {
            self
        }
    }

    /// Whether `revoker` may revoke the proof `id`: the administrator and
    /// the issuer of the proof may, once.
    pub open spec fn revoke_outcome(self, revoker: Seq<char>, id: nat) -> Result<
        (),
        VerifierError,
    > {
        if self.admin is None {
            Err(VerifierError::AdminNotFound)
        } else if !self.has_proof(id) {
            Err(VerifierError::ProofNotFound)
        } else if self.admin != Some(revoker) && self.proof_of(id).issuer != revoker {
            Err(VerifierError::NotAuthorized)
        } else if self.proof_of(id).revoked {
            Err(VerifierError::AlreadyRevoked)
        } else {
            Ok(())
        }
    }

    /// The state after the proof `id` was revoked.
    pub open spec fn after_revoke(self, id: nat) -> VerifierModel {
        VerifierModel {
            proofs: self.proofs.update(id - 1, self.proof_of(id).withdrawn()),
            revoked: self.revoked.push(id),
            ..self
        }
    }

    /// Whether `current` may name a new administrator.
    pub open spec fn update_admin_outcome(self, current: Seq<char>) -> Result<(), VerifierError> {
        if self.admin is None {
            Err(VerifierError::AdminNotFound)
        } else if self.admin != Some(current) {
            Err(VerifierError::NotAuthorized)
        } else {
            Ok(())
        }
    }

    /// The proofs on the list of revocations, in the order of revocation.
    pub open spec fn revoked_proofs(self) -> Seq<ProofModel> {
        self.revoked.map_values(|id: nat| self.proof_of(id))
    }

    /// What one operation of a batch run by `operator` at `now` makes of the
    /// state, and its result; or the error that ends the batch.
    ///
    /// An operation that lacks what it needs, or is of no known kind, fails
    /// by itself and changes nothing. An operation that the verifier
    /// rejects ends the batch.
    pub open spec fn batch_step(self, operation: OperationModel, operator: Seq<char>, now: nat)
        -> Result<BatchRun, VerifierError> {
        if operation.operation_type == ISSUE {
            match operation.proof_request {
                Some(request) => {
                    if request.hash_input().len() <= MAX_DIGEST_INPUT {
                        Ok(
                            BatchRun {
                                state: self.after_issue(
                                    operator,
                                    request,
                                    sha256_digest(request.hash_input()),
                                    now,
                                ),
                                results: seq![ResultModel::of(true, self.proofs.len() + 1)],
                            },
                        )
                    } else {
                        Err(VerifierError::RequestTooLarge)
                    }
                },
                None => Ok(
                    BatchRun {
                        state: self,
                        results: seq![ResultModel::failed("Missing proof request"@)],
                    },
                ),
            }
        } else if operation.operation_type == VERIFY {
            match operation.proof_id {
                Some(id) => {
                    if self.has_proof(id) {
                        let digest = sha256_digest(self.proof_of(id).hash_input());
                        Ok(
                            BatchRun {
                                state: self.after_verify(id, digest),
                                results: seq![
                                    ResultModel::of(self.proof_of(id).passes(digest), id),
                                ],
                            },
                        )
                    } else {
                        Err(VerifierError::ProofNotFound)
                    }
                },
                None => Ok(
                    BatchRun {
                        state: self,
                        results: seq![ResultModel::failed("Missing proof ID"@)],
                    },
                ),
            }
        } else if operation.operation_type == REVOKE {
            match operation.proof_id {
                Some(id) => match self.revoke_outcome(operator, id) {
                    Ok(_) => Ok(
                        BatchRun {
                            state: self.after_revoke(id),
                            results: seq![ResultModel::of(true, id)],
                        },
                    ),
                    Err(e) => Err(e),
                },
                None => Ok(
                    BatchRun {
                        state: self,
                        results: seq![ResultModel::failed("Missing proof ID"@)],
                    },
                ),
            }
        } else {
            Ok(
                BatchRun {
                    state: self,
                    results: seq![ResultModel::failed("Invalid operation type"@)],
                },
            )
        }
    }

    /// What a batch run by `operator` at `now` makes of the state, with one
    /// result for each operation, in order; or the error of the first
    /// operation that the verifier rejects.
    pub open spec fn batch(self, operations: Seq<OperationModel>, operator: Seq<char>, now: nat)
        -> Result<BatchRun, VerifierError>
        decreases operations.len(),
    {
        if operations.len() == 0 {
            Ok(BatchRun { state: self, results: Seq::empty() })
        } else {
            match self.batch(operations.drop_last(), operator, now) {
                Ok(before) => match before.state.batch_step(operations.last(), operator, now) {
                    Ok(step) => Ok(
                        BatchRun { state: step.state, results: before.results + step.results },
                    ),
                    Err(e) => Err(e),
                },
                Err(e) => Err(e),
            }
        }
    }
}

/// An error in the first operations of a batch is the error of the batch.
pub proof fn lemma_batch_error_ends(
    s: VerifierModel,
    operations: Seq<OperationModel>,
    n: int,
    operator: Seq<char>,
    now: nat,
)
    requires
        0 <= n <= operations.len(),
        s.batch(operations.take(n), operator, now) is Err,
    ensures
        s.batch(operations, operator, now) == s.batch(operations.take(n), operator, now),
    decreases operations.len() - n,
{
    if n == operations.len() {
        assert(operations.take(n) =~= operations);
    } else {
        assert(operations.take(n + 1).drop_last() =~= operations.take(n));
        lemma_batch_error_ends(s, operations, n + 1, operator, now);
    }
}

/// Issuing a proof whose statement can be hashed keeps the rule of the verifier.
pub proof fn lemma_issue_keeps_rule(
    s: VerifierModel,
    issuer: Seq<char>,
    request: RequestModel,
    hash: Seq<u8>,
    now: nat,
)
    requires
        s.inv(),
        request.hash_input().len() <= MAX_DIGEST_INPUT,
    ensures
        s.after_issue(issuer, request, hash, now).inv(),
{
    let after = s.after_issue(issuer, request, hash, now);
    assert forall|i: int| 0 <= i < after.proofs.len() implies (#[trigger] after.proofs[i]).id == i
        + 1 && after.proofs[i].hashable() by {
        if i < s.proofs.len() {
            assert(after.proofs[i] == s.proofs[i]);
        }
    }
    assert forall|k: int| 0 <= k < after.revoked.len() implies after.has_proof(
        #[trigger] after.revoked[k],
    ) && after.proof_of(after.revoked[k]).revoked by {
        assert(s.has_proof(s.revoked[k]));
        assert(after.proof_of(s.revoked[k]) == s.proof_of(s.revoked[k]));
    }
}

/// Verifying a proof keeps the rule of the verifier.
pub proof fn lemma_verify_keeps_rule(s: VerifierModel, id: nat, digest: Seq<u8>)
    requires
        s.inv(),
        s.has_proof(id),
    ensures
        s.after_verify(id, digest).inv(),
{
    let after = s.after_verify(id, digest);
    assert forall|i: int| 0 <= i < after.proofs.len() implies (#[trigger] after.proofs[i]).id == i
        + 1 && after.proofs[i].hashable() by {
        assert(s.proofs[i].id == i + 1 && s.proofs[i].hashable());
    }
    assert forall|k: int| 0 <= k < after.revoked.len() implies after.has_proof(
        #[trigger] after.revoked[k],
    ) && after.proof_of(after.revoked[k]).revoked by {
        assert(s.has_proof(s.revoked[k]) && s.proof_of(s.revoked[k]).revoked);
    }
}

/// Revoking a proof keeps the rule of the verifier.
pub proof fn lemma_revoke_keeps_rule(s: VerifierModel, id: nat)
    requires
        s.inv(),
        s.has_proof(id),
    ensures
        s.after_revoke(id).inv(),
{
    let after = s.after_revoke(id);
    assert forall|i: int| 0 <= i < after.proofs.len() implies (#[trigger] after.proofs[i]).id == i
        + 1 && after.proofs[i].hashable() by {
        assert(s.proofs[i].id == i + 1 && s.proofs[i].hashable());
    }
    assert forall|k: int| 0 <= k < after.revoked.len() implies after.has_proof(
        #[trigger] after.revoked[k],
    ) && after.proof_of(after.revoked[k]).revoked by {
        if k < s.revoked.len() {
            assert(s.has_proof(s.revoked[k]) && s.proof_of(s.revoked[k]).revoked);
        }
    }
}

/// The proof verifier.
///
/// Every operation takes the identity of its caller as already
/// authenticated, and the ledger time `now` in seconds where it needs it.
pub struct ProofVerifier {
    admin: Option<Identity>,
    proofs: Vec<Proof>,
    revoked: Vec<u64>,
}

/// The ids in a vector, as numbers.
pub open spec fn id_models(ids: Seq<u64>) -> Seq<nat> {
    ids.map_values(|id: u64| id as nat)
}

impl View for ProofVerifier {
    type V = VerifierModel;

    closed spec fn view(&self) -> VerifierModel {
        VerifierModel {
            admin: optional_identity(self.admin),
            proofs: proof_models(self.proofs@),
            revoked: id_models(self.revoked@),
        }
    }
}

impl ProofVerifier {
    /// The verifier obeys its rule.
    pub open spec fn wf(&self) -> bool {
        self@.inv()
    }

    /// A verifier that is not initialized yet and holds no proof.
    pub fn new() -> (verifier: Self)
        ensures
            verifier@ == VerifierModel::empty(),
            verifier.wf(),
    {
        let verifier = ProofVerifier { admin: None, proofs: Vec::new(), revoked: Vec::new() };
        proof {
            assert(verifier@.proofs =~= Seq::empty());
            assert(verifier@.revoked =~= Seq::empty());
        }
        verifier
    }

    /// Names the administrator of a verifier that has none, and starts with
    /// no proofs and no revocations. Fails with `AlreadyInitialized` otherwise.
    pub fn initialize(&mut self, admin: Identity) -> (res: Result<(), VerifierError>)
        requires
            old(self).wf(),
        ensures
            final(self).wf(),
            res is Ok <==> old(self)@.admin is None,
            res is Ok ==> final(self)@ == (VerifierModel {
                admin: Some(admin@),
                ..VerifierModel::empty()
            }),
            res is Err ==> res == Err::<(), VerifierError>(VerifierError::AlreadyInitialized)
                && final(self)@ == old(self)@,
    {
        if self.admin.is_some() {
            return Err(VerifierError::AlreadyInitialized);
        }
        self.admin = Some(admin);
        self.proofs = Vec::new();
        self.revoked = Vec::new();
        proof {
            assert(self@.proofs =~= Seq::empty());
            assert(self@.revoked =~= Seq::empty());
        }
        Ok(())
    }

    /// Issues `issuer`, already authenticated, a proof on `request`, with
    /// the SHA-256 digest of what the request states, and returns its id:
    /// one more than the number of proofs issued before. The proof is
    /// neither verified nor revoked.
    ///
    /// Fails with `RequestTooLarge` if what the request states is longer
    /// than `MAX_DIGEST_INPUT`.
    pub fn issue_proof(&mut self, issuer: Identity, request: ProofRequest, now: u64) -> (res:
        Result<u64, VerifierError>)
        requires
            old(self).wf(),
            old(self)@.proofs.len() < u64::MAX,
        ensures
            final(self).wf(),
            res is Ok <==> request@.hash_input().len() <= MAX_DIGEST_INPUT,
            res matches Ok(id) ==> id == old(self)@.proofs.len() + 1 && final(self)@ == old(
                self,
            )@.after_issue(issuer@, request@, sha256_digest(request@.hash_input()), now as nat),
            res matches Err(e) ==> e == VerifierError::RequestTooLarge && final(self)@ == old(
                self,
            )@,
    {
        let input = match hash_input_of(&request.event_data, &request.metadata) {
            Some(input) => input,
            None => {
                return Err(VerifierError::RequestTooLarge);
            },
        };
        let hash = host_sha256(&input);
        Ok(self.issue_proof_with_hash(issuer, request, hash, now))
    }

    /// Issues `issuer` a proof on `request` with the digest `hash`, and
    /// returns its id: one more than the number of proofs issued before.
    pub fn issue_proof_with_hash(
        &mut self,
        issuer: Identity,
        request: ProofRequest,
        hash: Vec<u8>,
        now: u64,
    ) -> (id: u64)
        requires
            old(self).wf(),
            old(self)@.proofs.len() < u64::MAX,
            request@.hash_input().len() <= MAX_DIGEST_INPUT,
        ensures
            final(self).wf(),
            id == old(self)@.proofs.len() + 1,
            final(self)@ == old(self)@.after_issue(issuer@, request@, hash@, now as nat),
    {
        let id: u64 = self.proofs.len() as u64 + 1;
        let proof = Proof {
            id,
            issuer,
            subject: request.subject,
            proof_type: request.proof_type,
            event_data: request.event_data,
            timestamp: now,
            verified: false,
            hash,
            revoked: false,
            metadata: request.metadata,
        };
        proof {
            lemma_issue_keeps_rule(self@, issuer@, request@, hash@, now as nat);
        }
        self.proofs.push(proof);
        proof {
            assert(self@.proofs =~= old(self)@.proofs.push(proof@));
        }
        id
    }

    /// The position of the proof with the given id, if it has been issued.
    fn position(&self, proof_id: u64) -> (found: Option<usize>)
        ensures
            found is Some <==> self@.has_proof(proof_id as nat),
            found matches Some(index) ==> index == proof_id - 1 && index < self.proofs.len()
                && self.proofs[index as int]@ == self@.proof_of(proof_id as nat),
    {
        if proof_id == 0 || proof_id > self.proofs.len() as u64 {
            None
        } else {
            Some((proof_id - 1) as usize)
        }
    }

    /// Verifies the proof with the given id: computes the SHA-256 digest of
    /// what it states, and marks the proof as verified if that is the
    /// digest it was issued with and it is not revoked. Returns whether the
    /// proof passed. `verifier` is the caller, already authenticated.
    ///
    /// Fails with `ProofNotFound` if no proof has the id.
    pub fn verify_proof(&mut self, verifier: &Identity, proof_id: u64) -> (res: Result<
        bool,
        VerifierError,
    >)
        requires
            old(self).wf(),
        ensures
            final(self).wf(),
            res is Ok <==> old(self)@.has_proof(proof_id as nat),
            res matches Ok(passed) ==> passed == old(self)@.proof_of(proof_id as nat).passes(
                sha256_digest(old(self)@.proof_of(proof_id as nat).hash_input()),
            ) && final(self)@ == old(self)@.after_verify(
                proof_id as nat,
                sha256_digest(old(self)@.proof_of(proof_id as nat).hash_input()),
            ),
            res matches Err(e) ==> e == VerifierError::ProofNotFound && final(self)@ == old(
                self,
            )@,
    {
        let digest = match self.digest_of(proof_id) {
            Some(digest) => digest,
            None => {
                return Err(VerifierError::ProofNotFound);
            },
        };
        self.verify_proof_against(proof_id, &digest)
    }

    /// The SHA-256 digest of what the proof with the given id states, if the
    /// proof has been issued.
    fn digest_of(&self, proof_id: u64) -> (digest: Option<Vec<u8>>)
        requires
            self.wf(),
        ensures
            digest is Some <==> self@.has_proof(proof_id as nat),
            digest matches Some(bytes) ==> bytes@ == sha256_digest(
                self@.proof_of(proof_id as nat).hash_input(),
            ),
    {
        let index = match self.position(proof_id) {
            Some(index) => index,
            None => {
                return None;
            },
        };
        let proof = &self.proofs[index];
        proof {
            assert(self@.proofs[index as int].hashable());
        }
        match hash_input_of(&proof.event_data, &proof.metadata) {
            Some(input) => Some(host_sha256(&input)),
            None => None,
        }
    }

    /// Verifies the proof with the given id against `digest`, the digest
    /// computed of what it states: marks the proof as verified if `digest`
    /// is the digest it was issued with and it is not revoked. Returns
    /// whether the proof passed.
    ///
    /// Fails with `ProofNotFound` if no proof has the id.
    pub fn verify_proof_against(&mut self, proof_id: u64, digest: &Vec<u8>) -> (res: Result<
        bool,
        VerifierError,
    >)
        requires
            old(self).wf(),
        ensures
            final(self).wf(),
            res is Ok <==> old(self)@.has_proof(proof_id as nat),
            res matches Ok(passed) ==> passed == old(self)@.proof_of(proof_id as nat).passes(
                digest@,
            ) && final(self)@ == old(self)@.after_verify(proof_id as nat, digest@),
            res matches Err(e) ==> e == VerifierError::ProofNotFound && final(self)@ == old(
                self,
            )@,
    {
        let index = match self.position(proof_id) {
            Some(index) => index,
            None => {
                return Err(VerifierError::ProofNotFound);
            },
        };
        let proof = &self.proofs[index];
        if proof.revoked || !same_bytes(&proof.hash, digest) {
            return Ok(false);
        }
        let confirmed = Proof {
            id: proof.id,
            issuer: proof.issuer.clone(),
            subject: proof.subject.clone(),
            proof_type: proof.proof_type.clone(),
            event_data: proof.event_data.clone(),
            timestamp: proof.timestamp,
            verified: true,
            hash: proof.hash.clone(),
            revoked: proof.revoked,
            metadata: clone_entries(&proof.metadata),
        };
        proof {
            assert(confirmed@ == proof@.confirmed());
            lemma_verify_keeps_rule(self@, proof_id as nat, digest@);
        }
        self.proofs.set(index, confirmed);
        proof {
            assert(self@.proofs =~= old(self)@.proofs.update(index as int, confirmed@));
        }
        Ok(true)
    }

    /// Whether the proof with the given id is valid: not revoked, and still
    /// stating what it stated when it was issued.
    ///
    /// Fails with `ProofNotFound` if no proof has the id.
    pub fn is_proof_valid(&self, proof_id: u64) -> (res: Result<bool, VerifierError>)
        requires
            self.wf(),
        ensures
            res is Ok <==> self@.has_proof(proof_id as nat),
            res matches Ok(valid) ==> valid == self@.proof_of(proof_id as nat).passes(
                sha256_digest(self@.proof_of(proof_id as nat).hash_input()),
            ),
            res matches Err(e) ==> e == VerifierError::ProofNotFound,
    {
        match self.digest_of(proof_id) {
            Some(digest) => self.is_proof_valid_against(proof_id, &digest),
            None => Err(VerifierError::ProofNotFound),
        }
    }

    /// Whether the proof with the given id passes against `digest`, the
    /// digest computed of what it states: whether it is not revoked and
    /// `digest` is the digest it was issued with.
    ///
    /// Fails with `ProofNotFound` if no proof has the id.
    pub fn is_proof_valid_against(&self, proof_id: u64, digest: &Vec<u8>) -> (res: Result<
        bool,
        VerifierError,
    >)
        ensures
            res is Ok <==> self@.has_proof(proof_id as nat),
            res matches Ok(valid) ==> valid == self@.proof_of(proof_id as nat).passes(digest@),
            res matches Err(e) ==> e == VerifierError::ProofNotFound,
    {
        match self.position(proof_id) {
            Some(index) => {
                let proof = &self.proofs[index];
                Ok(!proof.revoked && same_bytes(&proof.hash, digest))
            },
            None => Err(VerifierError::ProofNotFound),
        }
    }

    /// The proof with the given id, or `ProofNotFound`.
    pub fn get_proof(&self, proof_id: u64) -> (res: Result<Proof, VerifierError>)
        ensures
            res is Ok <==> self@.has_proof(proof_id as nat),
            res matches Ok(proof) ==> proof@ == self@.proof_of(proof_id as nat),
            res matches Err(e) ==> e == VerifierError::ProofNotFound,
    {
        match self.position(proof_id) {
            Some(index) => Ok(self.proofs[index].clone()),
            None => Err(VerifierError::ProofNotFound),
        }
    }

    /// Revokes the proof with the given id: marks it as revoked and no
    /// longer verified, and puts its id on the list of revocations.
    /// `revoker` is the caller, already authenticated.
    ///
    /// Fails with `AdminNotFound` if the verifier has no administrator, else
    /// with `ProofNotFound` if no proof has the id, else with
    /// `NotAuthorized` unless `revoker` is the administrator or the issuer
    /// of the proof, else with `AlreadyRevoked` if the proof is revoked.
    pub fn revoke_proof(&mut self, revoker: &Identity, proof_id: u64) -> (res: Result<
        (),
        VerifierError,
    >)
        requires
            old(self).wf(),
        ensures
            final(self).wf(),
            res == old(self)@.revoke_outcome(revoker@, proof_id as nat),
            res is Ok ==> final(self)@ == old(self)@.after_revoke(proof_id as nat),
            res is Err ==> final(self)@ == old(self)@,
    {
        let by_admin = match &self.admin {
            None => {
                return Err(VerifierError::AdminNotFound);
            },
            Some(admin) => admin.same_as(revoker),
        };
        let index = match self.position(proof_id) {
            Some(index) => index,
            None => {
                return Err(VerifierError::ProofNotFound);
            },
        };
        let proof = &self.proofs[index];
        if !by_admin && !proof.issuer.same_as(revoker) {
            return Err(VerifierError::NotAuthorized);
        }
        if proof.revoked {
            return Err(VerifierError::AlreadyRevoked);
        }
        let withdrawn = Proof {
            id: proof.id,
            issuer: proof.issuer.clone(),
            subject: proof.subject.clone(),
            proof_type: proof.proof_type.clone(),
            event_data: proof.event_data.clone(),
            timestamp: proof.timestamp,
            verified: false,
            hash: proof.hash.clone(),
            revoked: true,
            metadata: clone_entries(&proof.metadata),
        };
        proof {
            assert(withdrawn@ == proof@.withdrawn());
            lemma_revoke_keeps_rule(self@, proof_id as nat);
        }
        self.proofs.set(index, withdrawn);
        self.revoked.push(proof_id);
        proof {
            assert(self@.proofs =~= old(self)@.proofs.update(index as int, withdrawn@));
            assert(self@.revoked =~= old(self)@.revoked.push(proof_id as nat));
        }
        Ok(())
    }

    /// Names `new_admin` the administrator. `current_admin` is the caller,
    /// already authenticated.
    ///
    /// Fails with `AdminNotFound` if the verifier has no administrator, else
    /// with `NotAuthorized` if `current_admin` is not the administrator.
    pub fn update_admin(&mut self, current_admin: &Identity, new_admin: Identity) -> (res:
        Result<(), VerifierError>)
        requires
            old(self).wf(),
        ensures
            final(self).wf(),
            res == old(self)@.update_admin_outcome(current_admin@),
            res is Ok ==> final(self)@ == (VerifierModel {
                admin: Some(new_admin@),
                ..old(self)@
            }),
            res is Err ==> final(self)@ == old(self)@,
    {
        match &self.admin {
            None => {
                return Err(VerifierError::AdminNotFound);
            },
            Some(admin) => {
                if !admin.same_as(current_admin) {
                    return Err(VerifierError::NotAuthorized);
                }
            },
        }
        self.admin = Some(new_admin);
        Ok(())
    }

    /// The administrator, if the verifier is initialized.
    pub fn get_admin(&self) -> (admin: Option<Identity>)
        ensures
            match admin {
                Some(admin) => self@.admin == Some(admin@),
                None => self@.admin is None,
            },
    {
        match &self.admin {
            Some(admin) => Some(admin.clone()),
            None => None,
        }
    }

    /// The number of proofs issued.
    pub fn get_proof_count(&self) -> (count: u64)
        ensures
            count == self@.proofs.len(),
    {
        self.proofs.len() as u64
    }

    /// The proofs that `issuer` was issued, in the order of issue.
    pub fn get_proofs_by_issuer(&self, issuer: &Identity) -> (found: Vec<Proof>)
        ensures
            proof_models(found@) == issued_by(self@.proofs, issuer@),
    {
        let ghost all = self@.proofs;
        let mut found: Vec<Proof> = Vec::new();
        let mut i: usize = 0;
        proof {
            reveal(Seq::filter);
            assert(all.take(0) =~= Seq::empty());
            assert(proof_models(found@) =~= Seq::empty());
        }
        while i < self.proofs.len()
            invariant
                i <= self.proofs.len(),
                all == proof_models(self.proofs@),
                proof_models(found@) == issued_by(all.take(i as int), issuer@),
            decreases self.proofs.len() - i,
        {
            let proof = &self.proofs[i];
            let ghost found_before = proof_models(found@);
            proof {
                reveal(Seq::filter);
                assert(proof@ == all[i as int]);
                assert(all.take(i + 1).drop_last() =~= all.take(i as int));
                assert(all.take(i + 1).last() == proof@);
            }
            if proof.issuer.same_as(issuer) {
                let copy = proof.clone();
                found.push(copy);
                proof {
                    assert(proof_models(found@) =~= found_before.push(proof@));
                }
            }
            i = i + 1;
        }
        proof {
            assert(all.take(i as int) =~= all);
        }
        found
    }

    /// The proofs that are about `subject`, in the order of issue.
    pub fn get_proofs_by_subject(&self, subject: &Identity) -> (found: Vec<Proof>)
        ensures
            proof_models(found@) == about(self@.proofs, subject@),
    {
        let ghost all = self@.proofs;
        let mut found: Vec<Proof> = Vec::new();
        let mut i: usize = 0;
        proof {
            reveal(Seq::filter);
            assert(all.take(0) =~= Seq::empty());
            assert(proof_models(found@) =~= Seq::empty());
        }
        while i < self.proofs.len()
            invariant
                i <= self.proofs.len(),
                all == proof_models(self.proofs@),
                proof_models(found@) == about(all.take(i as int), subject@),
            decreases self.proofs.len() - i,
        {
            let proof = &self.proofs[i];
            let ghost found_before = proof_models(found@);
            proof {
                reveal(Seq::filter);
                assert(proof@ == all[i as int]);
                assert(all.take(i + 1).drop_last() =~= all.take(i as int));
                assert(all.take(i + 1).last() == proof@);
            }
            if proof.subject.same_as(subject) {
                let copy = proof.clone();
                found.push(copy);
                proof {
                    assert(proof_models(found@) =~= found_before.push(proof@));
                }
            }
            i = i + 1;
        }
        proof {
            assert(all.take(i as int) =~= all);
        }
        found
    }

    /// The revoked proofs, in the order of revocation.
    pub fn get_revoked_proofs(&self) -> (found: Vec<Proof>)
        requires
            self.wf(),
        ensures
            proof_models(found@) == self@.revoked_proofs(),
    {
        let ghost target = self@.revoked_proofs();
        let mut found: Vec<Proof> = Vec::new();
        let mut k: usize = 0;
        proof {
            assert(proof_models(found@) =~= target.take(0));
        }
        while k < self.revoked.len()
            invariant
                k <= self.revoked.len(),
                self.wf(),
                target == self@.revoked_proofs(),
                proof_models(found@) == target.take(k as int),
            decreases self.revoked.len() - k,
        {
            let ghost found_before = proof_models(found@);
            let id: u64 = self.revoked[k];
            proof {
                assert(self@.revoked[k as int] == id as nat);
                assert(self@.has_proof(self@.revoked[k as int]));
            }
            match self.position(id) {
                Some(index) => {
                    let copy = self.proofs[index].clone();
                    found.push(copy);
                    proof {
                        assert(proof_models(found@) =~= found_before.push(copy@));
                        assert(target.take(k + 1) =~= target.take(k as int).push(
                            target[k as int],
                        ));
                    }
                },
                None => {},
            }
            k = k + 1;
        }
        proof {
            assert(target.take(k as int) =~= target);
        }
        found
    }

    /// A copy of the proofs and of the list of revocations.
    fn snapshot(&self) -> (saved: (Vec<Proof>, Vec<u64>))
        ensures
            proof_models(saved.0@) == self@.proofs,
            id_models(saved.1@) == self@.revoked,
    {
        let mut proofs: Vec<Proof> = Vec::new();
        let mut i: usize = 0;
        while i < self.proofs.len()
            invariant
                i <= self.proofs.len(),
                proof_models(proofs@) == proof_models(self.proofs@).take(i as int),
            decreases self.proofs.len() - i,
        {
            let ghost copied = proof_models(proofs@);
            let copy = self.proofs[i].clone();
            proofs.push(copy);
            proof {
                assert(proof_models(proofs@) =~= copied.push(copy@));
                assert(proof_models(proofs@) =~= proof_models(self.proofs@).take(i + 1));
            }
            i = i + 1;
        }
        proof {
            assert(proof_models(self.proofs@).take(i as int) =~= proof_models(self.proofs@));
        }
        let revoked = self.revoked.clone();
        proof {
            assert(revoked@ =~= self.revoked@);
        }
        (proofs, revoked)
    }

    /// Carries out one operation of a batch.
    fn batch_step(&mut self, operator: &Identity, operation: &BatchOperation, now: u64) -> (res:
        Result<BatchResult, VerifierError>)
        requires
            old(self).wf(),
            old(self)@.proofs.len() < u64::MAX,
        ensures
            final(self).wf(),
            final(self)@.admin == old(self)@.admin,
            final(self)@.proofs.len() <= old(self)@.proofs.len() + 1,
            match res {
                Ok(result) => old(self)@.batch_step(operation@, operator@, now as nat) == Ok::<
                    BatchRun,
                    VerifierError,
                >(BatchRun { state: final(self)@, results: seq![result@] }),
                Err(e) => old(self)@.batch_step(operation@, operator@, now as nat) == Err::<
                    BatchRun,
                    VerifierError,
                >(e),
            },
    {
        if operation.operation_type == ISSUE {
            match &operation.proof_request {
                Some(request) => {
                    let id = self.issue_proof(operator.clone(), request.clone(), now)?;
                    Ok(BatchResult { success: true, proof_id: Some(id), error: None })
                },
                None => Ok(
                    BatchResult {
                        success: false,
                        proof_id: None,
                        error: Some("Missing proof request".to_owned()),
                    },
                ),
            }
        } else if operation.operation_type == VERIFY {
            match operation.proof_id {
                Some(id) => {
                    let passed = self.verify_proof(operator, id)?;
                    Ok(BatchResult { success: passed, proof_id: Some(id), error: None })
                },
                None => Ok(
                    BatchResult {
                        success: false,
                        proof_id: None,
                        error: Some("Missing proof ID".to_owned()),
                    },
                ),
            }
        } else if operation.operation_type == REVOKE {
            match operation.proof_id {
                Some(id) => {
                    self.revoke_proof(operator, id)?;
                    Ok(BatchResult { success: true, proof_id: Some(id), error: None })
                },
                None => Ok(
                    BatchResult {
                        success: false,
                        proof_id: None,
                        error: Some("Missing proof ID".to_owned()),
                    },
                ),
            }
        } else {
            Ok(
                BatchResult {
                    success: false,
                    proof_id: None,
                    error: Some("Invalid operation type".to_owned()),
                },
            )
        }
    }

    /// Carries out `operations` in order, as `operator`, already
    /// authenticated, and returns one result for each. An operation that
    /// lacks what it needs, or is of no known kind, is reported as failed
    /// in its result. An operation that the verifier rejects ends the
    /// batch with its error, and nothing of the batch remains.
    pub fn batch_operations(
        &mut self,
        operator: &Identity,
        operations: &Vec<BatchOperation>,
        now: u64,
    ) -> (res: Result<Vec<BatchResult>, VerifierError>)
        requires
            old(self).wf(),
            old(self)@.proofs.len() + operations.len() < u64::MAX,
        ensures
            final(self).wf(),
            match res {
                Ok(results) => old(self)@.batch(
                    operation_models(operations@),
                    operator@,
                    now as nat,
                ) == Ok::<BatchRun, VerifierError>(
                    BatchRun { state: final(self)@, results: result_models(results@) },
                ),
                Err(e) => old(self)@.batch(operation_models(operations@), operator@, now as nat)
                    == Err::<BatchRun, VerifierError>(e) && final(self)@ == old(self)@,
            },
    {
        let ghost all = operation_models(operations@);
        let saved = self.snapshot();
        let mut results: Vec<BatchResult> = Vec::new();
        let mut i: usize = 0;
        proof {
            assert(all.take(0) =~= Seq::empty());
            assert(result_models(results@) =~= Seq::empty());
        }
        while i < operations.len()
            invariant
                i <= operations.len(),
                all == operation_models(operations@),
                self.wf(),
                old(self)@.inv(),
                self@.admin == old(self)@.admin,
                self@.proofs.len() <= old(self)@.proofs.len() + i,
                old(self)@.proofs.len() + operations.len() < u64::MAX,
                proof_models(saved.0@) == old(self)@.proofs,
                id_models(saved.1@) == old(self)@.revoked,
                old(self)@.batch(all.take(i as int), operator@, now as nat) == Ok::<
                    BatchRun,
                    VerifierError,
                >(BatchRun { state: self@, results: result_models(results@) }),
            decreases operations.len() - i,
        {
            let ghost results_before = result_models(results@);
            proof {
                assert(all.take(i + 1).drop_last() =~= all.take(i as int));
                assert(all.take(i + 1).last() == operations@[i as int]@);
            }
            match self.batch_step(operator, &operations[i], now) {
                Ok(result) => {
                    results.push(result);
                    proof {
                        assert(result_models(results@) =~= results_before + seq![result@]);
                    }
                },
                Err(e) => {
                    proof {
                        lemma_batch_error_ends(old(self)@, all, i + 1, operator@, now as nat);
                    }
                    self.proofs = saved.0;
                    self.revoked = saved.1;
                    proof {
                        assert(self@.proofs =~= old(self)@.proofs);
                        assert(self@.revoked =~= old(self)@.revoked);
                        assert(self@ == old(self)@);
                    }
                    return Err(e);
                },
            }
            i = i + 1;
        }
        proof {
            assert(all.take(i as int) =~= all);
        }
        Ok(results)
    }

    /// The verifier made up of the given entries, as they were read back
    /// from where they are kept, if together they obey the rule of the
    /// verifier; `None` if they do not.
    pub fn restore(admin: Option<Identity>, proofs: Vec<Proof>, revoked: Vec<u64>) -> (res:
        Option<Self>)
        ensures
            res is Some <==> (VerifierModel {
                admin: optional_identity(admin),
                proofs: proof_models(proofs@),
                revoked: id_models(revoked@),
            }).inv(),
            res matches Some(verifier) ==> verifier.wf() && verifier@ == (VerifierModel {
                admin: optional_identity(admin),
                proofs: proof_models(proofs@),
                revoked: id_models(revoked@),
            }),
    {
        let ghost model = VerifierModel {
            admin: optional_identity(admin),
            proofs: proof_models(proofs@),
            revoked: id_models(revoked@),
        };
        let mut i: usize = 0;
        while i < proofs.len()
            invariant
                i <= proofs.len(),
                model.proofs == proof_models(proofs@),
                model.revoked == id_models(revoked@),
                model.admin == optional_identity(admin),
                forall|j: int|
                    0 <= j < i ==> (#[trigger] model.proofs[j]).id == j + 1
                        && model.proofs[j].hashable(),
            decreases proofs.len() - i,
        {
            let proof = &proofs[i];
            proof {
                assert(model.proofs[i as int] == proof@);
            }
            if proof.id != i as u64 + 1 {
                proof {
                    assert(model.proofs[i as int].id != i + 1);
                }
                return None;
            }
            if hash_input_of(&proof.event_data, &proof.metadata).is_none() {
                proof {
                    assert(!model.proofs[i as int].hashable());
                }
                return None;
            }
            i = i + 1;
        }
        let mut k: usize = 0;
        while k < revoked.len()
            invariant
                k <= revoked.len(),
                model.proofs == proof_models(proofs@),
                model.revoked == id_models(revoked@),
                model.admin == optional_identity(admin),
                forall|j: int|
                    0 <= j < k ==> model.has_proof(#[trigger] model.revoked[j])
                        && model.proof_of(model.revoked[j]).revoked,
            decreases revoked.len() - k,
        {
            let id: u64 = revoked[k];
            proof {
                assert(model.revoked[k as int] == id as nat);
            }
            if id == 0 || id > proofs.len() as u64 {
                proof {
                    assert(!model.has_proof(model.revoked[k as int]));
                }
                return None;
            }
            let index: usize = (id - 1) as usize;
            proof {
                assert(model.proofs[index as int] == proofs@[index as int]@);
            }
            if !proofs[index].revoked {
                proof {
                    assert(!model.proof_of(model.revoked[k as int]).revoked);
                }
                return None;
            }
            k = k + 1;
        }
        Some(ProofVerifier { admin, proofs, revoked })
    }

    /// The ids of the revoked proofs, in the order of revocation.
    pub fn get_revoked_ids(&self) -> (ids: Vec<u64>)
        ensures
            id_models(ids@) == self@.revoked,
    {
        let ids = self.revoked.clone();
        proof {
            assert(ids@ =~= self.revoked@);
        }
        ids
    }

    /// All proofs, in the order of issue.
    pub fn get_proofs(&self) -> (proofs: Vec<Proof>)
        ensures
            proof_models(proofs@) == self@.proofs,
    {
        self.snapshot().0
    }
}

} // verus!
