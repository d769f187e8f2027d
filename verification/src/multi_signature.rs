//! Multi-signature bookkeeping: requests that the signers of a set sign
//! one by one, and that can be executed once enough of them have.

use vstd::prelude::*;
use crate::hashing::{hash_binary, rolling_hash};
use crate::identity::{clone_identities, identity_models, Identity};

verus! {

/// Where a signature request stands.
#[derive(Clone, Copy, Debug, PartialEq, Eq, Structural)]
pub enum SignatureStatus {
    /// Open for signatures.
    Pending,
    /// Signed by as many signers as it requires.
    Completed,
    /// Executed.
    Executed,
    /// Expired; no operation gives a request this status.
    Expired,
}

/// Why a call on the contract was rejected. A rejected call changes nothing.
#[derive(Clone, Copy, Debug, PartialEq, Eq, Structural)]
pub enum MultiSigError {
    Unauthorized,
    SignerAlreadyExists,
    SignerNotFound,
    NotAnAuthorizedSigner,
    InvalidRequestId,
    RequestNotPending,
    RequestExpired,
    AlreadySigned,
    NotFullySigned,
    VerificationFailed,
    NoSignaturesProvided,
    RequestNotFound,
}

impl MultiSigError {
    /// The error in words.
    pub fn message(&self) -> (text: String)
        ensures
            text@ == match *self {
                MultiSigError::Unauthorized => "Unauthorized"@,
                MultiSigError::SignerAlreadyExists => "Signer already exists"@,
                MultiSigError::SignerNotFound => "Signer not found"@,
                MultiSigError::NotAnAuthorizedSigner => "Not an authorized signer"@,
                MultiSigError::InvalidRequestId => "Invalid request ID"@,
                MultiSigError::RequestNotPending => "Request is not pending"@,
                MultiSigError::RequestExpired => "Request has expired"@,
                MultiSigError::AlreadySigned => "Already signed"@,
                MultiSigError::NotFullySigned => "Request is not fully signed"@,
                MultiSigError::VerificationFailed => "Multi-signature verification failed"@,
                MultiSigError::NoSignaturesProvided => "No signatures provided"@,
                MultiSigError::RequestNotFound => "Request not found"@,
            },
    {
        match self {
            MultiSigError::Unauthorized => "Unauthorized".to_owned(),
            MultiSigError::SignerAlreadyExists => "Signer already exists".to_owned(),
            MultiSigError::SignerNotFound => "Signer not found".to_owned(),
            MultiSigError::NotAnAuthorizedSigner => "Not an authorized signer".to_owned(),
            MultiSigError::InvalidRequestId => "Invalid request ID".to_owned(),
            MultiSigError::RequestNotPending => "Request is not pending".to_owned(),
            MultiSigError::RequestExpired => "Request has expired".to_owned(),
            MultiSigError::AlreadySigned => "Already signed".to_owned(),
            MultiSigError::NotFullySigned => "Request is not fully signed".to_owned(),
            MultiSigError::VerificationFailed => "Multi-signature verification failed".to_owned(),
            MultiSigError::NoSignaturesProvided => "No signatures provided".to_owned(),
            MultiSigError::RequestNotFound => "Request not found".to_owned(),
        }
    }
}

/// A request for signatures on a proof.
#[derive(Debug, PartialEq, Eq)]
pub struct SignatureRequest {
    /// The id of the request: requests are numbered from 0.
    pub id: u32,
    /// The signer that created the request.
    pub creator: Identity,
    /// The proof to sign.
    pub proof_data: Vec<u8>,
    /// What the request is for.
    pub description: String,
    /// When the request was created, in ledger seconds.
    pub created_at: u64,
    /// The last ledger second at which the request can be signed.
    pub expires_at: u64,
    /// Where the request stands.
    pub status: SignatureStatus,
    /// How many signatures complete the request.
    pub required_signatures: u32,
}

/// The mathematical view of a [`SignatureRequest`].
pub struct RequestModel {
    pub id: nat,
    pub creator: Seq<char>,
    pub proof_data: Seq<u8>,
    pub description: Seq<char>,
    pub created_at: nat,
    pub expires_at: nat,
    pub status: SignatureStatus,
    pub required_signatures: nat,
}

impl RequestModel {
    /// The request with another status.
    pub open spec fn with_status(self, status: SignatureStatus) -> RequestModel {
        RequestModel { status, ..self }
    }
}

impl View for SignatureRequest {
    type V = RequestModel;

    open spec fn view(&self) -> RequestModel {
        RequestModel {
            id: self.id as nat,
            creator: self.creator@,
            proof_data: self.proof_data@,
            description: self.description@,
            created_at: self.created_at as nat,
            expires_at: self.expires_at as nat,
            status: self.status,
            required_signatures: self.required_signatures as nat,
        }
    }
}

impl Clone for SignatureRequest {
    fn clone(&self) -> (r: Self)
        ensures
            r@ == self@,
    {
        SignatureRequest {
            id: self.id,
            creator: self.creator.clone(),
            proof_data: self.proof_data.clone(),
            description: self.description.clone(),
            created_at: self.created_at,
            expires_at: self.expires_at,
            status: self.status,
            required_signatures: self.required_signatures,
        }
    }
}

/// The views of the requests in a vector, in order.
pub open spec fn request_models(requests: Seq<SignatureRequest>) -> Seq<RequestModel> {
    requests.map_values(|r: SignatureRequest| r@)
}

/// A signature given on a request.
#[derive(Debug, PartialEq, Eq)]
pub struct CompletedSignature {
    /// The request signed.
    pub request_id: u32,
    /// The signer.
    pub signer: Identity,
    /// The signature.
    pub signature: Vec<u8>,
    /// When it was given, in ledger seconds.
    pub signed_at: u64,
}

/// The mathematical view of a [`CompletedSignature`].
pub struct SignatureModel {
    pub request_id: nat,
    pub signer: Seq<char>,
    pub signature: Seq<u8>,
    pub signed_at: nat,
}

impl View for CompletedSignature {
    type V = SignatureModel;

    open spec fn view(&self) -> SignatureModel {
        SignatureModel {
            request_id: self.request_id as nat,
            signer: self.signer@,
            signature: self.signature@,
            signed_at: self.signed_at as nat,
        }
    }
}

impl Clone for CompletedSignature {
    fn clone(&self) -> (r: Self)
        ensures
            r@ == self@,
    {
        CompletedSignature {
            request_id: self.request_id,
            signer: self.signer.clone(),
            signature: self.signature.clone(),
            signed_at: self.signed_at,
        }
    }
}

/// The views of the signatures in a vector, in order.
pub open spec fn signature_models(signatures: Seq<CompletedSignature>) -> Seq<SignatureModel> {
    signatures.map_values(|s: CompletedSignature| s@)
}

/// A request with the signatures given on it and the signers that may sign.
#[derive(Debug, PartialEq, Eq)]
pub struct RequestInfo {
    pub request: SignatureRequest,
    pub signatures: Vec<CompletedSignature>,
    pub signers: Vec<Identity>,
    /// Whether the request has as many signatures as it requires.
    pub is_fully_signed: bool,
}

/// The requests among `requests` that are pending, in order.
pub open spec fn pending(requests: Seq<RequestModel>) -> Seq<RequestModel>
    decreases requests.len(),
{
    if requests.len() == 0 {
        Seq::empty()
    } else if requests.last().status == SignatureStatus::Pending {
        pending(requests.drop_last()).push(requests.last())
    } else {
        pending(requests.drop_last())
    }
}

/// The signatures among `signatures` that were given on the request `id`, in order.
pub open spec fn signatures_for(signatures: Seq<SignatureModel>, id: nat) -> Seq<SignatureModel>
    decreases signatures.len(),
{
    if signatures.len() == 0 {
        Seq::empty()
    } else if signatures.last().request_id == id {
        signatures_for(signatures.drop_last(), id).push(signatures.last())
    } else {
        signatures_for(signatures.drop_last(), id)
    }
}

/// Whether `signer` has signed the request `id`.
pub open spec fn has_signed(signatures: Seq<SignatureModel>, id: nat, signer: Seq<char>) -> bool {
    exists|k: int|
        0 <= k < signatures.len() && (#[trigger] signatures[k]).request_id == id
            && signatures[k].signer == signer
}

/// The rolling hashes of the signatures, combined by exclusive or.
pub open spec fn combined_hash(signatures: Seq<SignatureModel>) -> u64
    decreases signatures.len(),
{
    if signatures.len() == 0 {
        0
    } else {
        combined_hash(signatures.drop_last()) ^ rolling_hash(signatures.last().signature)
    }
}

/// Whether `signatures` together verify `proof_data`: whether their combined
/// hash is the rolling hash of the proof. Without signatures there is
/// nothing to verify.
pub open spec fn aggregate_outcome(proof_data: Seq<u8>, signatures: Seq<SignatureModel>) -> Result<
    bool,
    MultiSigError,
> {
    if signatures.len() == 0 {
        Err(MultiSigError::NoSignaturesProvided)
    } else {
        Ok(combined_hash(signatures) == rolling_hash(proof_data))
    }
}

/// The state of the contract.
pub struct MultiSigModel {
    /// The party that manages the signers.
    pub owner: Seq<char>,
    /// How many signatures complete a request that is created now.
    pub required_signatures: nat,
    /// The parties that may create and sign requests.
    pub signers: Seq<Seq<char>>,
    /// The requests, by id.
    pub requests: Seq<RequestModel>,
    /// The signatures given, oldest first.
    pub signatures: Seq<SignatureModel>,
}

impl MultiSigModel {
    /// The rule of the contract: the request at position `i` has the id
    /// `i`, and no signer is listed twice.
    pub open spec fn inv(self) -> bool {
        &&& forall|i: int| 0 <= i < self.requests.len() ==> (#[trigger] self.requests[i]).id == i
        &&& self.signers.no_duplicates()
    }

    /// Whether `caller` may add a signer.
    pub open spec fn add_signer_outcome(self, caller: Seq<char>, signer: Seq<char>) -> Result<
        (),
        MultiSigError,
    > {
        if caller != self.owner {
            Err(MultiSigError::Unauthorized)
        } else if self.signers.contains(signer) {
            Err(MultiSigError::SignerAlreadyExists)
        } else {
            Ok(())
        }
    }

    /// Whether `caller` may remove a signer.
    pub open spec fn remove_signer_outcome(self, caller: Seq<char>, signer: Seq<char>) -> Result<
        (),
        MultiSigError,
    > {
        if caller != self.owner {
            Err(MultiSigError::Unauthorized)
        } else if !self.signers.contains(signer) {
            Err(MultiSigError::SignerNotFound)
        } else {
            Ok(())
        }
    }

    /// Whether `caller` may sign the request `id` at `now`.
    pub open spec fn sign_outcome(self, caller: Seq<char>, id: nat, now: nat) -> Result<
        (),
        MultiSigError,
    > {
        if !self.signers.contains(caller) {
            Err(MultiSigError::NotAnAuthorizedSigner)
        } else if id >= self.requests.len() {
            Err(MultiSigError::InvalidRequestId)
        } else if self.requests[id as int].status != SignatureStatus::Pending {
            Err(MultiSigError::RequestNotPending)
        } else if now > self.requests[id as int].expires_at {
            Err(MultiSigError::RequestExpired)
        } else if has_signed(self.signatures, id, caller) {
            Err(MultiSigError::AlreadySigned)
        } else {
            Ok(())
        }
    }

    /// The state after `caller` signed the request `id` at `now`: the
    /// signature is recorded, and the request is completed if it now has as
    /// many signatures as it requires.
    pub open spec fn after_sign(self, caller: Seq<char>, id: nat, signature: Seq<u8>, now: nat)
        -> MultiSigModel {
        let signatures = self.signatures.push(
            SignatureModel { request_id: id, signer: caller, signature, signed_at: now },
        );
        let request = self.requests[id as int];
        MultiSigModel {
            signatures,
            requests: if signatures_for(signatures, id).len() >= request.required_signatures {
                self.requests.update(id as int, request.with_status(SignatureStatus::Completed))
            } else {
                self.requests
            },
            ..self
        }
    }

    /// Whether the signatures given on the request `id` verify it: not if
    /// they are fewer than the request requires.
    pub open spec fn verify_outcome(self, id: nat) -> Result<bool, MultiSigError> {
        if id >= self.requests.len() {
            Err(MultiSigError::InvalidRequestId)
        } else if signatures_for(self.signatures, id).len()
            < self.requests[id as int].required_signatures {
            Ok(false)
        } else {
            aggregate_outcome(
                self.requests[id as int].proof_data,
                signatures_for(self.signatures, id),
            )
        }
    }

    /// Whether the request `id` can be executed.
    pub open spec fn execute_outcome(self, id: nat) -> Result<(), MultiSigError> {
        if id >= self.requests.len() {
            Err(MultiSigError::InvalidRequestId)
        } else if self.requests[id as int].status != SignatureStatus::Completed {
            Err(MultiSigError::NotFullySigned)
        } else {
            match self.verify_outcome(id) {
                Ok(true) => Ok(()),
                Ok(false) => Err(MultiSigError::VerificationFailed),
                Err(e) => Err(e),
            }
        }
    }
}

/// The multi-signature contract.
///
/// Every operation takes the identity of its caller as already
/// authenticated, and the ledger time `now` in seconds where it needs it.
pub struct MultiSignatureContract {
    owner: Identity,
    signature_requests: Vec<SignatureRequest>,
    required_signatures: u32,
    signers: Vec<Identity>,
    completed_signatures: Vec<CompletedSignature>,
}

impl View for MultiSignatureContract {
    type V = MultiSigModel;

    closed spec fn view(&self) -> MultiSigModel {
        MultiSigModel {
            owner: self.owner@,
            required_signatures: self.required_signatures as nat,
            signers: identity_models(self.signers@),
            requests: request_models(self.signature_requests@),
            signatures: signature_models(self.completed_signatures@),
        }
    }
}

impl MultiSignatureContract {
    /// The contract obeys its rule.
    pub open spec fn wf(&self) -> bool {
        self@.inv()
    }

    /// A contract owned by `owner`, without signers or requests, in which a
    /// request takes `required_signatures` signatures.
    pub fn new(owner: Identity, required_signatures: u32) -> (contract: Self)
        ensures
            contract.wf(),
            contract@ == (MultiSigModel {
                owner: owner@,
                required_signatures: required_signatures as nat,
                signers: Seq::empty(),
                requests: Seq::empty(),
                signatures: Seq::empty(),
            }),
    {
        let contract = MultiSignatureContract {
            owner,
            signature_requests: Vec::new(),
            required_signatures,
            signers: Vec::new(),
            completed_signatures: Vec::new(),
        };
        proof {
            assert(contract@.signers =~= Seq::empty());
            assert(contract@.requests =~= Seq::empty());
            assert(contract@.signatures =~= Seq::empty());
        }
        contract
    }

    /// Adds `signer` to the signers.
    ///
    /// Fails with `Unauthorized` unless `caller` is the owner, else with
    /// `SignerAlreadyExists` if `signer` is a signer already.
    pub fn add_signer(&mut self, caller: &Identity, signer: Identity) -> (res: Result<
        (),
        MultiSigError,
    >)
        requires
            old(self).wf(),
        ensures
            final(self).wf(),
            res == old(self)@.add_signer_outcome(caller@, signer@),
            res is Ok ==> final(self)@ == (MultiSigModel {
                signers: old(self)@.signers.push(signer@),
                ..old(self)@
            }),
            res is Err ==> final(self)@ == old(self)@,
    {
        if !caller.same_as(&self.owner) {
            return Err(MultiSigError::Unauthorized);
        }
        if signer.is_among(&self.signers) {
            return Err(MultiSigError::SignerAlreadyExists);
        }
        self.signers.push(signer);
        proof {
            assert(self@.signers =~= old(self)@.signers.push(signer@));
            assert(self@.requests =~= old(self)@.requests);
        }
        Ok(())
    }

    /// Removes `signer` from the signers.
    ///
    /// Fails with `Unauthorized` unless `caller` is the owner, else with
    /// `SignerNotFound` if `signer` is no signer.
    pub fn remove_signer(&mut self, caller: &Identity, signer: &Identity) -> (res: Result<
        (),
        MultiSigError,
    >)
        requires
            old(self).wf(),
        ensures
            final(self).wf(),
            res == old(self)@.remove_signer_outcome(caller@, signer@),
            res is Ok ==> final(self)@ == (MultiSigModel {
                signers: old(self)@.signers.remove(old(self)@.signers.index_of(signer@)),
                ..old(self)@
            }),
            res is Ok ==> !final(self)@.signers.contains(signer@),
            res is Err ==> final(self)@ == old(self)@,
    {
        if !caller.same_as(&self.owner) {
            return Err(MultiSigError::Unauthorized);
        }
        let ghost before = self@.signers;
        let mut i: usize = 0;
        while i < self.signers.len()
            invariant
                i <= self.signers.len(),
                self@ == old(self)@,
                old(self)@.inv(),
                caller@ == old(self)@.owner,
                before == self@.signers,
                before.no_duplicates(),
                forall|j: int| 0 <= j < i ==> #[trigger] before[j] != signer@,
            decreases self.signers.len() - i,
        {
            if self.signers[i].same_as(signer) {
                proof {
                    assert(before[i as int] == signer@);
                    let chosen = before.index_of(signer@);
                    assert(before.contains(signer@));
                    assert(0 <= chosen < before.len() && before[chosen] == signer@);
                    assert(chosen == i);
                }
                let _ = self.signers.remove(i);
                proof {
                    assert(self@.signers =~= before.remove(i as int));
                    assert(self@.requests =~= old(self)@.requests);
                    assert(self@.signers.no_duplicates()) by {
                        assert forall|a: int, b: int|
                            0 <= a < self@.signers.len() && 0 <= b < self@.signers.len() && a
                                != b implies self@.signers[a] != self@.signers[b] by {
                            let a0 = if a < i {
                                a
                            } else {
                                a + 1
                            };
                            let b0 = if b < i {
                                b
                            } else {
                                b + 1
                            };
                            assert(self@.signers[a] == before[a0]);
                            assert(self@.signers[b] == before[b0]);
                        }
                    }
                    assert(!self@.signers.contains(signer@)) by {
                        assert forall|a: int| 0 <= a < self@.signers.len() implies self@.signers[a]
                            != signer@ by {
                            let a0 = if a < i {
                                a
                            } else {
                                a + 1
                            };
                            assert(self@.signers[a] == before[a0]);
                            assert(before[i as int] == signer@);
                        }
                    }
                }
                return Ok(());
            }
            i = i + 1;
        }
        Err(MultiSigError::SignerNotFound)
    }

    /// Creates a request for signatures on `proof_data`, pending, and
    /// returns its id: the number of requests created before. The request
    /// requires as many signatures as the contract asks for at this time.
    ///
    /// Fails with `NotAnAuthorizedSigner` unless `caller` is a signer.
    pub fn create_signature_request(
        &mut self,
        caller: &Identity,
        proof_data: Vec<u8>,
        description: String,
        expires_at: u64,
        now: u64,
    ) -> (res: Result<u32, MultiSigError>)
        requires
            old(self).wf(),
            old(self)@.requests.len() < u32::MAX,
        ensures
            final(self).wf(),
            res is Ok <==> old(self)@.signers.contains(caller@),
            res matches Ok(id) ==> id == old(self)@.requests.len() && final(self)@
                == (MultiSigModel {
                requests: old(self)@.requests.push(
                    RequestModel {
                        id: id as nat,
                        creator: caller@,
                        proof_data: proof_data@,
                        description: description@,
                        created_at: now as nat,
                        expires_at: expires_at as nat,
                        status: SignatureStatus::Pending,
                        required_signatures: old(self)@.required_signatures,
                    },
                ),
                ..old(self)@
            }),
            res matches Err(e) ==> e == MultiSigError::NotAnAuthorizedSigner && final(self)@
                == old(self)@,
    {
        if !caller.is_among(&self.signers) {
            return Err(MultiSigError::NotAnAuthorizedSigner);
        }
        let id: u32 = self.signature_requests.len() as u32;
        let request = SignatureRequest {
            id,
            creator: caller.clone(),
            proof_data,
            description,
            created_at: now,
            expires_at,
            status: SignatureStatus::Pending,
            required_signatures: self.required_signatures,
        };
        self.signature_requests.push(request);
        proof {
            assert(self@.requests =~= old(self)@.requests.push(request@));
            assert forall|i: int| 0 <= i < self@.requests.len() implies (
            #[trigger] self@.requests[i]).id == i by {
                if i < old(self)@.requests.len() {
                    assert(self@.requests[i] == old(self)@.requests[i]);
                }
            }
        }
        Ok(id)
    }

    /// Whether `signer` has signed the request `request_id`.
    fn signed_already(&self, request_id: u32, signer: &Identity) -> (found: bool)
        ensures
            found == has_signed(self@.signatures, request_id as nat, signer@),
    {
        let mut k: usize = 0;
        while k < self.completed_signatures.len()
            invariant
                k <= self.completed_signatures.len(),
                forall|j: int|
                    0 <= j < k ==> !((#[trigger] self@.signatures[j]).request_id == request_id
                        && self@.signatures[j].signer == signer@),
            decreases self.completed_signatures.len() - k,
        {
            let given = &self.completed_signatures[k];
            proof {
                assert(self@.signatures[k as int] == given@);
            }
            if given.request_id == request_id && given.signer.same_as(signer) {
                return true;
            }
            k = k + 1;
        }
        false
    }

    /// The number of signatures given on the request `request_id`.
    pub fn count_signatures_for_request(&self, request_id: u32) -> (count: usize)
        ensures
            count == signatures_for(self@.signatures, request_id as nat).len(),
    {
        let ghost all = self@.signatures;
        let mut count: usize = 0;
        let mut k: usize = 0;
        proof {
            assert(all.take(0) =~= Seq::empty());
        }
        while k < self.completed_signatures.len()
            invariant
                k <= self.completed_signatures.len(),
                all == signature_models(self.completed_signatures@),
                count == signatures_for(all.take(k as int), request_id as nat).len(),
                count <= k,
            decreases self.completed_signatures.len() - k,
        {
            proof {
                assert(all.take(k + 1).drop_last() =~= all.take(k as int));
                assert(all.take(k + 1).last() == self.completed_signatures@[k as int]@);
            }
            if self.completed_signatures[k].request_id == request_id {
                count = count + 1;
            }
            k = k + 1;
        }
        proof {
            assert(all.take(k as int) =~= all);
        }
        count
    }

    /// Signs the request `request_id` as `caller`: records the signature,
    /// and completes the request if it now has as many signatures as it
    /// requires.
    ///
    /// Fails with `NotAnAuthorizedSigner` unless `caller` is a signer, else
    /// with `InvalidRequestId` if there is no such request, else with
    /// `RequestNotPending` unless it is pending, else with `RequestExpired`
    /// if `now` is past its expiry, else with `AlreadySigned` if `caller`
    /// has signed it.
    pub fn sign_request(&mut self, caller: &Identity, request_id: u32, signature: Vec<u8>, now: u64)
        -> (res: Result<(), MultiSigError>)
        requires
            old(self).wf(),
        ensures
            final(self).wf(),
            res == old(self)@.sign_outcome(caller@, request_id as nat, now as nat),
            res is Ok ==> final(self)@ == old(self)@.after_sign(
                caller@,
                request_id as nat,
                signature@,
                now as nat,
            ),
            res is Err ==> final(self)@ == old(self)@,
    {
        if !caller.is_among(&self.signers) {
            return Err(MultiSigError::NotAnAuthorizedSigner);
        }
        let index: usize = request_id as usize;
        if index >= self.signature_requests.len() {
            return Err(MultiSigError::InvalidRequestId);
        }
        let request = &self.signature_requests[index];
        proof {
            assert(self@.requests[index as int] == request@);
        }
        match request.status {
            SignatureStatus::Pending => {},
            _ => {
                return Err(MultiSigError::RequestNotPending);
            },
        }
        if now > request.expires_at {
            return Err(MultiSigError::RequestExpired);
        }
        if self.signed_already(request_id, caller) {
            return Err(MultiSigError::AlreadySigned);
        }
        let given = CompletedSignature {
            request_id,
            signer: caller.clone(),
            signature,
            signed_at: now,
        };
        self.completed_signatures.push(given);
        proof {
            assert(self@.signatures =~= old(self)@.signatures.push(given@));
            assert(self@.requests =~= old(self)@.requests);
        }
        let count = self.count_signatures_for_request(request_id);
        let request = &self.signature_requests[index];
        if count >= request.required_signatures as usize {
            let completed = SignatureRequest {
                id: request.id,
                creator: request.creator.clone(),
                proof_data: request.proof_data.clone(),
                description: request.description.clone(),
                created_at: request.created_at,
                expires_at: request.expires_at,
                status: SignatureStatus::Completed,
                required_signatures: request.required_signatures,
            };
            proof {
                assert(completed@ == request@.with_status(SignatureStatus::Completed));
            }
            self.signature_requests.set(index, completed);
            proof {
                assert(self@.requests =~= old(self)@.requests.update(index as int, completed@));
                assert forall|i: int| 0 <= i < self@.requests.len() implies (
                #[trigger] self@.requests[i]).id == i by {
                    assert(old(self)@.requests[i].id == i);
                }
            }
        }
        Ok(())
    }

    /// The signatures given on the request `request_id`, oldest first.
    pub fn get_signatures_for_request(&self, request_id: u32) -> (found: Vec<CompletedSignature>)
        ensures
            signature_models(found@) == signatures_for(self@.signatures, request_id as nat),
    {
        let ghost all = self@.signatures;
        let mut found: Vec<CompletedSignature> = Vec::new();
        let mut k: usize = 0;
        proof {
            assert(all.take(0) =~= Seq::empty());
            assert(signature_models(found@) =~= Seq::empty());
        }
        while k < self.completed_signatures.len()
            invariant
                k <= self.completed_signatures.len(),
                all == signature_models(self.completed_signatures@),
                signature_models(found@) == signatures_for(all.take(k as int), request_id as nat),
            decreases self.completed_signatures.len() - k,
        {
            let ghost found_before = signature_models(found@);
            let given = &self.completed_signatures[k];
            proof {
                assert(all.take(k + 1).drop_last() =~= all.take(k as int));
                assert(all.take(k + 1).last() == given@);
            }
            if given.request_id == request_id {
                let copy = given.clone();
                found.push(copy);
                proof {
                    assert(signature_models(found@) =~= found_before.push(given@));
                }
            }
            k = k + 1;
        }
        proof {
            assert(all.take(k as int) =~= all);
        }
        found
    }

    /// Whether `signatures` together verify `proof_data`: whether the
    /// rolling hashes of the signatures, combined by exclusive or, are the
    /// rolling hash of the proof.
    ///
    /// Fails with `NoSignaturesProvided` if there are no signatures.
    pub fn verify_aggregated_signature(proof_data: &Vec<u8>, signatures: &Vec<CompletedSignature>)
        -> (res: Result<bool, MultiSigError>)
        ensures
            res == aggregate_outcome(proof_data@, signature_models(signatures@)),
    {
        if signatures.len() == 0 {
            return Err(MultiSigError::NoSignaturesProvided);
        }
        let ghost all = signature_models(signatures@);
        let mut combined: u64 = 0;
        let mut k: usize = 0;
        proof {
            assert(all.take(0) =~= Seq::empty());
        }
        while k < signatures.len()
            invariant
                k <= signatures.len(),
                all == signature_models(signatures@),
                combined == combined_hash(all.take(k as int)),
            decreases signatures.len() - k,
        {
            proof {
                assert(all.take(k + 1).drop_last() =~= all.take(k as int));
                assert(all.take(k + 1).last() == signatures@[k as int]@);
            }
            combined = combined ^ hash_binary(&signatures[k].signature);
            k = k + 1;
        }
        proof {
            assert(all.take(k as int) =~= all);
        }
        Ok(combined == hash_binary(proof_data))
    }

    /// Whether the signatures given on the request `request_id` verify it.
    /// They do not if they are fewer than the request requires.
    ///
    /// Fails with `InvalidRequestId` if there is no such request, and with
    /// `NoSignaturesProvided` if the request requires none and has none.
    pub fn verify_multi_signature(&self, request_id: u32) -> (res: Result<bool, MultiSigError>)
        ensures
            res == self@.verify_outcome(request_id as nat),
    {
        let index: usize = request_id as usize;
        if index >= self.signature_requests.len() {
            return Err(MultiSigError::InvalidRequestId);
        }
        let request = &self.signature_requests[index];
        proof {
            assert(self@.requests[index as int] == request@);
        }
        let given = self.get_signatures_for_request(request_id);
        if given.len() < request.required_signatures as usize {
            return Ok(false);
        }
        Self::verify_aggregated_signature(&request.proof_data, &given)
    }

    /// Executes the request `request_id`: marks it as executed and returns
    /// the proof that was signed.
    ///
    /// Fails with `InvalidRequestId` if there is no such request, else with
    /// `NotFullySigned` unless it is completed, else with
    /// `VerificationFailed` if its signatures do not verify it.
    pub fn execute_request(&mut self, request_id: u32) -> (res: Result<Vec<u8>, MultiSigError>)
        requires
            old(self).wf(),
        ensures
            final(self).wf(),
            match res {
                Ok(proof_data) => old(self)@.execute_outcome(request_id as nat) is Ok
                    && proof_data@ == old(self)@.requests[request_id as int].proof_data
                    && final(self)@ == (MultiSigModel {
                    requests: old(self)@.requests.update(
                        request_id as int,
                        old(self)@.requests[request_id as int].with_status(
                            SignatureStatus::Executed,
                        ),
                    ),
                    ..old(self)@
                }),
                Err(e) => old(self)@.execute_outcome(request_id as nat) == Err::<
                    (),
                    MultiSigError,
                >(e) && final(self)@ == old(self)@,
            },
    {
        let index: usize = request_id as usize;
        if index >= self.signature_requests.len() {
            return Err(MultiSigError::InvalidRequestId);
        }
        let request = &self.signature_requests[index];
        proof {
            assert(self@.requests[index as int] == request@);
        }
        match request.status {
            SignatureStatus::Completed => {},
            _ => {
                return Err(MultiSigError::NotFullySigned);
            },
        }
        match self.verify_multi_signature(request_id) {
            Ok(true) => {},
            Ok(false) => {
                return Err(MultiSigError::VerificationFailed);
            },
            Err(e) => {
                return Err(e);
            },
        }
        let request = &self.signature_requests[index];
        let executed = SignatureRequest {
            id: request.id,
            creator: request.creator.clone(),
            proof_data: request.proof_data.clone(),
            description: request.description.clone(),
            created_at: request.created_at,
            expires_at: request.expires_at,
            status: SignatureStatus::Executed,
            required_signatures: request.required_signatures,
        };
        let proof_data = request.proof_data.clone();
        proof {
            assert(executed@ == request@.with_status(SignatureStatus::Executed));
        }
        self.signature_requests.set(index, executed);
        proof {
            assert(self@.requests =~= old(self)@.requests.update(index as int, executed@));
            assert forall|i: int| 0 <= i < self@.requests.len() implies (
            #[trigger] self@.requests[i]).id == i by {
                assert(old(self)@.requests[i].id == i);
            }
        }
        Ok(proof_data)
    }

    /// The request `request_id` with its signatures and the signers.
    ///
    /// Fails with `RequestNotFound` if there is no such request.
    pub fn get_request_info(&self, request_id: u32) -> (res: Result<RequestInfo, MultiSigError>)
        ensures
            res is Ok <==> request_id < self@.requests.len(),
            res matches Ok(info) ==> info.request@ == self@.requests[request_id as int]
                && signature_models(info.signatures@) == signatures_for(
                self@.signatures,
                request_id as nat,
            ) && identity_models(info.signers@) == self@.signers && info.is_fully_signed == (
            signatures_for(self@.signatures, request_id as nat).len()
                >= self@.requests[request_id as int].required_signatures),
            res matches Err(e) ==> e == MultiSigError::RequestNotFound,
    {
        let index: usize = request_id as usize;
        if index >= self.signature_requests.len() {
            return Err(MultiSigError::RequestNotFound);
        }
        let request = self.signature_requests[index].clone();
        proof {
            assert(self@.requests[index as int] == self.signature_requests@[index as int]@);
        }
        let signatures = self.get_signatures_for_request(request_id);
        let signers = self.get_signers();
        let is_fully_signed = signatures.len() >= request.required_signatures as usize;
        Ok(RequestInfo { request, signatures, signers, is_fully_signed })
    }

    /// The pending requests, in the order of their ids.
    pub fn get_pending_requests(&self) -> (found: Vec<SignatureRequest>)
        ensures
            request_models(found@) == pending(self@.requests),
    {
        let ghost all = self@.requests;
        let mut found: Vec<SignatureRequest> = Vec::new();
        let mut i: usize = 0;
        proof {
            assert(all.take(0) =~= Seq::empty());
            assert(request_models(found@) =~= Seq::empty());
        }
        while i < self.signature_requests.len()
            invariant
                i <= self.signature_requests.len(),
                all == request_models(self.signature_requests@),
                request_models(found@) == pending(all.take(i as int)),
            decreases self.signature_requests.len() - i,
        {
            let ghost found_before = request_models(found@);
            let request = &self.signature_requests[i];
            proof {
                assert(all.take(i + 1).drop_last() =~= all.take(i as int));
                assert(all.take(i + 1).last() == request@);
            }
            match request.status {
                SignatureStatus::Pending => {
                    let copy = request.clone();
                    found.push(copy);
                    proof {
                        assert(request_models(found@) =~= found_before.push(request@));
                    }
                },
                _ => {},
            }
            i = i + 1;
        }
        proof {
            assert(all.take(i as int) =~= all);
        }
        found
    }

    /// Sets how many signatures complete a request created from now on.
    ///
    /// Fails with `Unauthorized` unless `caller` is the owner.
    pub fn update_required_signatures(&mut self, caller: &Identity, new_count: u32) -> (res:
        Result<(), MultiSigError>)
        requires
            old(self).wf(),
        ensures
            final(self).wf(),
            res is Ok <==> caller@ == old(self)@.owner,
            res is Ok ==> final(self)@ == (MultiSigModel {
                required_signatures: new_count as nat,
                ..old(self)@
            }),
            res matches Err(e) ==> e == MultiSigError::Unauthorized && final(self)@ == old(self)@,
    {
        if !caller.same_as(&self.owner) {
            return Err(MultiSigError::Unauthorized);
        }
        self.required_signatures = new_count;
        Ok(())
    }

    /// The signers, in the order in which they were added.
    pub fn get_signers(&self) -> (signers: Vec<Identity>)
        ensures
            identity_models(signers@) == self@.signers,
    {
        clone_identities(&self.signers)
    }

    /// The owner.
    pub fn get_owner(&self) -> (owner: Identity)
        ensures
            owner@ == self@.owner,
    {
        self.owner.clone()
    }

    /// How many signatures complete a request that is created now.
    pub fn get_required_signatures(&self) -> (count: u32)
        ensures
            count == self@.required_signatures,
    {
        self.required_signatures
    }

    /// All requests, by id.
    pub fn get_requests(&self) -> (requests: Vec<SignatureRequest>)
        ensures
            request_models(requests@) == self@.requests,
    {
        let mut requests: Vec<SignatureRequest> = Vec::new();
        let mut i: usize = 0;
        while i < self.signature_requests.len()
            invariant
                i <= self.signature_requests.len(),
                request_models(requests@) == request_models(self.signature_requests@).take(
                    i as int,
                ),
            decreases self.signature_requests.len() - i,
        {
            let ghost copied = request_models(requests@);
            let copy = self.signature_requests[i].clone();
            requests.push(copy);
            proof {
                assert(request_models(requests@) =~= copied.push(copy@));
                assert(request_models(requests@) =~= request_models(
                    self.signature_requests@,
                ).take(i + 1));
            }
            i = i + 1;
        }
        proof {
            assert(request_models(self.signature_requests@).take(i as int) =~= request_models(
                self.signature_requests@,
            ));
        }
        requests
    }

    /// All signatures given, oldest first.
    pub fn get_completed_signatures(&self) -> (signatures: Vec<CompletedSignature>)
        ensures
            signature_models(signatures@) == self@.signatures,
    {
        let mut signatures: Vec<CompletedSignature> = Vec::new();
        let mut i: usize = 0;
        while i < self.completed_signatures.len()
            invariant
                i <= self.completed_signatures.len(),
                signature_models(signatures@) == signature_models(
                    self.completed_signatures@,
                ).take(i as int),
            decreases self.completed_signatures.len() - i,
        {
            let ghost copied = signature_models(signatures@);
            let copy = self.completed_signatures[i].clone();
            signatures.push(copy);
            proof {
                assert(signature_models(signatures@) =~= copied.push(copy@));
                assert(signature_models(signatures@) =~= signature_models(
                    self.completed_signatures@,
                ).take(i + 1));
            }
            i = i + 1;
        }
        proof {
            assert(signature_models(self.completed_signatures@).take(i as int)
                =~= signature_models(self.completed_signatures@));
        }
        signatures
    }

    /// The contract made up of the given entries, as they were read back
    /// from where they are kept, if together they obey the rule of the
    /// contract; `None` if they do not.
    pub fn restore(
        owner: Identity,
        required_signatures: u32,
        signers: Vec<Identity>,
        signature_requests: Vec<SignatureRequest>,
        completed_signatures: Vec<CompletedSignature>,
    ) -> (res: Option<Self>)
        ensures
            res is Some <==> (MultiSigModel {
                owner: owner@,
                required_signatures: required_signatures as nat,
                signers: identity_models(signers@),
                requests: request_models(signature_requests@),
                signatures: signature_models(completed_signatures@),
            }).inv(),
            res matches Some(contract) ==> contract.wf() && contract@ == (MultiSigModel {
                owner: owner@,
                required_signatures: required_signatures as nat,
                signers: identity_models(signers@),
                requests: request_models(signature_requests@),
                signatures: signature_models(completed_signatures@),
            }),
    {
        let ghost names = identity_models(signers@);
        let ghost requests = request_models(signature_requests@);
        let mut i: usize = 0;
        while i < signature_requests.len()
            invariant
                i <= signature_requests.len(),
                requests == request_models(signature_requests@),
                forall|j: int| 0 <= j < i ==> (#[trigger] requests[j]).id == j,
            decreases signature_requests.len() - i,
        {
            proof {
                assert(requests[i as int] == signature_requests@[i as int]@);
            }
            if signature_requests[i].id as usize != i {
                proof {
                    assert(requests[i as int].id != i);
                }
                return None;
            }
            i = i + 1;
        }
        let mut a: usize = 0;
        while a < signers.len()
            invariant
                a <= signers.len(),
                names == identity_models(signers@),
                forall|x: int, y: int|
                    0 <= x < a && 0 <= y < names.len() && x != y ==> names[x] != names[y],
            decreases signers.len() - a,
        {
            let mut b: usize = a + 1;
            while b < signers.len()
                invariant
                    a < b <= signers.len(),
                    names == identity_models(signers@),
                    forall|y: int| a < y < b ==> names[a as int] != names[y],
                decreases signers.len() - b,
            {
                if signers[a].same_as(&signers[b]) {
                    proof {
                        assert(names[a as int] == names[b as int]);
                    }
                    return None;
                }
                b = b + 1;
            }
            a = a + 1;
        }
        Some(
            MultiSignatureContract {
                owner,
                signature_requests,
                required_signatures,
                signers,
                completed_signatures,
            },
        )
    }
}

} // verus!
