//! Zero-knowledge proof bookkeeping: commitments that the owner registers,
//! and proofs checked against them by their rolling hash.

use vstd::prelude::*;
use crate::hashing::{hash_binary, rolling_hash};
use crate::identity::Identity;

verus! {

/// The least number of bytes of a proof.
pub const MIN_PROOF_LENGTH: usize = 32;

/// Why a call on the contract was rejected. A rejected call changes nothing.
#[derive(Clone, Copy, Debug, PartialEq, Eq, Structural)]
pub enum ZkError {
    Unauthorized,
    InvalidProofId,
    InvalidProofFormat,
    LengthMismatch,
    ProofNotFound,
}

impl ZkError {
    /// The error in words.
    pub fn message(&self) -> (text: String)
        ensures
            text@ == match *self {
                ZkError::Unauthorized => "Unauthorized"@,
                ZkError::InvalidProofId => "Invalid proof ID"@,
                ZkError::InvalidProofFormat => "Invalid proof format"@,
                ZkError::LengthMismatch => "Proofs and inputs length mismatch"@,
                ZkError::ProofNotFound => "Proof not found"@,
            },
    {
        match self {
            ZkError::Unauthorized => "Unauthorized".to_owned(),
            ZkError::InvalidProofId => "Invalid proof ID".to_owned(),
            ZkError::InvalidProofFormat => "Invalid proof format".to_owned(),
            ZkError::LengthMismatch => "Proofs and inputs length mismatch".to_owned(),
            ZkError::ProofNotFound => "Proof not found".to_owned(),
        }
    }
}

/// Whether `proof` is verified against `commitment`: whether both have the
/// same rolling hash. A proof of fewer than `MIN_PROOF_LENGTH` bytes is
/// malformed.
pub open spec fn snark_outcome(proof: Seq<u8>, commitment: Seq<u8>) -> Result<bool, ZkError> {
    if proof.len() < MIN_PROOF_LENGTH {
        Err(ZkError::InvalidProofFormat)
    } else {
        Ok(rolling_hash(proof) == rolling_hash(commitment))
    }
}

/// Verifies each proof against the commitment that batch verification
/// uses in its place: the single byte that is its position, modulo 256.
/// The first malformed proof ends the batch with its error.
pub open spec fn batch_outcome(proofs: Seq<Seq<u8>>) -> Result<Seq<bool>, ZkError>
    decreases proofs.len(),
{
    if proofs.len() == 0 {
        Ok(Seq::empty())
    } else {
        match batch_outcome(proofs.drop_last()) {
            Err(e) => Err(e),
            Ok(before) => match snark_outcome(
                proofs.last(),
                seq![((proofs.len() - 1) % 256) as u8],
            ) {
                Err(e) => Err(e),
                Ok(valid) => Ok(before.push(valid)),
            },
        }
    }
}

/// An error among the first proofs of a batch is the error of the batch.
pub proof fn lemma_batch_error_ends(proofs: Seq<Seq<u8>>, n: int)
    requires
        0 <= n <= proofs.len(),
        batch_outcome(proofs.take(n)) is Err,
    ensures
        batch_outcome(proofs) == batch_outcome(proofs.take(n)),
    decreases proofs.len() - n,
{
    if n == proofs.len() {
        assert(proofs.take(n) =~= proofs);
    } else {
        assert(proofs.take(n + 1).drop_last() =~= proofs.take(n));
        lemma_batch_error_ends(proofs, n + 1);
    }
}

/// A commitment as registered.
#[derive(Debug, PartialEq, Eq)]
pub struct Commitment {
    /// The commitment that proofs are checked against.
    pub commitment: Vec<u8>,
    /// The party that holds the verification key.
    pub verification_key: Identity,
    /// The kind of proof.
    pub proof_type: String,
}

/// The mathematical view of a [`Commitment`].
pub struct CommitmentModel {
    pub commitment: Seq<u8>,
    pub verification_key: Seq<char>,
    pub proof_type: Seq<char>,
}

impl View for Commitment {
    type V = CommitmentModel;

    open spec fn view(&self) -> CommitmentModel {
        CommitmentModel {
            commitment: self.commitment@,
            verification_key: self.verification_key@,
            proof_type: self.proof_type@,
        }
    }
}

impl Clone for Commitment {
    fn clone(&self) -> (r: Self)
        ensures
            r@ == self@,
    {
        Commitment {
            commitment: self.commitment.clone(),
            verification_key: self.verification_key.clone(),
            proof_type: self.proof_type.clone(),
        }
    }
}

/// The views of the commitments in a vector, in order.
pub open spec fn commitment_models(commitments: Seq<Commitment>) -> Seq<CommitmentModel> {
    commitments.map_values(|c: Commitment| c@)
}

/// What is known of a registered commitment.
#[derive(Debug, PartialEq, Eq)]
pub struct ProofInfo {
    /// The id of the commitment: commitments are numbered from 0.
    pub id: u32,
    pub commitment: Vec<u8>,
    pub proof_type: String,
    /// Whether a proof was verified against the commitment.
    pub verified: bool,
    /// When the information was put together, in ledger seconds.
    pub created_at: u64,
}

/// The numbers in a vector, as numbers.
pub open spec fn number_models(numbers: Seq<u32>) -> Seq<nat> {
    numbers.map_values(|n: u32| n as nat)
}

/// The state of the contract.
pub struct ZkModel {
    /// The party that registers commitments.
    pub owner: Seq<char>,
    /// The commitments, by id.
    pub commitments: Seq<CommitmentModel>,
    /// The ids of the commitments that a proof was verified against, one
    /// for each verification, oldest first.
    pub verified: Seq<nat>,
}

/// The zero-knowledge proof contract.
///
/// Every operation takes the identity of its caller as already
/// authenticated, and the ledger time `now` in seconds where it needs it.
pub struct ZKProofContract {
    owner: Identity,
    commitments: Vec<Commitment>,
    verified: Vec<u32>,
}

impl View for ZKProofContract {
    type V = ZkModel;

    closed spec fn view(&self) -> ZkModel {
        ZkModel {
            owner: self.owner@,
            commitments: commitment_models(self.commitments@),
            verified: number_models(self.verified@),
        }
    }
}

impl ZKProofContract {
    /// A contract owned by `owner`, without commitments.
    pub fn new(owner: Identity) -> (contract: Self)
        ensures
            contract@ == (ZkModel {
                owner: owner@,
                commitments: Seq::empty(),
                verified: Seq::empty(),
            }),
    {
        let contract = ZKProofContract { owner, commitments: Vec::new(), verified: Vec::new() };
        proof {
            assert(contract@.commitments =~= Seq::empty());
            assert(contract@.verified =~= Seq::empty());
        }
        contract
    }

    /// The contract made up of the given entries.
    pub fn restore(owner: Identity, commitments: Vec<Commitment>, verified: Vec<u32>) -> (contract:
        Self)
        ensures
            contract@ == (ZkModel {
                owner: owner@,
                commitments: commitment_models(commitments@),
                verified: number_models(verified@),
            }),
    {
        ZKProofContract { owner, commitments, verified }
    }

    /// Registers a commitment; its id is the number of commitments
    /// registered before. `metadata` is taken and not kept.
    ///
    /// Fails with `Unauthorized` unless `caller` is the owner.
    pub fn create_zk_proof(
        &mut self,
        caller: &Identity,
        proof_type: String,
        commitment: Vec<u8>,
        verification_key: Identity,
        metadata: &Vec<u8>,
    ) -> (res: Result<(), ZkError>)
        ensures
            res is Ok <==> caller@ == old(self)@.owner,
            res is Ok ==> final(self)@ == (ZkModel {
                commitments: old(self)@.commitments.push(
                    CommitmentModel {
                        commitment: commitment@,
                        verification_key: verification_key@,
                        proof_type: proof_type@,
                    },
                ),
                ..old(self)@
            }),
            res matches Err(e) ==> e == ZkError::Unauthorized && final(self)@ == old(self)@,
    {
        if !caller.same_as(&self.owner) {
            return Err(ZkError::Unauthorized);
        }
        let entry = Commitment { commitment, verification_key, proof_type };
        self.commitments.push(entry);
        proof {
            assert(self@.commitments =~= old(self)@.commitments.push(entry@));
        }
        Ok(())
    }

    /// Whether `proof` is verified against `commitment`: whether both have
    /// the same rolling hash. The verdict does not depend on `public_inputs`.
    ///
    /// Fails with `InvalidProofFormat` if `proof` has fewer than
    /// `MIN_PROOF_LENGTH` bytes.
    pub fn verify_zk_snark(proof: &Vec<u8>, public_inputs: &Vec<u8>, commitment: &Vec<u8>) -> (res:
        Result<bool, ZkError>)
        ensures
            res == snark_outcome(proof@, commitment@),
    {
        if proof.len() < MIN_PROOF_LENGTH {
            return Err(ZkError::InvalidProofFormat);
        }
        Ok(hash_binary(proof) == hash_binary(commitment))
    }

    /// Verifies `proof` against the commitment `proof_id`, and records the
    /// verification if the proof is valid. Returns whether it is.
    ///
    /// Fails with `InvalidProofId` if there is no such commitment, else with
    /// `InvalidProofFormat` if `proof` is malformed.
    pub fn verify_zk_proof(&mut self, proof_id: u32, proof: &Vec<u8>, public_inputs: &Vec<u8>)
        -> (res: Result<bool, ZkError>)
        ensures
            res == if proof_id >= old(self)@.commitments.len() {
                Err(ZkError::InvalidProofId)
            } else {
                snark_outcome(proof@, old(self)@.commitments[proof_id as int].commitment)
            },
            final(self)@ == if res == Ok::<bool, ZkError>(true) {
                ZkModel { verified: old(self)@.verified.push(proof_id as nat), ..old(self)@ }
            } else {
                old(self)@
            },
    {
        let index: usize = proof_id as usize;
        if index >= self.commitments.len() {
            return Err(ZkError::InvalidProofId);
        }
        proof {
            assert(self@.commitments[index as int] == self.commitments@[index as int]@);
        }
        let valid = Self::verify_zk_snark(
            proof,
            public_inputs,
            &self.commitments[index].commitment,
        )?;
        if valid {
            self.verified.push(proof_id);
            proof {
                assert(self@.verified =~= old(self)@.verified.push(proof_id as nat));
            }
        }
        Ok(valid)
    }

    /// Verifies each of `proofs` against the single byte that is its
    /// position, modulo 256, and returns the verdicts in order.
    ///
    /// Fails with `LengthMismatch` unless there are as many `public_inputs`
    /// as proofs, else with `InvalidProofFormat` if a proof is malformed.
    pub fn batch_verify_zk_proofs(proofs: &Vec<Vec<u8>>, public_inputs: &Vec<Vec<u8>>) -> (res:
        Result<Vec<bool>, ZkError>)
        ensures
            match res {
                Ok(verdicts) => proofs.len() == public_inputs.len() && batch_outcome(
                    proofs@.map_values(|p: Vec<u8>| p@),
                ) == Ok::<Seq<bool>, ZkError>(verdicts@),
                Err(e) => if proofs.len() != public_inputs.len() {
                    e == ZkError::LengthMismatch
                } else {
                    batch_outcome(proofs@.map_values(|p: Vec<u8>| p@)) == Err::<
                        Seq<bool>,
                        ZkError,
                    >(e)
                },
            },
    {
        if proofs.len() != public_inputs.len() {
            return Err(ZkError::LengthMismatch);
        }
        let ghost all = proofs@.map_values(|p: Vec<u8>| p@);
        let mut verdicts: Vec<bool> = Vec::new();
        let mut i: usize = 0;
        proof {
            assert(all.take(0) =~= Seq::empty());
        }
        while i < proofs.len()
            invariant
                i <= proofs.len(),
                proofs.len() == public_inputs.len(),
                all == proofs@.map_values(|p: Vec<u8>| p@),
                batch_outcome(all.take(i as int)) == Ok::<Seq<bool>, ZkError>(verdicts@),
            decreases proofs.len() - i,
        {
            let mut commitment: Vec<u8> = Vec::new();
            commitment.push((i % 256) as u8);
            proof {
                assert(all.take(i + 1).drop_last() =~= all.take(i as int));
                assert(all.take(i + 1).last() == proofs@[i as int]@);
                assert(commitment@ =~= seq![((all.take(i + 1).len() - 1) % 256) as u8]);
            }
            match Self::verify_zk_snark(&proofs[i], &public_inputs[i], &commitment) {
                Ok(valid) => {
                    verdicts.push(valid);
                },
                Err(e) => {
                    proof {
                        lemma_batch_error_ends(all, i + 1);
                    }
                    return Err(e);
                },
            }
            i = i + 1;
        }
        proof {
            assert(all.take(i as int) =~= all);
        }
        Ok(verdicts)
    }

    /// Whether a proof was verified against the commitment `proof_id`.
    pub fn is_proof_verified(&self, proof_id: u32) -> (verified: bool)
        ensures
            verified == self@.verified.contains(proof_id as nat),
    {
        let mut k: usize = 0;
        while k < self.verified.len()
            invariant
                k <= self.verified.len(),
                forall|j: int| 0 <= j < k ==> #[trigger] self@.verified[j] != proof_id as nat,
            decreases self.verified.len() - k,
        {
            if self.verified[k] == proof_id {
                proof {
                    assert(self@.verified[k as int] == proof_id as nat);
                }
                return true;
            }
            k = k + 1;
        }
        false
    }

    /// What is known of the commitment `proof_id`, as of `now`.
    ///
    /// Fails with `ProofNotFound` if there is no such commitment.
    pub fn get_proof_info(&self, proof_id: u32, now: u64) -> (res: Result<ProofInfo, ZkError>)
        ensures
            res is Ok <==> proof_id < self@.commitments.len(),
            res matches Ok(info) ==> info.id == proof_id && info.commitment@
                == self@.commitments[proof_id as int].commitment && info.proof_type@
                == self@.commitments[proof_id as int].proof_type && info.verified
                == self@.verified.contains(proof_id as nat) && info.created_at == now,
            res matches Err(e) ==> e == ZkError::ProofNotFound,
    {
        let index: usize = proof_id as usize;
        if index >= self.commitments.len() {
            return Err(ZkError::ProofNotFound);
        }
        let entry = &self.commitments[index];
        proof {
            assert(self@.commitments[index as int] == entry@);
        }
        Ok(
            ProofInfo {
                id: proof_id,
                commitment: entry.commitment.clone(),
                proof_type: entry.proof_type.clone(),
                verified: self.is_proof_verified(proof_id),
                created_at: now,
            },
        )
    }

    /// Gives the commitment `proof_id` another kind.
    ///
    /// Fails with `Unauthorized` unless `caller` is the owner, else with
    /// `InvalidProofId` if there is no such commitment.
    pub fn update_proof_type(&mut self, caller: &Identity, proof_id: u32, new_type: String) -> (res:
        Result<(), ZkError>)
        ensures
            res == if caller@ != old(self)@.owner {
                Err::<(), ZkError>(ZkError::Unauthorized)
            } else if proof_id >= old(self)@.commitments.len() {
                Err(ZkError::InvalidProofId)
            } else {
                Ok(())
            },
            res is Ok ==> final(self)@ == (ZkModel {
                commitments: old(self)@.commitments.update(
                    proof_id as int,
                    CommitmentModel {
                        proof_type: new_type@,
                        ..old(self)@.commitments[proof_id as int]
                    },
                ),
                ..old(self)@
            }),
            res is Err ==> final(self)@ == old(self)@,
    {
        if !caller.same_as(&self.owner) {
            return Err(ZkError::Unauthorized);
        }
        let index: usize = proof_id as usize;
        if index >= self.commitments.len() {
            return Err(ZkError::InvalidProofId);
        }
        let entry = &self.commitments[index];
        let renamed = Commitment {
            commitment: entry.commitment.clone(),
            verification_key: entry.verification_key.clone(),
            proof_type: new_type,
        };
        proof {
            assert(self@.commitments[index as int] == entry@);
        }
        self.commitments.set(index, renamed);
        proof {
            assert(self@.commitments =~= old(self)@.commitments.update(index as int, renamed@));
        }
        Ok(())
    }

    /// The owner.
    pub fn get_owner(&self) -> (owner: Identity)
        ensures
            owner@ == self@.owner,
    {
        self.owner.clone()
    }

    /// The commitments, by id.
    pub fn get_commitments(&self) -> (commitments: Vec<Commitment>)
        ensures
            commitment_models(commitments@) == self@.commitments,
    {
        let mut commitments: Vec<Commitment> = Vec::new();
        let mut i: usize = 0;
        while i < self.commitments.len()
            invariant
                i <= self.commitments.len(),
                commitment_models(commitments@) == commitment_models(self.commitments@).take(
                    i as int,
                ),
            decreases self.commitments.len() - i,
        {
            let ghost copied = commitment_models(commitments@);
            let copy = self.commitments[i].clone();
            commitments.push(copy);
            proof {
                assert(commitment_models(commitments@) =~= copied.push(copy@));
                assert(commitment_models(commitments@) =~= commitment_models(
                    self.commitments@,
                ).take(i + 1));
            }
            i = i + 1;
        }
        proof {
            assert(commitment_models(self.commitments@).take(i as int) =~= commitment_models(
                self.commitments@,
            ));
        }
        commitments
    }

    /// The ids of the commitments that a proof was verified against, one
    /// for each verification, oldest first.
    pub fn get_verified(&self) -> (verified: Vec<u32>)
        ensures
            number_models(verified@) == self@.verified,
    {
        let verified = self.verified.clone();
        proof {
            assert(verified@ =~= self.verified@);
        }
        verified
    }
}

} // verus!
