//! SHA-256 digests, computed by the ledger host.

use vstd::prelude::*;

verus! {

/// The SHA-256 digest of `data`.
pub uninterp spec fn sha256_digest(data: Seq<u8>) -> Seq<u8>;

/// The longest input, in bytes, that is handed to the host for hashing.
///
/// The host meters its work and gives up beyond its budget: hashing costs it
/// about 55 instructions a byte out of 100 million, so an input of this
/// length leaves it a wide margin.
pub const MAX_DIGEST_INPUT: usize = 1_048_576;

/// Calls `soroban_sdk::crypto::Crypto::sha256`, in a host environment made
/// for the call, on the bytes of `data`.
///
/// Trusted: that the bytes returned are the SHA-256 digest of the bytes
/// given, the same for the same bytes wherever and whenever it is computed.
#[verifier::external_body]
pub(crate) fn host_sha256(data: &Vec<u8>) -> (digest: Vec<u8>)
    requires
        data.len() <= MAX_DIGEST_INPUT,
    ensures
        digest@ == sha256_digest(data@),
{
    let env = soroban_sdk::Env::default();
    let input = soroban_sdk::Bytes::from_slice(&env, data.as_slice());
    env.crypto().sha256(&input).to_array().to_vec()
}

/// The SHA-256 digest of `data`, or `None` if `data` is longer than
/// `MAX_DIGEST_INPUT`.
pub fn checked_sha256(data: &Vec<u8>) -> (digest: Option<Vec<u8>>)
    ensures
        digest is Some <==> data.len() <= MAX_DIGEST_INPUT,
        digest matches Some(bytes) ==> bytes@ == sha256_digest(data@),
{
    if data.len() <= MAX_DIGEST_INPUT {
        Some(host_sha256(data))
    } else {
        None
    }
}

} // verus!
