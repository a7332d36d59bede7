//! The Soroban host items that the commitment engine relies on.
use vstd::prelude::*;

use soroban_sdk::Bytes;
use soroban_sdk::Env;

verus! {

#[verifier::external_type_specification]
#[verifier::external_body]
pub struct ExEnv(Env);

/// The SHA-256 digest of a byte sequence.
pub uninterp spec fn sha256_of(data: Seq<u8>) -> Seq<u8>;

/// Relies on soroban_sdk's `Crypto::sha256` (the host's `compute_hash_sha256`),
/// after `Bytes::from_slice` copies the data into the host: the 32-byte
/// SHA-256 digest of the bytes, a function of the bytes alone. The host
/// meters both calls against the environment's budget.
#[verifier::external_body]
pub(crate) fn sha256(env: &Env, data: &[u8]) -> (r: Vec<u8>)
    ensures
        r@ == sha256_of(data@),
        r@.len() == 32,
{
    let bytes = Bytes::from_slice(env, data);
    env.crypto().sha256(&bytes).to_array().to_vec()
}

} // verus!
