//! Creation and verification of amount commitments.
use vstd::prelude::*;

use soroban_sdk::Env;

use crate::encoding::canonical_encoding;
use crate::encoding::bytes_equal;
use crate::encoding::encode;
use crate::host::sha256;
use crate::host::sha256_of;

verus! {

/// The largest salt, in bytes, that a commitment accepts.
pub const MAX_SALT_LENGTH: usize = 256;

/// Why a commitment could not be created.
#[derive(Clone, Copy, Debug, PartialEq, Eq, Structural)]
pub enum CommitmentError {
    /// The amount is negative.
    InvalidAmount,
    /// The salt is longer than `MAX_SALT_LENGTH` bytes.
    SaltTooLong,
}

/// The digest that commits to `owner`, `amount` and `salt`.
pub open spec fn commitment_digest(owner: Seq<u8>, amount: i128, salt: Seq<u8>) -> Seq<u8> {
    sha256_of(canonical_encoding(owner, amount, salt))
}

/// What creating a commitment yields: the digest, or the first rule broken.
pub open spec fn commitment_outcome(owner: Seq<u8>, amount: i128, salt: Seq<u8>) -> Result<
    Seq<u8>,
    CommitmentError,
> {
    if amount < 0 {
        Err(CommitmentError::InvalidAmount)
    } else if salt.len() > MAX_SALT_LENGTH {
        Err(CommitmentError::SaltTooLong)
    } else {
        Ok(commitment_digest(owner, amount, salt))
    }
}

/// The digest or error of a created commitment, as sequences.
pub open spec fn outcome_view(r: Result<Vec<u8>, CommitmentError>) -> Result<Seq<u8>, CommitmentError> {
    match r {
        Ok(d) => Ok(d@),
        Err(e) => Err(e),
    }
}

/// Whether `commitment` is the digest of the claimed owner, amount and salt;
/// a claim that could not have been committed to is never accepted.
pub open spec fn commitment_accepts(
    commitment: Seq<u8>,
    owner: Seq<u8>,
    amount: i128,
    salt: Seq<u8>,
) -> bool {
    commitment_outcome(owner, amount, salt) == Ok::<Seq<u8>, CommitmentError>(commitment)
}

/// Commits to an amount: hashes the canonical encoding of the owner's
/// identity bytes, the amount and the salt.
pub fn create_amount_commitment(env: &Env, owner: &[u8], amount: i128, salt: &[u8]) -> (r: Result<
    Vec<u8>,
    CommitmentError,
>)
    ensures
        outcome_view(r) == commitment_outcome(owner@, amount, salt@),
        r is Ok ==> r->Ok_0@.len() == 32,
{
    if amount < 0 {
        return Err(CommitmentError::InvalidAmount);
    }
    if salt.len() > MAX_SALT_LENGTH {
        return Err(CommitmentError::SaltTooLong);
    }
    let data = encode(owner, amount, salt);
    Ok(sha256(env, &data))
}

/// Checks a commitment against claimed values: recomputes it and compares.
/// A claim with a negative amount or an over-long salt is rejected.
pub fn verify_amount_commitment(
    env: &Env,
    commitment: &[u8],
    owner: &[u8],
    amount: i128,
    salt: &[u8],
) -> (r: bool)
    ensures
        r == commitment_accepts(commitment@, owner@, amount, salt@),
{
    match create_amount_commitment(env, owner, amount, salt) {
        Ok(recomputed) => bytes_equal(commitment, &recomputed),
        Err(_) => false,
    }
}

/// Creating a commitment twice from the same identity, amount and salt gives
/// the same digest: any two results that `create_amount_commitment` may
/// return for one input are equal.
pub proof fn lemma_create_deterministic(
    owner: Seq<u8>,
    amount: i128,
    salt: Seq<u8>,
    first: Result<Vec<u8>, CommitmentError>,
    second: Result<Vec<u8>, CommitmentError>,
)
    requires
        outcome_view(first) == commitment_outcome(owner, amount, salt),
        outcome_view(second) == commitment_outcome(owner, amount, salt),
    ensures
        outcome_view(first) == outcome_view(second),
        first is Ok <==> second is Ok,
        first is Ok ==> first->Ok_0@ == second->Ok_0@,
{
}

/// A commitment created from a valid identity, amount and salt verifies
/// against those same values.
pub proof fn lemma_verify_accepts_created(owner: Seq<u8>, amount: i128, salt: Seq<u8>)
    requires
        amount >= 0,
        salt.len() <= MAX_SALT_LENGTH,
    ensures
        commitment_outcome(owner, amount, salt) == Ok::<Seq<u8>, CommitmentError>(
            commitment_digest(owner, amount, salt),
        ),
        commitment_accepts(commitment_digest(owner, amount, salt), owner, amount, salt),
{
}

/// The edges of the accepted inputs: an amount of zero or of `i128::MAX` is
/// accepted, -1 is rejected as invalid, a salt of 256 bytes (or none) is
/// accepted and one of 257 bytes is rejected as too long.
pub proof fn lemma_commitment_bounds(owner: Seq<u8>, salt: Seq<u8>)
    ensures
        salt.len() <= MAX_SALT_LENGTH ==> commitment_outcome(owner, 0, salt) is Ok,
        salt.len() <= MAX_SALT_LENGTH ==> commitment_outcome(owner, i128::MAX, salt) is Ok,
        commitment_outcome(owner, -1i128, salt) == Err::<Seq<u8>, CommitmentError>(
            CommitmentError::InvalidAmount,
        ),
        salt.len() == 256 ==> commitment_outcome(owner, 0, salt) is Ok,
        commitment_outcome(owner, 0, Seq::<u8>::empty()) is Ok,
        salt.len() == 257 ==> commitment_outcome(owner, 0, salt) == Err::<Seq<u8>, CommitmentError>(
            CommitmentError::SaltTooLong,
        ),
{
}

} // verus!
