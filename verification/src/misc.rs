//! Reading a randomness request record and turning its value into a number.

use vstd::prelude::*;

use vstd::bytes::{spec_u64_from_le_bytes, u64_from_le_bytes};
use vstd::slice::slice_subrange;

use crate::errors::GameError;
use crate::oracle::{Oracle, Randomness};

verus! {

/// The randomness request record stored for `force`, or
/// `UninitializedAccount` if no request was ever made for that seed.
pub fn get_account_data(oracle: &Oracle, force: &[u8; 32]) -> (r: Result<Randomness, GameError>)
    ensures
        r == (if oracle@.contains_key(force@) {
            Ok::<Randomness, GameError>(oracle@[force@])
        } else {
            Err::<Randomness, GameError>(GameError::UninitializedAccount)
        }),
{
    match oracle.get(force) {
        Some(rec) => Ok(rec),
        None => Err(GameError::UninitializedAccount),
    }
}

/// The first 8 bytes of `v`, read as an unsigned little-endian integer.
pub fn random_u64(v: &[u8; 64]) -> (r: u64)
    ensures
        r == spec_u64_from_le_bytes(v@.subrange(0, 8)),
{
    let s = slice_subrange(v.as_slice(), 0, 8);
    u64_from_le_bytes(s)
}

/// The request's fulfilled value as an unsigned 64-bit little-endian integer
/// taken from its first 8 bytes, or `0` while the request is pending.
pub fn current_state(randomness: &Randomness) -> (r: u64)
    ensures
        r == (match randomness.spec_fulfilled() {
            Some(v) => spec_u64_from_le_bytes(v.subrange(0, 8)),
            None => 0u64,
        }),
{
    match randomness.fulfilled() {
        Some(value) => random_u64(&value),
        None => 0,
    }
}

} // verus!
