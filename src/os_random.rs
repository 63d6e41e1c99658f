//! The operating system's random bytes.

use rand::RngCore;
use vstd::prelude::*;

verus! {

#[verifier::external_type_specification]
#[verifier::external_body]
pub struct ExRandError(rand::Error);

/// Relies on `RngCore::try_fill_bytes` of `rand::rngs::OsRng`, which hands
/// `dest` to `getrandom`: it never changes the length of `dest`, and on `Ok`
/// every byte of `dest` was written by the operating system's source. Nothing
/// is promised of the bytes themselves, nor that the call succeeds.
#[verifier::external_body]
pub(crate) fn fill_from_os(dest: &mut Vec<u8>) -> (r: Result<(), rand::Error>)
    ensures
        final(dest)@.len() == old(dest)@.len(),
{
    rand::rngs::OsRng.try_fill_bytes(dest.as_mut_slice())
}

} // verus!
