//! Random bytes from the operating system.
use vstd::prelude::*;

verus! {

/// `getrandom::fill` on a buffer of `n` bytes: bytes from the operating
/// system's cryptographic random source, or `None` when the call reports
/// an error (the system gives no randomness). Only the number of bytes is
/// stated.
#[verifier::external_body]
pub(crate) fn os_random_bytes(n: usize) -> (r: Option<Vec<u8>>)
    ensures
        r matches Some(v) ==> v@.len() == n,
{
    let mut buf = vec![0u8; n];
    match getrandom::fill(&mut buf) {
        Ok(()) => Some(buf),
        Err(_) => None,
    }
}

} // verus!
