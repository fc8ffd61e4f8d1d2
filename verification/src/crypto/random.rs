//! Random bytes, by the `rand` crate.

use rand::RngCore;
use vstd::prelude::*;

verus! {

/// `N` bytes from the thread's random generator, by `RngCore::fill_bytes` on
/// `rand::thread_rng()`.
///
/// Trusted: the call returns. Nothing is promised of the bytes.
#[verifier::external_body]
pub(crate) fn random_bytes<const N: usize>() -> (r: [u8; N]) {
    let mut out = [0u8; N];
    rand::thread_rng().fill_bytes(&mut out);
    out
}

} // verus!
