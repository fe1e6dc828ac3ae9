//! The one door to the hashers of the standard library.

use vstd::prelude::*;

verus! {

/// `Hasher::write_u64`: hands one 64-bit integer to the hasher. What the
/// hasher makes of it is its own affair, so nothing is claimed of the state.
#[verifier::external_body]
pub(crate) fn feed<S: core::hash::Hasher>(state: &mut S, code: u64) {
    state.write_u64(code);
}

} // verus!
