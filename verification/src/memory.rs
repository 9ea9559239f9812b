//! Memory that may be refused.
use vstd::prelude::*;

verus! {

/// Calls `Vec::try_reserve_exact`, which leaves the contents as they are. The
/// allocator decides whether it succeeds; a refusal comes with its words.
#[verifier::external_body]
pub(crate) fn reserve_exact(bytes: &mut Vec<u8>, additional: usize) -> (out: Result<(), String>)
    ensures
        final(bytes)@ == old(bytes)@,
{
    bytes.try_reserve_exact(additional).map_err(|e| e.to_string())
}

/// The bytes that `held` bytes lack to be `wanted` bytes.
pub fn missing(held: usize, wanted: usize) -> (n: usize)
    ensures
        n == if held < wanted {
            wanted - held
        } else {
            0
        },
{
    if held < wanted {
        wanted - held
    } else {
        0
    }
}

} // verus!
