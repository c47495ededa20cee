use rand::Rng;
use vstd::prelude::*;

verus! {

/// Calls `rand::thread_rng().gen_range(0, bound)`. The contract claims only
/// what the rand documentation promises: the value lies in `0..bound`
/// (the call panics on an empty range, which `requires` rules out). Which
/// value comes out rests on chance and is left unsaid.
#[verifier::external_body]
pub(crate) fn random_below(bound: u32) -> (r: u32)
    requires
        bound > 0,
    ensures
        r < bound,
{
    rand::thread_rng().gen_range(0, bound)
}

/// Calls `rand::random::<u8>()`. Any byte may come out; nothing is promised
/// of its value.
#[verifier::external_body]
pub(crate) fn random_byte() -> (b: u8) {
    rand::random::<u8>()
}

} // verus!
