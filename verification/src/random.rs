//! The one source of chance.
use vstd::prelude::*;

verus! {

/// One coin flip: `rand::random::<bool>()`, drawn from the generator that
/// the `rand` crate keeps for each thread and seeds from the operating
/// system.
///
/// Nothing is claimed of the value. The call panics if the operating system
/// cannot seed the generator.
#[verifier::external_body]
pub(crate) fn coin_flip() -> bool {
    rand::random()
}

/// As many coin flips as asked for, each drawn on its own.
pub(crate) fn coin_flips(n: usize) -> (flips: Vec<bool>)
    ensures
        flips.len() == n,
{
    let mut flips: Vec<bool> = Vec::new();
    for i in 0..n
        invariant
            flips.len() == i,
    {
        flips.push(coin_flip());
    }
    flips
}

} // verus!
