//! A second, stand-alone recursive factorial.

use vstd::prelude::*;

use crate::factorial::factorial;
use crate::factorial::lemma_factorial_monotonic;

verus! {

/// Computes `n!`, with `n!` = `n * (n - 1)!` and `0!` = `1!` = `1`; `n!`
/// must fit in a `u64`.
pub fn fact(n: u64) -> (r: u64)
    requires
        factorial(n as nat) <= u64::MAX,
    ensures
        r == factorial(n as nat),
    decreases n,
{
    if n <= 1 {
        return 1;
    }
    proof {
        lemma_factorial_monotonic((n - 1) as nat, n as nat);
    }
    let sub = fact(n - 1);
    n * sub
}

} // verus!
