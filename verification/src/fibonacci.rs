//! The Fibonacci numbers.

use vstd::prelude::*;

verus! {

/// The Fibonacci sequence: `fib(0) = 0`, `fib(1) = 1`, and every later
/// number is the sum of the two before it.
pub open spec fn fib(n: nat) -> nat
    decreases n,
{
    if n == 0 {
        0
    } else if n == 1 {
        1
    } else {
        fib((n - 1) as nat) + fib((n - 2) as nat)
    }
}

/// The Fibonacci sequence never shrinks.
pub proof fn lemma_fib_monotonic(a: nat, b: nat)
    requires
        a <= b,
    ensures
        fib(a) <= fib(b),
    decreases b,
{
    if a < b && b >= 2 {
        lemma_fib_monotonic(a, (b - 1) as nat);
    }
}

/// Computes the `n`-th Fibonacci number by recursion; it must fit in a
/// `u64`.
pub fn fibonacci(n: u64) -> (r: u64)
    requires
        fib(n as nat) <= u64::MAX,
    ensures
        r == fib(n as nat),
    decreases n,
{
    match n {
        0 => 0,
        1 => 1,
        _ => {
            proof {
                lemma_fib_monotonic((n - 1) as nat, n as nat);
                lemma_fib_monotonic((n - 2) as nat, n as nat);
            }
            fibonacci(n - 1) + fibonacci(n - 2)
        },
    }
}

} // verus!
