//! Factorials, computed both recursively and iteratively; the two agree
//! because both return exactly the mathematical factorial.

use vstd::prelude::*;

verus! {

/// The mathematical factorial: `0!` and `1!` are `1`, and `n!` is
/// `n * (n - 1)!`.
pub open spec fn factorial(n: nat) -> nat
    decreases n,
{
    if n <= 1 {
        1
    } else {
        n * factorial((n - 1) as nat)
    }
}

pub proof fn lemma_factorial_at_least_one(n: nat)
    ensures
        factorial(n) >= 1,
    decreases n,
{
    if n > 1 {
        lemma_factorial_at_least_one((n - 1) as nat);
        assert(n * factorial((n - 1) as nat) >= 1) by (nonlinear_arith)
            requires
                n >= 2,
                factorial((n - 1) as nat) >= 1,
        ;
    }
}

/// Factorial never shrinks as its argument grows.
pub proof fn lemma_factorial_monotonic(a: nat, b: nat)
    requires
        a <= b,
    ensures
        factorial(a) <= factorial(b),
    decreases b,
{
    if a < b && b >= 2 {
        lemma_factorial_monotonic(a, (b - 1) as nat);
        lemma_factorial_at_least_one((b - 1) as nat);
        assert(b * factorial((b - 1) as nat) >= factorial((b - 1) as nat)) by (nonlinear_arith)
            requires
                b >= 1,
                factorial((b - 1) as nat) >= 0,
        ;
    }
}

/// Computes `n!` by recursion; `n!` must fit in a `u64`.
pub fn recursive_factorial(n: u64) -> (r: u64)
    requires
        factorial(n as nat) <= u64::MAX,
    ensures
        r == factorial(n as nat),
    decreases n,
{
    if n <= 1 {
        1
    } else {
        proof {
            lemma_factorial_monotonic((n - 1) as nat, n as nat);
        }
        let sub = recursive_factorial(n - 1);
        n * sub
    }
}

/// Computes `n!` by iteration; `n!` must fit in a `u64`.
pub fn iterative_factorial(n: u64) -> (r: u64)
    requires
        factorial(n as nat) <= u64::MAX,
    ensures
        r == factorial(n as nat),
{
    let mut result: u64 = 1;
    let mut i: u64 = 1;
    while i < n
        invariant
            factorial(n as nat) <= u64::MAX,
            1 <= i,
            i <= n || (n == 0 && i == 1),
            result == factorial(i as nat),
        decreases n - i,
    {
        i = i + 1;
        proof {
            lemma_factorial_monotonic(i as nat, n as nat);
            assert(factorial(i as nat) == i * factorial((i - 1) as nat));
            assert(result == factorial((i - 1) as nat));
            assert(result as int * i as int == factorial(i as nat)) by (nonlinear_arith)
                requires
                    result == factorial((i - 1) as nat),
                    factorial(i as nat) == i * factorial((i - 1) as nat),
            ;
        }
        result = result * i;
    }
    result
}

} // verus!
