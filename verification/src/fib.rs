//! The naive doubly-recursive Fibonacci kernel. The recursive shape is the
//! workload being benchmarked, so the executable function keeps it.

use vstd::prelude::*;

verus! {

/// The Fibonacci numbers: F(0) = 0, F(1) = 1, F(n) = F(n-1) + F(n-2).
pub open spec fn fib(n: nat) -> nat
    decreases n,
{
    if n == 0 {
        0
    } else if n == 1 {
        1
    } else {
        fib((n - 1) as nat) + fib((n - 2) as nat)
    }
}

/// The Fibonacci numbers never decrease as the index grows.
pub proof fn lemma_fib_monotonic(i: nat, j: nat)
    requires
        i <= j,
    ensures
        fib(i) <= fib(j),
    decreases j - i,
{
    if i < j && j >= 2 {
        lemma_fib_monotonic(i, (j - 1) as nat);
    }
}

/// The recurrence that defines the sequence: the base values and, for every
/// index past the first two, the sum of the two predecessors.
pub proof fn lemma_fibonacci_recurrence(n: nat)
    requires
        2 <= n,
    ensures
        fib(0) == 0,
        fib(1) == 1,
        fib(n) == fib((n - 1) as nat) + fib((n - 2) as nat),
{
}

/// The n-th Fibonacci number by the naive doubly-recursive definition.
pub fn fibonacci(n: u32) -> (r: u32)
    requires
        fib(n as nat) <= u32::MAX,
    ensures
        r == fib(n as nat),
    decreases n,
{
    match n {
        0 => 0,
        1 => 1,
        _ => {
            proof {
                lemma_fib_monotonic((n - 1) as nat, n as nat);
                lemma_fib_monotonic((n - 2) as nat, n as nat);
            }
            fibonacci(n - 1) + fibonacci(n - 2)
        },
    }
}

} // verus!
