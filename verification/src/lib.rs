//! Verified core of a microbenchmark harness: a catalog of compute kernels
//! with exact numeric contracts, plus the decision logic of the measurement
//! loop (warmup caps, descriptor dispatch, accumulator readouts) and the
//! serialization of sample logs.

pub mod accum;
pub mod dispatch;
pub mod fib;
pub mod matrix;
pub mod queens;
pub mod sieve;
pub mod sink;
pub mod sort;
pub mod warmup;

pub use accum::{accumulate_result, readout_all, readout_first10, readout_random10};
pub use dispatch::{resolve_kernel, KernelId};
pub use fib::{fib, fibonacci, lemma_fib_monotonic, lemma_fibonacci_recurrence};
pub use matrix::{matrix_dims_ok, output_matrix_size};
pub use queens::{nqueens, nqueens_count};
pub use sieve::{eratostenes, is_prime, prime_count};
pub use sink::{output_filename, render_samples, u64_to_dec};
pub use sort::{quicksort, sorted, sorted_between, lemma_sorted_permutation_unique};
pub use warmup::{warmup_should_continue, WARMUP_ITERS, WARMUP_TIME_SECS};

use vstd::prelude::*;

verus! {

/// Label of the runtime environment used in output filenames when the
/// caller supplies none.
pub fn get_target_string() -> (r: &'static str)
    ensures
        r@ == "native"@,
{
    "native"
}

/// Determinism of the non-stochastic kernels: any two results that meet a
/// kernel's contract on the same input are equal. For the scalar kernels the
/// contract equates the result with a mathematical function of the input;
/// for the in-place sort, a non-decreasing arrangement of a given multiset
/// of elements is unique.
pub proof fn lemma_kernels_deterministic(
    n: u32,
    f1: u32,
    f2: u32,
    limit: u32,
    e1: u32,
    e2: u32,
    q: u32,
    q1: u32,
    q2: u32,
    s: Seq<i32>,
    t1: Seq<i32>,
    t2: Seq<i32>,
)
    requires
        f1 == fib(n as nat),
        f2 == fib(n as nat),
        e1 == prime_count(limit as int),
        e2 == prime_count(limit as int),
        q1 == nqueens_count(q as int),
        q2 == nqueens_count(q as int),
        t1.to_multiset() == s.to_multiset(),
        sorted(t1),
        t2.to_multiset() == s.to_multiset(),
        sorted(t2),
    ensures
        f1 == f2,
        e1 == e2,
        q1 == q2,
        t1 == t2,
{
    lemma_sorted_permutation_unique(t1, t2);
}

} // verus!
