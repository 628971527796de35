//! The accumulator sink that defeats dead-code elimination: every kernel
//! result, or a fixed-count readout of its output buffer, is folded into a
//! live value that the harness prints after the whole run. Wrapping addition
//! keeps the fold total. The readout of random indices draws them from
//! rand's thread-local generator.

use vstd::prelude::*;

verus! {

/// The accumulator after folding the elements of `s` into `acc`, in order,
/// with wrapping 32-bit unsigned addition.
pub open spec fn wrap_sum_u32(acc: u32, s: Seq<u32>) -> u32
    decreases s.len(),
{
    if s.len() == 0 {
        acc
    } else {
        wrap_sum_u32(acc, s.drop_last()).wrapping_add(s.last())
    }
}

/// The accumulator after folding the elements of `s` into `acc`, in order,
/// with wrapping 32-bit signed addition.
pub open spec fn wrap_sum_i32(acc: i32, s: Seq<i32>) -> i32
    decreases s.len(),
{
    if s.len() == 0 {
        acc
    } else {
        wrap_sum_i32(acc, s.drop_last()).wrapping_add(s.last())
    }
}

/// Folds a scalar kernel result into the accumulator.
pub fn accumulate_result(acc: u32, result: u32) -> (r: u32)
    ensures
        r == acc.wrapping_add(result),
{
    acc.wrapping_add(result)
}

/// Readout for in-place kernels: folds the first ten elements of the
/// post-call buffer into the accumulator, or the whole buffer when it is
/// shorter than ten.
pub fn readout_first10(acc: i32, data: &Vec<i32>) -> (r: i32)
    ensures
        r == wrap_sum_i32(
            acc,
            data@.take(if data@.len() < 10 { data@.len() as int } else { 10 }),
        ),
{
    let end = if data.len() < 10 {
        data.len()
    } else {
        10
    };
    let mut r = acc;
    let mut k: usize = 0;
    while k < end
        invariant
            k <= end <= data.len(),
            r == wrap_sum_i32(acc, data@.take(k as int)),
        decreases end - k,
    {
        r = r.wrapping_add(data[k]);
        proof {
            assert(data@.take(k + 1).drop_last() =~= data@.take(k as int));
        }
        k += 1;
    }
    r
}

/// Readout for vector-returning kernels: folds every element of the result
/// into the accumulator.
pub fn readout_all(acc: u32, data: &Vec<u32>) -> (r: u32)
    ensures
        r == wrap_sum_u32(acc, data@),
{
    let mut r = acc;
    let mut k: usize = 0;
    while k < data.len()
        invariant
            k <= data.len(),
            r == wrap_sum_u32(acc, data@.take(k as int)),
        decreases data.len() - k,
    {
        r = r.wrapping_add(data[k]);
        proof {
            assert(data@.take(k + 1).drop_last() =~= data@.take(k as int));
        }
        k += 1;
    }
    proof {
        assert(data@.take(data.len() as int) =~= data@);
    }
    r
}

/// rand's thread-local generator handle, opaque to the verifier.
#[verifier::external_type_specification]
#[verifier::external_body]
pub struct ExThreadRng(rand::rngs::ThreadRng);

/// Relies on Rng::random_range over the range 0..len: returns an index drawn
/// below `len`. The call panics on an empty range, which the precondition
/// rules out.
#[verifier::external_body]
fn random_index(rng: &mut rand::rngs::ThreadRng, len: usize) -> (r: usize)
    requires
        len > 0,
    ensures
        r < len,
{
    rand::Rng::random_range(rng, 0..len)
}

/// Readout for vector-returning kernels: folds ten elements of the result,
/// at indices drawn from the thread-local generator, into the accumulator.
/// Whatever the draws, the result is a wrapping fold of ten elements of the
/// buffer.
pub fn readout_random10(rng: &mut rand::rngs::ThreadRng, acc: u32, data: &Vec<u32>) -> (r: u32)
    requires
        data.len() > 0,
    ensures
        exists|picks: Seq<u32>|
            picks.len() == 10 && (forall|k: int| 0 <= k < 10 ==> data@.contains(#[trigger] picks[k]))
                && r == wrap_sum_u32(acc, picks),
{
    let mut r = acc;
    let mut k: usize = 0;
    let ghost mut picks: Seq<u32> = Seq::empty();
    while k < 10
        invariant
            k <= 10,
            data.len() > 0,
            picks.len() == k,
            forall|j: int| 0 <= j < k ==> data@.contains(#[trigger] picks[j]),
            r == wrap_sum_u32(acc, picks),
        decreases 10 - k,
    {
        let idx = random_index(rng, data.len());
        r = r.wrapping_add(data[idx]);
        proof {
            let prev = picks;
            picks = picks.push(data@[idx as int]);
            assert(picks.drop_last() =~= prev);
        }
        k += 1;
    }
    r
}

} // verus!
