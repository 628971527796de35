//! Prime counting by the sieve of Eratosthenes: a boolean table up to the
//! limit, multiples of each surviving number struck out from its square on.
//! The contract equates the result with a declarative prime counter.

use vstd::prelude::*;
use vstd::arithmetic::div_mod::lemma_fundamental_div_mod;
use vstd::arithmetic::div_mod::lemma_mod_multiples_basic;

verus! {

/// `n` is prime: at least 2 and without a divisor strictly between 1 and n.
pub open spec fn is_prime(n: int) -> bool {
    n >= 2 && forall|d: int| 2 <= d < n ==> #[trigger] (n % d) != 0
}

/// Number of primes p with 2 <= p <= limit.
pub open spec fn prime_count(limit: int) -> nat
    decreases limit,
{
    if limit < 2 {
        0
    } else if is_prime(limit) {
        prime_count(limit - 1) + 1
    } else {
        prime_count(limit - 1)
    }
}

/// There are at most limit - 1 primes up to `limit`.
proof fn lemma_prime_count_bound(limit: int)
    requires
        limit >= 1,
    ensures
        prime_count(limit) <= limit - 1,
    decreases limit,
{
    if limit > 1 {
        lemma_prime_count_bound(limit - 1);
    }
}

/// `n` has a proper divisor that is at least 2 and below `bound`.
spec fn has_factor_below(n: int, bound: int) -> bool {
    exists|d: int| 2 <= d < bound && d < n && #[trigger] (n % d) == 0
}

/// The sieve table after all numbers below `bound` have been processed:
/// entry i survives exactly when i is at least 2 and no number below `bound`
/// is a proper divisor of i.
spec fn table_at(t: Seq<bool>, bound: int) -> bool {
    forall|i: int| 0 <= i < t.len() ==> t[i] == (i >= 2 && !has_factor_below(i, bound))
}

/// Divisibility carries over a middle term: if d divides n and n divides i,
/// then d divides i.
proof fn lemma_divides_transitive(d: int, n: int, i: int)
    requires
        2 <= d,
        2 <= n,
        n % d == 0,
        i % n == 0,
    ensures
        i % d == 0,
{
    lemma_fundamental_div_mod(n, d);
    lemma_fundamental_div_mod(i, n);
    let b = n / d;
    let a = i / n;
    assert(i == d * (b * a)) by (nonlinear_arith)
        requires
            n == d * b,
            i == n * a,
    ;
    lemma_mod_multiples_basic(b * a, d);
    assert((d * (b * a)) % d == 0) by {
        assert(d * (b * a) == (b * a) * d) by (nonlinear_arith);
    };
}

/// A multiple of `num` strictly above another multiple is at least `num`
/// further on.
proof fn lemma_next_multiple(num: int, lower: int, i: int)
    requires
        2 <= num,
        lower % num == 0,
        i % num == 0,
        lower < i,
    ensures
        lower + num <= i,
{
    lemma_fundamental_div_mod(lower, num);
    lemma_fundamental_div_mod(i, num);
    let a = lower / num;
    let b = i / num;
    assert(lower + num <= i) by (nonlinear_arith)
        requires
            lower == num * a,
            i == num * b,
            lower < i,
            num >= 2,
    ;
}

/// A composite number whose least relevant factor is not below `num` and
/// that is a proper multiple of `num` is at least num * num.
proof fn lemma_square_reach(num: int, i: int)
    requires
        2 <= num,
        num < i,
        i % num == 0,
        !has_factor_below(i, num),
    ensures
        num * num <= i,
{
    lemma_fundamental_div_mod(i, num);
    let k = i / num;
    assert(i == num * k);
    assert(k >= 2) by (nonlinear_arith)
        requires
            i == num * k,
            num >= 2,
            i > num,
    ;
    if k < num {
        assert(i % k == 0) by {
            lemma_mod_multiples_basic(num, k);
            assert(num * k == k * num) by (nonlinear_arith);
        };
        assert(k < i) by (nonlinear_arith)
            requires
                i == num * k,
                num >= 2,
                k >= 2,
        ;
        assert(has_factor_below(i, num));
    } else {
        assert(num * num <= num * k) by (nonlinear_arith)
            requires
                num >= 2,
                k >= num,
        ;
    }
}

/// Count of primes in [2, limit] by sieving: a table of limit + 1 flags,
/// 0 and 1 struck out, then for each surviving number its multiples from
/// its square upward.
pub fn eratostenes(limit: u32) -> (r: u32)
    requires
        limit as int + 1 <= usize::MAX,
        2 * (limit as int) <= usize::MAX,
    ensures
        r == prime_count(limit as int),
{
    let lim: usize = limit as usize;
    let mut table: Vec<bool> = Vec::new();
    let mut t: usize = 0;
    while t < lim + 1
        invariant
            lim + 1 <= usize::MAX,
            t <= lim + 1,
            table.len() == t,
            forall|i: int| 0 <= i < t ==> table@[i],
        decreases lim + 1 - t,
    {
        table.push(true);
        t += 1;
    }
    table.set(0, false);
    if lim >= 1 {
        table.set(1, false);
    }
    assert(table_at(table@, 2));

    let mut count: u32 = 0;
    let mut num: usize = 2;
    while num <= lim
        invariant
            2 <= num,
            num <= lim + 1 || num == 2,
            lim == limit as int,
            lim + 1 <= usize::MAX,
            2 * lim <= usize::MAX,
            table.len() == lim + 1,
            count == prime_count(num - 1),
            table_at(table@, num as int),
        decreases lim + 1 - num,
    {
        let ghost snap_outer = table@;
        if table[num] {
            assert(is_prime(num as int)) by {
                assert(!has_factor_below(num as int, num as int));
                assert forall|d: int| 2 <= d < num implies #[trigger] ((num as int) % d) != 0 by {
                    if (num as int) % d == 0 {
                        assert(has_factor_below(num as int, num as int));
                    }
                };
            };
            proof {
                lemma_prime_count_bound(num as int);
            }
            count += 1;
            if num <= lim / num {
                proof {
                    lemma_fundamental_div_mod(lim as int, num as int);
                }
                assert(num * num <= lim) by (nonlinear_arith)
                    requires
                        num >= 2,
                        num <= lim / num,
                        lim / num == (lim as int) / (num as int),
                        lim as int == (num as int) * ((lim as int) / (num as int)) + (lim as int)
                            % (num as int),
                        (lim as int) % (num as int) >= 0,
                ;
                let mut multiple: usize = num * num;
                proof {
                    lemma_mod_multiples_basic(num as int, num as int);
                }
                while multiple <= lim
                    invariant
                        2 <= num,
                        num * num <= multiple,
                        (multiple as int) % (num as int) == 0,
                        lim + 1 <= usize::MAX,
                        2 * lim <= usize::MAX,
                        num <= lim,
                        table.len() == lim + 1,
                        snap_outer.len() == lim + 1,
                        forall|i: int| #![trigger snap_outer[i]]
                            0 <= i < table.len() ==> table@[i] == (snap_outer[i] && !(num * num
                                <= i < multiple && (i % (num as int)) == 0)),
                    decreases lim + num - multiple,
                {
                    table.set(multiple, false);
                    proof {
                        assert forall|i: int|
                            multiple < i < multiple + num implies #[trigger] (i % (num as int))
                            != 0 by {
                            if i % (num as int) == 0 {
                                lemma_next_multiple(num as int, multiple as int, i);
                            }
                        };
                        lemma_mod_multiples_basic(multiple as int / (num as int) + 1, num as int);
                        lemma_fundamental_div_mod(multiple as int, num as int);
                        assert((multiple + num) as int % (num as int) == 0) by {
                            assert(multiple + num == ((multiple as int) / (num as int) + 1) * (
                            num as int)) by (nonlinear_arith)
                                requires
                                    multiple as int == (num as int) * ((multiple as int) / (
                                    num as int)),
                            ;
                        };
                    }
                    multiple += num;
                    proof {
                        let m0 = multiple - num;
                        assert forall|i: int| #![trigger snap_outer[i]]
                            0 <= i < table.len() implies table@[i] == (snap_outer[i] && !(num
                            * num <= i < multiple && (i % (num as int)) == 0)) by {
                            if i == m0 {
                                assert((i % (num as int)) == 0);
                                assert(!table@[i]);
                            } else if m0 < i < multiple {
                                assert((i % (num as int)) != 0);
                            } else {
                                assert(table@[i] == (snap_outer[i] && !(num * num <= i < m0 && (
                                i % (num as int)) == 0)));
                            }
                        };
                    }
                }
                proof {
                    assert forall|i: int| 0 <= i < table.len() implies table@[i] == (i >= 2
                        && !has_factor_below(i, num + 1)) by {
                        assert(table@[i] == (snap_outer[i] && !(num * num <= i < multiple && (i
                            % (num as int)) == 0)));
                        lemma_table_step_prime(snap_outer, table@, num as int, multiple as int, i);
                    };
                }
            } else {
                proof {
                    assert((lim as int) / (num as int) == lim / num);
                    lemma_fundamental_div_mod(lim as int, num as int);
                    assert(lim < num * num) by (nonlinear_arith)
                        requires
                            num >= 2,
                            num > (lim as int) / (num as int),
                            lim as int == (num as int) * ((lim as int) / (num as int)) + (
                            lim as int) % (num as int),
                            (lim as int) % (num as int) < num,
                    ;
                    assert forall|i: int| 0 <= i < table.len() implies table@[i] == (i >= 2
                        && !has_factor_below(i, num + 1)) by {
                        lemma_table_step_prime(snap_outer, table@, num as int, num * num, i);
                    };
                }
            }
        } else {
            assert(has_factor_below(num as int, num as int));
            proof {
                assert forall|i: int| 0 <= i < table.len() implies table@[i] == (i >= 2
                    && !has_factor_below(i, num + 1)) by {
                    if i >= 2 && !has_factor_below(i, num as int) && has_factor_below(
                        i,
                        num + 1,
                    ) {
                        let d = choose|d: int|
                            2 <= d < num + 1 && d < i && #[trigger] (i % d) == 0;
                        assert(d == num);
                        let e = choose|e: int|
                            2 <= e < num && e < num && #[trigger] ((num as int) % e) == 0;
                        lemma_divides_transitive(e, num as int, i);
                        assert(has_factor_below(i, num as int));
                    }
                };
            }
        }
        num += 1;
    }
    count
}

/// After the pass for `num` (a surviving entry) has struck out the multiples
/// of num in [num * num, cap), with every multiple of num up to the table's
/// end below cap, the table describes the factors below num + 1.
proof fn lemma_table_step_prime(snap: Seq<bool>, t: Seq<bool>, num: int, cap: int, i: int)
    requires
        2 <= num,
        num * num <= cap,
        snap.len() == t.len(),
        t.len() <= cap,
        0 <= i < t.len(),
        forall|j: int| 0 <= j < snap.len() ==> snap[j] == (j >= 2 && !has_factor_below(j, num)),
        t[i] == (snap[i] && !(num * num <= i < cap && i % num == 0)),
    ensures
        t[i] == (i >= 2 && !has_factor_below(i, num + 1)),
{
    if i >= 2 && !has_factor_below(i, num) {
        // the entry survived the earlier passes; it is struck now exactly
        // when num is a proper divisor of i
        if num * num <= i && i % num == 0 {
            assert(num < i) by (nonlinear_arith)
                requires
                    num >= 2,
                    num * num <= i,
            ;
            assert(has_factor_below(i, num + 1));
        }
        if has_factor_below(i, num + 1) && !(num * num <= i && i % num == 0) {
            let d = choose|d: int| 2 <= d < num + 1 && d < i && #[trigger] (i % d) == 0;
            if d == num {
                lemma_square_reach(num, i);
            } else {
                assert(has_factor_below(i, num));
            }
        }
    } else {
        if has_factor_below(i, num) {
            let d = choose|d: int| 2 <= d < num && d < i && #[trigger] (i % d) == 0;
            assert(2 <= d < num + 1 && d < i && i % d == 0);
            assert(has_factor_below(i, num + 1));
        }
    }
}

} // verus!
