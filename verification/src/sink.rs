//! The result sink's serialization: a sample log becomes a single line that
//! is a JSON array of non-negative integers, and the output file's name is
//! built from the runtime label and the descriptor name.

use vstd::prelude::*;
use vstd::string::StringExecFns;

verus! {

/// The decimal digit character for a value between 0 and 9.
pub open spec fn digit_char(d: int) -> char {
    if d == 0 {
        '0'
    } else if d == 1 {
        '1'
    } else if d == 2 {
        '2'
    } else if d == 3 {
        '3'
    } else if d == 4 {
        '4'
    } else if d == 5 {
        '5'
    } else if d == 6 {
        '6'
    } else if d == 7 {
        '7'
    } else if d == 8 {
        '8'
    } else {
        '9'
    }
}

/// Decimal representation of `n`, most significant digit first, without
/// leading zeros (a single '0' for zero).
pub open spec fn dec_str(n: nat) -> Seq<char>
    decreases n,
{
    if n < 10 {
        seq![digit_char(n as int)]
    } else {
        dec_str(n / 10).push(digit_char((n % 10) as int))
    }
}

/// The inside of the JSON array: the samples in measurement order, in
/// decimal, separated by a comma and a space.
pub open spec fn samples_inner(s: Seq<u64>) -> Seq<char>
    decreases s.len(),
{
    if s.len() == 0 {
        Seq::empty()
    } else if s.len() == 1 {
        dec_str(s[0] as nat)
    } else {
        samples_inner(s.drop_last()) + seq![',', ' '] + dec_str(s.last() as nat)
    }
}

/// The serialized sample log: a JSON array of the samples in measurement
/// order.
pub open spec fn samples_json(s: Seq<u64>) -> Seq<char> {
    seq!['['] + samples_inner(s) + seq![']']
}

/// The single decimal digit `d` as a string.
fn digit_str(d: u64) -> (r: &'static str)
    requires
        d < 10,
    ensures
        r@ == seq![digit_char(d as int)],
{
    if d == 0 {
        proof { reveal_strlit("0"); }
        "0"
    } else if d == 1 {
        proof { reveal_strlit("1"); }
        "1"
    } else if d == 2 {
        proof { reveal_strlit("2"); }
        "2"
    } else if d == 3 {
        proof { reveal_strlit("3"); }
        "3"
    } else if d == 4 {
        proof { reveal_strlit("4"); }
        "4"
    } else if d == 5 {
        proof { reveal_strlit("5"); }
        "5"
    } else if d == 6 {
        proof { reveal_strlit("6"); }
        "6"
    } else if d == 7 {
        proof { reveal_strlit("7"); }
        "7"
    } else if d == 8 {
        proof { reveal_strlit("8"); }
        "8"
    } else {
        proof { reveal_strlit("9"); }
        "9"
    }
}

/// Decimal rendering of a 64-bit unsigned integer.
pub fn u64_to_dec(n: u64) -> (r: String)
    ensures
        r@ == dec_str(n as nat),
    decreases n,
{
    if n < 10 {
        digit_str(n).to_owned()
    } else {
        let mut s = u64_to_dec(n / 10);
        s.append(digit_str(n % 10));
        proof {
            assert(dec_str(n as nat) == dec_str((n as nat) / 10).push(
                digit_char(((n as nat) % 10) as int),
            ));
            assert(dec_str((n / 10) as nat).push(digit_char((n % 10) as int)) =~= dec_str(
                (n / 10) as nat,
            ) + seq![digit_char((n % 10) as int)]);
        }
        s
    }
}

/// One line of output: the sample log as a JSON array of non-negative
/// decimal integers, in measurement order.
pub fn render_samples(times: &Vec<u64>) -> (r: String)
    ensures
        r@ == samples_json(times@),
{
    let mut out = String::from_str("[");
    proof {
        reveal_strlit("[");
        assert("["@ =~= seq!['[']);
        assert(samples_inner(times@.take(0)) =~= Seq::<char>::empty());
        assert(out@ =~= seq!['['] + samples_inner(times@.take(0)));
    }
    let mut i: usize = 0;
    while i < times.len()
        invariant
            i <= times.len(),
            out@ == seq!['['] + samples_inner(times@.take(i as int)),
        decreases times.len() - i,
    {
        if i > 0 {
            out.append(", ");
            proof {
                reveal_strlit(", ");
                assert(", "@ =~= seq![',', ' ']);
            }
        }
        let num = u64_to_dec(times[i]);
        out.append(num.as_str());
        proof {
            let t1 = times@.take(i + 1);
            assert(t1.drop_last() =~= times@.take(i as int));
            assert(t1.last() == times@[i as int]);
            if i == 0 {
                assert(samples_inner(t1) == dec_str(t1[0] as nat));
                assert(t1[0] == times@[0]);
                assert(out@ =~= seq!['['] + samples_inner(t1));
            } else {
                assert(samples_inner(t1) == samples_inner(t1.drop_last()) + seq![',', ' ']
                    + dec_str(t1.last() as nat));
                assert(out@ =~= seq!['['] + samples_inner(t1));
            }
        }
        i += 1;
    }
    out.append("]");
    proof {
        reveal_strlit("]");
        assert("]"@ =~= seq![']']);
        assert(times@.take(times.len() as int) =~= times@);
        assert(out@ =~= samples_json(times@));
    }
    out
}

/// The deterministic name of the output file for one descriptor: the fixed
/// prefix, the runtime label and the descriptor name, with the JSON suffix.
pub fn output_filename(runtime: &str, name: &str) -> (r: String)
    ensures
        r@ == "benchmark_times_"@ + runtime@ + "_"@ + name@ + ".json"@,
{
    let mut out = String::from_str("benchmark_times_");
    out.append(runtime);
    out.append("_");
    out.append(name);
    out.append(".json");
    proof {
        assert(out@ =~= "benchmark_times_"@ + runtime@ + "_"@ + name@ + ".json"@);
    }
    out
}

} // verus!
