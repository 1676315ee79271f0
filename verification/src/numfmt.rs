//! Human-readable renderings of measurement numbers: durations with a
//! fitting unit and two rounded decimals, and counts with thousands
//! separators.

use vstd::prelude::*;

verus! {

/// The character of one decimal digit.
pub open spec fn digit_char(d: int) -> char {
    if d == 0 {
        '0'
    } else if d == 1 {
        '1'
    } else if d == 2 {
        '2'
    } else if d == 3 {
        '3'
    } else if d == 4 {
        '4'
    } else if d == 5 {
        '5'
    } else if d == 6 {
        '6'
    } else if d == 7 {
        '7'
    } else if d == 8 {
        '8'
    } else {
        '9'
    }
}

/// The decimal digits of a non-negative number, most significant first.
pub open spec fn dec_rep(n: int) -> Seq<char>
    decreases n,
{
    if n < 10 {
        seq![digit_char(n)]
    } else {
        dec_rep(n / 10).push(digit_char(n % 10))
    }
}

/// Digits with a comma before every group of three, counted from the end.
pub open spec fn grouped(s: Seq<char>) -> Seq<char>
    decreases s.len(),
{
    if s.len() <= 3 {
        s
    } else {
        grouped(s.take(s.len() - 3)) + seq![','] + s.skip(s.len() - 3)
    }
}

/// A fraction of a hundred as exactly two digits.
pub open spec fn two_frac(f: int) -> Seq<char> {
    if f < 10 {
        seq!['0'] + dec_rep(f)
    } else {
        dec_rep(f)
    }
}

/// Round `ns / d` to hundredths, where `d` is the unit in nanoseconds
/// divided by one hundred: halves round up.
pub open spec fn centi_of(ns: int, d: int) -> int {
    ns / d + (if ns % d >= d / 2 {
        1int
    } else {
        0int
    })
}

/// A duration in nanoseconds, rendered in the largest unit that keeps the
/// whole part below a thousand, with two rounded decimals: `999 ns`,
/// `1.50 us`, `2.25 ms`, `3.00 s`.
pub open spec fn spec_format_ns(ns: int) -> Seq<char> {
    if ns < 1000 {
        dec_rep(ns) + " ns"@
    } else if ns < 1000000 {
        let c = centi_of(ns, 10);
        dec_rep(c / 100) + seq!['.'] + two_frac(c % 100) + " us"@
    } else if ns < 1000000000 {
        let c = centi_of(ns, 10000);
        dec_rep(c / 100) + seq!['.'] + two_frac(c % 100) + " ms"@
    } else {
        let c = centi_of(ns, 10000000);
        dec_rep(c / 100) + seq!['.'] + two_frac(c % 100) + " s"@
    }
}

/// A count with thousands separators: `1,234,567`.
pub open spec fn spec_format_num(n: int) -> Seq<char> {
    grouped(dec_rep(n))
}

/// One digit as borrowed text.
fn digit_str(d: u64) -> (r: &'static str)
    requires
        d < 10,
    ensures
        r@ == seq![digit_char(d as int)],
{
    proof {
        reveal_strlit("0");
        reveal_strlit("1");
        reveal_strlit("2");
        reveal_strlit("3");
        reveal_strlit("4");
        reveal_strlit("5");
        reveal_strlit("6");
        reveal_strlit("7");
        reveal_strlit("8");
        reveal_strlit("9");
    }
    let r = match d {
        0u64 => "0",
        1u64 => "1",
        2u64 => "2",
        3u64 => "3",
        4u64 => "4",
        5u64 => "5",
        6u64 => "6",
        7u64 => "7",
        8u64 => "8",
        _ => "9",
    };
    proof {
        assert(r@ =~= seq![digit_char(d as int)]);
    }
    r
}

/// The decimal digits of `n`.
fn u64_to_dec(n: u64) -> (r: String)
    ensures
        r@ == dec_rep(n as int),
    decreases n,
{
    if n < 10 {
        let r = String::from_str(digit_str(n));
        r
    } else {
        let mut r = u64_to_dec(n / 10);
        r.append(digit_str(n % 10));
        proof {
            assert(dec_rep((n / 10) as int) + seq![digit_char((n % 10) as int)] =~= dec_rep(
                (n / 10) as int,
            ).push(digit_char((n % 10) as int)));
        }
        r
    }
}

/// Insert the thousands separators into a digit string.
fn group_digits(s: &str) -> (r: String)
    ensures
        r@ == grouped(s@),
    decreases s@.len(),
{
    let n = s.unicode_len();
    if n <= 3 {
        s.to_owned()
    } else {
        let head = s.substring_char(0, n - 3);
        let tail = s.substring_char(n - 3, n);
        let mut r = group_digits(head);
        proof {
            reveal_strlit(",");
        }
        r.append(",");
        r.append(tail);
        proof {
            assert(","@ =~= seq![',']);
            assert(head@ =~= s@.take(s@.len() - 3));
            assert(tail@ =~= s@.skip(s@.len() - 3));
            assert(grouped(head@) + ","@ + tail@ =~= grouped(s@.take(s@.len() - 3)) + seq![',']
                + s@.skip(s@.len() - 3));
        }
        r
    }
}

/// Round `ns` to hundredths of the unit whose hundredth is `d`
/// nanoseconds.
fn centi_exec(ns: u64, d: u64) -> (r: u64)
    requires
        d >= 2,
        ns / d < u64::MAX,
    ensures
        r as int == centi_of(ns as int, d as int),
{
    let q = ns / d;
    let rem = ns % d;
    if rem >= d / 2 {
        q + 1
    } else {
        q
    }
}

/// A duration in nanoseconds, rendered in the largest fitting unit with
/// two rounded decimals.
pub fn format_ns(ns: u64) -> (r: String)
    ensures
        r@ == spec_format_ns(ns as int),
{
    if ns < 1000 {
        let mut r = u64_to_dec(ns);
        r.append(" ns");
        r
    } else if ns < 1000000 {
        let c = centi_exec(ns, 10);
        let mut r = whole_dot_frac(c);
        r.append(" us");
        r
    } else if ns < 1000000000 {
        let c = centi_exec(ns, 10000);
        let mut r = whole_dot_frac(c);
        r.append(" ms");
        r
    } else {
        let c = centi_exec(ns, 10000000);
        let mut r = whole_dot_frac(c);
        r.append(" s");
        r
    }
}

/// Hundredths as `whole.two-digit-fraction`.
fn whole_dot_frac(c: u64) -> (r: String)
    ensures
        r@ == dec_rep(c as int / 100) + seq!['.'] + two_frac(c as int % 100),
{
    let mut r = u64_to_dec(c / 100);
    proof {
        reveal_strlit(".");
        assert("."@ =~= seq!['.']);
    }
    r.append(".");
    let f = c % 100;
    if f < 10 {
        proof {
            reveal_strlit("0");
            assert("0"@ =~= seq!['0']);
        }
        r.append("0");
        let fs = u64_to_dec(f);
        r.append(fs.as_str());
        proof {
            assert(r@ =~= dec_rep(c as int / 100) + seq!['.'] + (seq!['0'] + dec_rep(
                c as int % 100,
            )));
        }
        r
    } else {
        let fs = u64_to_dec(f);
        r.append(fs.as_str());
        proof {
            assert(r@ =~= dec_rep(c as int / 100) + seq!['.'] + dec_rep(c as int % 100));
        }
        r
    }
}

/// A count with thousands separators.
pub fn format_num(n: u64) -> (r: String)
    ensures
        r@ == spec_format_num(n as int),
{
    let digits = u64_to_dec(n);
    group_digits(digits.as_str())
}

} // verus!
