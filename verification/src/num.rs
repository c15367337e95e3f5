//! Fixed-point rounding and decimal text for coordinates and metric values.
//!
//! The binary tables want integers; the design space is sampled in fixed
//! point. Rounding follows the OpenType convention, `floor(x + 1/2)`, applied
//! on scaled integers: `round_half_up(n, d)` is that rounding of the quotient
//! `n / d`, and a result destined for an `i16` field is saturated into range
//! exactly once.

use vstd::prelude::*;

verus! {

use vstd::arithmetic::div_mod::lemma_fundamental_div_mod;
use vstd::arithmetic::div_mod::lemma_fundamental_div_mod_converse;
use vstd::arithmetic::div_mod::lemma_mod_bound;

/// `floor(n/d + 1/2)` for an even positive divisor `d`: the OpenType rounding
/// of the fixed-point quantity `n/d` to an integer.
pub open spec fn round_half_up(n: int, d: int) -> int
    recommends
        d > 0,
        d % 2 == 0,
{
    (n + d / 2) / d
}

/// Saturation into the `i16` range, the behaviour of casting a rounded
/// floating-point value into an `i16` table field.
pub open spec fn clamp_i16(v: int) -> int {
    if v < -32768 {
        -32768
    } else if v > 32767 {
        32767
    } else {
        v
    }
}

/// The rounded quotient is off from the exact one by at most half a unit:
/// `|round_half_up(n, d) * d - n| <= d / 2`.
pub proof fn lemma_round_half_up_error(n: int, d: int)
    requires
        d > 0,
        d % 2 == 0,
    ensures
        round_half_up(n, d) * d - n <= d / 2,
        n - round_half_up(n, d) * d < d / 2 + d % 2 + d / 2,
        n - round_half_up(n, d) * d <= d / 2,
{
    let m = n + d / 2;
    lemma_fundamental_div_mod(m, d);
    let q = m / d;
    let r = m % d;
    assert(0 <= r < d);
    assert(m == q * d + r);
}

/// Exact rounding on scaled integers, magnitudes kept far from the `i128`
/// edges so the arithmetic cannot overflow.
pub fn round_half_up_i128(n: i128, d: i128) -> (r: i128)
    requires
        0 < d <= 0x4000_0000_0000,
        d % 2 == 0,
        -0x1000_0000_0000_0000_0000_0000_0000 <= n <= 0x1000_0000_0000_0000_0000_0000_0000,
    ensures
        r == round_half_up(n as int, d as int),
{
    let num: i128 = n + d / 2;
    if num >= 0 {
        let q = num / d;
        proof {
            lemma_fundamental_div_mod(num as int, d as int);
            lemma_mod_bound(num as int, d as int);
        }
        q
    } else {
        let m: i128 = -num;
        let q = (m + d - 1) / d;
        proof {
            // q is the ceiling of m / d; the floor of num / d is its negation.
            let x: int = m as int + d as int - 1;
            let dd: int = d as int;
            lemma_fundamental_div_mod(x, dd);
            lemma_mod_bound(x, dd);
            let qq: int = x / dd;
            let rr: int = x % dd;
            assert(q == qq);
            assert(x == dd * qq + rr);
            assert(0 <= rr < dd);
            // num == (-qq) * dd + (dd - 1 - rr), and the remainder lies in [0, dd).
            assert(num == (-qq) * dd + (dd - 1 - rr)) by {
                assert(x == dd * qq + rr);
                assert(num as int == -(x - dd + 1));
                assert((-qq) * dd == -(dd * qq)) by (nonlinear_arith);
            }
            lemma_fundamental_div_mod_converse(num as int, dd, -qq, dd - 1 - rr);
        }
        -q
    }
}

/// The character for one decimal digit.
pub open spec fn digit_char(d: int) -> char {
    if d == 0 {
        '0'
    } else if d == 1 {
        '1'
    } else if d == 2 {
        '2'
    } else if d == 3 {
        '3'
    } else if d == 4 {
        '4'
    } else if d == 5 {
        '5'
    } else if d == 6 {
        '6'
    } else if d == 7 {
        '7'
    } else if d == 8 {
        '8'
    } else {
        '9'
    }
}

/// Decimal text of a non-negative integer, most significant digit first, with
/// no leading zeroes (`0` alone for zero).
pub open spec fn dec_str(n: int) -> Seq<char>
    recommends
        n >= 0,
    decreases n,
{
    if n < 10 {
        seq![digit_char(n)]
    } else {
        dec_str(n / 10).push(digit_char(n % 10))
    }
}

/// Decimal text of a possibly negative integer: a minus sign before the
/// magnitude's digits.
pub open spec fn int_str(v: int) -> Seq<char> {
    if v < 0 {
        seq!['-'] + dec_str(-v)
    } else {
        dec_str(v)
    }
}

fn digit_str(d: u64) -> (r: &'static str)
    requires
        d < 10,
    ensures
        r@ == seq![digit_char(d as int)],
{
    proof {
        reveal_strlit("0");
        reveal_strlit("1");
        reveal_strlit("2");
        reveal_strlit("3");
        reveal_strlit("4");
        reveal_strlit("5");
        reveal_strlit("6");
        reveal_strlit("7");
        reveal_strlit("8");
        reveal_strlit("9");
    }
    let r = match d {
        0 => "0",
        1 => "1",
        2 => "2",
        3 => "3",
        4 => "4",
        5 => "5",
        6 => "6",
        7 => "7",
        8 => "8",
        _ => "9",
    };
    proof {
        assert(r@ =~= seq![digit_char(d as int)]);
    }
    r
}

/// Appends the decimal digits of `n` to `out`.
pub fn append_dec(out: &mut String, n: u64)
    ensures
        final(out)@ == old(out)@ + dec_str(n as int),
    decreases n,
{
    if n >= 10 {
        append_dec(out, n / 10);
    }
    let d = digit_str(n % 10);
    out.append(d);
    proof {
        if n < 10 {
            assert(out@ =~= old(out)@ + dec_str(n as int));
        } else {
            assert(out@ =~= old(out)@ + dec_str(n as int));
        }
    }
}

/// Appends the decimal text of `v`, minus sign included.
pub fn append_int(out: &mut String, v: i64)
    ensures
        final(out)@ == old(out)@ + int_str(v as int),
{
    proof {
        reveal_strlit("-");
    }
    if v < 0 {
        out.append("-");
        let m: u64 = (-(v as i128)) as u64;
        append_dec(out, m);
        proof {
            assert(out@ =~= old(out)@ + int_str(v as int));
        }
    } else {
        append_dec(out, v as u64);
    }
}

/// `10^k`.
pub open spec fn pow10(k: nat) -> int
    decreases k,
{
    if k == 0 {
        1
    } else {
        10 * pow10((k - 1) as nat)
    }
}

/// `d` with its trailing decimal zeroes removed.
pub open spec fn strip_zeros(d: int) -> int
    decreases d,
{
    if d > 0 && d % 10 == 0 {
        strip_zeros(d / 10)
    } else {
        d
    }
}

/// How many trailing decimal zeroes `d` has.
pub open spec fn count_stripped(d: int) -> int
    decreases d,
{
    if d > 0 && d % 10 == 0 {
        1 + count_stripped(d / 10)
    } else {
        0
    }
}

/// The number of decimal digits of `n`.
pub open spec fn dec_len(n: int) -> int {
    dec_str(n).len() as int
}

/// `k` zero characters (none when `k` is negative).
pub open spec fn zeros(k: int) -> Seq<char> {
    Seq::new(if k >= 0 { k as nat } else { 0 }, |i: int| '0')
}

/// The exact decimal expansion of `f / 16384` for `0 < f < 16384`, without
/// the leading `0.`: fourteen digits (`1/16384` needs no more), the trailing
/// zeroes dropped.
pub open spec fn frac14_str(f: int) -> Seq<char>
    recommends
        0 < f < 16384,
{
    let d0 = f * 6103515625;
    let d = strip_zeros(d0);
    zeros(14 - count_stripped(d0) - dec_len(d)) + dec_str(d)
}

/// The decimal text of the normalized coordinate `c / 16384`, for
/// `-16384 <= c <= 16384`: an exact expansion such as `-1`, `0`, `0.5`.
pub open spec fn coord14_str(c: int) -> Seq<char>
    recommends
        -16384 <= c <= 16384,
{
    if c < 0 {
        seq!['-'] + mag14_str(-c)
    } else {
        mag14_str(c)
    }
}

/// The decimal text of `m / 16384` for `0 <= m <= 16384`.
pub open spec fn mag14_str(m: int) -> Seq<char>
    recommends
        0 <= m <= 16384,
{
    if m == 16384 {
        seq!['1']
    } else if m == 0 {
        seq!['0']
    } else {
        seq!['0', '.'] + frac14_str(m)
    }
}

proof fn lemma_strip(d: int)
    requires
        d > 0,
    ensures
        strip_zeros(d) > 0,
        dec_len(d) == count_stripped(d) + dec_len(strip_zeros(d)),
    decreases d,
{
    if d % 10 == 0 {
        lemma_strip(d / 10);
        assert(dec_str(d) == dec_str(d / 10).push(digit_char(0)));
    }
}

proof fn lemma_dec_len_le(n: int, k: nat)
    requires
        0 <= n < pow10(k),
        k >= 1,
    ensures
        dec_len(n) <= k,
    decreases k,
{
    if n < 10 {
        assert(dec_len(n) == 1);
    } else {
        assert(k >= 2) by {
            if k == 1 {
                assert(pow10(1) == 10) by {
                    reveal_with_fuel(pow10, 2);
                }
            }
        }
        assert(n / 10 < pow10((k - 1) as nat)) by {
            lemma_fundamental_div_mod(n, 10);
            lemma_mod_bound(n, 10);
            assert(pow10(k) == 10 * pow10((k - 1) as nat));
        }
        lemma_dec_len_le(n / 10, (k - 1) as nat);
        assert(dec_str(n) == dec_str(n / 10).push(digit_char(n % 10)));
    }
}

proof fn lemma_dec_len_pos(n: int)
    ensures
        dec_len(n) >= 1,
{
    if n < 10 {
        assert(dec_str(n).len() == 1);
    } else {
        assert(dec_str(n) == dec_str(n / 10).push(digit_char(n % 10)));
    }
}

proof fn lemma_count_nonneg(d: int)
    ensures
        count_stripped(d) >= 0,
    decreases d,
{
    if d > 0 && d % 10 == 0 {
        lemma_count_nonneg(d / 10);
    }
}

fn dec_len_u64(n: u64) -> (r: u64)
    ensures
        r == dec_len(n as int),
        1 <= r <= 20,
{
    proof {
        assert(pow10(20) == 100000000000000000000) by {
            reveal_with_fuel(pow10, 21);
        }
        lemma_dec_len_le(n as int, 20);
        lemma_dec_len_pos(n as int);
    }
    let mut m: u64 = n;
    let mut c: u64 = 1;
    while m >= 10
        invariant
            c >= 1,
            dec_len(n as int) == c - 1 + dec_len(m as int),
            m <= n,
            c <= 21,
            dec_len(m as int) >= 1,
            dec_len(m as int) <= 20 - (c - 1),
        decreases m,
    {
        proof {
            assert(dec_str(m as int) == dec_str(m as int / 10).push(digit_char(m as int % 10)));
            assert(dec_len(m as int) == 1 + dec_len((m / 10) as int));
            lemma_dec_len_pos((m / 10) as int);
        }
        m = m / 10;
        c = c + 1;
    }
    proof {
        assert(dec_len(m as int) == 1);
    }
    c
}

/// Appends the fractional expansion `frac14_str(f)`.
fn append_frac14(out: &mut String, f: u64)
    requires
        0 < f < 16384,
    ensures
        final(out)@ == old(out)@ + frac14_str(f as int),
{
    proof {
        reveal_strlit("0");
    }
    let mut d: u64 = f * 6103515625;
    let ghost d0: int = d as int;
    proof {
        assert(d0 < 100000000000000) by {
            assert(f * 6103515625 <= 16383 * 6103515625) by (nonlinear_arith)
                requires
                    f <= 16383,
            ;
        }
        assert(d0 > 0) by (nonlinear_arith)
            requires
                f >= 1,
                d0 == f * 6103515625,
        ;
        lemma_strip(d0);
        assert(pow10(14) == 100000000000000) by {
            reveal_with_fuel(pow10, 15);
        }
        lemma_dec_len_le(d0, 14);
        lemma_dec_len_pos(strip_zeros(d0));
        lemma_count_nonneg(d0);
    }
    let mut stripped: u64 = 0;
    while d % 10 == 0
        invariant
            d > 0,
            strip_zeros(d0) == strip_zeros(d as int),
            count_stripped(d0) == stripped + count_stripped(d as int),
            dec_len(d as int) == dec_len(d0) - stripped,
            count_stripped(d0) <= 13,
            stripped <= count_stripped(d0),
        decreases d,
    {
        proof {
            lemma_strip(d as int);
            lemma_count_nonneg(d as int / 10);
            assert(dec_str(d as int) == dec_str(d as int / 10).push(digit_char(0)));
        }
        d = d / 10;
        stripped = stripped + 1;
    }
    proof {
        lemma_strip(d as int);
        assert(strip_zeros(d as int) == d as int);
        assert(count_stripped(d as int) == 0);
    }
    let dl = dec_len_u64(d);
    proof {
        assert(stripped + dl == dec_len(d0));
        assert(dec_len(d0) <= 14);
    }
    let zcount: u64 = 14 - stripped - dl;
    let mut k: u64 = zcount;
    while k > 0
        invariant
            k <= zcount,
            out@ == old(out)@ + zeros(zcount as int - k as int),
        decreases k,
    {
        out.append("0");
        k = k - 1;
        proof {
            reveal_strlit("0");
            assert(out@ =~= old(out)@ + zeros(zcount as int - k as int));
        }
    }
    append_dec(out, d);
    proof {
        assert(out@ =~= old(out)@ + frac14_str(f as int));
    }
}

/// Appends the decimal text of the normalized coordinate `c / 16384`.
pub fn append_coord14(out: &mut String, c: i32)
    requires
        -16384 <= c <= 16384,
    ensures
        final(out)@ == old(out)@ + coord14_str(c as int),
{
    proof {
        reveal_strlit("-");
        reveal_strlit("0");
        reveal_strlit("1");
        reveal_strlit("0.");
    }
    if c < 0 {
        out.append("-");
    }
    let m: u64 = if c < 0 {
        (-(c as i64)) as u64
    } else {
        c as u64
    };
    if m == 16384 {
        out.append("1");
    } else if m == 0 {
        out.append("0");
    } else {
        out.append("0.");
        append_frac14(out, m);
    }
    proof {
        assert(out@ =~= old(out)@ + coord14_str(c as int));
    }
}

} // verus!
