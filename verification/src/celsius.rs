//! Temperatures as whole millidegrees Celsius, the unit in which the kernel
//! reports them, and their rendering in degrees.
//!
//! A reading is shown as the single-precision number of degrees nearest to it.
//! That matters in one place only: a reading halfway between two tenths of a
//! degree goes to the side on which that single-precision number lies. Only raw
//! readings, which no sensor need have taken, can be too large for that.
use crate::number::{decimal, digit_char, push_decimal};
use vstd::prelude::*;

verus! {

/// A temperature, or a temperature limit, in thousandths of a degree Celsius.
pub type MilliC = i32;

/// `n / d` to the nearest whole number; halves go to the even neighbour.
pub open spec fn half_even(n: int, d: int) -> int {
    let q = n / d;
    let r = n % d;
    if 2 * r > d || (2 * r == d && q % 2 == 1) {
        q + 1
    } else {
        q
    }
}

pub open spec fn magnitude(n: int) -> int {
    if n < 0 {
        -n
    } else {
        n
    }
}

pub open spec fn sign(n: int) -> Seq<char> {
    if n < 0 {
        "-"@
    } else {
        Seq::empty()
    }
}

/// `n / d` rendered as a whole number with its sign.
pub open spec fn whole_ratio(n: int, d: int) -> Seq<char> {
    sign(n) + decimal(half_even(magnitude(n), d) as nat)
}

/// A temperature rendered in whole degrees Celsius.
pub open spec fn whole_celsius(t: int) -> Seq<char> {
    whole_ratio(t, 1000)
}

/// A temperature rendered in whole degrees Fahrenheit.
pub open spec fn whole_fahrenheit(t: int) -> Seq<char> {
    whole_ratio(9 * t + 160_000, 5000)
}

/// `m` doubled until `m / 1000` has the 24 binary digits before the point that
/// a single-precision significand holds.
pub open spec fn significand(m: int) -> int
    decreases 16_777_216_000 - m,
{
    if m <= 0 || m >= 8_388_608_000 {
        m
    } else {
        significand(2 * m)
    }
}

/// Whether the single-precision number nearest to `m / 1000` lies above it (1),
/// below it (-1) or on it (0).
pub open spec fn single_side(m: int) -> int {
    let w = significand(m);
    if w % 1000 == 0 {
        0
    } else if half_even(w, 1000) * 1000 > w {
        1
    } else {
        -1
    }
}

/// How many tenths of a degree a temperature of `m` millidegrees shows.
pub open spec fn tenths(m: int) -> int {
    let q = m / 100;
    let r = m % 100;
    if r > 50 || (r == 50 && single_side(m) > 0) || (r == 50 && single_side(m) == 0 && q % 2 == 1) {
        q + 1
    } else {
        q
    }
}

/// A temperature rendered in degrees Celsius with one decimal.
pub open spec fn tenths_celsius(t: int) -> Seq<char> {
    let q = tenths(magnitude(t));
    (sign(t) + decimal((q / 10) as nat) + "."@).push(digit_char(q % 10))
}

/// `n / d`, which is at least 2 to the 23rd, to the nearest number with 24 binary
/// digits.
pub open spec fn large_single(n: int, d: int) -> int
    decreases n - d,
{
    if d <= 0 || n < 16_777_216 * d {
        half_even(n, d)
    } else {
        2 * large_single(n, 2 * d)
    }
}

/// How many tenths of a degree a raw reading of `m` millidegrees shows. Above 24
/// binary digits the reading is rounded to single precision, and so is its
/// thousandth, which is then a whole number of 512ths.
pub open spec fn raw_tenths(m: int) -> int {
    if m < 16_777_216 {
        tenths(m)
    } else {
        half_even(10 * large_single(512 * large_single(m, 1), 1000), 512)
    }
}

/// A raw reading rendered in degrees Celsius with one decimal.
pub open spec fn raw_celsius(t: int) -> Seq<char> {
    let q = raw_tenths(magnitude(t));
    (sign(t) + decimal((q / 10) as nat) + "."@).push(digit_char(q % 10))
}

/// Rounding to 24 binary digits keeps as many.
proof fn lemma_large_single_is_large(n: int, d: int)
    requires
        0 < d,
        8_388_608 * d <= n,
    ensures
        large_single(n, d) >= 8_388_608,
        n >= 16_777_216 * d ==> large_single(n, d) >= 16_777_216,
    decreases n - d,
{
    if n >= 16_777_216 * d {
        lemma_large_single_is_large(n, 2 * d);
    } else {
        assert(n / d >= 8_388_608) by (nonlinear_arith)
            requires
                0 < d,
                8_388_608 * d <= n,
        ;
    }
}

/// The shown tenths are never further than half a tenth from the temperature.
pub proof fn tenths_is_nearest(m: int)
    requires
        0 <= m,
    ensures
        -50 <= tenths(m) * 100 - m <= 50,
{
}

fn round_half_even(n: u64, d: u64) -> (q: u64)
    requires
        0 < d < 0x4000_0000_0000_0000,
        n < 0x8000_0000_0000_0000,
    ensures
        q == half_even(n as int, d as int),
{
    let q: u64 = n / d;
    let r: u64 = n % d;
    proof {
        assert(q <= n) by (nonlinear_arith)
            requires
                q == n / d,
                d > 0,
        ;
        assert(r < d) by (nonlinear_arith)
            requires
                r == n % d,
                d > 0,
        ;
    }
    if 2 * r > d || (2 * r == d && q % 2 == 1) {
        q + 1
    } else {
        q
    }
}

fn magnitude_of(n: i64) -> (m: u64)
    requires
        -0x4000_0000_0000_0000 < n < 0x4000_0000_0000_0000,
    ensures
        m == magnitude(n as int),
{
    if n < 0 {
        (-n) as u64
    } else {
        n as u64
    }
}

fn push_sign(out: &mut String, n: i64)
    ensures
        final(out)@ == old(out)@ + sign(n as int),
{
    if n < 0 {
        out.append("-");
    } else {
        assert(out@ + Seq::<char>::empty() =~= out@);
    }
}

fn push_whole_ratio(out: &mut String, n: i64, d: u64)
    requires
        -0x4000_0000_0000_0000 < n < 0x4000_0000_0000_0000,
        0 < d < 0x4000_0000_0000_0000,
    ensures
        final(out)@ == old(out)@ + whole_ratio(n as int, d as int),
{
    push_sign(out, n);
    push_decimal(out, round_half_even(magnitude_of(n), d));
    assert(out@ =~= old(out)@ + whole_ratio(n as int, d as int));
}

/// Appends a temperature in whole degrees Celsius.
pub fn push_whole_celsius(out: &mut String, t: MilliC)
    ensures
        final(out)@ == old(out)@ + whole_celsius(t as int),
{
    push_whole_ratio(out, t as i64, 1000)
}

/// Appends a temperature in whole degrees Fahrenheit.
pub fn push_whole_fahrenheit(out: &mut String, t: MilliC)
    ensures
        final(out)@ == old(out)@ + whole_fahrenheit(t as int),
{
    push_whole_ratio(out, 9 * (t as i64) + 160_000, 5000)
}

fn significand_of(m: u64) -> (w: u64)
    requires
        m <= 0x8000_0000,
    ensures
        w == significand(m as int),
        w < 0x4_0000_0000,
{
    let mut w: u64 = m;
    while w != 0 && w < 8_388_608_000
        invariant
            significand(w as int) == significand(m as int),
            w < 16_777_216_000,
        decreases 16_777_216_000 - w,
    {
        w = 2 * w;
    }
    w
}

fn tenths_of(m: u64) -> (q: u64)
    requires
        m <= 0x8000_0000,
    ensures
        q == tenths(m as int),
        q <= m,
{
    let q: u64 = m / 100;
    let r: u64 = m % 100;
    if r > 50 {
        return q + 1;
    }
    if r < 50 {
        return q;
    }
    let w = significand_of(m);
    if w % 1000 == 0 {
        if q % 2 == 1 {
            q + 1
        } else {
            q
        }
    } else if round_half_even(w, 1000) * 1000 > w {
        q + 1
    } else {
        q
    }
}

/// Appends a temperature in degrees Celsius with one decimal.
pub fn push_tenths_celsius(out: &mut String, t: MilliC)
    ensures
        final(out)@ == old(out)@ + tenths_celsius(t as int),
{
    let q = tenths_of(magnitude_of(t as i64));
    push_sign(out, t as i64);
    push_decimal(out, q / 10);
    out.append(".");
    out.push((48u8 + (q % 10) as u8) as char);
    assert(out@ =~= old(out)@ + tenths_celsius(t as int));
}

/// A temperature in degrees Celsius with one decimal.
pub fn to_tenths_celsius(t: MilliC) -> (r: String)
    ensures
        r@ == tenths_celsius(t as int),
{
    let mut r = String::new();
    push_tenths_celsius(&mut r, t);
    assert(Seq::<char>::empty() + tenths_celsius(t as int) =~= tenths_celsius(t as int));
    r
}

fn round_wide(n: u128, d: u128) -> (q: u128)
    requires
        0 < d <= n < 0x1_0000_0000_0000_0000_0000_0000,
    ensures
        q == half_even(n as int, d as int),
        q * d <= 2 * n,
        0 < q,
{
    let q: u128 = n / d;
    let r: u128 = n % d;
    proof {
        assert(q * d + r == n && r < d && 1 <= q <= n) by (nonlinear_arith)
            requires
                q == n / d,
                r == n % d,
                0 < d <= n,
        ;
        assert((q + 1) * d == q * d + d) by (nonlinear_arith);
    }
    if 2 * r > d || (2 * r == d && q % 2 == 1) {
        q + 1
    } else {
        q
    }
}

fn single_of(n: u128, d: u128) -> (w: u128)
    requires
        0 < d,
        8_388_608 * d <= n < 0x1_0000_0000_0000_0000_0000_0000,
    ensures
        w == large_single(n as int, d as int),
        w * d <= 2 * n,
        0 < w,
    decreases n - d,
{
    if n < 16_777_216 * d {
        round_wide(n, d)
    } else {
        let half: u128 = single_of(n, 2 * d);
        proof {
            assert(half * (2 * d) == (2 * half) * d) by (nonlinear_arith);
            assert(2 * half <= (2 * half) * d) by (nonlinear_arith)
                requires
                    0 < d,
            ;
        }
        2 * half
    }
}

fn raw_tenths_of(m: u64) -> (q: u64)
    requires
        m <= 0x8000_0000_0000_0000,
    ensures
        q == raw_tenths(m as int),
{
    if m < 16_777_216 {
        tenths_of(m)
    } else {
        let x: u128 = single_of(m as u128, 1);
        proof {
            lemma_large_single_is_large(m as int, 1);
            lemma_large_single_is_large(512 * x, 1000);
        }
        let y: u128 = single_of(512 * x, 1000);
        round_wide(10 * y, 512) as u64
    }
}

/// Appends a raw reading in degrees Celsius with one decimal.
pub fn push_raw_celsius(out: &mut String, t: i64)
    ensures
        final(out)@ == old(out)@ + raw_celsius(t as int),
{
    let m: u64 = if t < 0 {
        (-(t + 1)) as u64 + 1
    } else {
        t as u64
    };
    let q: u64 = raw_tenths_of(m);
    push_sign(out, t);
    push_decimal(out, q / 10);
    out.append(".");
    out.push((48u8 + (q % 10) as u8) as char);
    assert(out@ =~= old(out)@ + raw_celsius(t as int));
}

proof fn lemma_half_even(n: int, d: int)
    requires
        0 <= n,
        0 < d,
    ensures
        half_even(n, d) >= 0,
        -d <= 2 * (half_even(n, d) * d - n) <= d,
        2 * (half_even(n, d) * d - n) == d || 2 * (half_even(n, d) * d - n) == -d ==> half_even(
            n,
            d,
        ) % 2 == 0,
{
    let q = n / d;
    let r = n % d;
    assert(q * d + r == n && 0 <= r < d && 0 <= q) by (nonlinear_arith)
        requires
            q == n / d,
            r == n % d,
            0 <= n,
            0 < d,
    ;
    assert((q + 1) * d == q * d + d) by (nonlinear_arith);
}

/// A temperature in whole degrees is the nearest one, the even one of two that are as
/// near, with its sign; in Fahrenheit, of nine fifths of it and thirty-two.
pub proof fn whole_degrees_are_nearest(t: int)
    ensures
        exists|q: nat|
            whole_celsius(t) == (if t < 0 {
                "-"@
            } else {
                Seq::<char>::empty()
            }) + #[trigger] decimal(q) && -500 <= q * 1000 - magnitude(t) <= 500 && (q * 1000
                - magnitude(t) == 500 || q * 1000 - magnitude(t) == -500 ==> q % 2 == 0),
        exists|q: nat|
            whole_fahrenheit(t) == (if 9 * t + 160_000 < 0 {
                "-"@
            } else {
                Seq::<char>::empty()
            }) + #[trigger] decimal(q) && -2500 <= q * 5000 - magnitude(9 * t + 160_000) <= 2500,
        magnitude(t) == t || magnitude(t) == -t,
        magnitude(t) >= 0,
{
    lemma_half_even(magnitude(t), 1000);
    let q = half_even(magnitude(t), 1000) as nat;
    assert(whole_celsius(t) == sign(t) + decimal(q));
    let f = 9 * t + 160_000;
    lemma_half_even(magnitude(f), 5000);
    let r = half_even(magnitude(f), 5000) as nat;
    assert(whole_fahrenheit(t) == sign(f) + decimal(r));
}

/// A temperature with one decimal is never further than half a tenth off.
pub proof fn tenths_are_shown(t: int)
    ensures
        exists|q: nat|
            tenths_celsius(t) == ((if t < 0 {
                "-"@
            } else {
                Seq::<char>::empty()
            }) + #[trigger] decimal(q / 10) + "."@).push(digit_char((q % 10) as int)) && -50 <= q
                * 100 - magnitude(t) <= 50,
{
    tenths_is_nearest(magnitude(t));
    let q = tenths(magnitude(t)) as nat;
    assert(tenths(magnitude(t)) >= 0);
    assert(tenths_celsius(t) == (sign(t) + decimal(q / 10) + "."@).push(digit_char((q % 10) as int)));
}

} // verus!
