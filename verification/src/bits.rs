//! Floating-point numbers as bit patterns: which are finite, how they compare, and how a half
//! widens. Arithmetic on them is done elsewhere.
use vstd::prelude::*;

verus! {

/// Whether the bits of a half-precision number stand for a finite one.
pub open spec fn half_is_finite(bits: u16) -> bool {
    bits as int % 0x8000 < 0x7c00
}

/// Whether the bits of a single-precision number stand for a finite one.
pub open spec fn single_is_finite(bits: u32) -> bool {
    bits as int % 0x8000_0000 < 0x7f80_0000
}

/// Whether the bits of a double-precision number stand for a finite one.
pub open spec fn double_is_finite(bits: u64) -> bool {
    bits as int % 0x8000_0000_0000_0000 < 0x7ff0_0000_0000_0000
}

/// Whether the bits of a double-precision number stand for no number at all.
pub open spec fn double_is_nan(bits: u64) -> bool {
    bits as int % 0x8000_0000_0000_0000 > 0x7ff0_0000_0000_0000
}

/// The place of a single-precision number among all numbers: negative numbers below the zeros,
/// which share a place, and both signs by magnitude.
pub open spec fn single_rank(bits: u32) -> int {
    if bits < 0x8000_0000 {
        bits as int
    } else {
        0x8000_0000 - bits
    }
}

/// The place of a half-precision number among all numbers.
pub open spec fn half_rank(bits: u16) -> int {
    if bits < 0x8000 {
        bits as int
    } else {
        0x8000 - bits
    }
}

/// Whether a half-precision number is finite and not below zero.
pub open spec fn half_is_natural(bits: u16) -> bool {
    half_is_finite(bits) && half_rank(bits) >= 0
}

/// Whether a single-precision number is finite and not below zero.
pub open spec fn single_is_natural(bits: u32) -> bool {
    single_is_finite(bits) && single_rank(bits) >= 0
}

/// Whether the bits of a single-precision number stand for no number at all.
pub open spec fn single_is_nan(bits: u32) -> bool {
    bits as int % 0x8000_0000 > 0x7f80_0000
}

/// The place of a double-precision number among all numbers.
pub open spec fn double_rank(bits: u64) -> int {
    if bits < 0x8000_0000_0000_0000 {
        bits as int
    } else {
        0x8000_0000_0000_0000 - bits
    }
}

/// Whether two double-precision numbers are equal: never where one is no number, and the zeros of
/// both signs are.
pub open spec fn double_equal(a: u64, b: u64) -> bool {
    !double_is_nan(a) && !double_is_nan(b) && double_rank(a) == double_rank(b)
}

pub fn is_finite_half(bits: u16) -> (r: bool)
    ensures
        r == half_is_finite(bits),
{
    bits % 0x8000 < 0x7c00
}

pub fn is_finite_single(bits: u32) -> (r: bool)
    ensures
        r == single_is_finite(bits),
{
    bits % 0x8000_0000 < 0x7f80_0000
}

pub fn is_finite_double(bits: u64) -> (r: bool)
    ensures
        r == double_is_finite(bits),
{
    bits % 0x8000_0000_0000_0000 < 0x7ff0_0000_0000_0000
}

/// Whether two double-precision numbers are equal.
pub fn equal_doubles(a: u64, b: u64) -> (r: bool)
    ensures
        r == double_equal(a, b),
{
    let sign: u64 = 0x8000_0000_0000_0000;
    let number: bool = a % sign <= 0x7ff0_0000_0000_0000 && b % sign <= 0x7ff0_0000_0000_0000;
    number && (a == b || (a % sign == 0 && b % sign == 0))
}

/// A significand of eleven bits, doubled until its highest bit is set, and the exponent that goes
/// down with each doubling.
pub open spec fn normalised(significand: int, exponent: int) -> (int, int)
    decreases 0x800 - significand,
{
    if significand <= 0 || significand >= 0x400 {
        (significand, exponent)
    } else {
        normalised(2 * significand, exponent - 1)
    }
}

/// The bits of the single-precision number that a half-precision number widens to: the same value
/// with the same sign, and for what is no number one that is quiet and keeps its other bits.
pub open spec fn widened(half: u16) -> u32 {
    let sign = half as int / 0x8000 * 0x8000_0000;
    let exponent = half as int / 0x400 % 0x20;
    let mantissa = half as int % 0x400;
    if exponent == 0x1f {
        if mantissa == 0 {
            (sign + 0x7f80_0000) as u32
        } else {
            (sign + 0x7fc0_0000 + mantissa % 0x200 * 0x2000) as u32
        }
    } else if exponent == 0 {
        if mantissa == 0 {
            sign as u32
        } else {
            let (significand, biased) = normalised(mantissa, 113);
            (sign + biased * 0x80_0000 + (significand - 0x400) * 0x2000) as u32
        }
    } else {
        (sign + (exponent + 112) * 0x80_0000 + mantissa * 0x2000) as u32
    }
}

proof fn lemma_normalised(significand: int, exponent: int, k: nat)
    requires
        0 < significand < 0x800,
        significand * vstd::arithmetic::power2::pow2(k) >= 0x400,
    ensures
        ({
            let (s, e) = normalised(significand, exponent);
            &&& 0x400 <= s < 0x800
            &&& exponent - k <= e <= exponent
            &&& s == significand * vstd::arithmetic::power2::pow2((exponent - e) as nat)
        }),
    decreases k,
{
    vstd::arithmetic::power2::lemma2_to64();
    if significand < 0x400 {
        assert(k > 0) by {
            if k == 0 {
                assert(significand * 1 >= 0x400);
            }
        }
        vstd::arithmetic::power2::lemma_pow2_unfold(k);
        let half = vstd::arithmetic::power2::pow2((k - 1) as nat);
        assert(2 * significand * half == significand * (2 * half)) by (nonlinear_arith);
        lemma_normalised(2 * significand, exponent - 1, (k - 1) as nat);
        let (s, e) = normalised(2 * significand, exponent - 1);
        let d = (exponent - e) as nat;
        vstd::arithmetic::power2::lemma_pow2_unfold(d);
        let rest = vstd::arithmetic::power2::pow2((d - 1) as nat);
        assert(2 * significand * rest == significand * (2 * rest)) by (nonlinear_arith);
    } else {
        assert(significand * 1 == significand);
    }
}

/// Widens a half-precision number.
pub fn widen(half: u16) -> (r: u32)
    ensures
        r == widened(half),
{
    let sign: u32 = (half / 0x8000) as u32 * 0x8000_0000;
    let exponent: u32 = (half / 0x400 % 0x20) as u32;
    let mantissa: u32 = (half % 0x400) as u32;
    if exponent == 0x1f {
        if mantissa == 0 {
            sign + 0x7f80_0000
        } else {
            sign + 0x7fc0_0000 + mantissa % 0x200 * 0x2000
        }
    } else if exponent == 0 {
        if mantissa == 0 {
            sign
        } else {
            let mut significand: u32 = mantissa;
            let mut biased: u32 = 113;
            proof {
                vstd::arithmetic::power2::lemma2_to64();
                lemma_normalised(mantissa as int, 113, 10);
            }
            while significand < 0x400
                invariant
                    0 < significand < 0x800,
                    mantissa < 0x400,
                    normalised(mantissa as int, 113) == normalised(significand as int, biased as int),
                    normalised(mantissa as int, 113).1 >= 103,
                    0x400 <= normalised(mantissa as int, 113).0 < 0x800,
                    normalised(significand as int, biased as int).1 <= biased <= 113,
                decreases 0x800 - significand,
            {
                proof {
                    lemma_exponent_falls(2 * significand as int, biased - 1);
                }
                significand = significand * 2;
                biased = biased - 1;
            }
            sign + biased * 0x80_0000 + (significand - 0x400) * 0x2000
        }
    } else {
        sign + (exponent + 112) * 0x80_0000 + mantissa * 0x2000
    }
}

proof fn lemma_exponent_falls(significand: int, exponent: int)
    ensures
        normalised(significand, exponent).1 <= exponent,
    decreases 0x800 - significand,
{
    if 0 < significand < 0x400 {
        lemma_exponent_falls(2 * significand, exponent - 1);
    }
}

/// A finite half-precision number without its sign, in units of the smallest one.
pub open spec fn half_magnitude(bits: u16) -> int {
    let exponent = bits as int / 0x400 % 0x20;
    let mantissa = bits as int % 0x400;
    if exponent == 0 {
        mantissa
    } else {
        (0x400 + mantissa) * vstd::arithmetic::power2::pow2((exponent - 1) as nat)
    }
}

/// A finite single-precision number without its sign, in units of the smallest one.
pub open spec fn single_magnitude(bits: u32) -> int {
    let exponent = bits as int / 0x80_0000 % 0x100;
    let mantissa = bits as int % 0x80_0000;
    if exponent == 0 {
        mantissa
    } else {
        (0x80_0000 + mantissa) * vstd::arithmetic::power2::pow2((exponent - 1) as nat)
    }
}

/// A finite half widens to the single of the same sign and the same value: the unit of halves is
/// `2^-24` and that of singles `2^-149`.
pub proof fn law_widening_keeps_the_value(half: u16)
    requires
        half_is_finite(half),
    ensures
        single_is_finite(widened(half)),
        widened(half) as int / 0x8000_0000 == half as int / 0x8000,
        single_magnitude(widened(half)) == half_magnitude(half)
            * vstd::arithmetic::power2::pow2(125),
{
    vstd::arithmetic::power2::lemma2_to64();
    let sign = half as int / 0x8000;
    let exponent = half as int / 0x400 % 0x20;
    let mantissa = half as int % 0x400;
    assert(half == sign * 0x8000 + exponent * 0x400 + mantissa);
    assert(exponent < 0x1f);
    if exponent == 0 {
        if mantissa == 0 {
            assert(0 * vstd::arithmetic::power2::pow2(125) == 0);
        } else {
            lemma_normalised(mantissa, 113, 10);
            let (s, e) = normalised(mantissa, 113);
            let single = widened(half);
            let m = (s - 0x400) * 0x2000;
            assert(single == sign * 0x8000_0000 + e * 0x80_0000 + m);
            assert(single as int / 0x80_0000 % 0x100 == e);
            assert(single as int % 0x80_0000 == m);
            let d = (113 - e) as nat;
            let p = vstd::arithmetic::power2::pow2(d);
            let q = vstd::arithmetic::power2::pow2((e - 1) as nat);
            let r = vstd::arithmetic::power2::pow2(112);
            vstd::arithmetic::power2::lemma_pow2_adds(d, (e - 1) as nat);
            vstd::arithmetic::power2::lemma_pow2_adds(13, 112);
            assert((0x2000 * (mantissa * p)) * q == mantissa * (0x2000 * (p * q)))
                by (nonlinear_arith);
            assert(0x80_0000 + m == 0x2000 * s);
        }
    } else {
        let single = widened(half);
        let e = exponent + 112;
        let m = mantissa * 0x2000;
        assert(single == sign * 0x8000_0000 + e * 0x80_0000 + m);
        assert(single as int / 0x80_0000 % 0x100 == e);
        assert(single as int % 0x80_0000 == m);
        let p = vstd::arithmetic::power2::pow2((exponent - 1) as nat);
        vstd::arithmetic::power2::lemma_pow2_adds((exponent - 1) as nat, 112);
        vstd::arithmetic::power2::lemma_pow2_adds(13, 112);
        let r = vstd::arithmetic::power2::pow2(112);
        assert((0x2000 * (0x400 + mantissa)) * (p * r) == ((0x400 + mantissa) * p) * (0x2000 * r))
            by (nonlinear_arith);
    }
}

/// The place of the highest bit of `n`.
pub open spec fn highest_bit(n: nat) -> nat
    decreases n,
{
    if n < 2 {
        0
    } else {
        1 + highest_bit(n / 2)
    }
}

/// The bits of the double that has the value `n`, which takes 53 bits at most: the sign, the
/// exponent, and the bits below the highest.
pub open spec fn exact_double(n: int) -> int {
    let magnitude = if n < 0 { -n } else { n };
    let sign = if n < 0 { 0x8000_0000_0000_0000int } else { 0 };
    if n == 0 {
        0
    } else {
        let k = highest_bit(magnitude as nat);
        let unit = vstd::arithmetic::power2::pow2((52 - k) as nat) as int;
        sign + (1022 + k) * 0x10_0000_0000_0000 + magnitude * unit
    }
}

/// The bits of the double next to `n`, which takes 54 bits at least: the 53 highest bits of its magnitude, and
/// one more where the rest is over the half of their unit, or is the half of it and they are odd.
pub open spec fn nearest_double(n: int) -> int {
    let magnitude = if n < 0 { -n } else { n };
    let sign = if n < 0 { 0x8000_0000_0000_0000int } else { 0 };
    let k = highest_bit(magnitude as nat);
    let unit = vstd::arithmetic::power2::pow2((k - 52) as nat) as int;
    let high = magnitude / unit;
    let rest = magnitude % unit;
    let up = 2 * rest > unit || (2 * rest == unit && high % 2 == 1);
    sign + (1022 + k) * 0x10_0000_0000_0000 + high + if up { 1int } else { 0 }
}

proof fn lemma_highest_bit(n: nat)
    requires
        n > 0,
    ensures
        vstd::arithmetic::power2::pow2(highest_bit(n)) <= n < 2
            * vstd::arithmetic::power2::pow2(highest_bit(n)),
    decreases n,
{
    vstd::arithmetic::power2::lemma2_to64();
    if n >= 2 {
        lemma_highest_bit(n / 2);
        vstd::arithmetic::power2::lemma_pow2_unfold(highest_bit(n));
    }
}

proof fn lemma_exact_double(n: int)
    requires
        0 < n < 0x20_0000_0000_0000,
    ensures
        highest_bit(n as nat) <= 52,
        0x10_0000_0000_0000 <= n * vstd::arithmetic::power2::pow2(
            (52 - highest_bit(n as nat)) as nat,
        ) < 0x20_0000_0000_0000,
{
    let k = highest_bit(n as nat);
    lemma_highest_bit(n as nat);
    vstd::arithmetic::power2::lemma2_to64();
    vstd::arithmetic::power2::lemma2_to64_rest();
    if k > 52 {
        vstd::arithmetic::power2::lemma_pow2_strictly_increases(52, k);
        assert(vstd::arithmetic::power2::pow2(53) <= vstd::arithmetic::power2::pow2(k)) by {
            if k > 53 {
                vstd::arithmetic::power2::lemma_pow2_strictly_increases(53, k);
            }
        }
        assert(false);
    }
    let p = vstd::arithmetic::power2::pow2(k) as int;
    let u = vstd::arithmetic::power2::pow2((52 - k) as nat) as int;
    vstd::arithmetic::power2::lemma_pow2_adds(k, (52 - k) as nat);
    assert(p * u == 0x10_0000_0000_0000);
    vstd::arithmetic::power2::lemma_pow2_pos((52 - k) as nat);
    assert(p * u <= n * u < 2 * (p * u)) by (nonlinear_arith)
        requires
            p <= n < 2 * p,
            u > 0,
    ;
}

pub proof fn lemma_exact_bits(n: int)
    requires
        0 < n < 0x20_0000_0000_0000,
    ensures
        0x3ff0_0000_0000_0000 <= exact_double(n) < 0x4340_0000_0000_0000,
        exact_double(-n) == 0x8000_0000_0000_0000 + exact_double(n),
{
    lemma_exact_double(n);
}

pub proof fn lemma_exact_injective(a: int, b: int)
    requires
        0 < a < 0x20_0000_0000_0000,
        0 < b < 0x20_0000_0000_0000,
        exact_double(a) == exact_double(b),
    ensures
        a == b,
{
    lemma_exact_double(a);
    lemma_exact_double(b);
    let i = highest_bit(a as nat);
    let j = highest_bit(b as nat);
    assert(i == j);
    let u = vstd::arithmetic::power2::pow2((52 - i) as nat) as int;
    vstd::arithmetic::power2::lemma_pow2_pos((52 - i) as nat);
    assert(a == b) by (nonlinear_arith)
        requires
            a * u == b * u,
            u > 0,
    ;
}

/// Whether a double-precision number lies between two integers, both included.
pub open spec fn double_between(bits: u64, low: int, high: int) -> bool {
    &&& !double_is_nan(bits)
    &&& double_rank(exact_double(low) as u64) <= double_rank(bits)
    &&& double_rank(bits) <= double_rank(exact_double(high) as u64)
}

/// Whether a double-precision number lies between two others, both included. The bounds are
/// numbers.
pub fn is_between(bits: u64, low: u64, high: u64) -> (r: bool)
    ensures
        r == (!double_is_nan(bits) && double_rank(low) <= double_rank(bits) <= double_rank(high)),
{
    bits % 0x8000_0000_0000_0000 <= 0x7ff0_0000_0000_0000 && rank(low) <= rank(bits) && rank(bits)
        <= rank(high)
}

fn rank(bits: u64) -> (r: i64)
    ensures
        r == double_rank(bits),
{
    if bits < 0x8000_0000_0000_0000 {
        bits as i64
    } else {
        -((bits - 0x8000_0000_0000_0000) as i64)
    }
}

/// Whether `a` is greater than `b`, both being numbers.
pub fn is_above(a: u32, b: u32) -> (r: bool)
    ensures
        r == (!single_is_nan(a) && !single_is_nan(b) && single_rank(a) > single_rank(b)),
{
    let numbers: bool = a % 0x8000_0000 <= 0x7f80_0000 && b % 0x8000_0000 <= 0x7f80_0000;
    numbers && rank_of_single(a) > rank_of_single(b)
}

/// Whether `a` is no smaller than `b`, both being numbers.
pub open spec fn single_at_least(a: u32, b: u32) -> bool {
    !single_is_nan(a) && !single_is_nan(b) && single_rank(a) >= single_rank(b)
}

/// Whether `a` is no smaller than `b`, both being numbers.
pub fn is_at_least(a: u32, b: u32) -> (r: bool)
    ensures
        r == single_at_least(a, b),
{
    let numbers: bool = a % 0x8000_0000 <= 0x7f80_0000 && b % 0x8000_0000 <= 0x7f80_0000;
    numbers && rank_of_single(a) >= rank_of_single(b)
}

/// Whether two single-precision numbers are equal.
pub open spec fn single_equal(a: u32, b: u32) -> bool {
    !single_is_nan(a) && !single_is_nan(b) && single_rank(a) == single_rank(b)
}

/// Whether two single-precision numbers are equal.
pub fn equal_singles(a: u32, b: u32) -> (r: bool)
    ensures
        r == single_equal(a, b),
{
    let numbers: bool = a % 0x8000_0000 <= 0x7f80_0000 && b % 0x8000_0000 <= 0x7f80_0000;
    numbers && rank_of_single(a) == rank_of_single(b)
}

fn rank_of_single(bits: u32) -> (r: i64)
    ensures
        r == single_rank(bits),
{
    if bits < 0x8000_0000 {
        bits as i64
    } else {
        0x8000_0000 - bits as i64
    }
}

/// Whether a half-precision number is finite and not below zero.
pub fn is_natural_half(bits: u16) -> (r: bool)
    ensures
        r == half_is_natural(bits),
{
    bits < 0x7c00 || bits == 0x8000
}

/// Whether a single-precision number is finite and not below zero.
pub fn is_natural_single(bits: u32) -> (r: bool)
    ensures
        r == single_is_natural(bits),
{
    bits < 0x7f80_0000 || bits == 0x8000_0000
}

/// The place of a half-precision number among all numbers.
pub fn rank_of_half(bits: u16) -> (r: i32)
    ensures
        r == half_rank(bits),
{
    if bits < 0x8000 {
        bits as i32
    } else {
        0x8000 - bits as i32
    }
}

/// A number without its sign from its parts, in units of the smallest one: `unit` is the highest bit of the
/// significand, which is there but for the lowest exponent.
pub open spec fn magnitude(exponent: int, mantissa: int, unit: int) -> int {
    if exponent == 0 {
        mantissa
    } else {
        (unit + mantissa) * vstd::arithmetic::power2::pow2((exponent - 1) as nat)
    }
}

proof fn lemma_magnitude_grows(e: int, m: int, f: int, n: int, unit: int)
    requires
        0 <= e <= f,
        0 <= m < unit,
        0 <= n < unit,
        e < f || m < n,
    ensures
        0 <= magnitude(e, m, unit) < magnitude(f, n, unit),
{
    vstd::arithmetic::power2::lemma2_to64();
    let q = vstd::arithmetic::power2::pow2((f - 1) as nat) as int;
    if e == 0 {
        if f > 0 {
            vstd::arithmetic::power2::lemma_pow2_pos((f - 1) as nat);
            assert((unit + n) * q >= unit) by (nonlinear_arith)
                requires
                    q >= 1,
                    n >= 0,
                    unit > 0,
            ;
        }
    } else {
        let p = vstd::arithmetic::power2::pow2((e - 1) as nat) as int;
        vstd::arithmetic::power2::lemma_pow2_pos((e - 1) as nat);
        assert((unit + m) * p >= 0) by (nonlinear_arith)
            requires
                p > 0,
                unit + m >= 0,
        ;
        if e == f {
            assert((unit + m) * p < (unit + n) * p) by (nonlinear_arith)
                requires
                    m < n,
                    p > 0,
            ;
        } else {
            vstd::arithmetic::power2::lemma_pow2_unfold(e as nat);
            let double = vstd::arithmetic::power2::pow2(e as nat) as int;
            assert(double == 2 * p);
            if e < f - 1 {
                vstd::arithmetic::power2::lemma_pow2_strictly_increases(e as nat, (f - 1) as nat);
            }
            assert(q >= 2 * p);
            assert((unit + m) * p < (unit + n) * q) by (nonlinear_arith)
                requires
                    q >= 2 * p,
                    p > 0,
                    0 <= m < unit,
                    0 <= n,
            ;
        }
    }
}

/// The value of a finite single in units of the smallest one.
pub open spec fn single_value(bits: u32) -> int {
    let m = magnitude(bits as int / 0x80_0000 % 0x100, bits as int % 0x80_0000, 0x80_0000);
    if bits >= 0x8000_0000 {
        -m
    } else {
        m
    }
}

/// The value of a finite half in units of the smallest one.
pub open spec fn half_value(bits: u16) -> int {
    let m = magnitude(bits as int / 0x400 % 0x20, bits as int % 0x400, 0x400);
    if bits >= 0x8000 {
        -m
    } else {
        m
    }
}

/// The value of a finite double in units of the smallest one.
pub open spec fn double_value(bits: u64) -> int {
    let m = magnitude(
        bits as int / 0x10_0000_0000_0000 % 0x800,
        bits as int % 0x10_0000_0000_0000,
        0x10_0000_0000_0000,
    );
    if bits >= 0x8000_0000_0000_0000 {
        -m
    } else {
        m
    }
}

/// What is finite and what is no number goes by the exponent: the highest is kept for infinity, and with other
/// bits behind it for what is no number.
pub proof fn law_highest_exponent_is_not_finite(half: u16, single: u32, double: u64)
    ensures
        half_is_finite(half) == (half as int / 0x400 % 0x20 != 0x1f),
        single_is_finite(single) == (single as int / 0x80_0000 % 0x100 != 0xff),
        double_is_finite(double) == (double as int / 0x10_0000_0000_0000 % 0x800 != 0x7ff),
        single_is_nan(single) == (single as int / 0x80_0000 % 0x100 == 0xff && single as int
            % 0x80_0000 != 0),
        double_is_nan(double) == (double as int / 0x10_0000_0000_0000 % 0x800 == 0x7ff && double as int
            % 0x10_0000_0000_0000 != 0),
{
}

proof fn lemma_parts_grow(a: int, b: int, unit: int, top: int)
    requires
        0 <= a < b < unit * top,
        unit > 0,
        top > 0,
    ensures
        0 <= a / unit <= b / unit < top,
        a / unit < b / unit || a % unit < b % unit,
        0 <= a % unit < unit,
        0 <= b % unit < unit,
{
    vstd::arithmetic::div_mod::lemma_fundamental_div_mod(a, unit);
    vstd::arithmetic::div_mod::lemma_fundamental_div_mod(b, unit);
    vstd::arithmetic::div_mod::lemma_div_is_ordered(a, b, unit);
    vstd::arithmetic::div_mod::lemma_div_pos_is_pos(a, unit);
    vstd::arithmetic::div_mod::lemma_mod_bound(a, unit);
    vstd::arithmetic::div_mod::lemma_mod_bound(b, unit);
    let q = b / unit;
    if q >= top {
        assert(unit * q >= unit * top) by (nonlinear_arith)
            requires
                q >= top,
                unit > 0,
        ;
    }
}

/// Finite singles are ordered by their places as by their values.
pub proof fn law_singles_are_in_order(a: u32, b: u32)
    requires
        single_is_finite(a),
        single_is_finite(b),
    ensures
        (single_rank(a) < single_rank(b)) == (single_value(a) < single_value(b)),
        single_equal(a, b) == (single_value(a) == single_value(b)),
        single_at_least(a, b) == (single_value(a) >= single_value(b)),
        single_is_natural(a) == (single_value(a) >= 0),
{
    let x = a as int % 0x8000_0000;
    let y = b as int % 0x8000_0000;
    assert(a as int / 0x80_0000 % 0x100 == x / 0x80_0000 && a as int % 0x80_0000 == x % 0x80_0000);
    assert(b as int / 0x80_0000 % 0x100 == y / 0x80_0000 && b as int % 0x80_0000 == y % 0x80_0000);
    if x < y {
        lemma_parts_grow(x, y, 0x80_0000, 0x100);
        lemma_magnitude_grows(x / 0x80_0000, x % 0x80_0000, y / 0x80_0000, y % 0x80_0000, 0x80_0000);
    } else if y < x {
        lemma_parts_grow(y, x, 0x80_0000, 0x100);
        lemma_magnitude_grows(y / 0x80_0000, y % 0x80_0000, x / 0x80_0000, x % 0x80_0000, 0x80_0000);
    }
    lemma_single_sign(a);
    lemma_single_sign(b);
}

proof fn lemma_single_sign(a: u32)
    requires
        single_is_finite(a),
    ensures
        (single_value(a) > 0) == (0 < a < 0x8000_0000),
        (single_value(a) < 0) == (a > 0x8000_0000),
{
    let x = a as int % 0x8000_0000;
    assert(a as int / 0x80_0000 % 0x100 == x / 0x80_0000 && a as int % 0x80_0000 == x % 0x80_0000);
    if x > 0 {
        lemma_parts_grow(0, x, 0x80_0000, 0x100);
        lemma_magnitude_grows(0, 0, x / 0x80_0000, x % 0x80_0000, 0x80_0000);
    }
}

/// Finite halves are ordered by their places as by their values.
pub proof fn law_halves_are_in_order(a: u16, b: u16)
    requires
        half_is_finite(a),
        half_is_finite(b),
    ensures
        (half_rank(a) < half_rank(b)) == (half_value(a) < half_value(b)),
        (half_rank(a) == half_rank(b)) == (half_value(a) == half_value(b)),
        half_is_natural(a) == (half_value(a) >= 0),
{
    let x = a as int % 0x8000;
    let y = b as int % 0x8000;
    assert(a as int / 0x400 % 0x20 == x / 0x400 && a as int % 0x400 == x % 0x400);
    assert(b as int / 0x400 % 0x20 == y / 0x400 && b as int % 0x400 == y % 0x400);
    if x < y {
        lemma_parts_grow(x, y, 0x400, 0x20);
        lemma_magnitude_grows(x / 0x400, x % 0x400, y / 0x400, y % 0x400, 0x400);
    } else if y < x {
        lemma_parts_grow(y, x, 0x400, 0x20);
        lemma_magnitude_grows(y / 0x400, y % 0x400, x / 0x400, x % 0x400, 0x400);
    }
    lemma_half_sign(a);
    lemma_half_sign(b);
}

proof fn lemma_half_sign(a: u16)
    requires
        half_is_finite(a),
    ensures
        (half_value(a) > 0) == (0 < a < 0x8000),
        (half_value(a) < 0) == (a > 0x8000),
{
    let x = a as int % 0x8000;
    assert(a as int / 0x400 % 0x20 == x / 0x400 && a as int % 0x400 == x % 0x400);
    if x > 0 {
        lemma_parts_grow(0, x, 0x400, 0x20);
        lemma_magnitude_grows(0, 0, x / 0x400, x % 0x400, 0x400);
    }
}

/// Finite doubles are ordered by their places as by their values.
pub proof fn law_doubles_are_in_order(a: u64, b: u64)
    requires
        double_is_finite(a),
        double_is_finite(b),
    ensures
        (double_rank(a) < double_rank(b)) == (double_value(a) < double_value(b)),
        double_equal(a, b) == (double_value(a) == double_value(b)),
{
    let unit = 0x10_0000_0000_0000int;
    let x = a as int % 0x8000_0000_0000_0000;
    let y = b as int % 0x8000_0000_0000_0000;
    assert(a as int / unit % 0x800 == x / unit && a as int % unit == x % unit);
    assert(b as int / unit % 0x800 == y / unit && b as int % unit == y % unit);
    if x < y {
        lemma_parts_grow(x, y, unit, 0x800);
        lemma_magnitude_grows(x / unit, x % unit, y / unit, y % unit, unit);
    } else if y < x {
        lemma_parts_grow(y, x, unit, 0x800);
        lemma_magnitude_grows(y / unit, y % unit, x / unit, x % unit, unit);
    }
    lemma_double_sign(a);
    lemma_double_sign(b);
}

proof fn lemma_double_sign(a: u64)
    requires
        double_is_finite(a),
    ensures
        (double_value(a) > 0) == (0 < a < 0x8000_0000_0000_0000),
        (double_value(a) < 0) == (a > 0x8000_0000_0000_0000),
{
    let unit = 0x10_0000_0000_0000int;
    let x = a as int % 0x8000_0000_0000_0000;
    assert(a as int / unit % 0x800 == x / unit && a as int % unit == x % unit);
    if x > 0 {
        lemma_parts_grow(0, x, unit, 0x800);
        lemma_magnitude_grows(0, 0, x / unit, x % unit, unit);
    }
}

/// An integer of at most 53 bits becomes the double of that value: the unit of doubles is `2^-1074`.
pub proof fn law_exact_double_is_the_integer(n: int)
    requires
        -0x20_0000_0000_0000 < n < 0x20_0000_0000_0000,
    ensures
        0 <= exact_double(n) <= u64::MAX,
        double_is_finite(exact_double(n) as u64),
        double_value(exact_double(n) as u64) == n * vstd::arithmetic::power2::pow2(1074),
{
    let unit = 0x10_0000_0000_0000int;
    let p = vstd::arithmetic::power2::pow2(1074) as int;
    if n == 0 {
        assert(0 * p == 0);
    } else {
        let a = if n < 0 { -n } else { n };
        lemma_exact_double(a);
        let k = highest_bit(a as nat);
        let u = vstd::arithmetic::power2::pow2((52 - k) as nat) as int;
        let bits = (1022 + k) * unit + a * u;
        assert(bits / unit == 1023 + k && bits % unit == a * u - unit);
        let b = exact_double(n);
        assert(b == bits + if n < 0 { 0x8000_0000_0000_0000int } else { 0 });
        assert(b / unit % 0x800 == 1023 + k && b % unit == a * u - unit);
        let v = vstd::arithmetic::power2::pow2((1022 + k) as nat) as int;
        vstd::arithmetic::power2::lemma_pow2_adds((52 - k) as nat, (1022 + k) as nat);
        assert(u * v == p);
        assert((a * u) * v == a * p) by (nonlinear_arith)
            requires
                u * v == p,
        ;
        assert((-a) * p == -(a * p)) by (nonlinear_arith);
    }
}

/// A finite double lies between two integers exactly where its value does; what is no number lies nowhere.
pub proof fn law_between_is_by_value(bits: u64, low: int, high: int)
    requires
        -0x20_0000_0000_0000 < low < 0x20_0000_0000_0000,
        -0x20_0000_0000_0000 < high < 0x20_0000_0000_0000,
    ensures
        double_is_finite(bits) ==> double_between(bits, low, high) == (low
            * vstd::arithmetic::power2::pow2(1074) <= double_value(bits) <= high
            * vstd::arithmetic::power2::pow2(1074)),
        !double_is_finite(bits) ==> !double_between(bits, low, high),
{
    law_exact_double_is_the_integer(low);
    law_exact_double_is_the_integer(high);
    let l = exact_double(low) as u64;
    let h = exact_double(high) as u64;
    if double_is_finite(bits) {
        law_doubles_are_in_order(bits, l);
        law_doubles_are_in_order(h, bits);
    }
}

/// A whole number of milliseconds or of anything else lies between two others as integers do.
pub proof fn law_integers_lie_between(n: int, low: int, high: int)
    requires
        -0x20_0000_0000_0000 < n < 0x20_0000_0000_0000,
        -0x20_0000_0000_0000 < low < 0x20_0000_0000_0000,
        -0x20_0000_0000_0000 < high < 0x20_0000_0000_0000,
    ensures
        double_between(exact_double(n) as u64, low, high) == (low <= n <= high),
{
    let p = vstd::arithmetic::power2::pow2(1074) as int;
    vstd::arithmetic::power2::lemma_pow2_pos(1074);
    law_exact_double_is_the_integer(n);
    law_between_is_by_value(exact_double(n) as u64, low, high);
    assert((low * p <= n * p) == (low <= n)) by (nonlinear_arith)
        requires
            p > 0,
    ;
    assert((n * p <= high * p) == (n <= high)) by (nonlinear_arith)
        requires
            p > 0,
    ;
}

/// What is not finite widens to the same: infinity of its sign, or no number, quiet and of its sign.
pub proof fn law_widening_keeps_what_is_not_finite(half: u16)
    requires
        !half_is_finite(half),
    ensures
        !single_is_finite(widened(half)),
        widened(half) as int / 0x8000_0000 == half as int / 0x8000,
        single_is_nan(widened(half)) == (half as int % 0x400 != 0),
        half as int % 0x400 != 0 ==> widened(half) as int / 0x40_0000 % 2 == 1,
{
}

proof fn lemma_highest_bit_is(n: nat, k: nat)
    requires
        vstd::arithmetic::power2::pow2(k) <= n < 2 * vstd::arithmetic::power2::pow2(k),
    ensures
        highest_bit(n) == k,
    decreases k,
{
    vstd::arithmetic::power2::lemma2_to64();
    if k > 0 {
        vstd::arithmetic::power2::lemma_pow2_unfold(k);
        lemma_highest_bit_is(n / 2, (k - 1) as nat);
    }
}

/// A long integer becomes the nearest double: where its doubles are `2^j` apart, the value is off by half of
/// that at most, whatever the sign.
pub proof fn law_nearest_double_is_near(n: int, j: nat, negative: bool)
    requires
        1 <= j <= 11,
        0x10_0000_0000_0000 * vstd::arithmetic::power2::pow2(j) <= n < 0x20_0000_0000_0000
            * vstd::arithmetic::power2::pow2(j),
    ensures
        ({
            let bits = nearest_double(if negative { -n } else { n });
            let p = vstd::arithmetic::power2::pow2(1074) as int;
            let apart = vstd::arithmetic::power2::pow2(j) as int;
            &&& 0 <= bits <= u64::MAX
            &&& double_is_finite(bits as u64)
            &&& exists|m: int|
                #![trigger m * p]
                double_value(bits as u64) == (if negative { -(m * p) } else { m * p }) && -apart <= 2 * (m - n)
                    <= apart
        }),
{
    let unit = 0x10_0000_0000_0000int;
    let p = vstd::arithmetic::power2::pow2(1074) as int;
    let apart = vstd::arithmetic::power2::pow2(j) as int;
    vstd::arithmetic::power2::lemma2_to64();
    vstd::arithmetic::power2::lemma2_to64_rest();
    vstd::arithmetic::power2::lemma_pow2_pos(j);
    let k = j + 52;
    vstd::arithmetic::power2::lemma_pow2_adds(52, j);
    assert(vstd::arithmetic::power2::pow2(k) == unit * apart);
    lemma_highest_bit_is(n as nat, k);
    let high = n / apart;
    let rest = n % apart;
    vstd::arithmetic::div_mod::lemma_fundamental_div_mod(n, apart);
    vstd::arithmetic::div_mod::lemma_mod_bound(n, apart);
    assert(unit <= high < 2 * unit) by (nonlinear_arith)
        requires
            n == apart * high + rest,
            0 <= rest < apart,
            unit * apart <= n < 2 * unit * apart,
            apart > 0,
    ;
    let up = 2 * rest > apart || (2 * rest == apart && high % 2 == 1);
    let r = high + if up { 1int } else { 0 };
    let bits = (1022 + k) * unit + r;
    let all = nearest_double(if negative { -n } else { n });
    assert(all == bits + if negative { 0x8000_0000_0000_0000int } else { 0 });
    let m = r * apart;
    assert(r * apart == apart * high + if up { apart } else { 0 }) by (nonlinear_arith)
        requires
            r == high + if up { 1int } else { 0 },
    ;
    let v = vstd::arithmetic::power2::pow2((1022 + k) as nat) as int;
    vstd::arithmetic::power2::lemma_pow2_adds(j, 1074);
    assert(v == apart * p);
    if r < 2 * unit {
        assert(bits / unit == 1023 + k && bits % unit == r - unit);
        assert(all / unit % 0x800 == 1023 + k && all % unit == r - unit);
        assert(r * (apart * p) == (r * apart) * p) by (nonlinear_arith);
    } else {
        assert(r == 2 * unit);
        assert(bits / unit == 1024 + k && bits % unit == 0);
        assert(all / unit % 0x800 == 1024 + k && all % unit == 0);
        vstd::arithmetic::power2::lemma_pow2_unfold((1023 + k) as nat);
        assert(unit * (2 * (apart * p)) == ((2 * unit) * apart) * p) by (nonlinear_arith);
    }
    assert(double_value(all as u64) == if negative { -(m * p) } else { m * p });
}

} // verus!
