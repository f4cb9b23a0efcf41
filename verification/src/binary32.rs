//! Single-precision numbers as their IEEE 754 bit patterns.
//!
//! A sample travels through this crate as the `u32` that holds its pattern. What a
//! pattern stands for is the integer `scaled`: its value times `2^149`, which is whole
//! for every finite pattern. Ordering, magnitude and conversion to `i16` are exact and
//! live here. Products, sums and quotients round; the caller supplies them as an
//! [`Arithmetic`].
use vstd::arithmetic::div_mod::lemma_div_denominator;
use vstd::arithmetic::div_mod::lemma_div_multiples_vanish;
use vstd::arithmetic::mul::lemma_mul_inequality;
use vstd::arithmetic::mul::lemma_mul_is_commutative;
use vstd::arithmetic::mul::lemma_mul_strict_inequality;
use vstd::arithmetic::power2::lemma2_to64;
use vstd::arithmetic::power2::lemma_pow2_adds;
use vstd::arithmetic::power2::lemma_pow2_pos;
use vstd::arithmetic::power2::lemma_pow2_strictly_increases;
use vstd::arithmetic::power2::pow2;
use vstd::bits::lemma_u32_shr_is_div;
use vstd::prelude::*;

verus! {

/// Bit that holds the sign.
pub const SIGN_BIT: u32 = 0x8000_0000;

/// Pattern of positive infinity; every larger magnitude is a NaN.
pub const INFINITY: u32 = 0x7F80_0000;

/// Pattern of `1.0`.
pub const ONE: u32 = 0x3F80_0000;

/// Pattern of `-0.0`, the neutral element of addition.
pub const NEGATIVE_ZERO: u32 = 0x8000_0000;

/// One more than the largest fraction field.
pub const FRACTION_SPAN: u32 = 0x0080_0000;

/// The pattern without its sign.
pub open spec fn unsigned(bits: u32) -> u32 {
    if bits >= SIGN_BIT {
        (bits - SIGN_BIT) as u32
    } else {
        bits
    }
}

/// Whether the pattern is not a number.
pub open spec fn is_nan(bits: u32) -> bool {
    unsigned(bits) > INFINITY
}

/// `2^149` times the value of the unsigned pattern `m`.
///
/// Infinity comes out above every finite pattern, which is all that ordering needs.
pub open spec fn scaled_magnitude(m: u32) -> nat {
    let exponent: nat = (m / FRACTION_SPAN) as nat;
    let fraction: nat = (m % FRACTION_SPAN) as nat;
    if exponent == 0 {
        fraction
    } else {
        (FRACTION_SPAN as nat + fraction) * pow2((exponent - 1) as nat)
    }
}

/// `2^149` times the value of the pattern.
pub open spec fn scaled(bits: u32) -> int {
    if bits >= SIGN_BIT {
        -(scaled_magnitude(unsigned(bits)) as int)
    } else {
        scaled_magnitude(bits) as int
    }
}

/// Integer part, cut off toward zero, of the value that `scaled` stands for.
pub open spec fn toward_zero(scaled: int) -> int {
    if scaled >= 0 {
        scaled / (pow2(149) as int)
    } else {
        -((-scaled) / (pow2(149) as int))
    }
}

/// `value` brought into the range of `i16`.
pub open spec fn clamp_i16(value: int) -> int {
    if value > i16::MAX {
        i16::MAX as int
    } else if value < i16::MIN {
        i16::MIN as int
    } else {
        value
    }
}

/// Larger unsigned patterns stand for larger magnitudes.
pub proof fn magnitude_follows_pattern(a: u32, b: u32)
    requires
        a < b,
    ensures
        scaled_magnitude(a) < scaled_magnitude(b),
{
    let ea: nat = (a / FRACTION_SPAN) as nat;
    let eb: nat = (b / FRACTION_SPAN) as nat;
    let fa: nat = (a % FRACTION_SPAN) as nat;
    let fb: nat = (b % FRACTION_SPAN) as nat;
    let span: nat = FRACTION_SPAN as nat;
    assert(ea <= eb && (ea == eb ==> fa < fb) && fa < span && fb < span);
    if eb > 0 {
        let pb: nat = pow2((eb - 1) as nat);
        lemma_pow2_pos((eb - 1) as nat);
        if ea == eb {
            lemma_mul_strict_inequality((span + fa) as int, (span + fb) as int, pb as int);
        } else {
            lemma_mul_inequality(span as int, (span + fb) as int, pb as int);
            if ea == 0 {
                lemma_mul_inequality(1, pb as int, span as int);
                lemma_mul_is_commutative(pb as int, span as int);
            } else {
                let pa: nat = pow2((ea - 1) as nat);
                lemma_pow2_pos((ea - 1) as nat);
                lemma_mul_strict_inequality((span + fa) as int, (2 * span) as int, pa as int);
                lemma_pow2_adds(1, (ea - 1) as nat);
                lemma2_to64();
                if ea < eb - 1 {
                    lemma_pow2_strictly_increases(ea, (eb - 1) as nat);
                }
                assert((2 * span) * pa == span * (2 * pa)) by (nonlinear_arith);
                lemma_mul_inequality((2 * pa) as int, pb as int, span as int);
                lemma_mul_is_commutative((2 * pa) as int, span as int);
                lemma_mul_is_commutative(pb as int, span as int);
            }
        }
    }
}

/// Only the two zeros have magnitude zero.
pub proof fn zero_magnitude(m: u32)
    ensures
        scaled_magnitude(m) == 0 <==> m == 0,
{
    if m > 0 {
        magnitude_follows_pattern(0, m);
    }
}

/// Whether the pattern is `0.0` or `-0.0`.
pub fn is_zero(bits: u32) -> (r: bool)
    ensures
        r == (!is_nan(bits) && scaled(bits) == 0),
        r == (bits == 0 || bits == NEGATIVE_ZERO),
{
    proof {
        zero_magnitude(unsigned(bits));
    }
    bits == 0 || bits == NEGATIVE_ZERO
}

/// Absolute value: the pattern with its sign cleared.
pub fn magnitude(bits: u32) -> (r: u32)
    ensures
        r == unsigned(bits),
        scaled(r) == (if scaled(bits) < 0 { -scaled(bits) } else { scaled(bits) }),
{
    if bits >= SIGN_BIT {
        bits - SIGN_BIT
    } else {
        bits
    }
}

/// The `>` of two numbers; false where either is not a number.
pub open spec fn greater(a: u32, b: u32) -> bool {
    !is_nan(a) && !is_nan(b) && scaled(a) > scaled(b)
}

/// Decides `a > b`.
pub fn is_greater(a: u32, b: u32) -> (r: bool)
    ensures
        r == greater(a, b),
{
    let ma: u32 = magnitude(a);
    let mb: u32 = magnitude(b);
    if ma > INFINITY || mb > INFINITY {
        return false;
    }
    proof {
        zero_magnitude(ma);
        zero_magnitude(mb);
        if ma < mb {
            magnitude_follows_pattern(ma, mb);
        }
        if mb < ma {
            magnitude_follows_pattern(mb, ma);
        }
    }
    if a >= SIGN_BIT {
        b >= SIGN_BIT && ma < mb
    } else if b >= SIGN_BIT {
        ma > 0 || mb > 0
    } else {
        ma > mb
    }
}

/// The larger of two numbers, `a` where they are equal; where one is not a number, the
/// other.
pub open spec fn larger(a: u32, b: u32) -> u32 {
    if is_nan(a) {
        b
    } else if greater(b, a) {
        b
    } else {
        a
    }
}

/// Computes [`larger`].
pub fn larger_of(a: u32, b: u32) -> (r: u32)
    ensures
        r == larger(a, b),
{
    if magnitude(a) > INFINITY {
        b
    } else if is_greater(b, a) {
        b
    } else {
        a
    }
}

/// What converting a number in PCM16 units to `i16` gives: the integer part, cut off
/// toward zero and held in range; zero for what is not a number.
pub open spec fn quantised(bits: u32) -> i16 {
    if is_nan(bits) {
        0
    } else {
        clamp_i16(toward_zero(scaled(bits))) as i16
    }
}

/// The integer part of the magnitude of a pattern with an exponent field of 127 to 149.
proof fn integer_part(m: u32, shift: nat)
    requires
        1 <= shift <= 23,
        m / FRACTION_SPAN == 150 - shift,
    ensures
        scaled_magnitude(m) / pow2(149) == (FRACTION_SPAN + m % FRACTION_SPAN) as nat / pow2(shift),
{
    let mantissa: nat = (FRACTION_SPAN + m % FRACTION_SPAN) as nat;
    let low: nat = (149 - shift) as nat;
    let p: nat = pow2(low);
    let q: nat = pow2(shift);
    lemma_pow2_pos(low);
    lemma_pow2_pos(shift);
    lemma_pow2_adds(low, shift);
    assert(scaled_magnitude(m) == mantissa * p);
    lemma_div_denominator((mantissa * p) as int, p as int, q as int);
    lemma_mul_is_commutative(mantissa as int, p as int);
    lemma_div_multiples_vanish(mantissa as int, p as int);
}

/// Convert one PCM16-unit number to `i16`, truncating toward zero.
pub fn quantise(value: u32) -> (r: i16)
    ensures
        r == quantised(value),
{
    let m: u32 = magnitude(value);
    let negative: bool = value >= SIGN_BIT;
    if m > INFINITY {
        return 0;
    }
    let exponent: u32 = m / FRACTION_SPAN;
    proof {
        lemma_pow2_pos(149);
        lemma2_to64();
    }
    if exponent < 127 {
        proof {
            let low: u32 = 0x3F80_0000;
            magnitude_follows_pattern(m, low);
            assert(low / FRACTION_SPAN == 127 && low % FRACTION_SPAN == 0);
            lemma_pow2_adds(23, 126);
            assert(scaled_magnitude(low) == pow2(149));
            vstd::arithmetic::div_mod::lemma_basic_div(scaled_magnitude(m) as int, pow2(149) as int);
        }
        return 0;
    }
    if exponent >= 142 {
        proof {
            let high: u32 = 0x4700_0000;
            if high < m {
                magnitude_follows_pattern(high, m);
            }
            assert(high / FRACTION_SPAN == 142 && high % FRACTION_SPAN == 0);
            integer_part(high, 8);
            assert(FRACTION_SPAN as nat / pow2(8) == 32768);
            vstd::arithmetic::div_mod::lemma_div_is_ordered(
                scaled_magnitude(high) as int,
                scaled_magnitude(m) as int,
                pow2(149) as int,
            );
        }
        return if negative {
            i16::MIN
        } else {
            i16::MAX
        };
    }
    let shift: u32 = 150 - exponent;
    let mantissa: u32 = FRACTION_SPAN + m % FRACTION_SPAN;
    let whole: u32 = mantissa >> shift;
    proof {
        integer_part(m, shift as nat);
        lemma_u32_shr_is_div(mantissa, shift);
        assert(mantissa < 0x0100_0000);
        if shift > 9 {
            lemma_pow2_strictly_increases(9, shift as nat);
        }
        vstd::arithmetic::div_mod::lemma_div_is_ordered_by_denominator(
            mantissa as int,
            512,
            pow2(shift as nat) as int,
        );
        assert(whole <= mantissa / 512);
        assert(whole < 32768);
    }
    if negative {
        -(whole as i16)
    } else {
        whole as i16
    }
}

/// What rounding arithmetic gives: a product, a sum and a quotient for every pair.
pub struct Operations {
    pub product: spec_fn(u32, u32) -> u32,
    pub sum: spec_fn(u32, u32) -> u32,
    pub quotient: spec_fn(u32, u32) -> u32,
}

/// Rounding arithmetic on bit patterns, supplied by the caller.
pub struct Arithmetic<M, A, D> {
    pub mul: M,
    pub add: A,
    pub div: D,
}

/// `f` accepts every pair and has one result for each.
pub open spec fn is_operation<F: Fn(u32, u32) -> u32>(f: F) -> bool {
    &&& forall|a: u32, b: u32| call_requires(f, (a, b))
    &&& forall|a: u32, b: u32, r: u32, s: u32|
        call_ensures(f, (a, b), r) && call_ensures(f, (a, b), s) ==> r == s
}

/// The result of the operation `f` on `a` and `b`.
pub open spec fn result_of<F: Fn(u32, u32) -> u32>(f: F, a: u32, b: u32) -> u32 {
    choose|r: u32| call_ensures(f, (a, b), r)
}

impl<
    M: Fn(u32, u32) -> u32,
    A: Fn(u32, u32) -> u32,
    D: Fn(u32, u32) -> u32,
> View for Arithmetic<M, A, D> {
    type V = Operations;

    open spec fn view(&self) -> Operations {
        Operations {
            product: |a: u32, b: u32| result_of(self.mul, a, b),
            sum: |a: u32, b: u32| result_of(self.add, a, b),
            quotient: |a: u32, b: u32| result_of(self.div, a, b),
        }
    }
}

impl<
    M: Fn(u32, u32) -> u32,
    A: Fn(u32, u32) -> u32,
    D: Fn(u32, u32) -> u32,
> Arithmetic<M, A, D> {
    /// All three members are operations.
    pub open spec fn valid(&self) -> bool {
        is_operation(self.mul) && is_operation(self.add) && is_operation(self.div)
    }

    /// `a * b`.
    pub fn product(&self, a: u32, b: u32) -> (r: u32)
        requires
            self.valid(),
        ensures
            r == (self@.product)(a, b),
    {
        (self.mul)(a, b)
    }

    /// `a + b`.
    pub fn sum(&self, a: u32, b: u32) -> (r: u32)
        requires
            self.valid(),
        ensures
            r == (self@.sum)(a, b),
    {
        (self.add)(a, b)
    }

    /// `a / b`.
    pub fn quotient(&self, a: u32, b: u32) -> (r: u32)
        requires
            self.valid(),
        ensures
            r == (self@.quotient)(a, b),
    {
        (self.div)(a, b)
    }
}

/// The sample of a number is its integer part: no further from zero than the number, on the same
/// side, and less than one away from it. What lies beyond the range of samples comes out as the
/// nearest sample, and what is not a number as zero.
pub proof fn quantised_is_the_integer_part(bits: u32)
    ensures
        ({
            let (unit, value, sample) = (pow2(149) as int, scaled(bits), quantised(bits) as int);
            &&& is_nan(bits) ==> sample == 0
            &&& !is_nan(bits) && 0 <= value < 32767 * unit ==> sample * unit <= value < (sample + 1)
                * unit
            &&& !is_nan(bits) && value >= 32767 * unit ==> sample == 32767
            &&& !is_nan(bits) && -32768 * unit < value <= 0 ==> (sample - 1) * unit < value
                <= sample * unit
            &&& !is_nan(bits) && value <= -32768 * unit ==> sample == -32768
        }),
{
    let (unit, value) = (pow2(149) as int, scaled(bits));
    lemma_pow2_pos(149);
    if !is_nan(bits) {
        let size = if value >= 0 {
            value
        } else {
            -value
        };
        let whole = size / unit;
        vstd::arithmetic::div_mod::lemma_fundamental_div_mod(size, unit);
        vstd::arithmetic::div_mod::lemma_mod_bound(size, unit);
        lemma_mul_is_commutative(unit, whole);
        assert(whole * unit <= size < (whole + 1) * unit) by (nonlinear_arith)
            requires
                size == unit * whole + size % unit,
                0 <= size % unit < unit,
        ;
        assert((-whole) * unit == -(whole * unit)) by (nonlinear_arith);
        assert((-whole - 1) * unit == -((whole + 1) * unit)) by (nonlinear_arith);
        assert(size < 32767 * unit ==> whole < 32767) by (nonlinear_arith)
            requires
                whole * unit <= size,
                unit > 0,
        ;
        assert(size < 32768 * unit ==> whole < 32768) by (nonlinear_arith)
            requires
                whole * unit <= size,
                unit > 0,
        ;
        assert(size >= 32767 * unit ==> whole >= 32767) by (nonlinear_arith)
            requires
                size < (whole + 1) * unit,
                unit > 0,
        ;
        assert(size >= 32768 * unit ==> whole >= 32768) by (nonlinear_arith)
            requires
                size < (whole + 1) * unit,
                unit > 0,
        ;
        assert(whole >= 0) by (nonlinear_arith)
            requires
                size < (whole + 1) * unit,
                size >= 0,
                unit > 0,
        ;
    }
}

/// The larger of two numbers is one of them, and neither is greater.
pub proof fn larger_is_not_exceeded(a: u32, b: u32)
    ensures
        larger(a, b) == a || larger(a, b) == b,
        !greater(a, larger(a, b)),
        !greater(b, larger(a, b)),
        is_nan(larger(a, b)) ==> is_nan(a) && is_nan(b),
{
}

/// One has the exponent field 127: `scaled` of it is `2^149`. Raising the exponent field by one
/// doubles a number, and within one exponent numbers are evenly spaced.
pub proof fn patterns_are_numbers(m: u32)
    requires
        0x0080_0000 <= m,
        m < 0x7F00_0000,
    ensures
        scaled(0x3F80_0000) == pow2(149),
        scaled((m + 0x0080_0000) as u32) == 2 * scaled(m),
        (m + 1) % 0x0080_0000 != 0 && (m + 2) % 0x0080_0000 != 0 ==> scaled((m + 2) as u32)
            - scaled((m + 1) as u32) == scaled((m + 1) as u32) - scaled(m),
        scaled((m + 0x8000_0000) as u32) == -scaled(m),
{
    let e = (m / FRACTION_SPAN) as nat;
    lemma2_to64();
    lemma_pow2_adds(23, 126);
    assert(0x3F80_0000u32 / FRACTION_SPAN == 127 && 0x3F80_0000u32 % FRACTION_SPAN == 0);
    let higher = (m + 0x0080_0000) as u32;
    assert(higher / FRACTION_SPAN == e + 1 && higher % FRACTION_SPAN == m % FRACTION_SPAN);
    lemma_pow2_adds(1, (e - 1) as nat);
    let p = pow2((e - 1) as nat);
    let f = (FRACTION_SPAN + m % FRACTION_SPAN) as nat;
    assert(f * (2 * p) == 2 * (f * p)) by (nonlinear_arith);
    if (m + 1) % 0x0080_0000 != 0 && (m + 2) % 0x0080_0000 != 0 {
        let (b, c) = ((m + 1) as u32, (m + 2) as u32);
        assert(b / FRACTION_SPAN == e && c / FRACTION_SPAN == e);
        assert(b % FRACTION_SPAN == m % FRACTION_SPAN + 1);
        assert(c % FRACTION_SPAN == m % FRACTION_SPAN + 2);
        assert((f + 2) * p - (f + 1) * p == (f + 1) * p - f * p) by (nonlinear_arith);
    }
}

/// Each operation is the one that was supplied for it.
pub proof fn operations_are_those_supplied<
    M: Fn(u32, u32) -> u32,
    A: Fn(u32, u32) -> u32,
    D: Fn(u32, u32) -> u32,
>(ops: Arithmetic<M, A, D>, a: u32, b: u32, product: u32, sum: u32, quotient: u32)
    requires
        ops.valid(),
        call_ensures(ops.mul, (a, b), product),
        call_ensures(ops.add, (a, b), sum),
        call_ensures(ops.div, (a, b), quotient),
    ensures
        (ops@.product)(a, b) == product,
        (ops@.sum)(a, b) == sum,
        (ops@.quotient)(a, b) == quotient,
{
}

} // verus!
