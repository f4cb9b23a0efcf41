//! How far the limiter lets a sample past its ceiling.
use crate::av3a::render;
use crate::av3a::render::LIMITER_CEILING;
use crate::av3a::render::LIMITER_DECAY;
use crate::av3a::render::LIMITER_LEN;
use crate::binary32;
use crate::binary32::Operations;
use vstd::arithmetic::power2::lemma_pow2_adds;
use vstd::arithmetic::power2::lemma_pow2_pos;
use vstd::arithmetic::power2::lemma_pow2_strictly_increases;
use vstd::arithmetic::power2::lemma2_to64;
use vstd::arithmetic::power2::pow2;
use vstd::prelude::*;

verus! {

/// `2^149` times the magnitude of the pattern.
pub open spec fn mag(bits: u32) -> nat {
    binary32::scaled_magnitude(binary32::unsigned(bits))
}

/// `2^149` times one.
pub open spec fn unit() -> nat {
    pow2(149)
}

/// `2^149` times the ceiling.
pub open spec fn ceiling() -> nat {
    mag(LIMITER_CEILING)
}

/// How close the arithmetic comes to the exact results that the limiter works with: to about one
/// part in a million, or one unit in the last place. Single-precision arithmetic comes closer.
pub open spec fn rounds_closely(ops: Operations) -> bool {
    &&& forall|envelope: u32|
        envelope < binary32::INFINITY ==> #[trigger] (ops.product)(envelope, LIMITER_DECAY)
            < binary32::INFINITY
    &&& forall|envelope: u32|
        envelope < binary32::INFINITY && mag(envelope) >= ceiling() ==> 1_000_000 * mag(
            #[trigger] (ops.product)(envelope, LIMITER_DECAY),
        ) >= 999_899 * mag(envelope)
    &&& forall|envelope: u32|
        envelope < binary32::INFINITY && mag(envelope) > ceiling() ==> 1_000_000 * (mag(
            #[trigger] (ops.quotient)(LIMITER_CEILING, envelope),
        ) * mag(envelope)) <= 1_000_001 * (ceiling() * unit())
    &&& forall|target: u32, gain: u32|
        render::is_unit(target) && render::is_unit(gain) ==> 1_000_000_000 * mag(
            #[trigger] render::next_gain(ops, target, gain),
        ) <= 999_000_200 * mag(target) + 1_000_100 * mag(gain) + 3_000_000_000
    &&& forall|gain: u32, sample: u32|
        render::is_unit(gain) && render::is_finite(sample) ==> 1_000_000 * (mag(
            #[trigger] (ops.product)(gain, sample),
        ) * unit()) <= 1_000_001 * (mag(gain) * mag(sample)) + 1_000_000 * unit()
}

/// All samples are finite.
pub open spec fn all_finite(samples: Seq<u32>) -> bool {
    forall|i: int| 0 <= i < samples.len() ==> render::is_finite(#[trigger] samples[i])
}

/// The envelope after the first `count` samples of a run that starts fresh.
spec fn envelope_at(ops: Operations, samples: Seq<u32>, count: int) -> u32 {
    render::limiter_after(ops, render::limiter_start(), samples.take(count)).envelope
}

/// The gain after the first `count` samples of a run that starts fresh.
spec fn gain_at(ops: Operations, samples: Seq<u32>, count: int) -> u32 {
    render::limiter_after(ops, render::limiter_start(), samples.take(count)).gain
}

proof fn step_at(ops: Operations, samples: Seq<u32>, count: int)
    requires
        0 <= count < samples.len(),
    ensures
        envelope_at(ops, samples, count + 1) == render::next_envelope(
            ops,
            envelope_at(ops, samples, count),
            samples[count],
        ),
        gain_at(ops, samples, count + 1) == render::next_gain(
            ops,
            render::target_gain(ops, envelope_at(ops, samples, count + 1)),
            gain_at(ops, samples, count),
        ),
{
    assert(samples.take(count + 1).drop_last() =~= samples.take(count));
    assert(samples.take(count + 1).last() == samples[count]);
}

/// What the larger of two finite numbers that are not negative is.
proof fn larger_of_finite(a: u32, b: u32)
    requires
        a < binary32::INFINITY,
        b < binary32::INFINITY,
    ensures
        binary32::larger(a, b) < binary32::INFINITY,
        mag(binary32::larger(a, b)) >= mag(a),
        mag(binary32::larger(a, b)) >= mag(b),
{
}

proof fn envelope_is_finite(ops: Operations, samples: Seq<u32>, count: int)
    requires
        rounds_closely(ops),
        all_finite(samples),
        0 <= count <= samples.len(),
    ensures
        envelope_at(ops, samples, count) < binary32::INFINITY,
    decreases count,
{
    if count > 0 {
        envelope_is_finite(ops, samples, count - 1);
        step_at(ops, samples, count - 1);
        assert(render::is_finite(samples[count - 1]));
        larger_of_finite(
            (ops.product)(envelope_at(ops, samples, count - 1), LIMITER_DECAY),
            binary32::unsigned(samples[count - 1]),
        );
    }
}

/// The envelope has lost at most a hundredth of a sample that came in `k` samples ago.
proof fn envelope_remembers(ops: Operations, samples: Seq<u32>, m: int, k: int)
    requires
        rounds_closely(ops),
        all_finite(samples),
        0 <= m,
        0 <= k <= LIMITER_LEN - 1,
        m + k < samples.len(),
        100 * mag(samples[m]) > 102 * ceiling(),
    ensures
        1_000_000 * mag(envelope_at(ops, samples, m + 1 + k)) >= 1_000_000 * mag(samples[m]) - 101
            * (k * mag(samples[m])),
        1_000_000 * mag(envelope_at(ops, samples, m + 1 + k)) >= 990_001 * mag(samples[m]),
        mag(envelope_at(ops, samples, m + 1 + k)) > ceiling(),
    decreases k,
{
    let s = mag(samples[m]);
    let at = m + k;
    envelope_is_finite(ops, samples, at);
    step_at(ops, samples, at);
    assert(render::is_finite(samples[at]));
    let decayed = (ops.product)(envelope_at(ops, samples, at), LIMITER_DECAY);
    larger_of_finite(decayed, binary32::unsigned(samples[at]));
    if k > 0 {
        envelope_remembers(ops, samples, m, k - 1);
        assert(k * s == (k - 1) * s + s) by (nonlinear_arith);
        assert(0 <= (k - 1) * s) by (nonlinear_arith)
            requires
                k >= 1,
                s >= 0,
        ;
    } else {
        assert(k * s == 0) by (nonlinear_arith)
            requires
                k == 0,
        ;
    }
    assert(k * s <= 99 * s) by (nonlinear_arith)
        requires
            k <= 99,
            s >= 0,
    ;
}

/// How large a finite sample, the ceiling and a gain of one are.
proof fn sizes(sample: u32)
    requires
        render::is_finite(sample),
    ensures
        mag(binary32::ONE) == unit(),
        unit() > 0,
        ceiling() >= 1_000,
        2_967 * mag(sample) <= ceiling() * unit(),
        989 * mag(sample) <= pow2(891) * ceiling(),
{
    let m = binary32::unsigned(sample);
    let span = binary32::FRACTION_SPAN as nat;
    let top = pow2(253);
    lemma2_to64();
    lemma_pow2_pos(149);
    lemma_pow2_pos(140);
    lemma_pow2_pos(113);
    lemma_pow2_pos(253);
    lemma_pow2_adds(23, 126);
    lemma_pow2_adds(36, 113);
    lemma_pow2_adds(113, 140);
    lemma_pow2_adds(638, 253);
    lemma_pow2_adds(2, 32);
    lemma_pow2_strictly_increases(32, 36);
    lemma_pow2_strictly_increases(34, 638);
    lemma_pow2_strictly_increases(10, 140);
    // The ceiling has the exponent field 141.
    assert(LIMITER_CEILING / binary32::FRACTION_SPAN == 141);
    let c = (span + (LIMITER_CEILING % binary32::FRACTION_SPAN) as nat);
    assert(ceiling() == c * pow2(140));
    assert(c * pow2(140) >= span * pow2(140)) by (nonlinear_arith)
        requires
            c >= span,
            pow2(140) > 0,
    ;
    assert(span * pow2(140) >= 1_000) by (nonlinear_arith)
        requires
            span >= 1,
            pow2(140) > 1024,
    ;
    // A gain of one has the exponent field 127 and no fraction.
    assert(binary32::ONE / binary32::FRACTION_SPAN == 127);
    assert(binary32::ONE % binary32::FRACTION_SPAN == 0);
    // A finite sample has an exponent field of at most 254.
    let exponent = (m / binary32::FRACTION_SPAN) as nat;
    let fraction = (m % binary32::FRACTION_SPAN) as nat;
    assert(exponent <= 254);
    assert(mag(sample) <= 2 * span * top) by {
        if exponent > 0 {
            let p = pow2((exponent - 1) as nat);
            if exponent - 1 < 253 {
                lemma_pow2_strictly_increases((exponent - 1) as nat, 253);
            }
            assert((span + fraction) * p <= 2 * span * top) by (nonlinear_arith)
                requires
                    span + fraction <= 2 * span,
                    0 <= p <= top,
            ;
        } else {
            assert(fraction <= 2 * span * top) by (nonlinear_arith)
                requires
                    fraction <= span,
                    top >= 1,
            ;
        }
    }
    // Both products against `2^253`.
    let low = pow2(113);
    let high = pow2(140);
    assert(ceiling() * unit() >= (span * pow2(36)) * top) by (nonlinear_arith)
        requires
            ceiling() >= span * high,
            unit() == pow2(36) * low,
            top == low * high,
            span > 0,
            low > 0,
            high > 0,
            pow2(36) > 0,
    ;
    assert(2_967 * (2 * span * top) <= (span * pow2(36)) * top) by (nonlinear_arith)
        requires
            pow2(36) >= 5_934,
            span > 0,
            top > 0,
    ;
    assert(989 * (2 * span * top) <= (pow2(638) * top) * 1) by (nonlinear_arith)
        requires
            pow2(638) >= 1_978 * span,
            top > 0,
    ;
    assert((pow2(638) * top) * 1 <= pow2(891) * ceiling()) by (nonlinear_arith)
        requires
            pow2(891) == pow2(638) * top,
            ceiling() >= 1,
            pow2(638) > 0,
            top > 0,
    ;
}

/// The target of the gain while the envelope remembers a loud sample.
proof fn target_is_low(ops: Operations, samples: Seq<u32>, m: int, k: int)
    requires
        rounds_closely(ops),
        render::scales_down(ops),
        all_finite(samples),
        0 <= m,
        0 <= k <= LIMITER_LEN - 1,
        m + k < samples.len(),
        100 * mag(samples[m]) > 102 * ceiling(),
    ensures
        ({
            let target = render::target_gain(ops, envelope_at(ops, samples, m + 1 + k));
            render::is_unit(target) && 989 * (mag(target) * mag(samples[m])) <= 999 * (ceiling()
                * unit())
        }),
{
    let s = mag(samples[m]);
    let envelope = envelope_at(ops, samples, m + 1 + k);
    let e = mag(envelope);
    let target = render::target_gain(ops, envelope);
    let t = mag(target);
    let full = ceiling() * unit();
    envelope_is_finite(ops, samples, m + 1 + k);
    envelope_remembers(ops, samples, m, k);
    assert(binary32::greater(envelope, LIMITER_CEILING));
    assert(1_000_000 * (t * e) <= 1_000_001 * full);
    assert(990_001 * (t * s) <= 1_000_000 * (t * e)) by (nonlinear_arith)
        requires
            990_001 * s <= 1_000_000 * e,
            t >= 0,
    ;
}

/// The gain comes down to the target, and what is left of where it was halves nine times with
/// each sample.
proof fn gain_comes_down(ops: Operations, samples: Seq<u32>, m: int, k: int)
    requires
        rounds_closely(ops),
        render::scales_down(ops),
        all_finite(samples),
        0 <= m,
        0 <= k <= LIMITER_LEN - 1,
        m + k < samples.len(),
        100 * mag(samples[m]) > 102 * ceiling(),
    ensures
        pow2((9 * k) as nat) * (989 * (mag(gain_at(ops, samples, m + 1 + k)) * mag(samples[m])))
            <= pow2((9 * k) as nat) * (1_001 * (ceiling() * unit())) + 989 * (unit() * mag(
            samples[m],
        )),
    decreases k,
{
    let s = mag(samples[m]);
    let full = ceiling() * unit();
    let gain = gain_at(ops, samples, m + 1 + k);
    let g = mag(gain);
    let p = pow2((9 * k) as nat);
    let rest = 989 * (unit() * s);
    assert(render::is_finite(samples[m]));
    sizes(samples[m]);
    lemma_pow2_pos((9 * k) as nat);
    render::gain_is_unit(ops, samples.take(m + 1 + k));
    if k == 0 {
        lemma2_to64();
        assert(g <= unit()) by {
            if gain < binary32::ONE {
                binary32::magnitude_follows_pattern(gain, binary32::ONE);
            }
        }
        assert(g * s <= unit() * s) by (nonlinear_arith)
            requires
                g <= unit(),
                s >= 0,
        ;
        assert(full >= 0);
    } else {
        let last = gain_at(ops, samples, m + k);
        let h = mag(last);
        let target = render::target_gain(ops, envelope_at(ops, samples, m + 1 + k));
        let t = mag(target);
        let q = pow2((9 * (k - 1)) as nat);
        gain_comes_down(ops, samples, m, k - 1);
        target_is_low(ops, samples, m, k);
        step_at(ops, samples, m + k);
        render::gain_is_unit(ops, samples.take(m + k));
        assert(1_000_000_000 * g <= 999_000_200 * t + 1_000_100 * h + 3_000_000_000);
        // The same times the sample.
        let (x, y, z) = (g * s, t * s, h * s);
        assert(1_000_000_000 * x <= 999_000_200 * y + 1_000_100 * z + 3_000_000_000 * s)
            by (nonlinear_arith)
            requires
                1_000_000_000 * g <= 999_000_200 * t + 1_000_100 * h + 3_000_000_000,
                x == g * s,
                y == t * s,
                z == h * s,
                s >= 0,
        ;
        let (a, b) = (989 * x, 989 * z);
        assert(1_000_000_000 * a <= 999_001_199_800 * full + 1_000_100 * b);
        // The same times the power of two of the sample before.
        lemma_pow2_adds(9, (9 * (k - 1)) as nat);
        lemma2_to64();
        lemma_pow2_pos((9 * (k - 1)) as nat);
        assert(p == 512 * q);
        let (qa, qb, qf) = (q * a, q * b, q * full);
        assert(1_000_000_000 * qa <= 999_001_199_800 * qf + 1_000_100 * qb) by (nonlinear_arith)
            requires
                1_000_000_000 * a <= 999_001_199_800 * full + 1_000_100 * b,
                qa == q * a,
                qb == q * b,
                qf == q * full,
                q >= 0,
        ;
        assert(q * (1_001 * full) == 1_001 * qf) by (nonlinear_arith)
            requires
                qf == q * full,
        ;
        assert(p * (1_001 * full) == 512 * (1_001 * qf)) by (nonlinear_arith)
            requires
                qf == q * full,
                p == 512 * q,
        ;
        assert(p * a == 512 * qa) by (nonlinear_arith)
            requires
                qa == q * a,
                p == 512 * q,
        ;
        assert(qf >= 0);
        assert(qb <= 1_001 * qf + rest);
    }
}

/// The limiter holds its ceiling: a sample comes out at most two hundredths above it, however
/// loud it came in.
pub proof fn limiter_holds_the_ceiling(ops: Operations, samples: Seq<u32>, n: int)
    requires
        rounds_closely(ops),
        render::scales_down(ops),
        all_finite(samples),
        0 <= n < samples.len(),
    ensures
        100 * mag(
            render::limiter_output(
                ops,
                render::limiter_after(ops, render::limiter_start(), samples.take(n)),
                samples[n],
            ),
        ) <= 102 * ceiling(),
{
    let before = render::limiter_after(ops, render::limiter_start(), samples.take(n));
    let out = render::limiter_output(ops, before, samples[n]);
    render::limiter_never_amplifies(ops, samples, n);
    render::output_is_late(ops, samples, n);
    binary32::zero_magnitude(0);
    let m = n - (LIMITER_LEN - 1);
    if m >= 0 && 100 * mag(samples[m]) > 102 * ceiling() {
        let s = mag(samples[m]);
        let full = ceiling() * unit();
        let gain = gain_at(ops, samples, n + 1);
        let g = mag(gain);
        let o = mag(out);
        let p = pow2(891);
        gain_comes_down(ops, samples, m, LIMITER_LEN - 1);
        render::gain_is_unit(ops, samples.take(n + 1));
        assert(render::is_finite(samples[m]));
        sizes(samples[m]);
        lemma_pow2_pos(891);
        let a = 989 * (g * s);
        assert(p * a <= p * (1_001 * full) + 989 * (unit() * s));
        assert(989 * (unit() * s) <= p * full) by (nonlinear_arith)
            requires
                989 * s <= p * ceiling(),
                full == ceiling() * unit(),
                unit() > 0,
        ;
        assert(a <= 1_002 * full) by (nonlinear_arith)
            requires
                p * a <= p * (1_001 * full) + p * full,
                p > 0,
        ;
        assert(1_000_000 * (o * unit()) <= 1_000_001 * (g * s) + 1_000_000 * unit());
        assert(989_000_000 * (o * unit()) <= 1_002_001_002 * full + 989_000_000 * unit());
        assert(989_000_000 * o <= 1_002_001_002 * ceiling() + 989_000_000) by (nonlinear_arith)
            requires
                989_000_000 * (o * unit()) <= 1_002_001_002 * full + 989_000_000 * unit(),
                full == ceiling() * unit(),
                unit() > 0,
        ;
    }
}

} // verus!
