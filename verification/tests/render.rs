use orpheus_native::av3a::render::{
    bed_gains, Limiter, RenderError, StereoRenderer, BED_GAINS_STEREO, CENTER, LFE_BED_INDEX,
    LIMITER_ATTACK, LIMITER_CEILING, LIMITER_DECAY, LIMITER_LEN, LIMITER_SMOOTH, OUTPUT_CHANNELS,
    SURROUND, SURROUND_INVERTED, TRIM, WARMUP_FRAMES,
};
use orpheus_native::av3a::stream::{is_renderable, layout_name, ChannelConfig};
use orpheus_native::binary32::{
    is_greater, is_zero, larger_of, magnitude, quantise, Arithmetic, NEGATIVE_ZERO, ONE,
};

fn times(a: u32, b: u32) -> u32 {
    (f32::from_bits(a) * f32::from_bits(b)).to_bits()
}

fn plus(a: u32, b: u32) -> u32 {
    (f32::from_bits(a) + f32::from_bits(b)).to_bits()
}

fn over(a: u32, b: u32) -> u32 {
    (f32::from_bits(a) / f32::from_bits(b)).to_bits()
}

type Op = fn(u32, u32) -> u32;

fn ops() -> Arithmetic<Op, Op, Op> {
    Arithmetic { mul: times, add: plus, div: over }
}

fn bits(samples: &[f32]) -> Vec<u32> {
    samples.iter().map(|s| s.to_bits()).collect()
}

/// Reference values for `BED_GAINS_STEREO`.
#[test]
fn bed_table_matches_reference() {
    let expected: [[f32; 2]; 12] = [
        [0.850000, 0.000000],
        [0.000000, 0.850000],
        // `1.414 * TRIM * BASE` - the hand-typed centre coefficient.
        [0.849872, 0.849872],
        [0.850000, 0.850000],
        [0.601041, -0.601041],
        [-0.601041, 0.601041],
        [0.601041, 0.601041],
        [0.601041, 0.601041],
        [0.601041, 0.000000],
        [0.000000, 0.601041],
        [0.601041, 0.000000],
        [-0.000000, 0.601041],
    ];
    for (row, (got, want)) in BED_GAINS_STEREO.iter().zip(expected.iter()).enumerate() {
        for out in 0..OUTPUT_CHANNELS {
            assert!(
                (f32::from_bits(got[out]) - want[out]).abs() < 1e-6,
                "row {row} out {out}: {} vs {}",
                f32::from_bits(got[out]),
                want[out]
            );
        }
    }
}

/// Stereo and 7.1.4 use the expected prefix/full table rows.
#[test]
fn shorter_configs_are_prefixes() {
    for channels in [2usize, 12] {
        for (index, expected) in BED_GAINS_STEREO.iter().enumerate().take(channels) {
            assert_eq!(bed_gains(index), *expected);
        }
    }
}

#[test]
fn side_surrounds_cancel_in_mono() {
    // Rows 4 and 5 are anti-phase, so an L+R fold-down loses them entirely.
    for row in [4usize, 5] {
        let [l, r] = BED_GAINS_STEREO[row];
        assert!(
            (f32::from_bits(l) + f32::from_bits(r)).abs() < 1e-6,
            "row {row} does not cancel"
        );
    }
}

#[test]
fn unrenderable_configs_are_refused() {
    for config in [
        ChannelConfig::Mono,
        ChannelConfig::Mc5_1,
        ChannelConfig::Mc7_1,
        ChannelConfig::Mc4_0,
        ChannelConfig::Mc5_1_2,
        ChannelConfig::Mc5_1_4,
        ChannelConfig::Mc7_1_2,
        ChannelConfig::Mc10_2,
        ChannelConfig::Mc22_2,
        ChannelConfig::Hoa1,
        ChannelConfig::Hoa2,
        ChannelConfig::Hoa3,
    ] {
        assert!(!is_renderable(config), "{config:?} should be refused");
    }
    for config in [ChannelConfig::Stereo, ChannelConfig::Mc7_1_4] {
        assert!(is_renderable(config), "{config:?} should render");
    }
}

/// A DC input through a known column must come out at the matrix gain, and the frame count must
/// be preserved on every call.
#[test]
fn frame_count_is_preserved_and_gain_applied() {
    let frames = 1024usize;
    let channels = 12usize;
    let mut renderer = StereoRenderer::new(channels, channels);

    // Only channel 0 (L) carries signal, at a level the limiter leaves alone.
    let mut input = vec![0.0f32.to_bits(); frames * channels];
    for frame in 0..frames {
        input[frame * channels] = 1000.0f32.to_bits();
    }
    let mut output = vec![0i16; frames * OUTPUT_CHANNELS];

    renderer.render(&input, &mut output, &ops()).unwrap();
    assert_eq!(output.len(), frames * OUTPUT_CHANNELS);
    // The first samples are the look-ahead ramp.
    let expected = (1000.0 * f32::from_bits(TRIM)) as i16;
    for frame in LIMITER_LEN..frames {
        assert_eq!(output[frame * OUTPUT_CHANNELS], expected, "frame {frame}");
        assert_eq!(output[frame * OUTPUT_CHANNELS + 1], 0);
    }

    // A second call is in steady state, so every sample is the matrix gain.
    renderer.render(&input, &mut output, &ops()).unwrap();
    for frame in 0..frames {
        assert_eq!(output[frame * OUTPUT_CHANNELS], expected, "frame {frame}");
        assert_eq!(output[frame * OUTPUT_CHANNELS + 1], 0);
    }
}

/// Given the same input frames, a run that starts earlier produces identical samples for the
/// frames both runs cover.
#[test]
fn output_is_independent_of_where_the_run_started() {
    let frames = 512usize;
    let channels = 12usize;
    let total = 6usize;

    // Deterministic pseudo-audio across `total` frames.
    let mut all = vec![0.0f32; total * frames * channels];
    let mut seed = 0x1234_5678u32;
    for slot in all.iter_mut() {
        seed = seed.wrapping_mul(1_664_525).wrapping_add(1_013_904_223);
        *slot = ((seed >> 8) as f32 / 8_388_608.0 - 1.0) * 8_000.0;
    }
    let all = bits(&all);
    let frame_samples = frames * channels;

    let render_run = |start: usize| {
        let mut r = StereoRenderer::new(channels, channels);
        let mut out = vec![0i16; (total - start) * frames * OUTPUT_CHANNELS];
        for (k, chunk) in out.chunks_mut(frames * OUTPUT_CHANNELS).enumerate() {
            let base = (start + k) * frame_samples;
            r.render(&all[base..base + frame_samples], chunk, &ops()).unwrap();
        }
        out
    };

    let from_zero = render_run(0);
    let from_two = render_run(2);

    // Compare frames 3.. : both runs have had at least one whole frame of real audio through
    // the look-ahead by then.
    let per_frame = frames * OUTPUT_CHANNELS;
    for k in 3..total {
        let a = &from_zero[k * per_frame..(k + 1) * per_frame];
        let b = &from_two[(k - 2) * per_frame..(k - 1) * per_frame];
        assert_eq!(a, b, "frame {k} differs between runs");
    }
}

#[test]
fn limiter_pulls_loud_input_under_the_ceiling() {
    let frames = 4096usize;
    let mut limiter = Limiter::new();
    // Well over full scale, like a real bed summing through the matrix.
    let mut samples = vec![46_000.0f32; frames];
    for sample in &mut samples {
        *sample = f32::from_bits(limiter.process_sample(sample.to_bits(), &ops()));
    }
    // Skip the look-ahead priming region, then nothing should be far over.
    let ceiling = f32::from_bits(LIMITER_CEILING);
    let steady = &samples[LIMITER_LEN..];
    let peak = steady.iter().fold(0.0f32, |a, v| a.max(v.abs()));
    assert!(peak <= ceiling * 1.02, "limiter let {peak} through");
    assert!(peak > ceiling * 0.9, "limiter over-attenuated to {peak}");
}

#[test]
fn constants_are_the_single_precision_values() {
    let base = std::f32::consts::FRAC_1_SQRT_2;
    let trim = 0.85f32;
    assert_eq!(TRIM, trim.to_bits());
    assert_eq!(CENTER, (f32::from_bits(0x3FB4_FDF4) * trim * base).to_bits());
    assert_eq!(SURROUND, (base * trim).to_bits());
    assert_eq!(SURROUND_INVERTED, (-(base * trim)).to_bits());
    assert_eq!(LIMITER_DECAY, 0x3F7F_F972);
    assert_eq!(LIMITER_SMOOTH, 0.001f32.to_bits());
    assert_eq!(LIMITER_ATTACK, (1.0f32 - 0.001f32).to_bits());
    assert_eq!(LIMITER_CEILING, 0x46FF_F972);
    assert_eq!(ONE, 1.0f32.to_bits());
    assert_eq!(NEGATIVE_ZERO, (-0.0f32).to_bits());
    assert_eq!(WARMUP_FRAMES, 1);
    assert_eq!(BED_GAINS_STEREO[LFE_BED_INDEX], [TRIM, TRIM]);
    assert_eq!(BED_GAINS_STEREO[11], [(-0.0f32).to_bits(), SURROUND]);
}

#[test]
fn single_precision_holds_full_scale() {
    // What the laws on quiet runs ask of the arithmetic.
    assert_eq!(plus(times(LIMITER_ATTACK, ONE), times(LIMITER_SMOOTH, ONE)), ONE);
    for envelope in [0.0f32, 1.0, 100.0, 32_000.0, f32::from_bits(LIMITER_CEILING)] {
        let decayed = times(envelope.to_bits(), LIMITER_DECAY);
        assert!(!is_greater(decayed, LIMITER_CEILING));
    }
}

#[test]
fn single_precision_scales_down() {
    // What the laws on the gain ask of the arithmetic.
    let mut seed = 5u32;
    let mut next = || {
        seed = seed.wrapping_mul(1_664_525).wrapping_add(1_013_904_223);
        seed >> 8
    };
    for _ in 0..20_000 {
        let gain = (next() as f32 / 16_777_216.0).to_bits();
        let target = (next() as f32 / 16_777_216.0).to_bits();
        let sample = f32::from_bits(next() << 7 ^ next());
        assert_eq!(times(gain, 0), 0);
        let mixed = plus(times(LIMITER_ATTACK, target), times(LIMITER_SMOOTH, gain));
        assert!(mixed <= ONE);
        if sample.is_finite() {
            assert_eq!(times(ONE, sample.to_bits()), sample.to_bits());
            assert!(f32::from_bits(times(gain, sample.to_bits())).abs() <= sample.abs());
        }
        let loud = f32::from_bits(LIMITER_CEILING) * (1.0 + next() as f32);
        assert!(over(LIMITER_CEILING, loud.to_bits()) <= ONE);
    }
}

#[test]
fn single_precision_settles() {
    // What the laws on the start of a run ask of the arithmetic.
    let at_rest = |gain: u32| plus(times(LIMITER_ATTACK, ONE), times(LIMITER_SMOOTH, gain));
    let mut seed = 3u32;
    let mut gains = vec![0, 1, ONE - 1, ONE];
    for _ in 0..50_000 {
        seed = seed.wrapping_mul(1_664_525).wrapping_add(1_013_904_223);
        gains.push(seed % (ONE + 1));
        gains.push(ONE - seed % 0x0100_0000);
    }
    for gain in gains {
        assert!(at_rest(gain) <= ONE);
        assert_eq!(at_rest(at_rest(at_rest(gain))), ONE, "{gain:#x}");
    }
}

#[test]
fn zeros_are_neutral_in_single_precision() {
    // What the law on pruning asks of the arithmetic.
    let zero = |bits: u32| f32::from_bits(bits) == 0.0;
    let mut seed = 9u32;
    let mut next = || {
        seed = seed.wrapping_mul(1_664_525).wrapping_add(1_013_904_223);
        seed
    };
    let special = [0.0f32, -0.0, 1.0, -1.0, f32::MIN, f32::MAX, f32::INFINITY, f32::NEG_INFINITY];
    for n in 0..20_000usize {
        let total = if n < special.len() { special[n] } else { f32::from_bits(next()) };
        let sample = f32::from_bits(next());
        if total.is_nan() || !sample.is_finite() {
            continue;
        }
        for gain in [0.0f32, -0.0] {
            let term = times(gain.to_bits(), sample.to_bits());
            assert!(zero(term));
            assert_eq!(f32::from_bits(plus(total.to_bits(), term)), total);
        }
        assert!(!f32::from_bits(plus(total.to_bits(), sample.to_bits())).is_nan());
        assert_eq!(
            f32::from_bits(plus(0.0f32.to_bits(), sample.to_bits())),
            f32::from_bits(plus((-0.0f32).to_bits(), sample.to_bits()))
        );
        for row in BED_GAINS_STEREO {
            assert!(f32::from_bits(times(row[0], sample.to_bits())).is_finite());
        }
    }
}

#[test]
fn pruning_keeps_the_sum() {
    let frame: Vec<f32> = (0..12).map(|i| i as f32 * 777.25 - 3_000.5).collect();
    for out in 0..OUTPUT_CHANNELS {
        let (mut pruned, mut full) = (-0.0f32, -0.0f32);
        for channel in 0..12 {
            let gain = f32::from_bits(bed_gains(channel)[out]);
            full += gain * frame[channel];
            if gain != 0.0 {
                pruned += gain * frame[channel];
            }
        }
        assert_eq!(pruned, full);
    }
}

/// On the pseudo-audio above, the limiters of the two runs come into step within one block, which
/// is what the law on independence of the start asks.
#[test]
fn pseudo_audio_brings_limiters_into_step() {
    let (frames, channels) = (512usize, 12usize);
    let ceiling = f32::from_bits(LIMITER_CEILING);
    let decay = f32::from_bits(LIMITER_DECAY);
    let step = |(envelope, gain): (f32, f32), mix: f32| {
        let envelope = (envelope * decay).max(mix.abs());
        let target = if envelope > ceiling { ceiling / envelope } else { 1.0 };
        (envelope, (1.0 - 0.001) * target + 0.001 * gain)
    };
    let mut seed = 0x1234_5678u32;
    let mut all = vec![0.0f32; 3 * frames * channels];
    for slot in all.iter_mut() {
        seed = seed.wrapping_mul(1_664_525).wrapping_add(1_013_904_223);
        *slot = ((seed >> 8) as f32 / 8_388_608.0 - 1.0) * 8_000.0;
    }
    for out in 0..OUTPUT_CHANNELS {
        let (mut a, mut b) = ((0.0f32, 1.0f32), (0.0f32, 1.0f32));
        for (n, frame) in all.chunks(channels).enumerate() {
            let mix: f32 = (0..channels)
                .map(|c| f32::from_bits(bed_gains(c)[out]) * frame[c])
                .sum();
            a = step(a, mix);
            if n >= 2 * frames {
                b = step(b, mix);
            }
        }
        let at_rest = a.1 == 1.0 && a.0 <= ceiling && b.0 <= ceiling;
        assert!(a.1 == b.1 && (a.0 == b.0 || at_rest), "{a:?} {b:?}");
    }
}

#[test]
fn loud_output_is_independent_of_the_start() {
    // Two channels, far above the ceiling after a quiet start.
    let mut seed = 21u32;
    let mut frames = Vec::new();
    for n in 0..2_000usize {
        let level = if n < 510 { 9_000.0 } else { 200_000.0 };
        for _ in 0..2 {
            seed = seed.wrapping_mul(1_664_525).wrapping_add(1_013_904_223);
            frames.push((((seed >> 8) as f32 / 8_388_608.0 - 1.0) * level).to_bits());
        }
    }
    let render_from = |start: usize| {
        let mut out = vec![0i16; frames.len() - 2 * start];
        StereoRenderer::new(2, 2).render(&frames[2 * start..], &mut out, &ops()).unwrap();
        out
    };
    let (earlier, later) = (render_from(0), render_from(500));
    assert_eq!(earlier[2 * (500 + 99)..], later[2 * 99..]);
}

#[test]
fn single_precision_rounds_closely() {
    // What the law on the ceiling asks of the arithmetic.
    let value = |bits: u32| f64::from(f32::from_bits(bits));
    let ceiling = value(LIMITER_CEILING);
    let last_place = 2f64.powi(-149);
    let mut seed = 77u32;
    let mut next = || {
        seed = seed.wrapping_mul(1_664_525).wrapping_add(1_013_904_223);
        seed >> 1
    };
    for _ in 0..50_000 {
        let envelope = next() % 0x7F80_0000;
        let decayed = times(envelope, LIMITER_DECAY);
        assert!(decayed < 0x7F80_0000);
        if value(envelope) >= ceiling {
            assert!(1e6 * value(decayed) >= 999_899.0 * value(envelope));
        }
        if value(envelope) > ceiling {
            let target = over(LIMITER_CEILING, envelope);
            assert!(1e6 * value(target) * value(envelope) <= 1_000_001.0 * ceiling);
        }
        let (target, gain) = (next() % (ONE + 1), next() % (ONE + 1));
        let mixed = plus(times(LIMITER_ATTACK, target), times(LIMITER_SMOOTH, gain));
        assert!(
            1e9 * value(mixed)
                <= 999_000_200.0 * value(target) + 1_000_100.0 * value(gain) + 3e9 * last_place
        );
        let sample = next() % 0x7F80_0000;
        assert!(
            1e6 * value(times(gain, sample))
                <= 1_000_001.0 * value(gain) * value(sample) + 1e6 * last_place
        );
    }
}

#[test]
fn however_loud_the_ceiling_holds() {
    let ceiling = f32::from_bits(LIMITER_CEILING);
    for level in [32_765.0f32, 33_000.0, 34_000.0, 1e6, 1e20, 3e38] {
        let mut limiter = Limiter::new();
        let mut peak = 0.0f32;
        for n in 0..600usize {
            let sample = if n == 150 { level } else { 1_000.0 };
            let out = f32::from_bits(limiter.process_sample(sample.to_bits(), &ops()));
            peak = peak.max(out.abs());
        }
        assert!(peak <= ceiling * 1.02, "{level} came out as {peak}");
    }
}

#[test]
fn limiter_never_amplifies() {
    let mut limiter = Limiter::new();
    let mut samples = Vec::new();
    let mut seed = 11u32;
    for n in 0..3_000usize {
        seed = seed.wrapping_mul(1_664_525).wrapping_add(1_013_904_223);
        let level = if n < 1_000 { 30_000.0 } else { 300_000.0 };
        samples.push(((seed >> 8) as f32 / 8_388_608.0 - 1.0) * level);
        let out = f32::from_bits(limiter.process_sample(samples[n].to_bits(), &ops()));
        if n < 99 {
            assert_eq!(out.to_bits(), 0);
        } else {
            assert!(out.abs() <= samples[n - 99].abs());
            assert!(out.abs() <= f32::from_bits(LIMITER_CEILING) * 1.02);
        }
        if (99..1_000).contains(&n) {
            assert_eq!(out, samples[n - 99]);
        }
    }
}

#[test]
fn channels_past_the_table_are_silent() {
    assert_eq!(bed_gains(12), [0, 0]);
    assert_eq!(bed_gains(usize::MAX), [0, 0]);
}

#[test]
fn channels_past_the_bed_are_ignored() {
    let mut renderer = StereoRenderer::new(2, 3);
    let mut input = Vec::new();
    for _ in 0..200 {
        input.extend_from_slice(&[0.0f32.to_bits(), 0.0f32.to_bits(), 9_000.0f32.to_bits()]);
    }
    let mut output = vec![7i16; 400];
    renderer.render(&input, &mut output, &ops()).unwrap();
    assert!(output.iter().all(|s| *s == 0));
}

#[test]
fn output_is_ninety_nine_samples_late() {
    let mut renderer = StereoRenderer::new(2, 2);
    let mut input = vec![0u32; 2 * 200];
    input[0] = 10_000.0f32.to_bits();
    input[3] = (-20_000.0f32).to_bits();
    let mut output = vec![0i16; 400];
    renderer.render(&input, &mut output, &ops()).unwrap();
    for frame in 0..200 {
        let left = if frame == 99 { 8_500 } else { 0 };
        let right = if frame == 100 { -17_000 } else { 0 };
        assert_eq!(output[2 * frame], left, "frame {frame}");
        assert_eq!(output[2 * frame + 1], right, "frame {frame}");
    }
}

#[test]
fn rendering_in_blocks_gives_what_rendering_at_once_gives() {
    let mut input = Vec::new();
    for i in 0..600u32 {
        let v = (i as f32 * 37.5 - 9_000.0) * 5.0;
        input.push(v.to_bits());
    }
    let mut whole = vec![0i16; 600];
    StereoRenderer::new(2, 2).render(&input, &mut whole, &ops()).unwrap();
    let mut parts = vec![0i16; 600];
    let mut renderer = StereoRenderer::new(2, 2);
    let (first, second) = parts.split_at_mut(222);
    renderer.render(&input[..222], first, &ops()).unwrap();
    renderer.render(&input[222..], second, &ops()).unwrap();
    assert_eq!(whole, parts);
}

#[test]
fn a_reset_renderer_is_new() {
    let input = bits(&vec![40_000.0f32; 400]);
    let mut fresh = vec![0i16; 400];
    let mut renderer = StereoRenderer::new(2, 2);
    renderer.render(&input, &mut fresh, &ops()).unwrap();
    let mut again = vec![0i16; 400];
    renderer.render(&input, &mut again, &ops()).unwrap();
    assert_ne!(fresh, again);
    renderer.reset();
    renderer.render(&input, &mut again, &ops()).unwrap();
    assert_eq!(fresh, again);
}

#[test]
fn a_reset_limiter_is_new() {
    let mut limiter = Limiter::default();
    let mut copy = limiter.clone();
    for _ in 0..150 {
        limiter.process_sample(50_000.0f32.to_bits(), &ops());
    }
    limiter.reset();
    for i in 0..150 {
        let sample = (i as f32 * 400.0).to_bits();
        assert_eq!(
            limiter.process_sample(sample, &ops()),
            copy.process_sample(sample, &ops())
        );
    }
}

#[test]
fn limiter_agrees_with_floating_point() {
    let decay = f32::from_bits(LIMITER_DECAY);
    let ceiling = f32::from_bits(LIMITER_CEILING);
    let mut ring = [0.0f32; 100];
    let (mut write, mut envelope, mut gain) = (0usize, 0.0f32, 1.0f32);
    let mut limiter = Limiter::new();
    let mut seed = 7u32;
    for _ in 0..5_000 {
        seed = seed.wrapping_mul(1_664_525).wrapping_add(1_013_904_223);
        let sample = ((seed >> 8) as f32 / 8_388_608.0 - 1.0) * 60_000.0;
        ring[write] = sample;
        write = (write + 1) % 100;
        envelope = (envelope * decay).max(sample.abs());
        let target = if envelope > ceiling { ceiling / envelope } else { 1.0 };
        gain = (1.0 - 0.001) * target + 0.001 * gain;
        let want = gain * ring[write];
        let got = limiter.process_sample(sample.to_bits(), &ops());
        assert_eq!(got, want.to_bits());
    }
}

#[test]
fn render_refuses_what_does_not_fit() {
    let mut output = vec![0i16; 4];
    let none = StereoRenderer::new(0, 0).render(&[], &mut [], &ops()).unwrap_err();
    assert!(matches!(none, RenderError::NoChannels));
    assert_eq!(none.message(), "render: zero input channels");

    let ragged = StereoRenderer::new(2, 2).render(&[0, 0, 0], &mut output, &ops()).unwrap_err();
    assert_eq!(
        ragged.message(),
        "render: 3 input samples is not a multiple of 2 channels"
    );

    let short = StereoRenderer::new(2, 2).render(&[0; 6], &mut output, &ops()).unwrap_err();
    assert_eq!(short.message(), "render: output holds 4 samples, expected 6");
}

#[test]
fn quantise_truncates_and_saturates() {
    let mut values = vec![
        0.0f32, -0.0, 0.5, -0.5, 0.999_999_9, 1.0, -1.0, 1.5, -1.5, 849.99, 32_766.996, 32_767.0,
        32_767.5, 32_768.0, -32_767.9, -32_768.0, -32_768.9, 1e20, -1e20, f32::INFINITY,
        f32::NEG_INFINITY, f32::NAN, f32::MIN_POSITIVE, 1e-40, -1e-40, 16_384.25, -16_384.75,
    ];
    let mut seed = 99u32;
    for _ in 0..20_000 {
        seed = seed.wrapping_mul(1_664_525).wrapping_add(1_013_904_223);
        values.push(f32::from_bits(seed));
        values.push(((seed >> 8) as f32 / 8_388_608.0 - 1.0) * 40_000.0);
    }
    for value in values {
        let want = if value > 32_767.0 {
            i16::MAX
        } else if value < -32_768.0 {
            i16::MIN
        } else {
            value as i16
        };
        assert_eq!(quantise(value.to_bits()), want, "{value}");
    }
}

#[test]
fn comparisons_agree_with_floating_point() {
    let values = [
        0.0f32, -0.0, 1.0, -1.0, 1e-40, -1e-40, 32_764.7, f32::MAX, f32::MIN, f32::INFINITY,
        f32::NEG_INFINITY, f32::NAN,
    ];
    for a in values {
        assert_eq!(is_zero(a.to_bits()), a == 0.0);
        assert_eq!(magnitude(a.to_bits()), a.abs().to_bits());
        for b in values {
            assert_eq!(is_greater(a.to_bits(), b.to_bits()), a > b, "{a} > {b}");
            let larger = f32::from_bits(larger_of(a.to_bits(), b.to_bits()));
            let want = a.max(b);
            assert!(larger == want || (larger.is_nan() && want.is_nan()), "{a} max {b}");
        }
    }
}

#[test]
fn layouts_have_their_names() {
    for (config, name) in [
        (ChannelConfig::Mono, "0+1+0"),
        (ChannelConfig::Stereo, "0+2+0"),
        (ChannelConfig::Mc5_1, "0+5+0"),
        (ChannelConfig::Mc7_1, "0+7+0"),
        (ChannelConfig::Mc10_2, "2+10+0"),
        (ChannelConfig::Mc22_2, "2+22+0"),
        (ChannelConfig::Mc4_0, "0+4+0"),
        (ChannelConfig::Mc5_1_2, "2+5+0"),
        (ChannelConfig::Mc5_1_4, "4+5+0"),
        (ChannelConfig::Mc7_1_2, "2+7+0"),
        (ChannelConfig::Mc7_1_4, "4+7+0"),
        (ChannelConfig::Hoa1, "N3D"),
        (ChannelConfig::Hoa2, "SN3D"),
        (ChannelConfig::Hoa3, "FuMa"),
    ] {
        assert_eq!(layout_name(config), name);
    }
}
