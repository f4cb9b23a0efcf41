//! Rendering decoded Audio Vivid to stereo.
//!
//! The bed is gain-panned onto a BS.2051 `0+2+0` layout and the sum runs through a peak
//! limiter. There is no binauralisation. Samples and gains are single-precision bit
//! patterns (see [`crate::binary32`]); samples are in PCM16 units.
use crate::binary32;
use crate::binary32::Arithmetic;
use crate::binary32::Operations;
use crate::text;
use vstd::arithmetic::div_mod::lemma_fundamental_div_mod;
use vstd::arithmetic::mul::lemma_mul_is_commutative;
use vstd::prelude::*;

verus! {

/// Output channel count.
pub const OUTPUT_CHANNELS: usize = 2;

/// Frames of preroll the render needs on top of the decoder's own warm-up.
///
/// The limiter's memory is longer than its look-ahead ring: the envelope decays per sample
/// and the gain smooths against its previous value. One frame covers both.
pub const WARMUP_FRAMES: usize = 1;

/// `0.85`: the per-bed-channel stereo trim.
pub const TRIM: u32 = 0x3F59_999A;

/// `1.414 * 0.85 * sqrt(0.5)`: the gain of the centre on either side.
pub const CENTER: u32 = 0x3F59_9130;

/// `0.85 * sqrt(0.5)`: the gain of every bed channel that is not L, R, C or LFE.
pub const SURROUND: u32 = 0x3F19_DDCF;

/// [`SURROUND`] with its sign flipped.
pub const SURROUND_INVERTED: u32 = 0xBF19_DDCF;

/// Rows of the gain table.
pub const BED_ROWS: usize = 12;

/// Per-bed-channel stereo gains, indexed by **channel position**.
///
/// The order is 7.1.4's. The table is positional: a stream with another order at the same
/// positions gets the gains of these rows.
pub const BED_GAINS_STEREO: [[u32; 2]; 12] = [
    [TRIM, 0u32],  //  0 L    M+030
    [0u32, TRIM],  //  1 R    M-030
    [CENTER, CENTER],  //  2 C    M+000
    [TRIM, TRIM],  //  3 LFE  LFE1   (substituted, not scaled)
    [SURROUND, SURROUND_INVERTED],  //  4 Lss  M+090  (anti-phase: cancels in mono)
    [SURROUND_INVERTED, SURROUND],  //  5 Rss  M-090
    [SURROUND, SURROUND],  //  6 Lrs  M+135
    [SURROUND, SURROUND],  //  7 Rrs  M-135
    [SURROUND, 0u32],  //  8 Ltf  U+045
    [0u32, SURROUND],  //  9 Rtf  U-045
    [SURROUND, 0u32],  // 10 Ltb  U+135
    [0x8000_0000u32, SURROUND],  // 11 Rtb  U-135  (minus zero; the sign is cosmetic)
];

/// Bed channel index whose gain is *substituted* rather than scaled.
///
/// `0+2+0` has no LFE output, so panning `LFE1` into it yields zero. Scaling that would
/// drop the LFE entirely, so row 3 of [`BED_GAINS_STEREO`] replaces it outright.
pub const LFE_BED_INDEX: usize = 3;

/// Look-ahead delay line length, in samples.
pub const LIMITER_LEN: usize = 100;

/// `0.9998999834`: envelope decay per sample.
pub const LIMITER_DECAY: u32 = 0x3F7F_F972;

/// `0.001`: weight of the *previous* gain when smoothing.
pub const LIMITER_SMOOTH: u32 = 0x3A83_126F;

/// `1.0 - 0.001`: weight of the target gain when smoothing.
pub const LIMITER_ATTACK: u32 = 0x3F7F_BE77;

/// `32764.72266`: the ceiling, in PCM16 units.
pub const LIMITER_CEILING: u32 = 0x46FF_F972;

/// Gains of the bed channel at `index`, left then right; silence beyond the table.
pub open spec fn bed_row(index: int) -> Seq<u32> {
    if 0 <= index < BED_ROWS {
        BED_GAINS_STEREO@[index]@
    } else {
        seq![0u32, 0u32]
    }
}

/// Gains for bed channel `index` (0-based within the bed).
///
/// Beyond the table a channel contributes nothing; silence beats a panic in an audio
/// callback. The LFE keeps its substituted gain on both sides, and the side surrounds are
/// in anti-phase.
pub fn bed_gains(index: usize) -> (r: [u32; 2])
    ensures
        r@ == bed_row(index as int),
        index == LFE_BED_INDEX ==> r@ == seq![TRIM, TRIM],
        index == 4 || index == 5 ==> binary32::scaled(r[0]) + binary32::scaled(r[1]) == 0,
        index >= BED_ROWS ==> r@ == seq![0u32, 0u32],
{
    if index < BED_ROWS {
        BED_GAINS_STEREO[index]
    } else {
        [0, 0]
    }
}

/// What a limiter remembers: the samples still in the look-ahead, oldest first, the
/// envelope and the gain.
#[verifier::ext_equal]
pub struct LimiterState {
    pub delay: Seq<u32>,
    pub envelope: u32,
    pub gain: u32,
}

/// Silence in the look-ahead, no envelope, unit gain.
pub open spec fn limiter_start() -> LimiterState {
    LimiterState {
        delay: Seq::new((LIMITER_LEN - 1) as nat, |i: int| 0u32),
        envelope: 0,
        gain: binary32::ONE,
    }
}

/// The envelope after `sample`: it decays, and follows every peak at once.
pub open spec fn next_envelope(ops: Operations, envelope: u32, sample: u32) -> u32 {
    binary32::larger((ops.product)(envelope, LIMITER_DECAY), binary32::unsigned(sample))
}

/// The gain that brings `envelope` down to the ceiling; one where it is not above it.
pub open spec fn target_gain(ops: Operations, envelope: u32) -> u32 {
    if binary32::greater(envelope, LIMITER_CEILING) {
        (ops.quotient)(LIMITER_CEILING, envelope)
    } else {
        binary32::ONE
    }
}

/// The gain after moving from `gain` toward `target`.
pub open spec fn next_gain(ops: Operations, target: u32, gain: u32) -> u32 {
    (ops.sum)((ops.product)(LIMITER_ATTACK, target), (ops.product)(LIMITER_SMOOTH, gain))
}

/// What the limiter remembers after `sample`.
pub open spec fn limiter_next(ops: Operations, s: LimiterState, sample: u32) -> LimiterState {
    let envelope = next_envelope(ops, s.envelope, sample);
    LimiterState {
        delay: s.delay.drop_first().push(sample),
        envelope,
        gain: next_gain(ops, target_gain(ops, envelope), s.gain),
    }
}

/// What the limiter gives out on `sample`: the oldest remembered sample at the new gain.
pub open spec fn limiter_output(ops: Operations, s: LimiterState, sample: u32) -> u32 {
    (ops.product)(limiter_next(ops, s, sample).gain, s.delay[0])
}

/// Per-output-channel look-ahead peak limiter.
///
/// The gain applied to a sample is derived from an envelope that has seen
/// `LIMITER_LEN - 1` samples *after* it, so this is genuine look-ahead. It consequently
/// delays the signal by `LIMITER_LEN - 1` samples.
#[derive(Debug)]
pub struct Limiter {
    ring: [u32; 100],
    write: usize,
    envelope: u32,
    gain: u32,
}

impl View for Limiter {
    type V = LimiterState;

    closed spec fn view(&self) -> LimiterState {
        LimiterState {
            delay: Seq::new(
                (LIMITER_LEN - 1) as nat,
                |i: int| self.ring@[(self.write + 1 + i) % LIMITER_LEN as int],
            ),
            envelope: self.envelope,
            gain: self.gain,
        }
    }
}

impl Limiter {
    #[verifier::type_invariant]
    closed spec fn inv(&self) -> bool {
        self.write < LIMITER_LEN
    }

    /// A limiter in its start state.
    pub fn new() -> (r: Self)
        ensures
            r@ == limiter_start(),
    {
        let r = Limiter { ring: [0;100], write: 0, envelope: 0, gain: binary32::ONE };
        assert(r@.delay =~= limiter_start().delay);
        r
    }

    /// Back to the start state.
    pub fn reset(&mut self)
        ensures
            final(self)@ == limiter_start(),
    {
        proof {
            use_type_invariant(&*self);
        }
        self.ring = [0;100];
        self.write = 0;
        self.envelope = 0;
        self.gain = binary32::ONE;
        assert(self@.delay =~= limiter_start().delay);
    }

    /// Take one sample in and give one out.
    pub fn process_sample<
        M: Fn(u32, u32) -> u32,
        A: Fn(u32, u32) -> u32,
        D: Fn(u32, u32) -> u32,
    >(&mut self, sample: u32, ops: &Arithmetic<M, A, D>) -> (r: u32)
        requires
            ops.valid(),
        ensures
            final(self)@ == limiter_next(ops@, old(self)@, sample),
            r == limiter_output(ops@, old(self)@, sample),
    {
        proof {
            use_type_invariant(&*self);
        }
        let ghost before = self@;
        let w: usize = self.write;
        self.ring[w] = sample;
        let read: usize = (w + 1) % LIMITER_LEN;
        self.write = read;
        self.envelope = binary32::larger_of(
            ops.product(self.envelope, LIMITER_DECAY),
            binary32::magnitude(sample),
        );
        let target: u32 = if binary32::is_greater(self.envelope, LIMITER_CEILING) {
            ops.quotient(LIMITER_CEILING, self.envelope)
        } else {
            binary32::ONE
        };
        self.gain = ops.sum(
            ops.product(LIMITER_ATTACK, target),
            ops.product(LIMITER_SMOOTH, self.gain),
        );
        assert(self@.delay =~= before.delay.drop_first().push(sample));
        assert(self.ring@[read as int] == before.delay[0]);
        ops.product(self.gain, self.ring[read])
    }
}

impl Clone for Limiter {
    fn clone(&self) -> (r: Self)
        ensures
            r@ == self@,
    {
        proof {
            use_type_invariant(self);
        }
        Limiter {
            ring: self.ring,
            write: self.write,
            envelope: self.envelope,
            gain: self.gain,
        }
    }
}

impl Default for Limiter {
    fn default() -> (r: Self)
        ensures
            r@ == limiter_start(),
    {
        Self::new()
    }
}

/// The input channels among the first `channels` that contribute to the output channel
/// `out`, each with its gain, in input-channel order.
pub open spec fn contributions(out: int, channels: nat) -> Seq<(usize, u32)>
    decreases channels,
{
    if channels == 0 {
        Seq::empty()
    } else {
        let before = contributions(out, (channels - 1) as nat);
        let gain = bed_row(channels - 1)[out];
        if binary32::scaled(gain) == 0 {
            before
        } else {
            before.push(((channels - 1) as usize, gain))
        }
    }
}

/// The samples of `frame` that `terms` select, each at its gain, added up from left to
/// right.
pub open spec fn mixed(ops: Operations, terms: Seq<(usize, u32)>, frame: Seq<u32>) -> u32
    decreases terms.len(),
{
    if terms.len() == 0 {
        binary32::NEGATIVE_ZERO
    } else {
        let term = terms.last();
        (ops.sum)(
            mixed(ops, terms.drop_last(), frame),
            (ops.product)(term.1, frame[term.0 as int]),
        )
    }
}

/// What a renderer remembers: its fixed matrix and its two limiters.
#[verifier::ext_equal]
pub struct RendererState {
    pub left_terms: Seq<(usize, u32)>,
    pub right_terms: Seq<(usize, u32)>,
    pub input_channels: nat,
    pub left: LimiterState,
    pub right: LimiterState,
}

/// The state of a new renderer: of the input channels, those of the bed contribute.
pub open spec fn renderer_start(bed_channels: nat, input_channels: nat) -> RendererState {
    let channels = if bed_channels < input_channels {
        bed_channels
    } else {
        input_channels
    };
    RendererState {
        left_terms: contributions(0, channels),
        right_terms: contributions(1, channels),
        input_channels,
        left: limiter_start(),
        right: limiter_start(),
    }
}

/// The renderer with both limiters back in their start state.
pub open spec fn renderer_reset(s: RendererState) -> RendererState {
    RendererState { left: limiter_start(), right: limiter_start(), ..s }
}

/// Whole frames in an input of `samples` samples.
pub open spec fn frames_in(s: RendererState, samples: nat) -> nat {
    samples / s.input_channels
}

/// The frame at `index` of an interleaved input.
pub open spec fn frame_at(s: RendererState, input: Seq<u32>, index: int) -> Seq<u32> {
    input.subrange(index * s.input_channels, (index + 1) * s.input_channels)
}

/// The state after one frame.
pub open spec fn frame_next(ops: Operations, s: RendererState, frame: Seq<u32>) -> RendererState {
    RendererState {
        left: limiter_next(ops, s.left, mixed(ops, s.left_terms, frame)),
        right: limiter_next(ops, s.right, mixed(ops, s.right_terms, frame)),
        ..s
    }
}

/// The two output samples of one frame.
pub open spec fn frame_output(ops: Operations, s: RendererState, frame: Seq<u32>) -> Seq<i16> {
    seq![
        binary32::quantised(limiter_output(ops, s.left, mixed(ops, s.left_terms, frame))),
        binary32::quantised(limiter_output(ops, s.right, mixed(ops, s.right_terms, frame))),
    ]
}

/// The state after the first `frames` frames of `input`.
pub open spec fn render_next(
    ops: Operations,
    s: RendererState,
    input: Seq<u32>,
    frames: nat,
) -> RendererState
    decreases frames,
{
    if frames == 0 {
        s
    } else {
        let n = (frames - 1) as nat;
        frame_next(ops, render_next(ops, s, input, n), frame_at(s, input, n as int))
    }
}

/// The interleaved stereo samples that the first `frames` frames of `input` give.
pub open spec fn render_output(
    ops: Operations,
    s: RendererState,
    input: Seq<u32>,
    frames: nat,
) -> Seq<i16>
    decreases frames,
{
    if frames == 0 {
        Seq::empty()
    } else {
        let n = (frames - 1) as nat;
        render_output(ops, s, input, n) + frame_output(
            ops,
            render_next(ops, s, input, n),
            frame_at(s, input, n as int),
        )
    }
}

/// Why a block cannot be rendered.
#[derive(Debug, Clone, Copy, PartialEq, Eq, Structural)]
pub enum RenderError {
    /// The renderer has no input channels.
    NoChannels,
    /// The input is not a whole number of frames.
    PartialFrame { samples: usize, channels: usize },
    /// The output does not hold two samples for each frame.
    OutputLength { samples: usize, expected: u128 },
}

impl RenderError {
    /// The text that reports the error.
    pub open spec fn text(&self) -> Seq<char> {
        match self {
            RenderError::NoChannels => "render: zero input channels"@,
            RenderError::PartialFrame { samples, channels } => "render: "@ + text::decimal(
                *samples as nat,
            ) + " input samples is not a multiple of "@ + text::decimal(*channels as nat)
                + " channels"@,
            RenderError::OutputLength { samples, expected } => "render: output holds "@
                + text::decimal(*samples as nat) + " samples, expected "@ + text::decimal(
                *expected as nat,
            ),
        }
    }

    /// Renders [`RenderError::text`].
    pub fn message(&self) -> (r: String)
        ensures
            r@ == self.text(),
    {
        match self {
            RenderError::NoChannels => "render: zero input channels".to_owned(),
            RenderError::PartialFrame { samples, channels } => "render: ".to_owned().concat(
                text::decimal_text(*samples as u128).as_str(),
            ).concat(" input samples is not a multiple of ").concat(
                text::decimal_text(*channels as u128).as_str(),
            ).concat(" channels"),
            RenderError::OutputLength { samples, expected } => "render: output holds ".to_owned(

            ).concat(text::decimal_text(*samples as u128).as_str()).concat(
                " samples, expected ",
            ).concat(text::decimal_text(*expected).as_str()),
        }
    }
}

/// What stops `input` samples from being rendered into `output` samples, if anything does.
pub open spec fn render_fault(s: RendererState, input: usize, output: usize) -> Option<
    RenderError,
> {
    if s.input_channels == 0 {
        Some(RenderError::NoChannels)
    } else if input as nat % s.input_channels != 0 {
        Some(
            RenderError::PartialFrame { samples: input, channels: s.input_channels as usize },
        )
    } else if output != frames_in(s, input as nat) * OUTPUT_CHANNELS {
        Some(
            RenderError::OutputLength {
                samples: output,
                expected: (frames_in(s, input as nat) * OUTPUT_CHANNELS) as u128,
            },
        )
    } else {
        None
    }
}

/// Every term selects one of `channels` channels.
spec fn terms_within(terms: Seq<(usize, u32)>, channels: nat) -> bool {
    forall|i: int| 0 <= i < terms.len() ==> (#[trigger] terms[i]).0 < channels
}

/// Adds up the terms of one output channel over one frame of `input`.
fn mix<M: Fn(u32, u32) -> u32, A: Fn(u32, u32) -> u32, D: Fn(u32, u32) -> u32>(
    terms: &Vec<(usize, u32)>,
    input: &[u32],
    start: usize,
    channels: usize,
    ops: &Arithmetic<M, A, D>,
) -> (r: u32)
    requires
        ops.valid(),
        start + channels <= input.len(),
        terms_within(terms@, channels as nat),
    ensures
        r == mixed(ops@, terms@, input@.subrange(start as int, start + channels)),
{
    let ghost frame = input@.subrange(start as int, start + channels);
    let mut total: u32 = binary32::NEGATIVE_ZERO;
    let mut i: usize = 0;
    while i < terms.len()
        invariant
            ops.valid(),
            start + channels <= input.len(),
            terms_within(terms@, channels as nat),
            frame == input@.subrange(start as int, start + channels),
            i <= terms@.len(),
            total == mixed(ops@, terms@.take(i as int), frame),
        decreases terms@.len() - i,
    {
        let (channel, gain) = terms[i];
        assert(terms@[i as int].0 < channels);
        assert(terms@.take(i + 1).drop_last() =~= terms@.take(i as int));
        total = ops.sum(total, ops.product(gain, input[start + channel]));
        i += 1;
    }
    assert(terms@.take(i as int) =~= terms@);
    total
}

/// The static gain matrix: for each side, the input channels that contribute and their
/// gain, in input-channel order. Zero gains are pruned here rather than in the mix loop.
#[derive(Debug)]
struct Matrix {
    left: Vec<(usize, u32)>,
    right: Vec<(usize, u32)>,
    input_channels: usize,
}

impl Matrix {
    #[verifier::type_invariant]
    spec fn inv(&self) -> bool {
        &&& terms_within(self.left@, self.input_channels as nat)
        &&& terms_within(self.right@, self.input_channels as nat)
    }
}

/// Renders interleaved decoder output to interleaved stereo `i16`.
///
/// The limiter is a genuine look-ahead, so the output stream is uniformly
/// `LIMITER_LEN - 1` samples late. The delay is the same wherever a run starts, which is
/// what keeps the render from contributing to a seek discontinuity. The exception is a
/// run's first frame, which sees a zero-filled ring; [`WARMUP_FRAMES`] is the preroll that
/// covers it.
#[derive(Debug)]
pub struct StereoRenderer {
    matrix: Matrix,
    left: Limiter,
    right: Limiter,
}

impl View for StereoRenderer {
    type V = RendererState;

    closed spec fn view(&self) -> RendererState {
        RendererState {
            left_terms: self.matrix.left@,
            right_terms: self.matrix.right@,
            input_channels: self.matrix.input_channels as nat,
            left: self.left@,
            right: self.right@,
        }
    }
}

impl StereoRenderer {
    /// A renderer of `input_channels` interleaved channels, the first `bed_channels` of
    /// which are the bed. Channels past the bed are not part of the supported input.
    pub fn new(bed_channels: usize, input_channels: usize) -> (r: Self)
        ensures
            r@ == renderer_start(bed_channels as nat, input_channels as nat),
    {
        let channels: usize = if bed_channels < input_channels {
            bed_channels
        } else {
            input_channels
        };
        let mut left_terms: Vec<(usize, u32)> = Vec::new();
        let mut right_terms: Vec<(usize, u32)> = Vec::new();
        let mut channel: usize = 0;
        while channel < channels
            invariant
                channel <= channels <= input_channels,
                left_terms@ == contributions(0, channel as nat),
                right_terms@ == contributions(1, channel as nat),
                terms_within(left_terms@, channel as nat),
                terms_within(right_terms@, channel as nat),
            decreases channels - channel,
        {
            let gains: [u32; 2] = bed_gains(channel);
            if !binary32::is_zero(gains[0]) {
                left_terms.push((channel, gains[0]));
            }
            if !binary32::is_zero(gains[1]) {
                right_terms.push((channel, gains[1]));
            }
            channel += 1;
        }
        StereoRenderer {
            matrix: Matrix { left: left_terms, right: right_terms, input_channels },
            left: Limiter::new(),
            right: Limiter::new(),
        }
    }

    /// Both limiters back to their start state.
    pub fn reset(&mut self)
        ensures
            final(self)@ == renderer_reset(old(self)@),
    {
        self.left.reset();
        self.right.reset();
    }

    /// Render `input` (interleaved, `input_channels` wide, PCM16 units) into `output`
    /// (interleaved stereo).
    ///
    /// `output.len()` must be `OUTPUT_CHANNELS * (input.len() / input_channels)`.
    pub fn render<
        M: Fn(u32, u32) -> u32,
        A: Fn(u32, u32) -> u32,
        D: Fn(u32, u32) -> u32,
    >(&mut self, input: &[u32], output: &mut [i16], ops: &Arithmetic<M, A, D>) -> (r: Result<
        (),
        RenderError,
    >)
        requires
            ops.valid(),
        ensures
            match render_fault(old(self)@, input.len(), old(output).len()) {
                Some(e) => {
                    &&& r == Err::<(), RenderError>(e)
                    &&& final(self)@ == old(self)@
                    &&& final(output)@ == old(output)@
                },
                None => {
                    let frames = frames_in(old(self)@, input@.len());
                    &&& r is Ok
                    &&& final(self)@ == render_next(ops@, old(self)@, input@, frames)
                    &&& final(output)@ == render_output(ops@, old(self)@, input@, frames)
                },
            },
    {
        proof {
            use_type_invariant(&self.matrix);
        }
        let channels: usize = self.matrix.input_channels;
        if channels == 0 {
            return Err(RenderError::NoChannels);
        }
        if input.len() % channels != 0 {
            return Err(RenderError::PartialFrame { samples: input.len(), channels });
        }
        let frames: usize = input.len() / channels;
        let expected: u128 = frames as u128 * OUTPUT_CHANNELS as u128;
        if output.len() as u128 != expected {
            return Err(RenderError::OutputLength { samples: output.len(), expected });
        }
        let ghost start = self@;
        proof {
            lemma_fundamental_div_mod(input.len() as int, channels as int);
            lemma_mul_is_commutative(frames as int, channels as int);
        }
        let mut frame: usize = 0;
        while frame < frames
            invariant
                ops.valid(),
                terms_within(self.matrix.left@, channels as nat),
                terms_within(self.matrix.right@, channels as nat),
                0 < channels == start.input_channels,
                self@.left_terms == start.left_terms,
                self@.right_terms == start.right_terms,
                self@.input_channels == start.input_channels,
                frames * channels <= input.len(),
                frame <= frames,
                frames * 2 == output.len(),
                self@ == render_next(ops@, start, input@, frame as nat),
                output@.take(frame * 2) == render_output(ops@, start, input@, frame as nat),
            decreases frames - frame,
        {
            let ghost before = self@;
            let ghost done = output@.take(frame * 2);
            assert((frame + 1) * channels <= frames * channels) by (nonlinear_arith)
                requires
                    frame + 1 <= frames,
            ;
            assert((frame + 1) * channels == frame * channels + channels) by (nonlinear_arith);
            assert(0 <= frame * channels) by (nonlinear_arith);
            let base: usize = frame * channels;
            let ghost samples = input@.subrange(base as int, base + channels);
            assert(samples == frame_at(start, input@, frame as int));
            let l: u32 = mix(&self.matrix.left, input, base, channels, ops);
            output[frame * OUTPUT_CHANNELS] = binary32::quantise(self.left.process_sample(l, ops));
            let r: u32 = mix(&self.matrix.right, input, base, channels, ops);
            output[frame * OUTPUT_CHANNELS + 1] = binary32::quantise(
                self.right.process_sample(r, ops),
            );
            frame += 1;
            assert(self@ == frame_next(ops@, before, samples));
            assert(output@.take(frame * 2) =~= done + frame_output(ops@, before, samples));
        }
        assert(output@.take(frame * 2) =~= output@);
        Ok(())
    }
}

/// Two output samples for each frame.
pub proof fn output_length(ops: Operations, s: RendererState, input: Seq<u32>, frames: nat)
    ensures
        render_output(ops, s, input, frames).len() == OUTPUT_CHANNELS * frames,
    decreases frames,
{
    if frames > 0 {
        output_length(ops, s, input, (frames - 1) as nat);
    }
}

/// What the limiter remembers after `samples`.
pub open spec fn limiter_after(ops: Operations, s: LimiterState, samples: Seq<u32>) -> LimiterState
    decreases samples.len(),
{
    if samples.len() == 0 {
        s
    } else {
        limiter_next(ops, limiter_after(ops, s, samples.drop_last()), samples.last())
    }
}

/// The last `LIMITER_LEN - 1` of all samples so far, those that were in the delay line at the
/// start included.
pub proof fn delay_line_holds_latest(ops: Operations, s: LimiterState, samples: Seq<u32>)
    requires
        s.delay.len() == LIMITER_LEN - 1,
    ensures
        limiter_after(ops, s, samples).delay == (s.delay + samples).skip(samples.len() as int),
    decreases samples.len(),
{
    let after = limiter_after(ops, s, samples);
    if samples.len() > 0 {
        let earlier = samples.drop_last();
        delay_line_holds_latest(ops, s, earlier);
        assert(samples =~= earlier.push(samples.last()));
        assert(after.delay =~= (s.delay + samples).skip(samples.len() as int));
    } else {
        assert(after.delay =~= (s.delay + samples).skip(0));
    }
}

/// The output is uniformly `LIMITER_LEN - 1` samples late: on sample `n` of a run that starts
/// fresh, the limiter gives out sample `n - (LIMITER_LEN - 1)` at its current gain, and silence
/// before the first sample has come through.
pub proof fn output_is_late(ops: Operations, samples: Seq<u32>, n: int)
    requires
        0 <= n < samples.len(),
    ensures
        ({
            let before = limiter_after(ops, limiter_start(), samples.take(n));
            let gain = limiter_after(ops, limiter_start(), samples.take(n + 1)).gain;
            let late = if n >= LIMITER_LEN - 1 {
                samples[n - (LIMITER_LEN - 1)]
            } else {
                0
            };
            limiter_output(ops, before, samples[n]) == (ops.product)(gain, late)
        }),
{
    let start = limiter_start();
    delay_line_holds_latest(ops, start, samples.take(n));
    assert(samples.take(n + 1).drop_last() =~= samples.take(n));
    assert(samples.take(n + 1).last() == samples[n]);
}

/// Where a run started shows only in the envelope and the gain: once two limiters have taken
/// the same `LIMITER_LEN - 1` samples, their delay lines agree.
pub proof fn delay_line_forgets(ops: Operations, a: LimiterState, b: LimiterState, samples: Seq<u32>)
    requires
        a.delay.len() == LIMITER_LEN - 1,
        b.delay.len() == LIMITER_LEN - 1,
        samples.len() >= LIMITER_LEN - 1,
    ensures
        limiter_after(ops, a, samples).delay == limiter_after(ops, b, samples).delay,
{
    delay_line_holds_latest(ops, a, samples);
    delay_line_holds_latest(ops, b, samples);
    assert((a.delay + samples).skip(samples.len() as int) =~= (b.delay + samples).skip(
        samples.len() as int,
    ));
}

/// The matrix of a renderer never changes.
pub proof fn matrix_is_static(ops: Operations, s: RendererState, input: Seq<u32>, frames: nat)
    ensures
        ({
            let after = render_next(ops, s, input, frames);
            &&& after.left_terms == s.left_terms
            &&& after.right_terms == s.right_terms
            &&& after.input_channels == s.input_channels
        }),
    decreases frames,
{
    if frames > 0 {
        matrix_is_static(ops, s, input, (frames - 1) as nat);
    }
}

/// Whatever a renderer has rendered, a reset makes it new.
pub proof fn reset_is_a_fresh_start(
    ops: Operations,
    bed_channels: nat,
    input_channels: nat,
    input: Seq<u32>,
    frames: nat,
)
    ensures
        renderer_reset(
            render_next(ops, renderer_start(bed_channels, input_channels), input, frames),
        ) == renderer_start(bed_channels, input_channels),
{
    matrix_is_static(ops, renderer_start(bed_channels, input_channels), input, frames);
}

/// The mixes that one side of the renderer feeds its limiter.
pub open spec fn mixes(
    ops: Operations,
    s: RendererState,
    terms: Seq<(usize, u32)>,
    input: Seq<u32>,
    frames: nat,
) -> Seq<u32> {
    Seq::new(frames, |i: int| mixed(ops, terms, frame_at(s, input, i)))
}

/// Each side of the renderer is its limiter, run over the mixes of that side.
pub proof fn sides_are_limiter_runs(
    ops: Operations,
    s: RendererState,
    input: Seq<u32>,
    frames: nat,
)
    ensures
        render_next(ops, s, input, frames).left == limiter_after(
            ops,
            s.left,
            mixes(ops, s, s.left_terms, input, frames),
        ),
        render_next(ops, s, input, frames).right == limiter_after(
            ops,
            s.right,
            mixes(ops, s, s.right_terms, input, frames),
        ),
    decreases frames,
{
    if frames > 0 {
        let n = (frames - 1) as nat;
        sides_are_limiter_runs(ops, s, input, n);
        matrix_is_static(ops, s, input, n);
        let left = mixes(ops, s, s.left_terms, input, frames);
        let right = mixes(ops, s, s.right_terms, input, frames);
        assert(left.drop_last() =~= mixes(ops, s, s.left_terms, input, n));
        assert(right.drop_last() =~= mixes(ops, s, s.right_terms, input, n));
    }
}

/// Output is independent of where the run started: two renderers with the same matrix that have
/// taken the same `LIMITER_LEN - 1` frames, and whose envelopes and gains have met, are in the
/// same state, so that all that follows is the same.
pub proof fn output_is_independent_of_the_start(
    ops: Operations,
    a: RendererState,
    b: RendererState,
    input: Seq<u32>,
    frames: nat,
)
    requires
        a.left.delay.len() == LIMITER_LEN - 1,
        a.right.delay.len() == LIMITER_LEN - 1,
        b.left.delay.len() == LIMITER_LEN - 1,
        b.right.delay.len() == LIMITER_LEN - 1,
        a.left_terms == b.left_terms,
        a.right_terms == b.right_terms,
        a.input_channels == b.input_channels,
        frames >= LIMITER_LEN - 1,
        ({
            let (x, y) = (render_next(ops, a, input, frames), render_next(ops, b, input, frames));
            &&& x.left.envelope == y.left.envelope && x.left.gain == y.left.gain
            &&& x.right.envelope == y.right.envelope && x.right.gain == y.right.gain
        }),
    ensures
        render_next(ops, a, input, frames) == render_next(ops, b, input, frames),
        forall|next: Seq<u32>, more: nat| #[trigger]
            render_output(ops, render_next(ops, a, input, frames), next, more) == render_output(
                ops,
                render_next(ops, b, input, frames),
                next,
                more,
            ),
{
    sides_are_limiter_runs(ops, a, input, frames);
    sides_are_limiter_runs(ops, b, input, frames);
    matrix_is_static(ops, a, input, frames);
    matrix_is_static(ops, b, input, frames);
    let left = mixes(ops, a, a.left_terms, input, frames);
    let right = mixes(ops, a, a.right_terms, input, frames);
    assert(left =~= mixes(ops, b, b.left_terms, input, frames));
    assert(right =~= mixes(ops, b, b.right_terms, input, frames));
    delay_line_forgets(ops, a.left, b.left, left);
    delay_line_forgets(ops, a.right, b.right, right);
}

/// A peak at least as loud as what is left of either envelope brings two envelopes together.
pub proof fn peak_aligns_envelopes(ops: Operations, a: u32, b: u32, peak: u32)
    requires
        binary32::greater(binary32::unsigned(peak), (ops.product)(a, LIMITER_DECAY)),
        binary32::greater(binary32::unsigned(peak), (ops.product)(b, LIMITER_DECAY)),
    ensures
        next_envelope(ops, a, peak) == binary32::unsigned(peak),
        next_envelope(ops, a, peak) == next_envelope(ops, b, peak),
{
}

/// Envelopes that have met stay together.
pub proof fn envelopes_stay_aligned(
    ops: Operations,
    a: LimiterState,
    b: LimiterState,
    samples: Seq<u32>,
)
    requires
        a.envelope == b.envelope,
    ensures
        limiter_after(ops, a, samples).envelope == limiter_after(ops, b, samples).envelope,
    decreases samples.len(),
{
    if samples.len() > 0 {
        envelopes_stay_aligned(ops, a, b, samples.drop_last());
    }
}

/// The arithmetic keeps a gain of one at one, and decay takes no envelope above the ceiling.
/// Both hold of single-precision arithmetic.
pub open spec fn holds_full_scale(ops: Operations) -> bool {
    &&& next_gain(ops, binary32::ONE, binary32::ONE) == binary32::ONE
    &&& forall|envelope: u32|
        !binary32::greater(envelope, LIMITER_CEILING) ==> !binary32::greater(
            #[trigger] (ops.product)(envelope, LIMITER_DECAY),
            LIMITER_CEILING,
        )
}

/// The sample is not above the ceiling.
pub open spec fn is_quiet(sample: u32) -> bool {
    !binary32::greater(binary32::unsigned(sample), LIMITER_CEILING)
}

/// No sample is above the ceiling.
pub open spec fn all_quiet(samples: Seq<u32>) -> bool {
    forall|i: int| 0 <= i < samples.len() ==> is_quiet(#[trigger] samples[i])
}

/// The limiter leaves its input as it is: unit gain, and an envelope not above the ceiling.
pub open spec fn is_idle(s: LimiterState) -> bool {
    &&& s.delay.len() == LIMITER_LEN - 1
    &&& !binary32::greater(s.envelope, LIMITER_CEILING)
    &&& s.gain == binary32::ONE
}

proof fn start_is_idle()
    ensures
        is_idle(limiter_start()),
{
    binary32::zero_magnitude(0);
    binary32::zero_magnitude(LIMITER_CEILING);
}

/// Quiet samples leave an idle limiter idle, and come out at unit gain.
pub proof fn quiet_samples_pass(ops: Operations, s: LimiterState, samples: Seq<u32>)
    requires
        holds_full_scale(ops),
        is_idle(s),
        all_quiet(samples),
    ensures
        is_idle(limiter_after(ops, s, samples)),
        samples.len() > 0 ==> limiter_output(
            ops,
            limiter_after(ops, s, samples.drop_last()),
            samples.last(),
        ) == (ops.product)(
            binary32::ONE,
            limiter_after(ops, s, samples.drop_last()).delay[0],
        ),
    decreases samples.len(),
{
    if samples.len() > 0 {
        let earlier = samples.drop_last();
        assert forall|i: int| 0 <= i < earlier.len() implies is_quiet(#[trigger] earlier[i]) by {
            assert(is_quiet(samples[i]));
        }
        quiet_samples_pass(ops, s, earlier);
        assert(is_quiet(samples[samples.len() - 1]));
    }
}

/// Two renderers with one matrix and idle limiters that hold the same look-ahead.
spec fn alike(a: RendererState, b: RendererState) -> bool {
    &&& a.left_terms == b.left_terms
    &&& a.right_terms == b.right_terms
    &&& a.input_channels == b.input_channels
    &&& is_idle(a.left) && is_idle(a.right)
    &&& is_idle(b.left) && is_idle(b.right)
    &&& a.left.delay == b.left.delay
    &&& a.right.delay == b.right.delay
}

/// Both sides of what the renderer mixes are quiet.
pub open spec fn mixes_quietly(ops: Operations, s: RendererState, input: Seq<u32>, frames: nat) -> bool {
    &&& all_quiet(mixes(ops, s, s.left_terms, input, frames))
    &&& all_quiet(mixes(ops, s, s.right_terms, input, frames))
}

proof fn alike_render_alike(
    ops: Operations,
    a: RendererState,
    b: RendererState,
    input: Seq<u32>,
    frames: nat,
)
    requires
        holds_full_scale(ops),
        alike(a, b),
        mixes_quietly(ops, a, input, frames),
    ensures
        alike(render_next(ops, a, input, frames), render_next(ops, b, input, frames)),
        render_output(ops, a, input, frames) == render_output(ops, b, input, frames),
    decreases frames,
{
    if frames > 0 {
        let n = (frames - 1) as nat;
        let left = mixes(ops, a, a.left_terms, input, frames);
        let right = mixes(ops, a, a.right_terms, input, frames);
        let (l, r) = (
            mixes(ops, a, a.left_terms, input, n),
            mixes(ops, a, a.right_terms, input, n),
        );
        assert forall|i: int| 0 <= i < l.len() implies is_quiet(#[trigger] l[i]) by {
            assert(is_quiet(left[i]));
        }
        assert forall|i: int| 0 <= i < r.len() implies is_quiet(#[trigger] r[i]) by {
            assert(is_quiet(right[i]));
        }
        alike_render_alike(ops, a, b, input, n);
        matrix_is_static(ops, a, input, n);
        matrix_is_static(ops, b, input, n);
        assert(is_quiet(left[n as int]));
        assert(is_quiet(right[n as int]));
    }
}

/// Output is independent of where the run started: where nothing goes above the ceiling, two
/// renderers with one matrix that have taken the same `LIMITER_LEN - 1` frames give the same
/// samples from then on, whatever each took before.
pub proof fn quiet_output_is_independent_of_the_start(
    ops: Operations,
    a: RendererState,
    b: RendererState,
    shared: Seq<u32>,
    frames: nat,
    next: Seq<u32>,
    more: nat,
)
    requires
        holds_full_scale(ops),
        is_idle(a.left) && is_idle(a.right),
        is_idle(b.left) && is_idle(b.right),
        a.left_terms == b.left_terms,
        a.right_terms == b.right_terms,
        a.input_channels == b.input_channels,
        frames >= LIMITER_LEN - 1,
        mixes_quietly(ops, a, shared, frames),
        mixes_quietly(ops, a, next, more),
    ensures
        render_output(ops, render_next(ops, a, shared, frames), next, more) == render_output(
            ops,
            render_next(ops, b, shared, frames),
            next,
            more,
        ),
{
    sides_are_limiter_runs(ops, a, shared, frames);
    sides_are_limiter_runs(ops, b, shared, frames);
    matrix_is_static(ops, a, shared, frames);
    matrix_is_static(ops, b, shared, frames);
    let left = mixes(ops, a, a.left_terms, shared, frames);
    let right = mixes(ops, a, a.right_terms, shared, frames);
    assert(left =~= mixes(ops, b, b.left_terms, shared, frames));
    assert(right =~= mixes(ops, b, b.right_terms, shared, frames));
    delay_line_forgets(ops, a.left, b.left, left);
    delay_line_forgets(ops, a.right, b.right, right);
    quiet_samples_pass(ops, a.left, left);
    quiet_samples_pass(ops, a.right, right);
    quiet_samples_pass(ops, b.left, left);
    quiet_samples_pass(ops, b.right, right);
    let (x, y) = (render_next(ops, a, shared, frames), render_next(ops, b, shared, frames));
    assert(mixes(ops, x, x.left_terms, next, more) =~= mixes(ops, a, a.left_terms, next, more));
    assert(mixes(ops, x, x.right_terms, next, more) =~= mixes(ops, a, a.right_terms, next, more));
    alike_render_alike(ops, x, y, next, more);
}

/// A renderer that is new, or that took nothing but quiet mixes since, has idle limiters.
pub proof fn quiet_renderer_is_idle(
    ops: Operations,
    bed_channels: nat,
    input_channels: nat,
    input: Seq<u32>,
    frames: nat,
)
    requires
        holds_full_scale(ops),
        mixes_quietly(ops, renderer_start(bed_channels, input_channels), input, frames),
    ensures
        ({
            let s = render_next(ops, renderer_start(bed_channels, input_channels), input, frames);
            is_idle(s.left) && is_idle(s.right)
        }),
{
    let start = renderer_start(bed_channels, input_channels);
    start_is_idle();
    sides_are_limiter_runs(ops, start, input, frames);
    quiet_samples_pass(ops, start.left, mixes(ops, start, start.left_terms, input, frames));
    quiet_samples_pass(ops, start.right, mixes(ops, start, start.right_terms, input, frames));
}

/// Two limiters whose envelopes and gains met at some point of a shared run, and whose look-ahead
/// the run has filled, are in the same state at its end, wherever each started.
pub proof fn limiters_that_met_agree(
    ops: Operations,
    a: LimiterState,
    b: LimiterState,
    samples: Seq<u32>,
    met: int,
)
    requires
        a.delay.len() == LIMITER_LEN - 1,
        b.delay.len() == LIMITER_LEN - 1,
        samples.len() >= LIMITER_LEN - 1,
        0 <= met <= samples.len(),
        limiter_after(ops, a, samples.take(met)).envelope == limiter_after(
            ops,
            b,
            samples.take(met),
        ).envelope,
        limiter_after(ops, a, samples.take(met)).gain == limiter_after(
            ops,
            b,
            samples.take(met),
        ).gain,
    ensures
        limiter_after(ops, a, samples) == limiter_after(ops, b, samples),
{
    met_stays_met(ops, a, b, samples, met, samples.len() as int);
    assert(samples.take(samples.len() as int) =~= samples);
    delay_line_forgets(ops, a, b, samples);
}

proof fn met_stays_met(
    ops: Operations,
    a: LimiterState,
    b: LimiterState,
    samples: Seq<u32>,
    met: int,
    n: int,
)
    requires
        0 <= met <= n <= samples.len(),
        limiter_after(ops, a, samples.take(met)).envelope == limiter_after(
            ops,
            b,
            samples.take(met),
        ).envelope,
        limiter_after(ops, a, samples.take(met)).gain == limiter_after(
            ops,
            b,
            samples.take(met),
        ).gain,
    ensures
        limiter_after(ops, a, samples.take(n)).envelope == limiter_after(
            ops,
            b,
            samples.take(n),
        ).envelope,
        limiter_after(ops, a, samples.take(n)).gain == limiter_after(
            ops,
            b,
            samples.take(n),
        ).gain,
    decreases n,
{
    if n > met {
        met_stays_met(ops, a, b, samples, met, n - 1);
        assert(samples.take(n).drop_last() =~= samples.take(n - 1));
    }
}

/// The envelope is not above the ceiling.
pub open spec fn is_low(envelope: u32) -> bool {
    !binary32::greater(envelope, LIMITER_CEILING)
}

/// Two limiters give and keep the same gain, whatever comes: their gains are the same, and
/// either so are their envelopes, or both are at rest, where only a peak above the ceiling moves
/// them, and moves them to the same place.
pub open spec fn in_step(a: LimiterState, b: LimiterState) -> bool {
    &&& a.gain == b.gain
    &&& a.envelope == b.envelope || (a.gain == binary32::ONE && is_low(a.envelope) && is_low(
        b.envelope,
    ))
}

/// Limiters in step stay in step.
pub proof fn in_step_stays(ops: Operations, a: LimiterState, b: LimiterState, sample: u32)
    requires
        holds_full_scale(ops),
        in_step(a, b),
    ensures
        in_step(limiter_next(ops, a, sample), limiter_next(ops, b, sample)),
{
    if a.envelope != b.envelope {
        let (p, q) = (
            (ops.product)(a.envelope, LIMITER_DECAY),
            (ops.product)(b.envelope, LIMITER_DECAY),
        );
        assert(!binary32::greater(p, LIMITER_CEILING));
        assert(!binary32::greater(q, LIMITER_CEILING));
        if !is_quiet(sample) {
            assert(next_envelope(ops, a.envelope, sample) == binary32::unsigned(sample));
            assert(next_envelope(ops, b.envelope, sample) == binary32::unsigned(sample));
        }
    }
}

/// Three samples at rest bring any gain from zero to one back to one, and keep it in that range.
/// It holds of single-precision arithmetic.
pub open spec fn settles(ops: Operations) -> bool {
    &&& forall|gain: u32| is_unit(gain) ==> is_unit(#[trigger] at_rest(ops, gain))
    &&& forall|gain: u32|
        is_unit(gain) ==> #[trigger] at_rest(ops, at_rest(ops, at_rest(ops, gain)))
            == binary32::ONE
}

/// The gain after a sample that leaves the envelope at or under the ceiling.
pub open spec fn at_rest(ops: Operations, gain: u32) -> u32 {
    next_gain(ops, binary32::ONE, gain)
}

/// A quiet sample leaves a low envelope low, and the gain on its way to one.
proof fn quiet_step(ops: Operations, s: LimiterState, sample: u32)
    requires
        holds_full_scale(ops),
        is_low(s.envelope),
        is_quiet(sample),
    ensures
        is_low(limiter_next(ops, s, sample).envelope),
        limiter_next(ops, s, sample).gain == at_rest(ops, s.gain),
{
    assert(!binary32::greater((ops.product)(s.envelope, LIMITER_DECAY), LIMITER_CEILING));
}

/// Three quiet samples bring a limiter with a low envelope to rest.
proof fn three_quiet_samples(ops: Operations, s: LimiterState, samples: Seq<u32>)
    requires
        holds_full_scale(ops),
        settles(ops),
        is_low(s.envelope),
        is_unit(s.gain),
        samples.len() == 3,
        all_quiet(samples),
    ensures
        is_low(limiter_after(ops, s, samples).envelope),
        limiter_after(ops, s, samples).gain == binary32::ONE,
{
    let (x, y) = (samples.drop_last(), samples.drop_last().drop_last());
    let (a, b) = (limiter_next(ops, s, samples[0]), limiter_after(ops, s, x));
    assert(y.drop_last() =~= Seq::empty());
    assert(limiter_after(ops, s, y.drop_last()) == s);
    assert(limiter_after(ops, s, y) == a);
    assert(is_quiet(samples[0]) && is_quiet(samples[1]) && is_quiet(samples[2]));
    quiet_step(ops, s, samples[0]);
    quiet_step(ops, a, samples[1]);
    quiet_step(ops, b, samples[2]);
}

/// Two renderers with one matrix, each side in step and with the same look-ahead.
spec fn sides_in_step(a: RendererState, b: RendererState) -> bool {
    &&& a.left_terms == b.left_terms
    &&& a.right_terms == b.right_terms
    &&& a.input_channels == b.input_channels
    &&& in_step(a.left, b.left) && in_step(a.right, b.right)
    &&& a.left.delay == b.left.delay && a.right.delay == b.right.delay
}

proof fn in_step_renders_alike(
    ops: Operations,
    a: RendererState,
    b: RendererState,
    input: Seq<u32>,
    frames: nat,
)
    requires
        holds_full_scale(ops),
        sides_in_step(a, b),
    ensures
        sides_in_step(render_next(ops, a, input, frames), render_next(ops, b, input, frames)),
        render_output(ops, a, input, frames) == render_output(ops, b, input, frames),
    decreases frames,
{
    if frames > 0 {
        let n = (frames - 1) as nat;
        in_step_renders_alike(ops, a, b, input, n);
        matrix_is_static(ops, a, input, n);
        matrix_is_static(ops, b, input, n);
        let (x, y) = (render_next(ops, a, input, n), render_next(ops, b, input, n));
        let frame = frame_at(a, input, n as int);
        in_step_stays(ops, x.left, y.left, mixed(ops, a.left_terms, frame));
        in_step_stays(ops, x.right, y.right, mixed(ops, a.right_terms, frame));
    }
}

proof fn run_in_step(
    ops: Operations,
    a: LimiterState,
    b: LimiterState,
    samples: Seq<u32>,
    from: int,
    n: int,
)
    requires
        holds_full_scale(ops),
        0 <= from <= n <= samples.len(),
        in_step(
            limiter_after(ops, a, samples.take(from)),
            limiter_after(ops, b, samples.take(from)),
        ),
    ensures
        in_step(limiter_after(ops, a, samples.take(n)), limiter_after(ops, b, samples.take(n))),
    decreases n,
{
    if n > from {
        run_in_step(ops, a, b, samples, from, n - 1);
        assert(samples.take(n).drop_last() =~= samples.take(n - 1));
        in_step_stays(
            ops,
            limiter_after(ops, a, samples.take(n - 1)),
            limiter_after(ops, b, samples.take(n - 1)),
            samples[n - 1],
        );
    }
}

/// Output is independent of where the run started, loud or not: where two renderers with one
/// matrix take the same frames and both limiters of each have come into step after the first
/// `met` of them, they give the same samples for ever once the frames have filled the look-ahead.
pub proof fn output_is_independent_once_in_step(
    ops: Operations,
    a: RendererState,
    b: RendererState,
    shared: Seq<u32>,
    met: nat,
    frames: nat,
    next: Seq<u32>,
    more: nat,
)
    requires
        holds_full_scale(ops),
        a.left.delay.len() == LIMITER_LEN - 1,
        a.right.delay.len() == LIMITER_LEN - 1,
        b.left.delay.len() == LIMITER_LEN - 1,
        b.right.delay.len() == LIMITER_LEN - 1,
        a.left_terms == b.left_terms,
        a.right_terms == b.right_terms,
        a.input_channels == b.input_channels,
        met <= frames,
        frames >= LIMITER_LEN - 1,
        in_step(
            render_next(ops, a, shared, met).left,
            render_next(ops, b, shared, met).left,
        ),
        in_step(
            render_next(ops, a, shared, met).right,
            render_next(ops, b, shared, met).right,
        ),
    ensures
        render_output(ops, render_next(ops, a, shared, frames), next, more) == render_output(
            ops,
            render_next(ops, b, shared, frames),
            next,
            more,
        ),
{
    sides_are_limiter_runs(ops, a, shared, met);
    sides_are_limiter_runs(ops, b, shared, met);
    sides_are_limiter_runs(ops, a, shared, frames);
    sides_are_limiter_runs(ops, b, shared, frames);
    matrix_is_static(ops, a, shared, frames);
    matrix_is_static(ops, b, shared, frames);
    let left = mixes(ops, a, a.left_terms, shared, frames);
    let right = mixes(ops, a, a.right_terms, shared, frames);
    assert(left =~= mixes(ops, b, b.left_terms, shared, frames));
    assert(right =~= mixes(ops, b, b.right_terms, shared, frames));
    assert(left.take(met as int) =~= mixes(ops, a, a.left_terms, shared, met));
    assert(left.take(met as int) =~= mixes(ops, b, b.left_terms, shared, met));
    assert(right.take(met as int) =~= mixes(ops, a, a.right_terms, shared, met));
    assert(right.take(met as int) =~= mixes(ops, b, b.right_terms, shared, met));
    run_in_step(ops, a.left, b.left, left, met as int, frames as int);
    run_in_step(ops, a.right, b.right, right, met as int, frames as int);
    assert(left.take(frames as int) =~= left);
    assert(right.take(frames as int) =~= right);
    delay_line_forgets(ops, a.left, b.left, left);
    delay_line_forgets(ops, a.right, b.right, right);
    in_step_renders_alike(
        ops,
        render_next(ops, a, shared, frames),
        render_next(ops, b, shared, frames),
        next,
        more,
    );
}

/// A limiter as any run can leave it, with its envelope at or under the ceiling.
pub open spec fn has_come_down(s: LimiterState) -> bool {
    &&& s.delay.len() == LIMITER_LEN - 1
    &&& is_low(s.envelope)
    &&& is_unit(s.gain)
}

/// Output is independent of where the run started, loud or not: two renderers with one matrix
/// whose envelopes are at or under the ceiling take the same frames, of which the first three
/// mix quietly; once the frames have filled the look-ahead, both give the same samples for ever,
/// whatever comes after the first three.
pub proof fn output_is_independent_after_a_quiet_start(
    ops: Operations,
    a: RendererState,
    b: RendererState,
    shared: Seq<u32>,
    frames: nat,
    next: Seq<u32>,
    more: nat,
)
    requires
        holds_full_scale(ops),
        settles(ops),
        has_come_down(a.left) && has_come_down(a.right),
        has_come_down(b.left) && has_come_down(b.right),
        a.left_terms == b.left_terms,
        a.right_terms == b.right_terms,
        a.input_channels == b.input_channels,
        frames >= LIMITER_LEN - 1,
        mixes_quietly(ops, a, shared, 3),
    ensures
        render_output(ops, render_next(ops, a, shared, frames), next, more) == render_output(
            ops,
            render_next(ops, b, shared, frames),
            next,
            more,
        ),
{
    let left = mixes(ops, a, a.left_terms, shared, 3);
    let right = mixes(ops, a, a.right_terms, shared, 3);
    assert(left =~= mixes(ops, b, b.left_terms, shared, 3));
    assert(right =~= mixes(ops, b, b.right_terms, shared, 3));
    sides_are_limiter_runs(ops, a, shared, 3);
    sides_are_limiter_runs(ops, b, shared, 3);
    three_quiet_samples(ops, a.left, left);
    three_quiet_samples(ops, a.right, right);
    three_quiet_samples(ops, b.left, left);
    three_quiet_samples(ops, b.right, right);
    output_is_independent_once_in_step(ops, a, b, shared, 3, frames, next, more);
}

/// The gains meet: where two envelopes have met, three samples at which they are at or under the
/// ceiling bring the limiters into step, whatever their gains were.
pub proof fn gains_meet_at_rest(
    ops: Operations,
    a: LimiterState,
    b: LimiterState,
    samples: Seq<u32>,
)
    requires
        settles(ops),
        is_unit(a.gain),
        is_unit(b.gain),
        a.envelope == b.envelope,
        samples.len() == 3,
        is_low(limiter_after(ops, a, samples.take(1)).envelope),
        is_low(limiter_after(ops, a, samples.take(2)).envelope),
        is_low(limiter_after(ops, a, samples).envelope),
    ensures
        in_step(limiter_after(ops, a, samples), limiter_after(ops, b, samples)),
{
    envelopes_stay_aligned(ops, a, b, samples.take(1));
    envelopes_stay_aligned(ops, a, b, samples.take(2));
    envelopes_stay_aligned(ops, a, b, samples);
    gain_comes_to_rest(ops, a, samples);
    gain_comes_to_rest(ops, b, samples);
}

/// Three samples at rest bring the gain to one.
proof fn gain_comes_to_rest(ops: Operations, s: LimiterState, samples: Seq<u32>)
    requires
        settles(ops),
        is_unit(s.gain),
        samples.len() == 3,
        is_low(limiter_after(ops, s, samples.take(1)).envelope),
        is_low(limiter_after(ops, s, samples.take(2)).envelope),
        is_low(limiter_after(ops, s, samples).envelope),
    ensures
        limiter_after(ops, s, samples).gain == binary32::ONE,
{
    assert(samples.drop_last() =~= samples.take(2));
    assert(samples.take(2).drop_last() =~= samples.take(1));
    assert(samples.take(1).drop_last() =~= Seq::empty());
    assert(limiter_after(ops, s, samples.take(1).drop_last()) == s);
    assert(limiter_after(ops, s, samples.take(1)).gain == at_rest(ops, s.gain));
    assert(limiter_after(ops, s, samples.take(2)).gain == at_rest(ops, at_rest(ops, s.gain)));
    assert(limiter_after(ops, s, samples).gain == at_rest(
        ops,
        at_rest(ops, at_rest(ops, s.gain)),
    ));
}

/// A gain from zero to one.
pub open spec fn is_unit(gain: u32) -> bool {
    gain <= binary32::ONE
}

/// Neither infinite nor not a number.
pub open spec fn is_finite(sample: u32) -> bool {
    binary32::unsigned(sample) < binary32::INFINITY
}

/// The arithmetic keeps gains from zero to one there, and scaling by such a gain makes no sample
/// louder. All of it holds of single-precision arithmetic.
pub open spec fn scales_down(ops: Operations) -> bool {
    &&& forall|sample: u32|
        is_finite(sample) ==> #[trigger] (ops.product)(binary32::ONE, sample) == sample
    &&& forall|gain: u32| is_unit(gain) ==> #[trigger] (ops.product)(gain, 0) == 0
    &&& forall|gain: u32, sample: u32|
        is_unit(gain) && is_finite(sample) ==> binary32::unsigned(
            #[trigger] (ops.product)(gain, sample),
        ) <= binary32::unsigned(sample)
    &&& forall|target: u32, gain: u32|
        is_unit(target) && is_unit(gain) ==> is_unit(#[trigger] next_gain(ops, target, gain))
    &&& forall|envelope: u32|
        binary32::greater(envelope, LIMITER_CEILING) ==> is_unit(
            #[trigger] (ops.quotient)(LIMITER_CEILING, envelope),
        )
}

/// The gain stays from zero to one.
pub proof fn gain_is_unit(ops: Operations, samples: Seq<u32>)
    requires
        scales_down(ops),
    ensures
        is_unit(limiter_after(ops, limiter_start(), samples).gain),
    decreases samples.len(),
{
    if samples.len() > 0 {
        gain_is_unit(ops, samples.drop_last());
    }
}

/// A limiter that starts fresh gives silence until its look-ahead is filled, and from then on
/// each sample `LIMITER_LEN - 1` later and no louder than it was.
pub proof fn limiter_never_amplifies(ops: Operations, samples: Seq<u32>, n: int)
    requires
        scales_down(ops),
        0 <= n < samples.len(),
        forall|i: int| 0 <= i < samples.len() ==> is_finite(#[trigger] samples[i]),
    ensures
        ({
            let before = limiter_after(ops, limiter_start(), samples.take(n));
            let out = limiter_output(ops, before, samples[n]);
            &&& n < LIMITER_LEN - 1 ==> out == 0
            &&& n >= LIMITER_LEN - 1 ==> binary32::scaled_magnitude(binary32::unsigned(out))
                <= binary32::scaled_magnitude(
                binary32::unsigned(samples[n - (LIMITER_LEN - 1)]),
            )
        }),
{
    let before = limiter_after(ops, limiter_start(), samples.take(n));
    let out = limiter_output(ops, before, samples[n]);
    output_is_late(ops, samples, n);
    gain_is_unit(ops, samples.take(n + 1));
    if n >= LIMITER_LEN - 1 {
        let late = samples[n - (LIMITER_LEN - 1)];
        assert(is_finite(late));
        if binary32::unsigned(out) < binary32::unsigned(late) {
            binary32::magnitude_follows_pattern(binary32::unsigned(out), binary32::unsigned(late));
        }
    }
}

/// A limiter that starts fresh and has met nothing above the ceiling gives each sample out as it
/// came in, `LIMITER_LEN - 1` later.
pub proof fn quiet_samples_come_out_unchanged(ops: Operations, samples: Seq<u32>, n: int)
    requires
        scales_down(ops),
        holds_full_scale(ops),
        LIMITER_LEN - 1 <= n < samples.len(),
        forall|i: int| 0 <= i < samples.len() ==> is_finite(#[trigger] samples[i]),
        forall|i: int| 0 <= i <= n ==> is_quiet(#[trigger] samples[i]),
    ensures
        limiter_output(
            ops,
            limiter_after(ops, limiter_start(), samples.take(n)),
            samples[n],
        ) == samples[n - (LIMITER_LEN - 1)],
{
    let heard = samples.take(n + 1);
    assert forall|i: int| 0 <= i < heard.len() implies is_quiet(#[trigger] heard[i]) by {
        assert(is_quiet(samples[i]));
    }
    start_is_idle();
    output_is_late(ops, samples, n);
    quiet_samples_pass(ops, limiter_start(), heard);
    assert(is_finite(samples[n - (LIMITER_LEN - 1)]));
}

/// A run leaves its limiter with a gain from zero to one and a full look-ahead.
proof fn run_leaves(ops: Operations, samples: Seq<u32>)
    requires
        scales_down(ops),
    ensures
        is_unit(limiter_after(ops, limiter_start(), samples).gain),
        limiter_after(ops, limiter_start(), samples).delay.len() == LIMITER_LEN - 1,
{
    gain_is_unit(ops, samples);
    delay_line_holds_latest(ops, limiter_start(), samples);
}

/// A run that starts earlier gives the same samples as one that starts later, for all that both
/// cover once the look-ahead is filled: where the envelopes of the earlier run are at or under
/// the ceiling when the later one starts, and the first three frames that both take mix quietly.
pub proof fn output_is_independent_of_earlier_frames(
    ops: Operations,
    bed_channels: nat,
    input_channels: nat,
    earlier: Seq<u32>,
    before: nat,
    shared: Seq<u32>,
    frames: nat,
    next: Seq<u32>,
    more: nat,
)
    requires
        holds_full_scale(ops),
        scales_down(ops),
        settles(ops),
        frames >= LIMITER_LEN - 1,
        mixes_quietly(ops, renderer_start(bed_channels, input_channels), shared, 3),
        ({
            let a = render_next(ops, renderer_start(bed_channels, input_channels), earlier, before);
            is_low(a.left.envelope) && is_low(a.right.envelope)
        }),
    ensures
        ({
            let b = renderer_start(bed_channels, input_channels);
            let a = render_next(ops, b, earlier, before);
            render_output(ops, render_next(ops, a, shared, frames), next, more) == render_output(
                ops,
                render_next(ops, b, shared, frames),
                next,
                more,
            )
        }),
{
    let b = renderer_start(bed_channels, input_channels);
    let a = render_next(ops, b, earlier, before);
    start_is_idle();
    matrix_is_static(ops, b, earlier, before);
    sides_are_limiter_runs(ops, b, earlier, before);
    run_leaves(ops, mixes(ops, b, b.left_terms, earlier, before));
    run_leaves(ops, mixes(ops, b, b.right_terms, earlier, before));
    assert(mixes(ops, a, a.left_terms, shared, 3) =~= mixes(ops, b, b.left_terms, shared, 3));
    assert(mixes(ops, a, a.right_terms, shared, 3) =~= mixes(ops, b, b.right_terms, shared, 3));
    output_is_independent_after_a_quiet_start(ops, a, b, shared, frames, next, more);
}

/// Rendering in two blocks gives what rendering at once gives.
pub proof fn render_concatenates(
    ops: Operations,
    s: RendererState,
    first: Seq<u32>,
    second: Seq<u32>,
    m: nat,
    n: nat,
)
    requires
        first.len() == m * s.input_channels,
        second.len() == n * s.input_channels,
    ensures
        ({
            let middle = render_next(ops, s, first, m);
            &&& render_next(ops, s, first + second, m + n) == render_next(ops, middle, second, n)
            &&& render_output(ops, s, first + second, m + n) == render_output(ops, s, first, m)
                + render_output(ops, middle, second, n)
        }),
    decreases m + n,
{
    let both = first + second;
    let channels = s.input_channels;
    let middle = render_next(ops, s, first, m);
    matrix_is_static(ops, s, first, m);
    if n > 0 {
        let k = (n - 1) as nat;
        assert(k * channels + channels == n * channels) by (nonlinear_arith)
            requires
                n == k + 1,
        ;
        assert(0 <= k * channels) by (nonlinear_arith);
        let shorter = second.take((k * channels) as int);
        render_concatenates(ops, s, first, shorter, m, k);
        prefix_renders(ops, middle, second, shorter, k);
        assert((m + k) * channels == m * channels + k * channels) by (nonlinear_arith);
        assert(first + shorter =~= both.take((first + shorter).len() as int));
        prefix_renders(ops, s, both, first + shorter, m + k);
        assert((m + k + 1) * channels == m * channels + k * channels + channels)
            by (nonlinear_arith);
        assert(frame_at(s, both, (m + k) as int) =~= frame_at(middle, second, k as int));
        assert(render_output(ops, s, both, m + n) =~= render_output(ops, s, first, m)
            + render_output(ops, middle, second, n));
    } else {
        assert(both =~= first);
        assert(render_output(ops, s, first, m) + render_output(ops, middle, second, 0)
            =~= render_output(ops, s, first, m));
    }
}

/// What the first frames give does not depend on what follows them.
proof fn prefix_renders(
    ops: Operations,
    s: RendererState,
    long: Seq<u32>,
    short: Seq<u32>,
    frames: nat,
)
    requires
        frames * s.input_channels <= short.len() <= long.len(),
        short == long.take(short.len() as int),
    ensures
        render_next(ops, s, long, frames) == render_next(ops, s, short, frames),
        render_output(ops, s, long, frames) == render_output(ops, s, short, frames),
    decreases frames,
{
    if frames > 0 {
        let n = (frames - 1) as nat;
        let channels = s.input_channels;
        assert(n * channels + channels == frames * channels) by (nonlinear_arith)
            requires
                frames == n + 1,
        ;
        assert(0 <= n * channels) by (nonlinear_arith);
        prefix_renders(ops, s, long, short, n);
        assert(frame_at(s, long, n as int) =~= frame_at(s, short, n as int));
    }
}

/// The sum over every channel of the bed, those with zero gain included.
pub open spec fn full_mix(ops: Operations, out: int, channels: nat, frame: Seq<u32>) -> u32
    decreases channels,
{
    if channels == 0 {
        binary32::NEGATIVE_ZERO
    } else {
        let channel = channels - 1;
        (ops.sum)(
            full_mix(ops, out, (channels - 1) as nat, frame),
            (ops.product)(bed_row(channel)[out], frame[channel]),
        )
    }
}

/// What adding up a mix asks of the arithmetic: scaling a finite sample down gives a finite term,
/// and zero where the gain is zero; adding a finite term to a number gives a number, the same for
/// either zero, and adding zero leaves the number. All of it holds of single-precision
/// arithmetic, in which minus zero plus zero is zero.
pub open spec fn zeros_are_neutral(ops: Operations) -> bool {
    &&& forall|gain: u32, sample: u32|
        binary32::unsigned(gain) <= binary32::ONE && is_finite(sample) ==> {
            &&& is_finite(#[trigger] (ops.product)(gain, sample))
            &&& binary32::scaled(gain) == 0 ==> binary32::scaled((ops.product)(gain, sample)) == 0
        }
    &&& forall|total: u32, term: u32|
        !binary32::is_nan(total) && is_finite(term) ==> {
            &&& !binary32::is_nan(#[trigger] (ops.sum)(total, term))
            &&& binary32::scaled(term) == 0 ==> binary32::scaled((ops.sum)(total, term))
                == binary32::scaled(total)
        }
    &&& forall|a: u32, b: u32, term: u32|
        !binary32::is_nan(a) && !binary32::is_nan(b) && is_finite(term) && binary32::scaled(a)
            == binary32::scaled(b) ==> binary32::scaled(#[trigger] (ops.sum)(a, term))
            == binary32::scaled(#[trigger] (ops.sum)(b, term))
}

/// Every gain of the table, and the silence beyond it, is from minus one to one.
proof fn gains_scale_down(index: int, out: int)
    requires
        0 <= index,
        0 <= out < OUTPUT_CHANNELS,
    ensures
        binary32::unsigned(bed_row(index)[out]) <= binary32::ONE,
{
}

/// Pruning zero gains leaves the sum as it is: over finite samples, the mix of the channels that
/// contribute and that of all channels are the same number, and come out as the same sample.
pub proof fn pruning_keeps_the_sum(ops: Operations, out: int, channels: nat, frame: Seq<u32>)
    requires
        zeros_are_neutral(ops),
        channels <= usize::MAX,
        channels <= frame.len(),
        0 <= out < OUTPUT_CHANNELS,
        forall|i: int| 0 <= i < channels ==> is_finite(#[trigger] frame[i]),
    ensures
        ({
            let (pruned, full) = (
                mixed(ops, contributions(out, channels), frame),
                full_mix(ops, out, channels, frame),
            );
            &&& !binary32::is_nan(pruned) && !binary32::is_nan(full)
            &&& binary32::scaled(pruned) == binary32::scaled(full)
            &&& binary32::quantised(pruned) == binary32::quantised(full)
        }),
    decreases channels,
{
    if channels > 0 {
        let n = (channels - 1) as nat;
        pruning_keeps_the_sum(ops, out, n, frame);
        let gain = bed_row(n as int)[out];
        gains_scale_down(n as int, out);
        assert(is_finite(frame[n as int]));
        let term = (ops.product)(gain, frame[n as int]);
        assert(is_finite(term));
        if binary32::scaled(gain) != 0 {
            let terms = contributions(out, channels);
            assert(terms.drop_last() =~= contributions(out, n));
        }
    }
}

/// Beyond the table a channel contributes to neither side.
pub proof fn channels_beyond_the_table_are_silent(out: int, channels: nat)
    requires
        channels >= BED_ROWS,
        0 <= out < OUTPUT_CHANNELS,
    ensures
        contributions(out, channels) == contributions(out, BED_ROWS as nat),
    decreases channels,
{
    if channels > BED_ROWS {
        binary32::zero_magnitude(0);
        channels_beyond_the_table_are_silent(out, (channels - 1) as nat);
    }
}

/// A limiter starts with ninety-nine samples of silence ahead, no envelope and a gain of one.
pub proof fn limiter_starts_silent()
    ensures
        limiter_start().delay.len() == 99,
        forall|i: int| 0 <= i < 99 ==> #[trigger] limiter_start().delay[i] == 0,
        limiter_start().envelope == 0,
        limiter_start().gain == 0x3F80_0000,
{
}

/// One step of the limiter. The sample goes in behind those that wait, and the oldest of these
/// comes out at the new gain. The envelope is the sample's magnitude where that is more than what
/// a decay of `0.9999` leaves of it, and otherwise what the decay leaves. The gain keeps a
/// thousandth of what it was; the rest is what brings the envelope down to the ceiling, or one
/// where the envelope is not above it.
pub proof fn limiter_takes_one_step(ops: Operations, s: LimiterState, sample: u32)
    requires
        s.delay.len() == 99,
    ensures
        ({
            let after = limiter_next(ops, s, sample);
            let decayed = (ops.product)(s.envelope, 0x3F7F_F972);
            let loudness = binary32::unsigned(sample);
            let target = if binary32::greater(after.envelope, 0x46FF_F972) {
                (ops.quotient)(0x46FF_F972, after.envelope)
            } else {
                0x3F80_0000
            };
            &&& after.delay.len() == 99
            &&& after.delay[98] == sample
            &&& forall|i: int| 0 <= i < 98 ==> #[trigger] after.delay[i] == s.delay[i + 1]
            &&& after.envelope == (if binary32::is_nan(decayed) || binary32::greater(
                loudness,
                decayed,
            ) {
                loudness
            } else {
                decayed
            })
            &&& after.gain == (ops.sum)(
                (ops.product)(0x3F7F_BE77, target),
                (ops.product)(0x3A83_126F, s.gain),
            )
            &&& limiter_output(ops, s, sample) == (ops.product)(after.gain, s.delay[0])
        }),
{
}

/// Only whole frames are rendered, into room for two samples each, and all of those are: where
/// nothing else is wrong, how many frames there are is no fault. Each fault names the numbers that
/// do not fit.
pub proof fn whole_frames_are_rendered(s: RendererState, input: usize, output: usize)
    requires
        s.input_channels <= usize::MAX,
    ensures
        render_fault(s, input, output) is None <==> s.input_channels > 0 && exists|frames: nat|
            #![trigger frames * s.input_channels]
            input == frames * s.input_channels && output == 2 * frames,
        match render_fault(s, input, output) {
            None => true,
            Some(RenderError::NoChannels) => s.input_channels == 0,
            Some(RenderError::PartialFrame { samples, channels }) => samples == input && channels
                == s.input_channels && channels > 0 && samples % channels != 0,
            Some(RenderError::OutputLength { samples, expected }) => samples == output && expected
                != output && s.input_channels > 0 && input as nat % s.input_channels == 0
                && expected == 2 * (input as nat / s.input_channels),
        },
{
    let n = s.input_channels as int;
    if n > 0 {
        let q = (input as nat / s.input_channels) as nat;
        lemma_fundamental_div_mod(input as int, n);
        lemma_mul_is_commutative(q as int, n);
        assert(q <= input) by (nonlinear_arith)
            requires
                q * n <= input,
                n >= 1,
                q >= 0,
        ;
        if input as nat % s.input_channels == 0 {
            assert(input == q * s.input_channels);
        }
        assert forall|frames: nat|
            #![trigger frames * s.input_channels]
            input == frames * s.input_channels implies frames == q && input as nat
            % s.input_channels == 0 by {
            vstd::arithmetic::div_mod::lemma_div_multiples_vanish(frames as int, n);
            vstd::arithmetic::div_mod::lemma_mod_multiples_basic(frames as int, n);
            lemma_mul_is_commutative(frames as int, n);
        }
    }
}

/// What is said of each fault.
pub proof fn render_faults_are_said(samples: usize, channels: usize, expected: u128)
    ensures
        RenderError::NoChannels.text() == "render: zero input channels"@,
        (RenderError::PartialFrame { samples, channels }).text() == "render: "@ + text::decimal(
            samples as nat,
        ) + " input samples is not a multiple of "@ + text::decimal(channels as nat) + " channels"@,
        (RenderError::OutputLength { samples, expected }).text() == "render: output holds "@
            + text::decimal(samples as nat) + " samples, expected "@ + text::decimal(
            expected as nat,
        ),
{
}

} // verus!
