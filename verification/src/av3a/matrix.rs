//! What the renderer makes of each channel of its input.
use crate::av3a::render;
use crate::av3a::render::BED_GAINS_STEREO;
use crate::binary32;
use crate::binary32::Operations;
use vstd::prelude::*;

verus! {

/// What adding one term asks of the arithmetic beyond [`render::zeros_are_neutral`]: scaling a
/// zero gives a zero, and zero plus a term is the term. Both hold of single-precision arithmetic.
pub open spec fn adds_to_zero(ops: Operations) -> bool {
    &&& forall|gain: u32, sample: u32|
        binary32::unsigned(gain) <= binary32::ONE && is_silent(sample) ==> binary32::scaled(
            #[trigger] (ops.product)(gain, sample),
        ) == 0
    &&& forall|total: u32, term: u32|
        is_silent(total) && render::is_finite(term) ==> binary32::scaled(
            #[trigger] (ops.sum)(total, term),
        ) == binary32::scaled(term)
}

/// Zero, of either sign.
pub open spec fn is_silent(sample: u32) -> bool {
    sample == 0 || sample == 0x8000_0000
}

/// Neither infinite nor not a number, on every channel.
pub open spec fn is_finite_frame(frame: Seq<u32>) -> bool {
    forall|i: int| 0 <= i < frame.len() ==> render::is_finite(#[trigger] frame[i])
}

proof fn silent_is_zero(sample: u32)
    ensures
        is_silent(sample) <==> !binary32::is_nan(sample) && binary32::scaled(sample) == 0,
{
    binary32::zero_magnitude(binary32::unsigned(sample));
}

/// The gains of the twelve channels of a 7.1.4 bed: left and right on their own side, the centre
/// and the LFE on both, the side surrounds in anti-phase, the rear surrounds on both sides, and
/// each height on its own side. The patterns are those of `0.85`, `0.8498716`, `0.6010407` and
/// `-0.6010407`.
pub proof fn gains_of_the_bed(channel: int)
    requires
        0 <= channel < 12,
    ensures
        BED_GAINS_STEREO@[channel]@.len() == 2,
        ({
            let (left, right) = (BED_GAINS_STEREO@[channel]@[0], BED_GAINS_STEREO@[channel]@[1]);
            &&& channel == 0 ==> left == 0x3F59_999A && is_silent(right)
            &&& channel == 1 ==> is_silent(left) && right == 0x3F59_999A
            &&& channel == 2 ==> left == 0x3F59_9130 && right == 0x3F59_9130
            &&& channel == 3 ==> left == 0x3F59_999A && right == 0x3F59_999A
            &&& channel == 4 ==> left == 0x3F19_DDCF && right == 0xBF19_DDCF
            &&& channel == 5 ==> left == 0xBF19_DDCF && right == 0x3F19_DDCF
            &&& channel == 6 || channel == 7 ==> left == 0x3F19_DDCF && right == 0x3F19_DDCF
            &&& channel == 8 || channel == 10 ==> left == 0x3F19_DDCF && is_silent(right)
            &&& channel == 9 || channel == 11 ==> is_silent(left) && right == 0x3F19_DDCF
        }),
{
}

/// One channel more adds its term to the mix of one side.
proof fn mix_of_more(ops: Operations, out: int, channels: nat, frame: Seq<u32>)
    requires
        render::zeros_are_neutral(ops),
        0 <= out < 2,
        channels < frame.len() <= usize::MAX,
        is_finite_frame(frame),
    ensures
        ({
            let fewer = render::mixed(ops, render::contributions(out, channels), frame);
            let more = render::mixed(ops, render::contributions(out, channels + 1), frame);
            let gain = render::bed_row(channels as int)[out];
            let term = (ops.product)(gain, frame[channels as int]);
            &&& !binary32::is_nan(fewer) && !binary32::is_nan(more)
            &&& render::is_finite(term)
            &&& binary32::scaled(more) == binary32::scaled((ops.sum)(fewer, term))
        }),
{
    assert forall|i: int| 0 <= i < channels + 1 implies render::is_finite(#[trigger] frame[i]) by {}
    render::pruning_keeps_the_sum(ops, out, channels, frame);
    render::pruning_keeps_the_sum(ops, out, channels + 1, frame);
    let n = channels as int;
    let gain = render::bed_row(n)[out];
    assert(render::is_finite(frame[n]));
    assert(binary32::unsigned(gain) <= binary32::ONE);
    let term = (ops.product)(gain, frame[n]);
    if binary32::scaled(gain) != 0 {
        let terms = render::contributions(out, channels + 1);
        assert(terms.drop_last() =~= render::contributions(out, channels));
    }
}

/// Every channel of the bed adds its term: a bed of one channel more mixes each side to what the
/// smaller bed mixes, plus the sample of the new channel at its gain for that side.
pub proof fn each_bed_channel_adds_its_term(
    ops: Operations,
    channel: nat,
    input_channels: nat,
    frame: Seq<u32>,
)
    requires
        render::zeros_are_neutral(ops),
        channel < 12,
        channel < input_channels <= usize::MAX,
        frame.len() == input_channels,
        is_finite_frame(frame),
    ensures
        ({
            let smaller = render::renderer_start(channel, input_channels);
            let larger = render::renderer_start(channel + 1, input_channels);
            let gains = BED_GAINS_STEREO@[channel as int]@;
            let sample = frame[channel as int];
            &&& binary32::scaled(render::mixed(ops, larger.left_terms, frame)) == binary32::scaled(
                (ops.sum)(
                    render::mixed(ops, smaller.left_terms, frame),
                    (ops.product)(gains[0], sample),
                ),
            )
            &&& binary32::scaled(render::mixed(ops, larger.right_terms, frame)) == binary32::scaled(
                (ops.sum)(
                    render::mixed(ops, smaller.right_terms, frame),
                    (ops.product)(gains[1], sample),
                ),
            )
        }),
{
    mix_of_more(ops, 0, channel, frame);
    mix_of_more(ops, 1, channel, frame);
}

/// A bed of no channels mixes to silence, and a bed cannot be wider than the input.
pub proof fn bed_lies_within_the_input(
    ops: Operations,
    input_channels: nat,
    frame: Seq<u32>,
    bed: nat,
)
    requires
        bed >= input_channels,
    ensures
        is_silent(render::mixed(ops, render::renderer_start(0, input_channels).left_terms, frame)),
        is_silent(render::mixed(ops, render::renderer_start(0, input_channels).right_terms, frame)),
        render::renderer_start(bed, input_channels) == render::renderer_start(
            input_channels,
            input_channels,
        ),
{
}

/// Channels without sound mix to silence.
proof fn silence_mixes_to_silence(ops: Operations, out: int, channels: nat, frame: Seq<u32>)
    requires
        render::zeros_are_neutral(ops),
        adds_to_zero(ops),
        0 <= out < 2,
        channels <= frame.len() <= usize::MAX,
        is_finite_frame(frame),
        forall|i: int| 0 <= i < channels ==> is_silent(#[trigger] frame[i]),
    ensures
        is_silent(render::mixed(ops, render::contributions(out, channels), frame)),
    decreases channels,
{
    if channels > 0 {
        let n = (channels - 1) as nat;
        silence_mixes_to_silence(ops, out, n, frame);
        mix_of_more(ops, out, n, frame);
        assert(is_silent(frame[n as int]));
        assert(binary32::unsigned(render::bed_row(n as int)[out]) <= binary32::ONE);
        silent_is_zero(render::mixed(ops, render::contributions(out, channels), frame));
    }
}

/// A frame with sound in one channel alone mixes to the term of that channel.
proof fn lone_channel_mix(ops: Operations, out: int, channels: nat, frame: Seq<u32>, channel: int)
    requires
        render::zeros_are_neutral(ops),
        adds_to_zero(ops),
        0 <= out < 2,
        0 <= channel < channels <= frame.len() <= usize::MAX,
        is_finite_frame(frame),
        forall|i: int| 0 <= i < channels && i != channel ==> is_silent(#[trigger] frame[i]),
    ensures
        ({
            let mix = render::mixed(ops, render::contributions(out, channels), frame);
            let term = (ops.product)(render::bed_row(channel)[out], frame[channel]);
            &&& !binary32::is_nan(mix) && !binary32::is_nan(term)
            &&& binary32::scaled(mix) == binary32::scaled(term)
        }),
    decreases channels,
{
    let n = (channels - 1) as nat;
    mix_of_more(ops, out, n, frame);
    if n == channel {
        silence_mixes_to_silence(ops, out, n, frame);
    } else {
        lone_channel_mix(ops, out, n, frame, channel);
        assert(is_silent(frame[n as int]));
        assert(binary32::unsigned(render::bed_row(n as int)[out]) <= binary32::ONE);
    }
}

/// Every channel of the bed is heard: a frame with sound in one channel alone mixes to that
/// sample at the gains of its channel, on both sides.
pub proof fn lone_channel_is_heard(
    ops: Operations,
    bed_channels: nat,
    input_channels: nat,
    frame: Seq<u32>,
    channel: int,
)
    requires
        render::zeros_are_neutral(ops),
        adds_to_zero(ops),
        input_channels <= usize::MAX,
        frame.len() == input_channels,
        is_finite_frame(frame),
        0 <= channel < 12,
        channel < bed_channels,
        channel < input_channels,
        forall|i: int| 0 <= i < input_channels && i != channel ==> is_silent(#[trigger] frame[i]),
    ensures
        ({
            let s = render::renderer_start(bed_channels, input_channels);
            let (left, right) = (
                render::mixed(ops, s.left_terms, frame),
                render::mixed(ops, s.right_terms, frame),
            );
            let gains = BED_GAINS_STEREO@[channel]@;
            &&& !binary32::is_nan(left) && !binary32::is_nan(right)
            &&& binary32::scaled(left) == binary32::scaled((ops.product)(gains[0], frame[channel]))
            &&& binary32::scaled(right) == binary32::scaled((ops.product)(gains[1], frame[channel]))
        }),
{
    let channels = if bed_channels < input_channels {
        bed_channels
    } else {
        input_channels
    };
    lone_channel_mix(ops, 0, channels, frame, channel);
    lone_channel_mix(ops, 1, channels, frame, channel);
}

proof fn mix_reads_the_bed(ops: Operations, out: int, channels: nat, a: Seq<u32>, b: Seq<u32>)
    requires
        0 <= out < 2,
        channels <= usize::MAX,
        forall|i: int| 0 <= i < channels ==> #[trigger] a[i] == b[i],
    ensures
        render::mixed(ops, render::contributions(out, channels), a) == render::mixed(
            ops,
            render::contributions(out, channels),
            b,
        ),
    decreases channels,
{
    if channels > 0 {
        let n = (channels - 1) as nat;
        mix_reads_the_bed(ops, out, n, a, b);
        let terms = render::contributions(out, channels);
        assert(a[n as int] == b[n as int]);
        if terms != render::contributions(out, n) {
            assert(terms.drop_last() =~= render::contributions(out, n));
        }
    }
}

/// Channels past the bed are not heard: two frames that agree on the bed mix alike.
pub proof fn channels_past_the_bed_are_not_heard(
    ops: Operations,
    bed_channels: nat,
    input_channels: nat,
    a: Seq<u32>,
    b: Seq<u32>,
)
    requires
        bed_channels <= input_channels <= usize::MAX,
        forall|i: int| 0 <= i < bed_channels ==> #[trigger] a[i] == b[i],
    ensures
        ({
            let s = render::renderer_start(bed_channels, input_channels);
            &&& render::mixed(ops, s.left_terms, a) == render::mixed(ops, s.left_terms, b)
            &&& render::mixed(ops, s.right_terms, a) == render::mixed(ops, s.right_terms, b)
        }),
{
    mix_reads_the_bed(ops, 0, bed_channels, a, b);
    mix_reads_the_bed(ops, 1, bed_channels, a, b);
}

/// The samples of all channels at one moment of an interleaved input.
pub open spec fn moment(input: Seq<u32>, channels: nat, index: int) -> Seq<u32> {
    Seq::new(channels, |c: int| input[index * channels + c])
}

/// What one side mixes at each moment of an interleaved input.
pub open spec fn side(
    ops: Operations,
    terms: Seq<(usize, u32)>,
    input: Seq<u32>,
    channels: nat,
    frames: nat,
) -> Seq<u32> {
    Seq::new(frames, |i: int| render::mixed(ops, terms, moment(input, channels, i)))
}

proof fn moment_is_frame(s: render::RendererState, input: Seq<u32>, frames: nat, i: int)
    requires
        input.len() == frames * s.input_channels,
        0 <= i < frames,
    ensures
        moment(input, s.input_channels, i) == render::frame_at(s, input, i),
{
    let n = s.input_channels as int;
    assert((i + 1) * n == i * n + n) by (nonlinear_arith);
    assert(0 <= i * n && (i + 1) * n <= frames * n) by (nonlinear_arith)
        requires
            0 <= i,
            i + 1 <= frames,
            0 <= n,
    ;
    assert(moment(input, s.input_channels, i) =~= render::frame_at(s, input, i));
}

proof fn outputs_of_frames(
    ops: Operations,
    s: render::RendererState,
    input: Seq<u32>,
    frames: nat,
    f: int,
)
    requires
        0 <= f < frames,
    ensures
        ({
            let all = render::render_output(ops, s, input, frames);
            let one = render::frame_output(
                ops,
                render::render_next(ops, s, input, f as nat),
                render::frame_at(s, input, f),
            );
            all.len() == 2 * frames && all[2 * f] == one[0] && all[2 * f + 1] == one[1]
        }),
    decreases frames,
{
    let n = (frames - 1) as nat;
    render::output_length(ops, s, input, frames);
    render::output_length(ops, s, input, n);
    if f < n {
        outputs_of_frames(ops, s, input, n, f);
    }
}

proof fn side_is_mixes(
    ops: Operations,
    s: render::RendererState,
    terms: Seq<(usize, u32)>,
    input: Seq<u32>,
    frames: nat,
    count: nat,
)
    requires
        input.len() == frames * s.input_channels,
        count <= frames,
    ensures
        render::mixes(ops, s, terms, input, count) == side(
            ops,
            terms,
            input,
            s.input_channels,
            frames,
        ).take(count as int),
{
    let (a, b) = (
        render::mixes(ops, s, terms, input, count),
        side(ops, terms, input, s.input_channels, frames).take(count as int),
    );
    assert forall|i: int| 0 <= i < count implies #[trigger] a[i] == b[i] by {
        moment_is_frame(s, input, frames, i);
    }
    assert(a =~= b);
}

/// The output carries each frame once, in order, both sides interleaved and ninety-nine samples
/// late: at frame `f` each side gives out what it mixed at frame `f - 99`, or silence before
/// that, at the gain that its limiter has come to.
pub proof fn output_carries_every_frame(
    ops: Operations,
    bed_channels: nat,
    input_channels: nat,
    input: Seq<u32>,
    frames: nat,
    f: int,
)
    requires
        input.len() == frames * input_channels,
        0 <= f < frames,
    ensures
        ({
            let s = render::renderer_start(bed_channels, input_channels);
            let left = side(ops, s.left_terms, input, input_channels, frames);
            let right = side(ops, s.right_terms, input, input_channels, frames);
            let left_gain = render::limiter_after(
                ops,
                render::limiter_start(),
                left.take(f + 1),
            ).gain;
            let right_gain = render::limiter_after(
                ops,
                render::limiter_start(),
                right.take(f + 1),
            ).gain;
            let output = render::render_output(ops, s, input, frames);
            &&& output.len() == 2 * frames
            &&& output[2 * f] == binary32::quantised(
                (ops.product)(
                    left_gain,
                    if f >= 99 {
                        left[f - 99]
                    } else {
                        0
                    },
                ),
            )
            &&& output[2 * f + 1] == binary32::quantised(
                (ops.product)(
                    right_gain,
                    if f >= 99 {
                        right[f - 99]
                    } else {
                        0
                    },
                ),
            )
        }),
{
    let s = render::renderer_start(bed_channels, input_channels);
    let left = side(ops, s.left_terms, input, input_channels, frames);
    let right = side(ops, s.right_terms, input, input_channels, frames);
    let at = render::render_next(ops, s, input, f as nat);
    outputs_of_frames(ops, s, input, frames, f);
    render::matrix_is_static(ops, s, input, f as nat);
    render::sides_are_limiter_runs(ops, s, input, f as nat);
    side_is_mixes(ops, s, s.left_terms, input, frames, f as nat);
    side_is_mixes(ops, s, s.right_terms, input, frames, f as nat);
    moment_is_frame(s, input, frames, f);
    render::output_is_late(ops, left, f);
    render::output_is_late(ops, right, f);
    assert(at.left == render::limiter_after(ops, render::limiter_start(), left.take(f)));
    assert(at.right == render::limiter_after(ops, render::limiter_start(), right.take(f)));
    assert(render::mixed(ops, s.left_terms, render::frame_at(s, input, f)) == left[f]);
    assert(render::mixed(ops, s.right_terms, render::frame_at(s, input, f)) == right[f]);
}

/// Two numbers of one value are equally loud and come out as the same sample.
proof fn same_value_same_sample(a: u32, b: u32)
    requires
        !binary32::is_nan(a),
        !binary32::is_nan(b),
        binary32::scaled(a) == binary32::scaled(b),
    ensures
        render::is_quiet(a) == render::is_quiet(b),
        render::is_finite(a) == render::is_finite(b),
        binary32::quantised(a) == binary32::quantised(b),
{
    let (x, y) = (binary32::unsigned(a), binary32::unsigned(b));
    binary32::zero_magnitude(x);
    binary32::zero_magnitude(y);
    if x < y {
        binary32::magnitude_follows_pattern(x, y);
    }
    if y < x {
        binary32::magnitude_follows_pattern(y, x);
    }
}

/// A channel of the bed that sounds alone, and no louder than the limiter leaves alone, comes out
/// on both sides as its samples at its gains, ninety-nine frames late.
pub proof fn lone_channel_comes_out(
    ops: Operations,
    bed_channels: nat,
    input_channels: nat,
    input: Seq<u32>,
    frames: nat,
    channel: int,
    f: int,
)
    requires
        render::zeros_are_neutral(ops),
        render::scales_down(ops),
        render::holds_full_scale(ops),
        adds_to_zero(ops),
        input_channels <= usize::MAX,
        input.len() == frames * input_channels,
        is_finite_frame(input),
        0 <= channel < 12,
        channel < bed_channels,
        channel < input_channels,
        99 <= f < frames,
        forall|i: int, c: int|
            0 <= i < frames && 0 <= c < input_channels && c != channel ==> is_silent(
                #[trigger] input[i * input_channels + c],
            ),
        forall|i: int|
            0 <= i < frames ==> {
                let sample = #[trigger] input[i * input_channels + channel];
                &&& render::is_quiet((ops.product)(BED_GAINS_STEREO@[channel]@[0], sample))
                &&& render::is_quiet((ops.product)(BED_GAINS_STEREO@[channel]@[1], sample))
            },
    ensures
        ({
            let s = render::renderer_start(bed_channels, input_channels);
            let output = render::render_output(ops, s, input, frames);
            let sample = input[(f - 99) * input_channels + channel];
            &&& output[2 * f] == binary32::quantised(
                (ops.product)(BED_GAINS_STEREO@[channel]@[0], sample),
            )
            &&& output[2 * f + 1] == binary32::quantised(
                (ops.product)(BED_GAINS_STEREO@[channel]@[1], sample),
            )
        }),
{
    let s = render::renderer_start(bed_channels, input_channels);
    let n = input_channels as int;
    let gains = BED_GAINS_STEREO@[channel]@;
    let left = side(ops, s.left_terms, input, input_channels, frames);
    let right = side(ops, s.right_terms, input, input_channels, frames);
    assert forall|i: int| 0 <= i < frames implies ({
        &&& render::is_quiet(left[i]) && render::is_finite(left[i])
        &&& render::is_quiet(right[i]) && render::is_finite(right[i])
        &&& binary32::quantised(left[i]) == binary32::quantised(
            (ops.product)(gains[0], input[i * n + channel]),
        )
        &&& binary32::quantised(right[i]) == binary32::quantised(
            (ops.product)(gains[1], input[i * n + channel]),
        )
    }) by {
        let frame = moment(input, input_channels, i);
        assert(0 <= i * n && i * n + n <= frames * n) by (nonlinear_arith)
            requires
                0 <= i,
                i + 1 <= frames,
                0 <= n,
        ;
        assert forall|c: int| 0 <= c < frame.len() implies render::is_finite(
            #[trigger] frame[c],
        ) by {
            assert(render::is_finite(input[i * n + c]));
        }
        assert forall|c: int| 0 <= c < n && c != channel implies is_silent(
            #[trigger] frame[c],
        ) by {
            assert(is_silent(input[i * n + c]));
        }
        lone_channel_is_heard(ops, bed_channels, input_channels, frame, channel);
        let sample = input[i * n + channel];
        assert(frame[channel] == sample);
        assert(render::is_finite(sample));
        assert(binary32::unsigned(gains[0]) <= binary32::ONE);
        assert(binary32::unsigned(gains[1]) <= binary32::ONE);
        let (p, q) = ((ops.product)(gains[0], sample), (ops.product)(gains[1], sample));
        assert(render::is_finite(p) && render::is_finite(q));
        same_value_same_sample(left[i], p);
        same_value_same_sample(right[i], q);
    }
    output_carries_every_frame(ops, bed_channels, input_channels, input, frames, f);
    render::output_is_late(ops, left, f);
    render::output_is_late(ops, right, f);
    assert forall|i: int| 0 <= i < left.len() implies render::is_finite(#[trigger] left[i]) by {}
    assert forall|i: int| 0 <= i < right.len() implies render::is_finite(#[trigger] right[i]) by {}
    assert forall|i: int| 0 <= i <= f implies render::is_quiet(#[trigger] left[i]) by {}
    assert forall|i: int| 0 <= i <= f implies render::is_quiet(#[trigger] right[i]) by {}
    render::quiet_samples_come_out_unchanged(ops, left, f);
    render::quiet_samples_come_out_unchanged(ops, right, f);
}

} // verus!
