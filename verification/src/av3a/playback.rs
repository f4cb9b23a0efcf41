//! What a session owes for a frame that it can play, and which frames it refuses.
use crate::av3a::input;
use crate::av3a::input::InputError;
use crate::av3a::pcm;
use crate::av3a::render;
use crate::av3a::session;
use crate::av3a::session::DecodeTask;
use crate::av3a::session::Decoding;
use crate::av3a::session::EncodedFrame;
use crate::av3a::session::SessionError;
use crate::av3a::session::StageState;
use crate::av3a::session::StreamFormat;
use crate::av3a::stream::ChannelConfig;
use crate::av3a::stream::CodecProfile;
use crate::av3a::stream::FormatError;
use crate::av3a::stream::FrameHeader;
use crate::binary32::Operations;
use vstd::prelude::*;

verus! {

/// A channel-based stream, stereo or 7.1.4, with at least one channel.
pub open spec fn is_playable(header: FrameHeader) -> bool {
    &&& header.profile is ChannelBased
    &&& header.channel_config == Some(ChannelConfig::Stereo) || header.channel_config == Some(
        ChannelConfig::Mc7_1_4,
    )
    &&& header.channels > 0
}

/// The buffers for one frame can be addressed.
pub open spec fn is_addressable(header: FrameHeader) -> bool {
    &&& header.channels * header.samples_per_channel <= usize::MAX
    &&& 4 * header.samples_per_channel <= usize::MAX
}

/// The decoder configures for `frame` with the format of its header, and decodes it, filling the
/// buffer to its length.
pub open spec fn decodes<P, D>(dec: Decoding<P, D>, frame: EncodedFrame<P>) -> bool {
    &&& forall|r: Result<(D, StreamFormat), String>| #[trigger]
        (dec.configured)(frame, r) ==> (r matches Ok((_, format)) && format.sample_rate
            == frame.header.sample_rate && format.channels == frame.header.channels
            && format.samples_per_channel == frame.header.samples_per_channel)
    &&& forall|d: D, b: Vec<u32>, e: D, c: Vec<u32>, r: Result<(), String>| #[trigger]
        (dec.decoded)(d, frame, b, e, c, r) ==> r is Ok && c@.len() == b@.len()
}

/// Nothing but its profile, its configuration and the size of its buffers keeps a stream from
/// being configured.
pub proof fn only_format_and_size_refuse(header: FrameHeader)
    ensures
        session::config_fault(header) is None <==> {
            &&& header.profile is ChannelBased
            &&& header.channel_config == Some(ChannelConfig::Stereo) || header.channel_config
                == Some(ChannelConfig::Mc7_1_4)
            &&& header.channels * header.samples_per_channel <= usize::MAX
            &&& 2 * header.samples_per_channel <= usize::MAX
        },
        header.profile matches CodecProfile::Other(name) ==> session::config_fault(header) == Some(
            SessionError::Format(FormatError::Profile(name)),
        ),
        header.profile is ChannelBased && header.channel_config is None ==> session::config_fault(
            header,
        ) == Some(SessionError::Format(FormatError::NoConfiguration)),
        header.profile is ChannelBased ==> (header.channel_config matches Some(config) ==> config
            != ChannelConfig::Stereo && config != ChannelConfig::Mc7_1_4 ==> session::config_fault(
            header,
        ) == Some(SessionError::Format(FormatError::Layout(config)))),
        is_playable(header) && (header.channels * header.samples_per_channel > usize::MAX || 2
            * header.samples_per_channel > usize::MAX) ==> session::config_fault(header) == Some(
            SessionError::SampleCount,
        ),
{
}

/// A stream that can be configured is: where the decoder configures, the session gets that
/// decoder, a new renderer for the bed and the channels of the stream, and silent buffers of the
/// size of one frame. What it had before plays no part.
pub proof fn playable_stream_is_configured<P, D>(
    dec: Decoding<P, D>,
    before: Option<StageState<D>>,
    frame: EncodedFrame<P>,
    after: Option<StageState<D>>,
    r: Result<(), SessionError>,
)
    requires
        is_playable(frame.header),
        is_addressable(frame.header),
        decodes(dec, frame),
        session::configure_step(dec, before, frame, after, r),
    ensures
        r is Ok,
        after is Some,
        ({
            let (stage, header) = (after->0, frame.header);
            &&& (dec.configured)(frame, Ok((stage.decoder, stage.format)))
            &&& stage.renderer == render::renderer_start(
                header.bed_channels as nat,
                header.channels as nat,
            )
            &&& stage.float_scratch.len() == header.channels * header.samples_per_channel
            &&& forall|i: int|
                0 <= i < stage.float_scratch.len() ==> #[trigger] stage.float_scratch[i] == 0
            &&& stage.pcm_scratch.len() == 2 * header.samples_per_channel
            &&& forall|i: int|
                0 <= i < stage.pcm_scratch.len() ==> #[trigger] stage.pcm_scratch[i] == 0
        }),
{
    only_format_and_size_refuse(frame.header);
    if r is Ok {
        let (d, f) = choose|d: D, f: StreamFormat| #[trigger]
            (dec.configured)(frame, Ok((d, f))) && after == Some(
                session::configured_stage(frame.header, d, f),
            );
        assert((dec.configured)(frame, Ok((d, f))));
    }
}

/// The bytes hold the samples in order, each as its two's complement, low byte first.
pub open spec fn holds_samples(bytes: Seq<u8>, samples: Seq<i16>) -> bool {
    &&& bytes.len() == 2 * samples.len()
    &&& forall|k: int|
        0 <= k < samples.len() ==> {
            let word = bytes[2 * k] + 256 * bytes[2 * k + 1];
            #[trigger] samples[k] == (if word < 32768 {
                word
            } else {
                word - 65536
            })
        }
}

/// PCM bytes hold the samples they are made of.
pub proof fn pcm_bytes_hold_samples(samples: Seq<i16>)
    ensures
        holds_samples(pcm::pcm_bytes(samples), samples),
    decreases samples.len(),
{
    pcm::pcm_length(samples);
    if samples.len() > 0 {
        let first = samples.drop_last();
        let bytes = pcm::pcm_bytes(samples);
        pcm_bytes_hold_samples(first);
        pcm::pcm_length(first);
        assert forall|k: int| 0 <= k < samples.len() implies ({
            let word = bytes[2 * k] + 256 * bytes[2 * k + 1];
            #[trigger] samples[k] == (if word < 32768 {
                word
            } else {
                word - 65536
            })
        }) by {
            if k < first.len() {
                assert(samples[k] == first[k]);
                assert(bytes[2 * k] == pcm::pcm_bytes(first)[2 * k]);
                assert(bytes[2 * k + 1] == pcm::pcm_bytes(first)[2 * k + 1]);
            } else {
                let last = pcm::sample_bytes(samples[k]);
                assert(bytes[2 * k] == last[0]);
                assert(bytes[2 * k + 1] == last[1]);
            }
        }
    }
}

/// The decoder turned `buffer` into the samples that `stage` was left with.
pub open spec fn decoded_into<P, D>(
    dec: Decoding<P, D>,
    decoder: D,
    frame: EncodedFrame<P>,
    buffer: Seq<u32>,
    stage: StageState<D>,
) -> bool {
    exists|b: Vec<u32>, c: Vec<u32>|
        b@ == buffer && c@ == stage.float_scratch && #[trigger] (dec.decoded)(
            decoder,
            frame,
            b,
            stage.decoder,
            c,
            Ok(()),
        )
}

/// From `start`, with buffers of the size of `frame`, the frame gave `bytes` and left `after`:
/// the decoder of `start` filled the buffer, and the bytes are what the renderer of `start` makes
/// of it, two samples for each sample of one channel.
pub open spec fn played<P, D>(
    dec: Decoding<P, D>,
    ops: Operations,
    start: StageState<D>,
    frame: EncodedFrame<P>,
    after: StageState<D>,
    bytes: Seq<u8>,
) -> bool {
    let count = frame.header.samples_per_channel as nat;
    let output = render::render_output(ops, start.renderer, after.float_scratch, count);
    &&& decoded_into(dec, start.decoder, frame, start.float_scratch, after)
    &&& after.float_scratch.len() == frame.header.channels * count
    &&& after.renderer == render::render_next(ops, start.renderer, after.float_scratch, count)
    &&& after.format == start.format
    &&& after.pcm_scratch == output
    &&& output.len() == 2 * count
    &&& bytes.len() == 4 * count
    &&& holds_samples(bytes, output)
}

/// A stage whose buffers and renderer are those of the stream of `header`.
pub open spec fn suits<D>(stage: StageState<D>, header: FrameHeader) -> bool {
    &&& stage.format.sample_rate == header.sample_rate
    &&& stage.format.channels == header.channels
    &&& stage.format.samples_per_channel == header.samples_per_channel
    &&& stage.renderer.input_channels == header.channels
    &&& stage.float_scratch.len() == header.channels * header.samples_per_channel
    &&& stage.pcm_scratch.len() == 2 * header.samples_per_channel
}

/// A stage that suits a playable frame plays it.
proof fn suited_stage_plays<P, D>(
    dec: Decoding<P, D>,
    ops: Operations,
    start: StageState<D>,
    frame: EncodedFrame<P>,
    fresh: bool,
    after: Option<StageState<D>>,
    r: Result<Seq<u8>, SessionError>,
)
    requires
        is_playable(frame.header),
        is_addressable(frame.header),
        decodes(dec, frame),
        suits(start, frame.header),
        session::decode_step(dec, ops, start, frame, fresh, after, r),
    ensures
        r is Ok,
        after is Some,
        played(dec, ops, start, frame, after->0, r->Ok_0),
        suits(after->0, frame.header),
{
    let (decoder, filled, decoded) = choose|
        decoder: D,
        filled: Seq<u32>,
        decoded: Result<(), String>,
    | #[trigger]
        session::fills(
            dec,
            start.decoder,
            frame,
            start.float_scratch,
            decoder,
            filled,
            decoded,
        ) && session::render_step(
            ops,
            StageState { decoder, float_scratch: filled, ..start },
            decoded,
            after,
            r,
        );
    let (b, c) = choose|b: Vec<u32>, c: Vec<u32>|
        b@ == start.float_scratch && c@ == filled && #[trigger] (dec.decoded)(
            start.decoder,
            frame,
            b,
            decoder,
            c,
            decoded,
        );
    assert((dec.decoded)(start.decoder, frame, b, decoder, c, decoded));
    assert(decoded is Ok && decoded->Ok_0 == ());
    let channels = frame.header.channels as nat;
    let count = frame.header.samples_per_channel as nat;
    assert(filled.len() == channels * count);
    vstd::arithmetic::div_mod::lemma_div_multiples_vanish(count as int, channels as int);
    vstd::arithmetic::div_mod::lemma_mod_multiples_basic(count as int, channels as int);
    vstd::arithmetic::mul::lemma_mul_is_commutative(count as int, channels as int);
    assert(filled.len() / channels == count);
    assert(filled.len() % channels == 0);
    let output = render::render_output(ops, start.renderer, filled, count);
    render::output_length(ops, start.renderer, filled, count);
    render::matrix_is_static(ops, start.renderer, filled, count);
    pcm_bytes_hold_samples(output);
    assert(after is Some && after->0.decoder == decoder && after->0.float_scratch == filled);
    assert(decoded_into(dec, start.decoder, frame, start.float_scratch, after->0));
}

/// The first frame of a stream that can be played is played: the session is configured for it,
/// and gives the PCM of what the decoder decoded, rendered from a fresh start.
pub proof fn first_frame_plays<P, D>(
    dec: Decoding<P, D>,
    ops: Operations,
    frame: EncodedFrame<P>,
    fresh: bool,
    after: Option<StageState<D>>,
    r: Result<Seq<u8>, SessionError>,
)
    requires
        is_playable(frame.header),
        is_addressable(frame.header),
        decodes(dec, frame),
        session::frame_step(dec, ops, None, frame, fresh, after, r),
    ensures
        r is Ok,
        after is Some,
        suits(after->0, frame.header),
        exists|start: StageState<D>|
            {
                &&& (dec.configured)(frame, Ok((start.decoder, start.format)))
                &&& start.renderer == render::renderer_start(
                    frame.header.bed_channels as nat,
                    frame.header.channels as nat,
                )
                &&& forall|i: int|
                    0 <= i < start.float_scratch.len() ==> #[trigger] start.float_scratch[i] == 0
                &&& #[trigger] played(dec, ops, start, frame, after->0, r->Ok_0)
            },
{
    let (ready, c) = choose|ready: Option<StageState<D>>, c: Result<(), SessionError>| #[trigger]
        session::ready_step(dec, None, frame, ready, c) && match c {
            Err(e) => r == Err::<Seq<u8>, SessionError>(e) && after == ready,
            Ok(_) => session::decode_step(dec, ops, ready->0, frame, fresh, after, r),
        };
    playable_stream_is_configured(dec, None, frame, ready, c);
    suited_stage_plays(dec, ops, ready->0, frame, fresh, after, r);
}

/// A further frame of the stream is played on from where the frame before left decoder and
/// limiters, unless the decoder finds its configuration changed: then it is played from a fresh
/// start.
pub proof fn next_frame_plays<P, D>(
    dec: Decoding<P, D>,
    ops: Operations,
    before: StageState<D>,
    frame: EncodedFrame<P>,
    fresh: bool,
    after: Option<StageState<D>>,
    r: Result<Seq<u8>, SessionError>,
)
    requires
        is_playable(frame.header),
        is_addressable(frame.header),
        decodes(dec, frame),
        suits(before, frame.header),
        session::frame_step(dec, ops, Some(before), frame, fresh, after, r),
    ensures
        r is Ok,
        after is Some,
        suits(after->0, frame.header),
        !(dec.changed)(before.decoder, frame, true) ==> played(
            dec,
            ops,
            before,
            frame,
            after->0,
            r->Ok_0,
        ),
        !(dec.changed)(before.decoder, frame, false) ==> exists|start: StageState<D>|
            {
                &&& (dec.configured)(frame, Ok((start.decoder, start.format)))
                &&& start.renderer == render::renderer_start(
                    frame.header.bed_channels as nat,
                    frame.header.channels as nat,
                )
                &&& #[trigger] played(dec, ops, start, frame, after->0, r->Ok_0)
            },
{
    let (ready, c) = choose|ready: Option<StageState<D>>, c: Result<(), SessionError>| #[trigger]
        session::ready_step(dec, Some(before), frame, ready, c) && match c {
            Err(e) => r == Err::<Seq<u8>, SessionError>(e) && after == ready,
            Ok(_) => session::decode_step(dec, ops, ready->0, frame, fresh, after, r),
        };
    assert(c is Ok ==> c->Ok_0 == ());
    if ready != Some(before) || c is Err || !(dec.changed)(before.decoder, frame, false) {
        assert(session::configure_step(dec, Some(before), frame, ready, c));
        playable_stream_is_configured(dec, Some(before), frame, ready, c);
    }
    suited_stage_plays(dec, ops, ready->0, frame, fresh, after, r);
}

/// A frame with another sample rate, channel count or frame length than the frames before it is
/// refused, and leaves the session as it was; no other frame is refused for that reason.
pub proof fn timeline_change_is_refused<P, D>(
    dec: Decoding<P, D>,
    ops: Operations,
    before: StageState<D>,
    frame: EncodedFrame<P>,
    fresh: bool,
    after: Option<StageState<D>>,
    r: Result<Seq<u8>, SessionError>,
)
    requires
        session::frame_step(dec, ops, Some(before), frame, fresh, after, r),
    ensures
        r == Err::<Seq<u8>, SessionError>(SessionError::FormatChanged) <==> {
            ||| before.format.sample_rate != frame.header.sample_rate
            ||| before.format.channels != frame.header.channels
            ||| before.format.samples_per_channel != frame.header.samples_per_channel
        },
        r == Err::<Seq<u8>, SessionError>(SessionError::FormatChanged) ==> after == Some(before),
{
}

/// A session that refuses the first frame of a stream, or fails to configure for it, stays as it
/// was, and says why.
pub proof fn unplayable_frame_is_refused<P, D>(
    dec: Decoding<P, D>,
    ops: Operations,
    frame: EncodedFrame<P>,
    fresh: bool,
    after: Option<StageState<D>>,
    r: Result<Seq<u8>, SessionError>,
)
    requires
        session::frame_step(dec, ops, None, frame, fresh, after, r),
    ensures
        frame.header.profile matches CodecProfile::Other(name) ==> r == Err::<
            Seq<u8>,
            SessionError,
        >(SessionError::Format(FormatError::Profile(name))) && after is None,
        frame.header.profile is ChannelBased && frame.header.channel_config is None ==> r == Err::<
            Seq<u8>,
            SessionError,
        >(SessionError::Format(FormatError::NoConfiguration)) && after is None,
        frame.header.profile is ChannelBased ==> (frame.header.channel_config matches Some(config)
            ==> config != ChannelConfig::Stereo && config != ChannelConfig::Mc7_1_4 ==> r == Err::<
            Seq<u8>,
            SessionError,
        >(SessionError::Format(FormatError::Layout(config))) && after is None),
{
    only_format_and_size_refuse(frame.header);
}

/// What the decoder reports of a frame is what the session reports, and the limiters stay as they
/// were.
pub proof fn decoder_failure_is_reported<P, D>(
    dec: Decoding<P, D>,
    ops: Operations,
    before: StageState<D>,
    frame: EncodedFrame<P>,
    after: Option<StageState<D>>,
    r: Result<Seq<u8>, SessionError>,
    message: String,
)
    requires
        session::frame_step(dec, ops, Some(before), frame, false, after, r),
        before.format.sample_rate == frame.header.sample_rate,
        before.format.channels == frame.header.channels,
        before.format.samples_per_channel == frame.header.samples_per_channel,
        !(dec.changed)(before.decoder, frame, true),
        forall|b: Vec<u32>, e: D, c: Vec<u32>, d: Result<(), String>| #[trigger]
            (dec.decoded)(before.decoder, frame, b, e, c, d) ==> d == Err::<(), String>(message),
    ensures
        r == Err::<Seq<u8>, SessionError>(SessionError::Decoder(message)),
        after is Some,
        after->0.renderer == before.renderer,
        after->0.format == before.format,
{
}

/// A batch of one frame gives what that frame gives.
pub proof fn batch_of_one<P, D>(
    dec: Decoding<P, D>,
    ops: Operations,
    before: Option<StageState<D>>,
    frame: EncodedFrame<P>,
    after: Option<StageState<D>>,
    r: Result<Seq<u8>, SessionError>,
)
    requires
        session::batch_step(dec, ops, before, seq![frame], after, r),
    ensures
        session::frame_step(dec, ops, before, frame, true, after, r),
{
    let frames = seq![frame];
    let (states, outs) = choose|states: Seq<Option<StageState<D>>>, outs: Seq<Seq<u8>>| #[trigger]
        session::batch_leads(dec, ops, before, frames, states, outs, after, r);
    assert(frames[0] == frame);
    if r is Ok {
        assert(outs.take(0) =~= Seq::empty());
        assert(session::frame_step(
            dec,
            ops,
            states[0],
            frames[0],
            session::joined(outs.take(0)).len() == 0,
            states[1],
            Ok(outs[0]),
        ));
        assert(outs.drop_last() =~= Seq::empty());
        assert(session::joined(outs) =~= outs[0]);
    } else {
        assert(outs =~= Seq::empty());
        assert(states.len() == 1);
    }
}

/// A batch of no frames gives no PCM and leaves the session as it was.
pub proof fn empty_batch<P, D>(
    dec: Decoding<P, D>,
    ops: Operations,
    before: Option<StageState<D>>,
    after: Option<StageState<D>>,
    r: Result<Seq<u8>, SessionError>,
)
    requires
        session::batch_step(dec, ops, before, Seq::empty(), after, r),
    ensures
        r matches Ok(bytes) && bytes.len() == 0,
        after == before,
{
    let frames = Seq::<EncodedFrame<P>>::empty();
    let (states, outs) = choose|states: Seq<Option<StageState<D>>>, outs: Seq<Seq<u8>>| #[trigger]
        session::batch_leads(dec, ops, before, frames, states, outs, after, r);
    assert(outs =~= Seq::empty());
}

/// A reset leaves decoder and limiters as at the start, in one and the same session: the decoder
/// is the one that was reset, the limiters hold silence at unit gain, and format and matrix stay.
/// Where the decoder fails to reset, the limiters keep what they hold.
pub proof fn reset_starts_over<D, R: Fn(D) -> (D, Result<(), String>)>(
    reset_decoder: R,
    before: StageState<D>,
    after: Option<StageState<D>>,
    r: Result<(), SessionError>,
)
    requires
        session::reset_step(reset_decoder, Some(before), after, r),
    ensures
        after is Some,
        ({
            let stage = after->0;
            &&& stage.format == before.format
            &&& stage.renderer.left_terms == before.renderer.left_terms
            &&& stage.renderer.right_terms == before.renderer.right_terms
            &&& stage.renderer.input_channels == before.renderer.input_channels
            &&& match r {
                Ok(_) => {
                    &&& call_ensures(reset_decoder, (before.decoder,), (stage.decoder, Ok(())))
                    &&& stage.renderer.left == render::limiter_start()
                    &&& stage.renderer.right == render::limiter_start()
                },
                Err(e) => {
                    &&& e matches SessionError::Decoder(message) && call_ensures(
                        reset_decoder,
                        (before.decoder,),
                        (stage.decoder, Err(message)),
                    )
                    &&& stage.renderer == before.renderer
                },
            }
        }),
{
    let (decoder, reset) = choose|decoder: D, reset: Result<(), String>| #[trigger]
        session::decoder_resets(reset_decoder, before, decoder, reset) && session::after_reset(
            before,
            decoder,
            reset,
            after,
            r,
        );
    assert(reset is Ok ==> reset->Ok_0 == ());
}

/// A session without a decoder has nothing to reset.
pub proof fn reset_before_the_first_frame<D, R: Fn(D) -> (D, Result<(), String>)>(
    reset_decoder: R,
    after: Option<StageState<D>>,
    r: Result<(), SessionError>,
)
    requires
        session::reset_step(reset_decoder, None, after, r),
    ensures
        r is Ok,
        after is None,
{
}

/// Input that cannot be split is reported and leaves the session as it was; input that can be
/// split is decoded as the batch of its frames.
pub proof fn split_input_is_decoded<P, D>(
    parsed: Result<Vec<EncodedFrame<P>>, InputError>,
    dec: Decoding<P, D>,
    ops: Operations,
    before: Option<StageState<D>>,
    after: Option<StageState<D>>,
    r: Result<Seq<u8>, SessionError>,
)
    requires
        session::parsed_step(parsed, dec, ops, before, after, r),
    ensures
        parsed matches Err(e) ==> r == Err::<Seq<u8>, SessionError>(SessionError::Input(e))
            && after == before,
        parsed matches Ok(frames) ==> session::batch_step(
            dec,
            ops,
            before,
            frames@,
            after,
            r,
        ),
{
}

/// A task decodes the input that it was made with, cut by the sizes that it was made with, or as
/// one stream where it was made with none.
pub proof fn task_decodes_its_input<
    P,
    D,
    PF: Fn(&[u8]) -> Result<Vec<EncodedFrame<P>>, String>,
    PS: Fn(&[u8], usize) -> Result<EncodedFrame<P>, String>,
>(
    task: DecodeTask,
    parse_frames: PF,
    parse_sample: PS,
    dec: Decoding<P, D>,
    ops: Operations,
    before: Option<StageState<D>>,
    after: Option<StageState<D>>,
    r: Result<Seq<u8>, SessionError>,
)
    requires
        task.task_step(parse_frames, parse_sample, dec, ops, before, after, r),
    ensures
        exists|bytes: &[u8], sizes: Option<&[u32]>, parsed: Result<
            Vec<EncodedFrame<P>>,
            InputError,
        >|
            {
                &&& bytes@ == task.input@
                &&& sizes is Some <==> task.sample_sizes is Some
                &&& sizes is Some ==> sizes->0@ == task.sample_sizes->0@
                &&& #[trigger] input::batch_parses(bytes, sizes, parse_frames, parse_sample, parsed)
                &&& session::parsed_step(parsed, dec, ops, before, after, r)
            },
{
    let (bytes, sizes) = choose|bytes: &[u8], sizes: Option<&[u32]>|
        task.hands_over(bytes, sizes) && #[trigger] session::input_step(
            bytes,
            sizes,
            parse_frames,
            parse_sample,
            dec,
            ops,
            before,
            after,
            r,
        );
    let parsed = choose|parsed: Result<Vec<EncodedFrame<P>>, InputError>| #[trigger]
        session::parsed_step(parsed, dec, ops, before, after, r) && input::batch_parses(
            bytes,
            sizes,
            parse_frames,
            parse_sample,
            parsed,
        );
    assert(input::batch_parses(bytes, sizes, parse_frames, parse_sample, parsed));
}

/// A batch fails with the first of its frames that fails: the frames before it were played, and
/// the session is left where that frame left it.
pub proof fn first_failure_ends_the_batch<P, D>(
    dec: Decoding<P, D>,
    ops: Operations,
    before: Option<StageState<D>>,
    frames: Seq<EncodedFrame<P>>,
    after: Option<StageState<D>>,
    e: SessionError,
)
    requires
        session::batch_step(dec, ops, before, frames, after, Err(e)),
    ensures
        exists|count: int, middle: Option<StageState<D>>, bytes: Seq<u8>|
            {
                &&& 0 <= count < frames.len()
                &&& #[trigger] session::batch_step(
                    dec,
                    ops,
                    before,
                    frames.take(count),
                    middle,
                    Ok(bytes),
                )
                &&& session::frame_step(
                    dec,
                    ops,
                    middle,
                    frames[count],
                    bytes.len() == 0,
                    after,
                    Err(e),
                )
            },
{
    let (states, outs) = choose|states: Seq<Option<StageState<D>>>, outs: Seq<Seq<u8>>| #[trigger]
        session::batch_leads(dec, ops, before, frames, states, outs, after, Err(e));
    let count = outs.len() as int;
    let first = frames.take(count);
    let (middle, bytes) = (states.last(), session::joined(outs));
    assert forall|i: int| 0 <= i < outs.len() implies session::frame_step(
        dec,
        ops,
        states[i],
        #[trigger] first[i],
        session::joined(outs.take(i)).len() == 0,
        states[i + 1],
        Ok(outs[i]),
    ) by {
        assert(first[i] == frames[i]);
    }
    assert(session::batch_leads(dec, ops, before, first, states, outs, middle, Ok(bytes)));
    assert(session::batch_step(dec, ops, before, first, middle, Ok(bytes)));
}

/// Where the decoder cannot be configured for a stream, the session says what the decoder says, and
/// keeps the decoder that it had.
pub proof fn decoder_refusal_is_reported<P, D>(
    dec: Decoding<P, D>,
    before: Option<StageState<D>>,
    frame: EncodedFrame<P>,
    after: Option<StageState<D>>,
    r: Result<(), SessionError>,
    message: String,
)
    requires
        is_playable(frame.header),
        is_addressable(frame.header),
        forall|c: Result<(D, StreamFormat), String>| #[trigger]
            (dec.configured)(frame, c) ==> c == Err::<(D, StreamFormat), String>(message),
        session::configure_step(dec, before, frame, after, r),
    ensures
        r == Err::<(), SessionError>(SessionError::Decoder(message)),
        after == before,
{
    only_format_and_size_refuse(frame.header);
}

} // verus!
