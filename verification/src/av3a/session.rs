//! Decode and render sessions: one for each source file.
//!
//! The decoder itself is supplied by the caller, as a [`FrameDecoder`]. What it can answer is
//! its [`Decoding`]; every contract here holds for all decoders.
use crate::av3a::input;
use crate::av3a::input::InputError;
use crate::av3a::pcm;
use crate::av3a::render;
use crate::av3a::render::RenderError;
use crate::av3a::render::RendererState;
use crate::av3a::render::StereoRenderer;
use crate::av3a::stream;
use crate::av3a::stream::FormatError;
use crate::av3a::stream::FrameHeader;
use crate::binary32::Arithmetic;
use crate::binary32::Operations;
use vstd::prelude::*;

verus! {

/// The part of a decoder's configuration that fixes the PCM timeline.
#[derive(Debug, Clone, Copy, PartialEq, Eq, Structural)]
pub struct StreamFormat {
    pub sample_rate: u32,
    pub channels: u16,
    pub samples_per_channel: u32,
}

/// A coded frame: its header, and what the decoder takes.
#[derive(Debug)]
pub struct EncodedFrame<P> {
    pub header: FrameHeader,
    pub coded: P,
}

/// Why a session fails.
#[derive(Debug, Clone)]
pub enum SessionError {
    /// The session was closed.
    Closed,
    /// The stream cannot be rendered.
    Format(FormatError),
    /// The buffers for one frame exceed what can be addressed.
    SampleCount,
    /// The PCM timeline changed between frames.
    FormatChanged,
    /// The bytes of one frame of PCM exceed what can be addressed.
    FrameSize,
    /// A frame met a session without a decoder.
    NotConfigured,
    /// What the decoder reported.
    Decoder(String),
    /// The decoded frame cannot be rendered.
    Render(RenderError),
    /// The input cannot be split into frames.
    Input(InputError),
}

impl SessionError {
    /// The text that reports the error.
    pub open spec fn text(&self) -> Seq<char> {
        match self {
            SessionError::Closed => "AV3A render session is closed"@,
            SessionError::Format(e) => e.text(),
            SessionError::SampleCount => "AV3A sample count overflow"@,
            SessionError::FormatChanged =>
                "AV3A stream format changed between frames; PCM timeline cannot be resized"@,
            SessionError::FrameSize => "AV3A PCM frame size overflow"@,
            SessionError::NotConfigured => "AV3A decoder was not configured"@,
            SessionError::Decoder(message) => message@,
            SessionError::Render(e) => e.text(),
            SessionError::Input(e) => e.text(),
        }
    }

    /// Renders [`SessionError::text`].
    pub fn message(&self) -> (r: String)
        ensures
            r@ == self.text(),
    {
        match self {
            SessionError::Closed => "AV3A render session is closed".to_owned(),
            SessionError::Format(e) => e.message(),
            SessionError::SampleCount => "AV3A sample count overflow".to_owned(),
            SessionError::FormatChanged => {
                "AV3A stream format changed between frames; PCM timeline cannot be resized".to_owned(

                )
            },
            SessionError::FrameSize => "AV3A PCM frame size overflow".to_owned(),
            SessionError::NotConfigured => "AV3A decoder was not configured".to_owned(),
            SessionError::Decoder(message) => message.clone(),
            SessionError::Render(e) => e.message(),
            SessionError::Input(e) => e.message(),
        }
    }
}

/// A decoder, supplied by the caller.
pub struct FrameDecoder<C, H, F> {
    /// A new decoder for the stream of a frame, and its format.
    pub configure: C,
    /// Whether a frame asks for another configuration than that of the decoder.
    pub changed: H,
    /// Decodes a frame into a buffer, and gives the decoder back with what it carries over to
    /// the next frame.
    pub decode: F,
}

/// What a decoder can answer.
#[verifier::reject_recursive_types(P)]
#[verifier::reject_recursive_types(D)]
pub struct Decoding<P, D> {
    pub configured: spec_fn(EncodedFrame<P>, Result<(D, StreamFormat), String>) -> bool,
    pub changed: spec_fn(D, EncodedFrame<P>, bool) -> bool,
    /// From the decoder before, the frame and the buffer to the decoder after, the filled buffer
    /// and the result.
    pub decoded: spec_fn(D, EncodedFrame<P>, Vec<u32>, D, Vec<u32>, Result<(), String>) -> bool,
}

/// What `decoder` can answer.
pub open spec fn decoding<
    P,
    D,
    C: Fn(&EncodedFrame<P>) -> Result<(D, StreamFormat), String>,
    H: Fn(&D, &EncodedFrame<P>) -> bool,
    F: Fn(D, &EncodedFrame<P>, Vec<u32>) -> (D, Vec<u32>, Result<(), String>),
>(decoder: FrameDecoder<C, H, F>) -> Decoding<P, D> {
    Decoding {
        configured: |frame: EncodedFrame<P>, r: Result<(D, StreamFormat), String>|
            call_ensures(decoder.configure, (&frame,), r),
        changed: |d: D, frame: EncodedFrame<P>, r: bool|
            call_ensures(decoder.changed, (&d, &frame), r),
        decoded: |
            d: D,
            frame: EncodedFrame<P>,
            buffer: Vec<u32>,
            e: D,
            filled: Vec<u32>,
            r: Result<(), String>,
        | call_ensures(decoder.decode, (d, &frame, buffer), (e, filled, r)),
    }
}

/// `decoder` takes every frame.
pub open spec fn takes_everything<
    P,
    D,
    C: Fn(&EncodedFrame<P>) -> Result<(D, StreamFormat), String>,
    H: Fn(&D, &EncodedFrame<P>) -> bool,
    F: Fn(D, &EncodedFrame<P>, Vec<u32>) -> (D, Vec<u32>, Result<(), String>),
>(decoder: FrameDecoder<C, H, F>) -> bool {
    &&& forall|frame: &EncodedFrame<P>| call_requires(decoder.configure, (frame,))
    &&& forall|d: &D, frame: &EncodedFrame<P>| call_requires(decoder.changed, (d, frame))
    &&& forall|d: D, frame: &EncodedFrame<P>, buffer: Vec<u32>|
        call_requires(decoder.decode, (d, frame, buffer))
}

/// A session after its decoder was configured.
#[verifier::ext_equal]
pub struct StageState<D> {
    /// The decoder, with what it carries from frame to frame.
    pub decoder: D,
    pub format: StreamFormat,
    pub renderer: RendererState,
    /// Room for the decoded samples of one frame, all channels.
    pub float_scratch: Seq<u32>,
    /// Room for the rendered samples of one frame, both sides.
    pub pcm_scratch: Seq<i16>,
}

/// What stops a session from being configured for `header`, if anything does before the
/// decoder is asked.
pub open spec fn config_fault(header: FrameHeader) -> Option<SessionError> {
    match stream::format_fault(header) {
        Some(e) => Some(SessionError::Format(e)),
        None => if header.channels * header.samples_per_channel > usize::MAX
            || header.samples_per_channel * 2 > usize::MAX {
            Some(SessionError::SampleCount)
        } else {
            None
        },
    }
}

/// The session as configured for `header`, with a new `decoder` of `format`: a new renderer, and
/// buffers of silence.
pub open spec fn configured_stage<D>(
    header: FrameHeader,
    decoder: D,
    format: StreamFormat,
) -> StageState<D> {
    StageState {
        decoder,
        format,
        renderer: render::renderer_start(header.bed_channels as nat, header.channels as nat),
        float_scratch: Seq::new(
            (header.channels * header.samples_per_channel) as nat,
            |i: int| 0u32,
        ),
        pcm_scratch: Seq::new((header.samples_per_channel * 2) as nat, |i: int| 0i16),
    }
}

/// Configuring for the stream of `frame` can lead from `before` to `after` with result `r`.
pub open spec fn configure_step<P, D>(
    dec: Decoding<P, D>,
    before: Option<StageState<D>>,
    frame: EncodedFrame<P>,
    after: Option<StageState<D>>,
    r: Result<(), SessionError>,
) -> bool {
    match config_fault(frame.header) {
        Some(e) => r == Err::<(), SessionError>(e) && after == before,
        None => match r {
            Ok(_) => exists|decoder: D, format: StreamFormat| #[trigger]
                (dec.configured)(frame, Ok((decoder, format))) && after == Some(
                    configured_stage(frame.header, decoder, format),
                ),
            Err(SessionError::Decoder(message)) => (dec.configured)(frame, Err(message))
                && after == before,
            _ => false,
        },
    }
}

/// The header has another PCM timeline than the current decoder.
pub open spec fn timeline_differs(format: StreamFormat, header: FrameHeader) -> bool {
    ||| format.sample_rate != header.sample_rate
    ||| format.channels != header.channels
    ||| format.samples_per_channel != header.samples_per_channel
}

/// Making the session ready for `frame`: it is configured where it was not yet, or where the
/// decoder says that the configuration changed.
pub open spec fn ready_step<P, D>(
    dec: Decoding<P, D>,
    before: Option<StageState<D>>,
    frame: EncodedFrame<P>,
    after: Option<StageState<D>>,
    r: Result<(), SessionError>,
) -> bool {
    ||| (before is None || (dec.changed)(before->0.decoder, frame, true)) && configure_step(
        dec,
        before,
        frame,
        after,
        r,
    )
    ||| before is Some && (dec.changed)(before->0.decoder, frame, false) && after == before && r
        == Ok::<(), SessionError>(())
}

/// Decoding `frame` into a buffer that holds `buffer` can leave `after` and `filled`, and give
/// `r`.
pub open spec fn fills<P, D>(
    dec: Decoding<P, D>,
    decoder: D,
    frame: EncodedFrame<P>,
    buffer: Seq<u32>,
    after: D,
    filled: Seq<u32>,
    r: Result<(), String>,
) -> bool {
    exists|b: Vec<u32>, c: Vec<u32>|
        b@ == buffer && c@ == filled && #[trigger] (dec.decoded)(decoder, frame, b, after, c, r)
}

/// What follows when the decoder of a session has left it at `stage`, with result `decoded`.
pub open spec fn render_step<D>(
    ops: Operations,
    stage: StageState<D>,
    decoded: Result<(), String>,
    after: Option<StageState<D>>,
    r: Result<Seq<u8>, SessionError>,
) -> bool {
    match decoded {
        Err(message) => r == Err::<Seq<u8>, SessionError>(SessionError::Decoder(message)) && after
            == Some(stage),
        Ok(_) => match render::render_fault(
            stage.renderer,
            stage.float_scratch.len() as usize,
            stage.pcm_scratch.len() as usize,
        ) {
            Some(e) => r == Err::<Seq<u8>, SessionError>(SessionError::Render(e)) && after == Some(
                stage,
            ),
            None => {
                let samples = stage.float_scratch;
                let frames = render::frames_in(stage.renderer, samples.len());
                let output = render::render_output(ops, stage.renderer, samples, frames);
                &&& r == Ok::<Seq<u8>, SessionError>(pcm::pcm_bytes(output))
                &&& after == Some(
                    StageState {
                        renderer: render::render_next(ops, stage.renderer, samples, frames),
                        pcm_scratch: output,
                        ..stage
                    },
                )
            },
        },
    }
}

/// Decoding and rendering one frame in a session that is ready. `fresh` says that the batch has
/// given no PCM yet.
pub open spec fn decode_step<P, D>(
    dec: Decoding<P, D>,
    ops: Operations,
    ready: StageState<D>,
    frame: EncodedFrame<P>,
    fresh: bool,
    after: Option<StageState<D>>,
    r: Result<Seq<u8>, SessionError>,
) -> bool {
    if fresh && frame.header.samples_per_channel * 4 > usize::MAX {
        r == Err::<Seq<u8>, SessionError>(SessionError::FrameSize) && after == Some(ready)
    } else {
        exists|decoder: D, filled: Seq<u32>, decoded: Result<(), String>| #[trigger]
            fills(
                dec,
                ready.decoder,
                frame,
                ready.float_scratch,
                decoder,
                filled,
                decoded,
            ) && render_step(
                ops,
                StageState { decoder, float_scratch: filled, ..ready },
                decoded,
                after,
                r,
            )
    }
}

/// One frame can lead from `before` to `after` with the PCM bytes or the error in `r`.
///
/// A change of the PCM timeline is an error. Any other change of configuration is legal, and
/// rebuilds decoder and renderer.
pub open spec fn frame_step<P, D>(
    dec: Decoding<P, D>,
    ops: Operations,
    before: Option<StageState<D>>,
    frame: EncodedFrame<P>,
    fresh: bool,
    after: Option<StageState<D>>,
    r: Result<Seq<u8>, SessionError>,
) -> bool {
    if before is Some && timeline_differs(before->0.format, frame.header) {
        r == Err::<Seq<u8>, SessionError>(SessionError::FormatChanged) && after == before
    } else {
        exists|ready: Option<StageState<D>>, c: Result<(), SessionError>| #[trigger]
            ready_step(dec, before, frame, ready, c) && match c {
                Err(e) => r == Err::<Seq<u8>, SessionError>(e) && after == ready,
                Ok(_) => decode_step(dec, ops, ready->0, frame, fresh, after, r),
            }
    }
}

/// All of `outs`, one after the other.
pub open spec fn joined(outs: Seq<Seq<u8>>) -> Seq<u8>
    decreases outs.len(),
{
    if outs.len() == 0 {
        Seq::empty()
    } else {
        joined(outs.drop_last()) + outs.last()
    }
}

/// The first frames lead through `states` and give `outs`.
pub open spec fn frames_lead<P, D>(
    dec: Decoding<P, D>,
    ops: Operations,
    frames: Seq<EncodedFrame<P>>,
    states: Seq<Option<StageState<D>>>,
    outs: Seq<Seq<u8>>,
) -> bool {
    &&& states.len() == outs.len() + 1
    &&& outs.len() <= frames.len()
    &&& forall|i: int|
        0 <= i < outs.len() ==> frame_step(
            dec,
            ops,
            states[i],
            #[trigger] frames[i],
            joined(outs.take(i)).len() == 0,
            states[i + 1],
            Ok(outs[i]),
        )
}

/// The frames can lead from `before`, through `states` and `outs`, to `after` and `r`: all of
/// them in turn, or up to the first that fails.
pub open spec fn batch_leads<P, D>(
    dec: Decoding<P, D>,
    ops: Operations,
    before: Option<StageState<D>>,
    frames: Seq<EncodedFrame<P>>,
    states: Seq<Option<StageState<D>>>,
    outs: Seq<Seq<u8>>,
    after: Option<StageState<D>>,
    r: Result<Seq<u8>, SessionError>,
) -> bool {
    &&& frames_lead(dec, ops, frames, states, outs)
    &&& states[0] == before
    &&& match r {
        Ok(bytes) => outs.len() == frames.len() && states.last() == after && bytes == joined(outs),
        Err(e) => outs.len() < frames.len() && frame_step(
            dec,
            ops,
            states.last(),
            frames[outs.len() as int],
            joined(outs).len() == 0,
            after,
            Err(e),
        ),
    }
}

/// The frames can lead from `before` to `after` and `r`.
pub open spec fn batch_step<P, D>(
    dec: Decoding<P, D>,
    ops: Operations,
    before: Option<StageState<D>>,
    frames: Seq<EncodedFrame<P>>,
    after: Option<StageState<D>>,
    r: Result<Seq<u8>, SessionError>,
) -> bool {
    exists|states: Seq<Option<StageState<D>>>, outs: Seq<Seq<u8>>| #[trigger]
        batch_leads(dec, ops, before, frames, states, outs, after, r)
}

/// The bytes or the error of a result.
pub open spec fn outcome(r: Result<Vec<u8>, SessionError>) -> Result<Seq<u8>, SessionError> {
    match r {
        Ok(bytes) => Ok(bytes@),
        Err(e) => Err(e),
    }
}

/// What follows from how the input was split: its error, or what its frames lead to.
pub open spec fn parsed_step<P, D>(
    parsed: Result<Vec<EncodedFrame<P>>, InputError>,
    dec: Decoding<P, D>,
    ops: Operations,
    before: Option<StageState<D>>,
    after: Option<StageState<D>>,
    r: Result<Seq<u8>, SessionError>,
) -> bool {
    match parsed {
        Err(e) => r == Err::<Seq<u8>, SessionError>(SessionError::Input(e)) && after == before,
        Ok(frames) => batch_step(dec, ops, before, frames@, after, r),
    }
}

/// `input` can lead from `before` to `after` and `r`.
pub open spec fn input_step<
    P,
    D,
    PF: Fn(&[u8]) -> Result<Vec<EncodedFrame<P>>, String>,
    PS: Fn(&[u8], usize) -> Result<EncodedFrame<P>, String>,
>(
    input: &[u8],
    sample_sizes: Option<&[u32]>,
    parse_frames: PF,
    parse_sample: PS,
    dec: Decoding<P, D>,
    ops: Operations,
    before: Option<StageState<D>>,
    after: Option<StageState<D>>,
    r: Result<Seq<u8>, SessionError>,
) -> bool {
    exists|parsed: Result<Vec<EncodedFrame<P>>, InputError>| #[trigger]
        parsed_step(parsed, dec, ops, before, after, r) && input::batch_parses(
            input,
            sample_sizes,
            parse_frames,
            parse_sample,
            parsed,
        )
}

/// Resetting the decoder of `stage` can leave `decoder` and give `r`.
pub open spec fn decoder_resets<D, R: Fn(D) -> (D, Result<(), String>)>(
    reset_decoder: R,
    stage: StageState<D>,
    decoder: D,
    r: Result<(), String>,
) -> bool {
    call_ensures(reset_decoder, (stage.decoder,), (decoder, r))
}

/// What follows when the decoder of `stage` was reset to `decoder` with result `reset`.
pub open spec fn after_reset<D>(
    stage: StageState<D>,
    decoder: D,
    reset: Result<(), String>,
    after: Option<StageState<D>>,
    r: Result<(), SessionError>,
) -> bool {
    match reset {
        Ok(_) => r == Ok::<(), SessionError>(()) && after == Some(
            StageState { decoder, renderer: render::renderer_reset(stage.renderer), ..stage },
        ),
        Err(message) => r == Err::<(), SessionError>(SessionError::Decoder(message)) && after
            == Some(StageState { decoder, ..stage }),
    }
}

/// A reset can lead from `stage` to `after` with result `r`.
pub open spec fn stage_resets<D, R: Fn(D) -> (D, Result<(), String>)>(
    reset_decoder: R,
    stage: StageState<D>,
    after: Option<StageState<D>>,
    r: Result<(), SessionError>,
) -> bool {
    exists|decoder: D, reset: Result<(), String>| #[trigger]
        decoder_resets(reset_decoder, stage, decoder, reset) && after_reset(
            stage,
            decoder,
            reset,
            after,
            r,
        )
}

/// A reset can lead from `before` to `after` with result `r`.
pub open spec fn reset_step<D, R: Fn(D) -> (D, Result<(), String>)>(
    reset_decoder: R,
    before: Option<StageState<D>>,
    after: Option<StageState<D>>,
    r: Result<(), SessionError>,
) -> bool {
    match before {
        None => r == Ok::<(), SessionError>(()) && after is None,
        Some(stage) => stage_resets(reset_decoder, stage, after, r),
    }
}

struct Stage<D> {
    decoder: D,
    format: StreamFormat,
    renderer: StereoRenderer,
    float_scratch: Vec<u32>,
    pcm_scratch: Vec<i16>,
}

impl<D> View for Stage<D> {
    type V = StageState<D>;

    closed spec fn view(&self) -> StageState<D> {
        StageState {
            decoder: self.decoder,
            format: self.format,
            renderer: self.renderer@,
            float_scratch: self.float_scratch@,
            pcm_scratch: self.pcm_scratch@,
        }
    }
}

/// The render state for one source file.
///
/// The decoder carries overlap between frames and the renderer carries the limiter's
/// look-ahead, so both are reset together whenever the caller jumps to a discontinuous
/// position.
pub struct RenderState<D> {
    stage: Option<Stage<D>>,
}

impl<D> View for RenderState<D> {
    type V = Option<StageState<D>>;

    closed spec fn view(&self) -> Option<StageState<D>> {
        match self.stage {
            Some(stage) => Some(stage@),
            None => None,
        }
    }
}

impl<D> RenderState<D> {
    /// Not configured.
    pub fn new() -> (r: Self)
        ensures
            r@ is None,
    {
        RenderState { stage: None }
    }

    /// Bring the decoder and renderer up for the stream of `frame`, replacing them if the stream's
    /// configuration changed mid-file.
    pub fn configure<
        P,
        C: Fn(&EncodedFrame<P>) -> Result<(D, StreamFormat), String>,
        H: Fn(&D, &EncodedFrame<P>) -> bool,
        F: Fn(D, &EncodedFrame<P>, Vec<u32>) -> (D, Vec<u32>, Result<(), String>),
    >(&mut self, frame: &EncodedFrame<P>, decoder: &FrameDecoder<C, H, F>) -> (r: Result<
        (),
        SessionError,
    >)
        requires
            takes_everything::<P, D, C, H, F>(*decoder),
        ensures
            configure_step(
                decoding::<P, D, C, H, F>(*decoder),
                old(self)@,
                *frame,
                final(self)@,
                r,
            ),
    {
        match stream::check_format(&frame.header) {
            Err(e) => {
                return Err(SessionError::Format(e));
            },
            Ok(_) => {},
        }
        let samples_per_channel: usize = frame.header.samples_per_channel as usize;
        let sample_count: usize = match (frame.header.channels as usize).checked_mul(
            samples_per_channel,
        ) {
            Some(count) => count,
            None => {
                return Err(SessionError::SampleCount);
            },
        };
        let output_samples: usize = match samples_per_channel.checked_mul(
            render::OUTPUT_CHANNELS,
        ) {
            Some(count) => count,
            None => {
                return Err(SessionError::SampleCount);
            },
        };
        let ghost dec = decoding::<P, D, C, H, F>(*decoder);
        let configured = (decoder.configure)(frame);
        assert((dec.configured)(*frame, configured));
        match configured {
            Err(message) => Err(SessionError::Decoder(message)),
            Ok((decoder, format)) => {
                let mut float_scratch: Vec<u32> = Vec::new();
                float_scratch.resize(sample_count, 0);
                let mut pcm_scratch: Vec<i16> = Vec::new();
                pcm_scratch.resize(output_samples, 0);
                self.stage = Some(
                    Stage {
                        decoder,
                        format,
                        renderer: StereoRenderer::new(
                            frame.header.bed_channels as usize,
                            frame.header.channels as usize,
                        ),
                        float_scratch,
                        pcm_scratch,
                    },
                );
                assert(self@->0.float_scratch =~= configured_stage(
                    frame.header,
                    decoder,
                    format,
                ).float_scratch);
                assert(self@->0.pcm_scratch =~= configured_stage(
                    frame.header,
                    decoder,
                    format,
                ).pcm_scratch);
                assert(self@ == Some(configured_stage(frame.header, decoder, format)));
                Ok(())
            },
        }
    }

    /// Make the session ready for `frame`.
    fn prepare<
        P,
        C: Fn(&EncodedFrame<P>) -> Result<(D, StreamFormat), String>,
        H: Fn(&D, &EncodedFrame<P>) -> bool,
        F: Fn(D, &EncodedFrame<P>, Vec<u32>) -> (D, Vec<u32>, Result<(), String>),
    >(&mut self, frame: &EncodedFrame<P>, decoder: &FrameDecoder<C, H, F>) -> (r: Result<
        (),
        SessionError,
    >)
        requires
            takes_everything::<P, D, C, H, F>(*decoder),
        ensures
            if old(self)@ is Some && timeline_differs(old(self)@->0.format, frame.header) {
                r == Err::<(), SessionError>(SessionError::FormatChanged) && final(self)@ == old(
                    self,
                )@
            } else {
                ready_step(decoding::<P, D, C, H, F>(*decoder), old(self)@, *frame, final(self)@, r)
            },
            r is Ok ==> final(self)@ is Some,
    {
        let ghost dec = decoding::<P, D, C, H, F>(*decoder);
        let changed: bool = match &self.stage {
            None => true,
            Some(stage) => {
                let format: StreamFormat = stage.format;
                if format.sample_rate != frame.header.sample_rate || format.channels
                    != frame.header.channels || format.samples_per_channel
                    != frame.header.samples_per_channel {
                    return Err(SessionError::FormatChanged);
                }
                let changed: bool = (decoder.changed)(&stage.decoder, frame);
                assert((dec.changed)(stage.decoder, *frame, changed));
                changed
            },
        };
        if changed {
            self.configure(frame, decoder)
        } else {
            Ok(())
        }
    }

    /// Decode one frame and render it to interleaved stereo PCM bytes. `fresh` says that the
    /// batch has given no PCM yet.
    pub fn decode_frame<
        P,
        C: Fn(&EncodedFrame<P>) -> Result<(D, StreamFormat), String>,
        H: Fn(&D, &EncodedFrame<P>) -> bool,
        F: Fn(D, &EncodedFrame<P>, Vec<u32>) -> (D, Vec<u32>, Result<(), String>),
        M: Fn(u32, u32) -> u32,
        A: Fn(u32, u32) -> u32,
        V: Fn(u32, u32) -> u32,
    >(
        &mut self,
        frame: &EncodedFrame<P>,
        fresh: bool,
        decoder: &FrameDecoder<C, H, F>,
        ops: &Arithmetic<M, A, V>,
    ) -> (r: Result<Vec<u8>, SessionError>)
        requires
            takes_everything::<P, D, C, H, F>(*decoder),
            ops.valid(),
        ensures
            frame_step(
                decoding::<P, D, C, H, F>(*decoder),
                ops@,
                old(self)@,
                *frame,
                fresh,
                final(self)@,
                outcome(r),
            ),
    {
        let ghost dec = decoding::<P, D, C, H, F>(*decoder);
        let prepared = self.prepare(frame, decoder);
        let ghost ready = self@;
        match prepared {
            Err(e) => {
                assert(old(self)@ is Some && timeline_differs(old(self)@->0.format, frame.header)
                    || ready_step(dec, old(self)@, *frame, ready, prepared));
                return Err(e);
            },
            Ok(_) => {},
        }
        assert(ready_step(dec, old(self)@, *frame, ready, prepared));
        if fresh && (frame.header.samples_per_channel as usize).checked_mul(
            render::OUTPUT_CHANNELS * 2,
        ).is_none() {
            assert(decode_step(dec, ops@, ready->0, *frame, fresh, self@, Err(SessionError::FrameSize)));
            return Err(SessionError::FrameSize);
        }
        let stage: Stage<D> = match self.stage.take() {
            Some(stage) => stage,
            None => {
                return Err(SessionError::NotConfigured);
            },
        };
        let Stage { decoder: current, format, renderer, float_scratch, pcm_scratch } = stage;
        let (next, filled, decoded) = (decoder.decode)(current, frame, float_scratch);
        let ghost given = decoded;
        assert((dec.decoded)(ready->0.decoder, *frame, float_scratch, next, filled, given));
        assert(fills(
            dec,
            ready->0.decoder,
            *frame,
            ready->0.float_scratch,
            next,
            filled@,
            given,
        ));
        let mut stage: Stage<D> = Stage {
            decoder: next,
            format,
            renderer,
            float_scratch: filled,
            pcm_scratch,
        };
        let ghost advanced = StageState { decoder: next, float_scratch: filled@, ..ready->0 };
        assert(stage@ == advanced);
        let r = match decoded {
            Err(message) => Err(SessionError::Decoder(message)),
            Ok(_) => {
                assert(stage.float_scratch.len() == stage.float_scratch@.len());
                assert(stage.pcm_scratch.len() == stage.pcm_scratch@.len());
                match stage.renderer.render(
                    stage.float_scratch.as_slice(),
                    stage.pcm_scratch.as_mut_slice(),
                    ops,
                ) {
                    Err(e) => Err(SessionError::Render(e)),
                    Ok(_) => {
                        let mut bytes: Vec<u8> = Vec::new();
                        pcm::append_le_i16(&mut bytes, stage.pcm_scratch.as_slice());
                        assert(bytes@ =~= pcm::pcm_bytes(stage.pcm_scratch@));
                        Ok(bytes)
                    },
                }
            },
        };
        self.stage = Some(stage);
        assert(render_step(ops@, advanced, given, self@, outcome(r)));
        assert(decode_step(dec, ops@, ready->0, *frame, fresh, self@, outcome(r)));
        r
    }

    /// Decode every frame in `input` and render it to interleaved stereo PCM bytes.
    pub fn decode<
        P,
        PF: Fn(&[u8]) -> Result<Vec<EncodedFrame<P>>, String>,
        PS: Fn(&[u8], usize) -> Result<EncodedFrame<P>, String>,
        C: Fn(&EncodedFrame<P>) -> Result<(D, StreamFormat), String>,
        H: Fn(&D, &EncodedFrame<P>) -> bool,
        F: Fn(D, &EncodedFrame<P>, Vec<u32>) -> (D, Vec<u32>, Result<(), String>),
        M: Fn(u32, u32) -> u32,
        A: Fn(u32, u32) -> u32,
        V: Fn(u32, u32) -> u32,
    >(
        &mut self,
        input: &[u8],
        sample_sizes: Option<&[u32]>,
        parse_frames: &PF,
        parse_sample: &PS,
        decoder: &FrameDecoder<C, H, F>,
        ops: &Arithmetic<M, A, V>,
    ) -> (r: Result<Vec<u8>, SessionError>)
        requires
            call_requires(parse_frames, (input,)),
            forall|s: &[u8], i: usize| call_requires(parse_sample, (s, i)),
            takes_everything::<P, D, C, H, F>(*decoder),
            ops.valid(),
        ensures
            input_step(
                input,
                sample_sizes,
                *parse_frames,
                *parse_sample,
                decoding::<P, D, C, H, F>(*decoder),
                ops@,
                old(self)@,
                final(self)@,
                outcome(r),
            ),
    {
        let ghost dec = decoding::<P, D, C, H, F>(*decoder);
        let parsed = input::parse_input_frames(input, sample_sizes, parse_frames, parse_sample);
        let ghost split = parsed;
        let frames: Vec<EncodedFrame<P>> = match parsed {
            Ok(frames) => frames,
            Err(e) => {
                assert(parsed_step(
                    split,
                    dec,
                    ops@,
                    old(self)@,
                    self@,
                    Err(SessionError::Input(e)),
                ));
                return Err(SessionError::Input(e));
            },
        };
        let mut bytes: Vec<u8> = Vec::new();
        let ghost mut states: Seq<Option<StageState<D>>> = seq![self@];
        let ghost mut outs: Seq<Seq<u8>> = Seq::empty();
        let mut i: usize = 0;
        while i < frames.len()
            invariant
                takes_everything::<P, D, C, H, F>(*decoder),
                ops.valid(),
                dec == decoding::<P, D, C, H, F>(*decoder),
                input::batch_parses(input, sample_sizes, *parse_frames, *parse_sample, split),
                split == Ok::<Vec<EncodedFrame<P>>, InputError>(frames),
                i <= frames@.len(),
                outs.len() == i,
                frames_lead(dec, ops@, frames@, states, outs),
                states[0] == old(self)@,
                states.last() == self@,
                bytes@ == joined(outs),
            decreases frames@.len() - i,
        {
            let fresh: bool = bytes.is_empty();
            let ghost before = self@;
            match self.decode_frame(&frames[i], fresh, decoder, ops) {
                Err(e) => {
                    assert(batch_leads(
                        dec,
                        ops@,
                        old(self)@,
                        frames@,
                        states,
                        outs,
                        self@,
                        Err(e),
                    ));
                    assert(parsed_step(split, dec, ops@, old(self)@, self@, Err(e)));
                    return Err(e);
                },
                Ok(frame_bytes) => {
                    let mut frame_bytes = frame_bytes;
                    proof {
                        let longer = outs.push(frame_bytes@);
                        let further = states.push(self@);
                        assert(longer.drop_last() =~= outs);
                        assert forall|k: int| 0 <= k < longer.len() implies frame_step(
                            dec,
                            ops@,
                            further[k],
                            #[trigger] frames@[k],
                            joined(longer.take(k)).len() == 0,
                            further[k + 1],
                            Ok(longer[k]),
                        ) by {
                            assert(longer.take(k) =~= outs.take(k));
                            if k == i {
                                assert(outs.take(k) =~= outs);
                            }
                        }
                        outs = longer;
                        states = further;
                    }
                    bytes.append(&mut frame_bytes);
                },
            }
            i += 1;
        }
        assert(batch_leads(dec, ops@, old(self)@, frames@, states, outs, self@, Ok(bytes@)));
        assert(parsed_step(split, dec, ops@, old(self)@, self@, Ok(bytes@)));
        Ok(bytes)
    }

    /// Drop decoder overlap and limiter state, for a discontinuous jump. Where `reset_decoder`
    /// fails, the limiters keep theirs; where there is no decoder yet, it is not called.
    pub fn reset<R: Fn(D) -> (D, Result<(), String>)>(&mut self, reset_decoder: &R) -> (r: Result<
        (),
        SessionError,
    >)
        requires
            forall|d: D| call_requires(reset_decoder, (d,)),
        ensures
            reset_step(*reset_decoder, old(self)@, final(self)@, r),
    {
        match self.stage.take() {
            None => Ok(()),
            Some(stage) => {
                let ghost before = stage@;
                let Stage { decoder, format, renderer, float_scratch, pcm_scratch } = stage;
                let (decoder, result) = reset_decoder(decoder);
                let ghost reset = result;
                assert(decoder_resets(*reset_decoder, before, decoder, reset));
                let mut stage: Stage<D> = Stage {
                    decoder,
                    format,
                    renderer,
                    float_scratch,
                    pcm_scratch,
                };
                let r = match result {
                    Err(message) => Err(SessionError::Decoder(message)),
                    Ok(_) => {
                        stage.renderer.reset();
                        Ok(())
                    },
                };
                self.stage = Some(stage);
                assert(after_reset(before, decoder, reset, self@, r));
                assert(stage_resets(*reset_decoder, before, self@, r));
                r
            },
        }
    }
}

/// Decodes AV3A and renders it to interleaved 16-bit stereo, until it is closed.
pub struct Av3aRenderSession<D> {
    state: Option<RenderState<D>>,
}

impl<D> View for Av3aRenderSession<D> {
    /// `None` once the session is closed.
    type V = Option<Option<StageState<D>>>;

    closed spec fn view(&self) -> Option<Option<StageState<D>>> {
        match self.state {
            Some(state) => Some(state@),
            None => None,
        }
    }
}

impl<D> Default for Av3aRenderSession<D> {
    fn default() -> (r: Self)
        ensures
            r@ == Some(None::<StageState<D>>),
    {
        Self::new()
    }
}

impl<D> Av3aRenderSession<D> {
    /// An open session that is not configured yet.
    pub fn new() -> (r: Self)
        ensures
            r@ == Some(None::<StageState<D>>),
    {
        Av3aRenderSession { state: Some(RenderState::new()) }
    }

    /// A task that decodes and renders the AV3A frames in `input`.
    pub fn decode(&self, input: Vec<u8>, sample_sizes: Option<Vec<u32>>) -> (r: DecodeTask)
        ensures
            r.input == input,
            r.sample_sizes == sample_sizes,
    {
        DecodeTask { input, sample_sizes }
    }

    /// Drop decoder overlap and limiter state, for a discontinuous jump.
    pub fn reset<R: Fn(D) -> (D, Result<(), String>)>(&mut self, reset_decoder: &R) -> (r: Result<
        (),
        SessionError,
    >)
        requires
            forall|d: D| call_requires(reset_decoder, (d,)),
        ensures
            match old(self)@ {
                None => r == Err::<(), SessionError>(SessionError::Closed) && final(self)@ is None,
                Some(before) => final(self)@ is Some && reset_step(
                    *reset_decoder,
                    before,
                    final(self)@->0,
                    r,
                ),
            },
    {
        match self.state.take() {
            None => Err(SessionError::Closed),
            Some(mut state) => {
                let r = state.reset(reset_decoder);
                self.state = Some(state);
                r
            },
        }
    }

    /// Close the session. Whatever comes after finds it closed.
    pub fn close(&mut self)
        ensures
            final(self)@ is None,
    {
        self.state = None;
    }
}

/// Input that waits to be decoded.
pub struct DecodeTask {
    pub input: Vec<u8>,
    pub sample_sizes: Option<Vec<u32>>,
}

impl DecodeTask {
    /// The sizes of the samples, as a sequence.
    pub open spec fn sizes(&self) -> Option<Seq<u32>> {
        match self.sample_sizes {
            Some(sizes) => Some(sizes@),
            None => None,
        }
    }

    /// What the task holds can lead from `before` to `after` and `r`.
    pub open spec fn task_step<
        P,
        D,
        PF: Fn(&[u8]) -> Result<Vec<EncodedFrame<P>>, String>,
        PS: Fn(&[u8], usize) -> Result<EncodedFrame<P>, String>,
    >(
        &self,
        parse_frames: PF,
        parse_sample: PS,
        dec: Decoding<P, D>,
        ops: Operations,
        before: Option<StageState<D>>,
        after: Option<StageState<D>>,
        r: Result<Seq<u8>, SessionError>,
    ) -> bool {
        exists|input: &[u8], sizes: Option<&[u32]>|
            self.hands_over(input, sizes) && #[trigger] input_step(
                input,
                sizes,
                parse_frames,
                parse_sample,
                dec,
                ops,
                before,
                after,
                r,
            )
    }

    /// Decode and render in `session`: interleaved stereo PCM bytes, one output frame for each
    /// input frame.
    pub fn compute<
        P,
        D,
        PF: Fn(&[u8]) -> Result<Vec<EncodedFrame<P>>, String>,
        PS: Fn(&[u8], usize) -> Result<EncodedFrame<P>, String>,
        C: Fn(&EncodedFrame<P>) -> Result<(D, StreamFormat), String>,
        H: Fn(&D, &EncodedFrame<P>) -> bool,
        F: Fn(D, &EncodedFrame<P>, Vec<u32>) -> (D, Vec<u32>, Result<(), String>),
        M: Fn(u32, u32) -> u32,
        A: Fn(u32, u32) -> u32,
        V: Fn(u32, u32) -> u32,
    >(
        &self,
        session: &mut Av3aRenderSession<D>,
        parse_frames: &PF,
        parse_sample: &PS,
        decoder: &FrameDecoder<C, H, F>,
        ops: &Arithmetic<M, A, V>,
    ) -> (r: Result<Vec<u8>, SessionError>)
        requires
            forall|s: &[u8]| call_requires(parse_frames, (s,)),
            forall|s: &[u8], i: usize| call_requires(parse_sample, (s, i)),
            takes_everything::<P, D, C, H, F>(*decoder),
            ops.valid(),
        ensures
            match old(session)@ {
                None => r == Err::<Vec<u8>, SessionError>(SessionError::Closed)
                    && final(session)@ is None,
                Some(before) => {
                    &&& final(session)@ is Some
                    &&& self.task_step(
                        *parse_frames,
                        *parse_sample,
                        decoding::<P, D, C, H, F>(*decoder),
                        ops@,
                        before,
                        final(session)@->0,
                        outcome(r),
                    )
                },
            },
    {
        match session.state.take() {
            None => Err(SessionError::Closed),
            Some(mut state) => {
                let sizes: Option<&[u32]> = match &self.sample_sizes {
                    None => None,
                    Some(sizes) => Some(sizes.as_slice()),
                };
                let input: &[u8] = self.input.as_slice();
                let r = state.decode(input, sizes, parse_frames, parse_sample, decoder, ops);
                session.state = Some(state);
                assert(self.hands_over(input, sizes));
                assert(self.task_step(
                    *parse_frames,
                    *parse_sample,
                    decoding::<P, D, C, H, F>(*decoder),
                    ops@,
                    old(session)@->0,
                    session@->0,
                    outcome(r),
                ));
                r
            },
        }
    }

    /// `input` and `sizes` are slices of what the task holds.
    pub open spec fn hands_over(&self, input: &[u8], sizes: Option<&[u32]>) -> bool {
        &&& input@ == self.input@
        &&& match (sizes, self.sizes()) {
            (Some(s), Some(t)) => s@ == t,
            (None, None) => true,
            _ => false,
        }
    }
}

/// A decoder that, when configured for a frame, reports the format of the frame's header.
pub open spec fn reports_header<P, D>(dec: Decoding<P, D>) -> bool {
    forall|frame: EncodedFrame<P>, decoder: D, format: StreamFormat| #[trigger]
        (dec.configured)(frame, Ok((decoder, format))) ==> !timeline_differs(format, frame.header)
}

/// A decoder that fills a buffer without changing its length.
pub open spec fn keeps_length<P, D>(dec: Decoding<P, D>) -> bool {
    forall|d: D, frame: EncodedFrame<P>, b: Vec<u32>, e: D, c: Vec<u32>, r: Result<(), String>|
        #[trigger] (dec.decoded)(d, frame, b, e, c, r) ==> c@.len() == b@.len()
}

/// A session whose buffers fit the format of its decoder.
pub open spec fn buffers_fit<D>(state: Option<StageState<D>>) -> bool {
    state matches Some(stage) ==> {
        &&& stage.pcm_scratch.len() == 2 * stage.format.samples_per_channel <= usize::MAX
        &&& stage.float_scratch.len() == stage.format.channels * stage.format.samples_per_channel
    }
}

/// One frame gives two 16-bit samples for each sample of one of its channels, and the session
/// keeps the timeline of the frame. A frame that fails gives no PCM.
pub proof fn frame_keeps_timeline<P, D>(
    dec: Decoding<P, D>,
    ops: Operations,
    before: Option<StageState<D>>,
    frame: EncodedFrame<P>,
    fresh: bool,
    after: Option<StageState<D>>,
    r: Result<Seq<u8>, SessionError>,
)
    requires
        reports_header(dec),
        keeps_length(dec),
        buffers_fit(before),
        frame_step(dec, ops, before, frame, fresh, after, r),
    ensures
        buffers_fit(after),
        r matches Ok(bytes) ==> {
            &&& bytes.len() == 4 * frame.header.samples_per_channel
            &&& after matches Some(stage) && !timeline_differs(stage.format, frame.header)
        },
        before matches Some(b) ==> (after matches Some(a) && a.format.sample_rate
            == b.format.sample_rate && a.format.channels == b.format.channels
            && a.format.samples_per_channel == b.format.samples_per_channel),
{
    if !(before is Some && timeline_differs(before->0.format, frame.header)) {
        let (ready, c) = choose|ready: Option<StageState<D>>, c: Result<(), SessionError>| #[trigger]
            ready_step(dec, before, frame, ready, c) && match c {
                Err(e) => r == Err::<Seq<u8>, SessionError>(e) && after == ready,
                Ok(_) => decode_step(dec, ops, ready->0, frame, fresh, after, r),
            };
        if c is Ok {
            let stage = ready->0;
            assert(ready is Some && !timeline_differs(stage.format, frame.header));
            if !(fresh && frame.header.samples_per_channel * 4 > usize::MAX) {
                let (decoder, filled, decoded) = choose|
                    decoder: D,
                    filled: Seq<u32>,
                    decoded: Result<(), String>,
                | #[trigger]
                    fills(
                        dec,
                        stage.decoder,
                        frame,
                        stage.float_scratch,
                        decoder,
                        filled,
                        decoded,
                    ) && render_step(
                        ops,
                        StageState { decoder, float_scratch: filled, ..stage },
                        decoded,
                        after,
                        r,
                    );
                let (b, c) = choose|b: Vec<u32>, c: Vec<u32>|
                    b@ == stage.float_scratch && c@ == filled && #[trigger] (dec.decoded)(
                        stage.decoder,
                        frame,
                        b,
                        decoder,
                        c,
                        decoded,
                    );
                assert(c.len() == filled.len());
                let frames = render::frames_in(stage.renderer, filled.len());
                let output = render::render_output(ops, stage.renderer, filled, frames);
                render::output_length(ops, stage.renderer, filled, frames);
                pcm::pcm_length(output);
            }
        }
    }
}

/// Bytes of stereo PCM that the first `count` frames stand for.
pub open spec fn timeline_bytes<P>(frames: Seq<EncodedFrame<P>>, count: int) -> nat
    decreases count,
{
    if count <= 0 {
        0
    } else {
        timeline_bytes(frames, count - 1) + 4 * frames[count - 1].header.samples_per_channel as nat
    }
}

/// The first frames of a batch keep the buffers fitting, and give the PCM they stand for.
proof fn prefix_keeps_timeline<P, D>(
    dec: Decoding<P, D>,
    ops: Operations,
    frames: Seq<EncodedFrame<P>>,
    states: Seq<Option<StageState<D>>>,
    outs: Seq<Seq<u8>>,
    count: int,
)
    requires
        reports_header(dec),
        keeps_length(dec),
        frames_lead(dec, ops, frames, states, outs),
        buffers_fit(states[0]),
        0 <= count <= outs.len(),
    ensures
        buffers_fit(states[count]),
        joined(outs.take(count)).len() == timeline_bytes(frames, count),
        forall|i: int|
            0 <= i < count ==> states[count] is Some && !timeline_differs(
                states[count]->0.format,
                (#[trigger] frames[i]).header,
            ),
    decreases count,
{
    if count > 0 {
        let i = count - 1;
        prefix_keeps_timeline(dec, ops, frames, states, outs, i);
        let fresh = joined(outs.take(i)).len() == 0;
        let frame = frames[i];
        assert(frame_step(dec, ops, states[i], frame, fresh, states[i + 1], Ok(outs[i])));
        frame_keeps_timeline(dec, ops, states[i], frame, fresh, states[i + 1], Ok(outs[i]));
        assert(outs.take(count).drop_last() =~= outs.take(i));
    } else {
        assert(outs.take(0) =~= Seq::<Seq<u8>>::empty());
    }
}

/// A batch that succeeds gives the PCM of all its frames, one output frame for each, and all
/// its frames share one PCM timeline.
pub proof fn batch_keeps_timeline<P, D>(
    dec: Decoding<P, D>,
    ops: Operations,
    before: Option<StageState<D>>,
    frames: Seq<EncodedFrame<P>>,
    after: Option<StageState<D>>,
    bytes: Seq<u8>,
)
    requires
        reports_header(dec),
        keeps_length(dec),
        buffers_fit(before),
        batch_step(dec, ops, before, frames, after, Ok(bytes)),
    ensures
        buffers_fit(after),
        bytes.len() == timeline_bytes(frames, frames.len() as int),
        forall|i: int|
            0 <= i < frames.len() ==> after is Some && !timeline_differs(
                after->0.format,
                (#[trigger] frames[i]).header,
            ),
{
    let (states, outs) = choose|states: Seq<Option<StageState<D>>>, outs: Seq<Seq<u8>>| #[trigger]
        batch_leads(dec, ops, before, frames, states, outs, after, Ok(bytes));
    prefix_keeps_timeline(dec, ops, frames, states, outs, outs.len() as int);
    assert(outs.take(outs.len() as int) =~= outs);
}

/// A decoder of which each success is determined by what it is given.
pub open spec fn answers_once<P, D>(dec: Decoding<P, D>) -> bool {
    &&& forall|frame: EncodedFrame<P>, d: D, f: StreamFormat, e: D, g: StreamFormat| #[trigger]
        (dec.configured)(frame, Ok((d, f))) && #[trigger] (dec.configured)(frame, Ok((e, g))) ==> d
            == e && f == g
    &&& forall|d: D, frame: EncodedFrame<P>|
        !(#[trigger] (dec.changed)(d, frame, true) && #[trigger] (dec.changed)(d, frame, false))
    &&& forall|
        d: D,
        frame: EncodedFrame<P>,
        b: Vec<u32>,
        e: D,
        s: Vec<u32>,
        c: Vec<u32>,
        f: D,
        t: Vec<u32>,
    |
        b@ == c@ && #[trigger] (dec.decoded)(d, frame, b, e, s, Ok(())) && #[trigger] (dec.decoded)(
            d,
            frame,
            c,
            f,
            t,
            Ok(()),
        ) ==> e == f && s@ == t@
}

proof fn ready_is_unique<P, D>(
    dec: Decoding<P, D>,
    before: Option<StageState<D>>,
    frame: EncodedFrame<P>,
    x: Option<StageState<D>>,
    y: Option<StageState<D>>,
)
    requires
        answers_once(dec),
        ready_step(dec, before, frame, x, Ok(())),
        ready_step(dec, before, frame, y, Ok(())),
    ensures
        x == y,
{
    if before is None || (dec.changed)(before->0.decoder, frame, true) {
        assert(configure_step(dec, before, frame, x, Ok(())));
        assert(configure_step(dec, before, frame, y, Ok(())));
        let (d, f) = choose|d: D, f: StreamFormat| #[trigger]
            (dec.configured)(frame, Ok((d, f))) && x == Some(configured_stage(frame.header, d, f));
        let (e, g) = choose|e: D, g: StreamFormat| #[trigger]
            (dec.configured)(frame, Ok((e, g))) && y == Some(configured_stage(frame.header, e, g));
        assert((dec.configured)(frame, Ok((d, f))) && (dec.configured)(frame, Ok((e, g))));
    }
}

/// The stage that a frame was decoded in, and what the decoder left.
proof fn frame_decoded<P, D>(
    dec: Decoding<P, D>,
    ops: Operations,
    before: Option<StageState<D>>,
    frame: EncodedFrame<P>,
    fresh: bool,
    after: Option<StageState<D>>,
    bytes: Seq<u8>,
) -> (r: (Option<StageState<D>>, D, Seq<u32>))
    requires
        frame_step(dec, ops, before, frame, fresh, after, Ok(bytes)),
    ensures
        !(before is Some && timeline_differs(before->0.format, frame.header)),
        !(fresh && frame.header.samples_per_channel * 4 > usize::MAX),
        ready_step(dec, before, frame, r.0, Ok(())),
        fills(dec, r.0->0.decoder, frame, r.0->0.float_scratch, r.1, r.2, Ok(())),
        render_step(
            ops,
            StageState { decoder: r.1, float_scratch: r.2, ..r.0->0 },
            Ok(()),
            after,
            Ok(bytes),
        ),
{
    let (ready, c) = choose|ready: Option<StageState<D>>, c: Result<(), SessionError>| #[trigger]
        ready_step(dec, before, frame, ready, c) && match c {
            Err(e) => Ok::<Seq<u8>, SessionError>(bytes) == Err::<Seq<u8>, SessionError>(e) && after
                == ready,
            Ok(_) => decode_step(dec, ops, ready->0, frame, fresh, after, Ok(bytes)),
        };
    assert(c is Ok && c->Ok_0 == ());
    let stage = ready->0;
    let (decoder, filled, decoded) = choose|
        decoder: D,
        filled: Seq<u32>,
        decoded: Result<(), String>,
    | #[trigger]
        fills(dec, stage.decoder, frame, stage.float_scratch, decoder, filled, decoded)
            && render_step(
            ops,
            StageState { decoder, float_scratch: filled, ..stage },
            decoded,
            after,
            Ok(bytes),
        );
    assert(decoded is Ok && decoded->Ok_0 == ());
    (ready, decoder, filled)
}

proof fn filling_is_unique<P, D>(
    dec: Decoding<P, D>,
    decoder: D,
    frame: EncodedFrame<P>,
    buffer: Seq<u32>,
    e: D,
    s: Seq<u32>,
    f: D,
    t: Seq<u32>,
)
    requires
        answers_once(dec),
        fills(dec, decoder, frame, buffer, e, s, Ok(())),
        fills(dec, decoder, frame, buffer, f, t, Ok(())),
    ensures
        e == f,
        s == t,
{
    let (b, x) = choose|b: Vec<u32>, x: Vec<u32>|
        b@ == buffer && x@ == s && #[trigger] (dec.decoded)(decoder, frame, b, e, x, Ok(()));
    let (c, y) = choose|c: Vec<u32>, y: Vec<u32>|
        c@ == buffer && y@ == t && #[trigger] (dec.decoded)(decoder, frame, c, f, y, Ok(()));
    assert((dec.decoded)(decoder, frame, b, e, x, Ok(())));
    assert((dec.decoded)(decoder, frame, c, f, y, Ok(())));
}

/// Where each success of the decoder is determined, so is that of a frame.
proof fn frame_is_unique<P, D>(
    dec: Decoding<P, D>,
    ops: Operations,
    before: Option<StageState<D>>,
    frame: EncodedFrame<P>,
    x_fresh: bool,
    x: Option<StageState<D>>,
    x_bytes: Seq<u8>,
    y_fresh: bool,
    y: Option<StageState<D>>,
    y_bytes: Seq<u8>,
)
    requires
        answers_once(dec),
        frame_step(dec, ops, before, frame, x_fresh, x, Ok(x_bytes)),
        frame_step(dec, ops, before, frame, y_fresh, y, Ok(y_bytes)),
    ensures
        x == y,
        x_bytes == y_bytes,
{
    let (a, d, s) = frame_decoded(dec, ops, before, frame, x_fresh, x, x_bytes);
    let (b, e, t) = frame_decoded(dec, ops, before, frame, y_fresh, y, y_bytes);
    ready_is_unique(dec, before, frame, a, b);
    filling_is_unique(dec, a->0.decoder, frame, a->0.float_scratch, d, s, e, t);
}

/// A frame that succeeds where the batch has given no PCM yet succeeds alike where it has.
proof fn later_in_a_batch<P, D>(
    dec: Decoding<P, D>,
    ops: Operations,
    before: Option<StageState<D>>,
    frame: EncodedFrame<P>,
    fresh: bool,
    after: Option<StageState<D>>,
    bytes: Seq<u8>,
)
    requires
        frame_step(dec, ops, before, frame, fresh, after, Ok(bytes)),
    ensures
        frame_step(dec, ops, before, frame, false, after, Ok(bytes)),
{
    let (ready, d, s) = frame_decoded(dec, ops, before, frame, fresh, after, bytes);
    assert(decode_step(dec, ops, ready->0, frame, false, after, Ok(bytes)));
}

proof fn joined_concat(a: Seq<Seq<u8>>, b: Seq<Seq<u8>>)
    ensures
        joined(a + b) == joined(a) + joined(b),
    decreases b.len(),
{
    if b.len() == 0 {
        assert(a + b =~= a);
        assert(joined(a) + joined(b) =~= joined(a));
    } else {
        assert((a + b).drop_last() =~= a + b.drop_last());
        joined_concat(a, b.drop_last());
        assert(joined(a) + (joined(b.drop_last()) + b.last()) =~= joined(a) + joined(b.drop_last())
            + b.last());
    }
}

/// How a stream is cut into batches leaves its PCM as it is: what two batches lead to one after
/// the other, their frames lead to in one batch, with the bytes of both.
pub proof fn batches_join<P, D>(
    dec: Decoding<P, D>,
    ops: Operations,
    before: Option<StageState<D>>,
    a: Seq<EncodedFrame<P>>,
    middle: Option<StageState<D>>,
    p: Seq<u8>,
    b: Seq<EncodedFrame<P>>,
    after: Option<StageState<D>>,
    q: Seq<u8>,
)
    requires
        batch_step(dec, ops, before, a, middle, Ok(p)),
        batch_step(dec, ops, middle, b, after, Ok(q)),
    ensures
        batch_step(dec, ops, before, a + b, after, Ok(p + q)),
{
    let (s, x) = choose|s: Seq<Option<StageState<D>>>, x: Seq<Seq<u8>>| #[trigger]
        batch_leads(dec, ops, before, a, s, x, middle, Ok(p));
    let (t, y) = choose|t: Seq<Option<StageState<D>>>, y: Seq<Seq<u8>>| #[trigger]
        batch_leads(dec, ops, middle, b, t, y, after, Ok(q));
    let states = s + t.drop_first();
    let outs = x + y;
    let frames = a + b;
    let m = a.len() as int;
    assert forall|i: int| 0 <= i < outs.len() implies frame_step(
        dec,
        ops,
        states[i],
        #[trigger] frames[i],
        joined(outs.take(i)).len() == 0,
        states[i + 1],
        Ok(outs[i]),
    ) by {
        if i < m {
            assert(outs.take(i) =~= x.take(i));
            assert(frame_step(
                dec,
                ops,
                s[i],
                a[i],
                joined(x.take(i)).len() == 0,
                s[i + 1],
                Ok(x[i]),
            ));
        } else {
            let k = i - m;
            assert(outs.take(i) =~= x + y.take(k));
            joined_concat(x, y.take(k));
            assert(states[i] == t[k]);
            assert(frame_step(
                dec,
                ops,
                t[k],
                b[k],
                joined(y.take(k)).len() == 0,
                t[k + 1],
                Ok(y[k]),
            ));
            later_in_a_batch(
                dec,
                ops,
                t[k],
                b[k],
                joined(y.take(k)).len() == 0,
                t[k + 1],
                y[k],
            );
        }
    }
    joined_concat(x, y);
    assert(states.last() == after) by {
        if b.len() == 0 {
            assert(t.len() == 1);
        }
    }
    assert(batch_leads(dec, ops, before, frames, states, outs, after, Ok(p + q)));
}

proof fn prefix_is_unique<P, D>(
    dec: Decoding<P, D>,
    ops: Operations,
    frames: Seq<EncodedFrame<P>>,
    s: Seq<Option<StageState<D>>>,
    x: Seq<Seq<u8>>,
    t: Seq<Option<StageState<D>>>,
    y: Seq<Seq<u8>>,
    count: int,
)
    requires
        answers_once(dec),
        frames_lead(dec, ops, frames, s, x),
        frames_lead(dec, ops, frames, t, y),
        s[0] == t[0],
        0 <= count <= x.len(),
        count <= y.len(),
    ensures
        s[count] == t[count],
        x.take(count) == y.take(count),
    decreases count,
{
    if count > 0 {
        let i = count - 1;
        prefix_is_unique(dec, ops, frames, s, x, t, y, i);
        let (u, v) = (joined(x.take(i)).len() == 0, joined(y.take(i)).len() == 0);
        let frame = frames[i];
        assert(frame_step(dec, ops, s[i], frame, u, s[i + 1], Ok(x[i])));
        assert(frame_step(dec, ops, t[i], frame, v, t[i + 1], Ok(y[i])));
        frame_is_unique(dec, ops, s[i], frame, u, s[i + 1], x[i], v, t[i + 1], y[i]);
        assert(x.take(count) =~= x.take(i).push(x[i]));
        assert(y.take(count) =~= y.take(i).push(y[i]));
    } else {
        assert(x.take(0) =~= y.take(0));
    }
}

/// Where each success of the decoder is determined, so is that of a batch: its PCM, and the
/// session that it leaves.
pub proof fn batch_is_unique<P, D>(
    dec: Decoding<P, D>,
    ops: Operations,
    before: Option<StageState<D>>,
    frames: Seq<EncodedFrame<P>>,
    after: Option<StageState<D>>,
    p: Seq<u8>,
    other: Option<StageState<D>>,
    q: Seq<u8>,
)
    requires
        answers_once(dec),
        batch_step(dec, ops, before, frames, after, Ok(p)),
        batch_step(dec, ops, before, frames, other, Ok(q)),
    ensures
        after == other,
        p == q,
{
    let (s, x) = choose|s: Seq<Option<StageState<D>>>, x: Seq<Seq<u8>>| #[trigger]
        batch_leads(dec, ops, before, frames, s, x, after, Ok(p));
    let (t, y) = choose|t: Seq<Option<StageState<D>>>, y: Seq<Seq<u8>>| #[trigger]
        batch_leads(dec, ops, before, frames, t, y, other, Ok(q));
    let n = frames.len() as int;
    prefix_is_unique(dec, ops, frames, s, x, t, y, n);
    assert(x.take(n) =~= x);
    assert(y.take(n) =~= y);
}

/// Two sessions that start alike give the same PCM, whether a stream comes in two batches or in
/// one: the decoder's overlap and the limiters' look-ahead are carried from batch to batch.
pub proof fn cutting_keeps_the_pcm<
    P,
    D,
    PF: Fn(&[u8]) -> Result<Vec<EncodedFrame<P>>, String>,
    PS: Fn(&[u8], usize) -> Result<EncodedFrame<P>, String>,
>(
    parse_frames: PF,
    parse_sample: PS,
    dec: Decoding<P, D>,
    ops: Operations,
    before: Option<StageState<D>>,
    a: &[u8],
    a_sizes: &[u32],
    middle: Option<StageState<D>>,
    p: Seq<u8>,
    b: &[u8],
    b_sizes: &[u32],
    after: Option<StageState<D>>,
    q: Seq<u8>,
    both: &[u8],
    both_sizes: &[u32],
    end: Option<StageState<D>>,
    r: Seq<u8>,
)
    requires
        input::reads_bytes::<EncodedFrame<P>, PS>(parse_sample),
        answers_once(dec),
        both@ == a@ + b@,
        both_sizes@ == a_sizes@ + b_sizes@,
        input_step(a, Some(a_sizes), parse_frames, parse_sample, dec, ops, before, middle, Ok(p)),
        input_step(b, Some(b_sizes), parse_frames, parse_sample, dec, ops, middle, after, Ok(q)),
        input_step(
            both,
            Some(both_sizes),
            parse_frames,
            parse_sample,
            dec,
            ops,
            before,
            end,
            Ok(r),
        ),
    ensures
        r == p + q,
        end == after,
{
    let x = choose|x: Result<Vec<EncodedFrame<P>>, InputError>| #[trigger]
        parsed_step(x, dec, ops, before, middle, Ok(p)) && input::batch_parses(
            a,
            Some(a_sizes),
            parse_frames,
            parse_sample,
            x,
        );
    let y = choose|y: Result<Vec<EncodedFrame<P>>, InputError>| #[trigger]
        parsed_step(y, dec, ops, middle, after, Ok(q)) && input::batch_parses(
            b,
            Some(b_sizes),
            parse_frames,
            parse_sample,
            y,
        );
    let z = choose|z: Result<Vec<EncodedFrame<P>>, InputError>| #[trigger]
        parsed_step(z, dec, ops, before, end, Ok(r)) && input::batch_parses(
            both,
            Some(both_sizes),
            parse_frames,
            parse_sample,
            z,
        );
    let (u, v, w) = (x->Ok_0, y->Ok_0, z->Ok_0);
    input::batches_split_alike(
        parse_frames,
        parse_sample,
        a,
        a_sizes,
        u,
        b,
        b_sizes,
        v,
        both,
        both_sizes,
        w,
    );
    batches_join(dec, ops, before, u@, middle, p, v@, after, q);
    batch_is_unique(dec, ops, before, w@, after, p + q, end, r);
}

/// What is said of a session that fails: what the decoder reports is said in its own words.
pub proof fn session_faults_are_said(
    format: FormatError,
    message: String,
    fault: RenderError,
    input: InputError,
)
    ensures
        SessionError::Closed.text() == "AV3A render session is closed"@,
        SessionError::Format(format).text() == format.text(),
        SessionError::SampleCount.text() == "AV3A sample count overflow"@,
        SessionError::FormatChanged.text()
            == "AV3A stream format changed between frames; PCM timeline cannot be resized"@,
        SessionError::FrameSize.text() == "AV3A PCM frame size overflow"@,
        SessionError::NotConfigured.text() == "AV3A decoder was not configured"@,
        SessionError::Decoder(message).text() == message@,
        SessionError::Render(fault).text() == fault.text(),
        SessionError::Input(input).text() == input.text(),
{
}

} // verus!
