use orpheus_native::av3a::input::{parse_input_frames, InputError};
use orpheus_native::av3a::pcm::append_le_i16;
use orpheus_native::av3a::render::StereoRenderer;
use orpheus_native::av3a::session::{
    Av3aRenderSession, EncodedFrame, FrameDecoder, RenderState, SessionError, StreamFormat,
};
use orpheus_native::av3a::stream::{ChannelConfig, CodecProfile, FrameHeader};
use orpheus_native::binary32::Arithmetic;
use std::cell::RefCell;

type Op = fn(u32, u32) -> u32;

fn ops() -> Arithmetic<Op, Op, Op> {
    Arithmetic {
        mul: |a, b| (f32::from_bits(a) * f32::from_bits(b)).to_bits(),
        add: |a, b| (f32::from_bits(a) + f32::from_bits(b)).to_bits(),
        div: |a, b| (f32::from_bits(a) / f32::from_bits(b)).to_bits(),
    }
}

fn stereo(samples: u32) -> FrameHeader {
    FrameHeader {
        profile: CodecProfile::ChannelBased,
        channel_config: Some(ChannelConfig::Stereo),
        sample_rate: 48_000,
        channels: 2,
        bed_channels: 2,
        samples_per_channel: samples,
    }
}

fn format_of(header: &FrameHeader) -> StreamFormat {
    StreamFormat {
        sample_rate: header.sample_rate,
        channels: header.channels,
        samples_per_channel: header.samples_per_channel,
    }
}

fn frame(header: FrameHeader, level: f32) -> EncodedFrame<f32> {
    EncodedFrame { header, coded: level }
}

/// Splits a batch: each byte is a frame of four samples at that level; 255 cannot be parsed.
fn parse_byte(byte: u8) -> Result<EncodedFrame<f32>, String> {
    if byte == 255 {
        Err("bad sync".to_string())
    } else {
        Ok(frame(stereo(4), f32::from(byte)))
    }
}

fn parse_frames(input: &[u8]) -> Result<Vec<EncodedFrame<f32>>, String> {
    input.iter().map(|b| parse_byte(*b)).collect()
}

fn parse_sample(sample: &[u8], _index: usize) -> Result<EncodedFrame<f32>, String> {
    parse_byte(sample[0])
}

fn coded_frame(payload_byte: u8) -> Vec<u8> {
    let payload_len = ((64_000_usize * 1_024 / 48_000) - 56).div_ceil(8);
    let mut bits: Vec<bool> = Vec::new();
    for (value, width) in [
        (0xfff_u64, 12),
        (2, 4),
        (0, 1),
        (0, 3),
        (0, 3),
        (2, 4),
        (0, 8),
        (0, 7),
        (1, 2),
        (4, 4),
        (0, 8),
    ] {
        for bit in (0..width).rev() {
            bits.push((value >> bit) & 1 == 1);
        }
    }
    let mut bytes: Vec<u8> = bits
        .chunks(8)
        .map(|c| c.iter().fold(0, |byte, bit| byte << 1 | u8::from(*bit)))
        .collect();
    bytes.extend(vec![payload_byte; payload_len]);
    bytes
}

/// A framing parser that takes one frame off the front and leaves what follows.
fn take_frame(sample: &[u8]) -> Result<Vec<u8>, String> {
    if sample.len() < 2 || sample[0] != 0xff || sample[1] >> 4 != 0xf {
        return Err("no sync word".to_string());
    }
    let len = 7 + ((64_000_usize * 1_024 / 48_000) - 56).div_ceil(8);
    if sample.len() < len {
        return Err("truncated frame".to_string());
    }
    Ok(sample[..len].to_vec())
}

fn take_frames(input: &[u8]) -> Result<Vec<Vec<u8>>, String> {
    let mut frames = Vec::new();
    let mut offset = 0;
    while offset < input.len() {
        let frame = take_frame(&input[offset..])?;
        offset += frame.len();
        frames.push(frame);
    }
    Ok(frames)
}

#[test]
fn sample_sizes_strip_mp4_padding_before_decoding() {
    let coded = coded_frame(0x37);
    let mut sample = coded.clone();
    sample.extend_from_slice(&[0xa5; 7]);

    let sizes = [u32::try_from(sample.len()).unwrap()];
    let frames = parse_input_frames(&sample, Some(&sizes), &take_frames, &|s: &[u8], _: usize| {
        take_frame(s)
    })
    .unwrap();
    assert_eq!(frames.len(), 1);
    assert_eq!(frames[0].as_slice(), coded.as_slice());

    // As an elementary stream, the padding is taken for another frame.
    let error = parse_input_frames(&sample, None, &take_frames, &|s: &[u8], _: usize| {
        take_frame(s)
    })
    .unwrap_err();
    assert_eq!(error.message(), "no sync word");
}

#[test]
fn sample_sizes_split_the_input() {
    let whole = |s: &[u8], index: usize| Ok::<_, String>((s.to_vec(), index));
    let all = |s: &[u8]| Ok::<_, String>(vec![(s.to_vec(), 77)]);
    let input = [1u8, 2, 3, 4, 5, 6];

    let frames = parse_input_frames(&input, Some(&[1, 3, 2]), &all, &whole).unwrap();
    assert_eq!(frames, vec![(vec![1], 0), (vec![2, 3, 4], 1), (vec![5, 6], 2)]);

    let frames = parse_input_frames(&input, None, &all, &whole).unwrap();
    assert_eq!(frames, vec![(input.to_vec(), 77)]);

    let empty = parse_input_frames(&[], Some(&[]), &all, &whole).unwrap();
    assert!(empty.is_empty());
}

#[test]
fn bad_sample_sizes_are_reported() {
    let whole = |s: &[u8], _: usize| Ok::<_, String>(s.to_vec());
    let all = |s: &[u8]| Ok::<_, String>(vec![s.to_vec()]);
    let input = [0u8; 6];
    let message = |sizes: &[u32]| {
        parse_input_frames(&input, Some(sizes), &all, &whole).unwrap_err().message()
    };
    assert_eq!(message(&[2, 0, 4]), "AV3A sample 1 is empty");
    assert_eq!(
        message(&[2, 5]),
        "AV3A sample batch ends at 7, but input has only 6 bytes"
    );
    assert_eq!(
        message(&[2, 3]),
        "AV3A sample sizes cover 5 bytes, but input has 6"
    );
    assert_eq!(
        InputError::RangeOverflow { index: 9 }.message(),
        "AV3A sample 9 range overflows usize"
    );
    let failing = |_: &[u8], index: usize| Err::<Vec<u8>, _>(format!("sample {index}: bad sync"));
    let error = parse_input_frames(&input, Some(&[2, 4]), &all, &failing).unwrap_err();
    assert_eq!(error.message(), "sample 0: bad sync");
}

/// Runs `batches` through one session, with a decoder that fills the buffer with the level of
/// the frame, and collects what the decoder was asked.
fn run(session: &mut Av3aRenderSession<u32>, input: Vec<u8>, sizes: Option<Vec<u32>>) -> Result<
    Vec<u8>,
    SessionError,
> {
    let decoder = FrameDecoder {
        configure: |frame: &EncodedFrame<f32>| Ok((0u32, format_of(&frame.header))),
        changed: |_: &u32, _: &EncodedFrame<f32>| false,
        decode: |d: u32, frame: &EncodedFrame<f32>, buffer: Vec<u32>| {
            (d + 1, vec![frame.coded.to_bits(); buffer.len()], Ok(()))
        },
    };
    let task = session.decode(input, sizes);
    task.compute(session, &parse_frames, &parse_sample, &decoder, &ops())
}

#[test]
fn each_frame_gives_its_pcm() {
    let mut session = Av3aRenderSession::new();
    let bytes = run(&mut session, vec![10; 30], None).unwrap();
    assert_eq!(bytes.len(), 30 * 4 * 4);
    // Ninety-nine samples of look-ahead, then eight and a half, cut off.
    for (i, sample) in bytes.chunks(2).enumerate() {
        let want: i16 = if i / 2 >= 99 { 8 } else { 0 };
        assert_eq!(sample, want.to_le_bytes(), "sample {i}");
    }
    let sized = run(&mut session, vec![10, 99, 10, 99], Some(vec![2, 2])).unwrap();
    assert_eq!(sized.len(), 2 * 4 * 4);
    assert!(sized.chunks(2).all(|s| s == 8i16.to_le_bytes()));
}

#[test]
fn session_renders_like_its_renderer() {
    let mut session = Av3aRenderSession::default();
    let levels: Vec<u8> = (0..60).map(|i| (i * 4) as u8).collect();
    let bytes = run(&mut session, levels.clone(), None).unwrap();

    let mut input = Vec::new();
    for level in &levels {
        input.extend(vec![f32::from(*level).to_bits(); 8]);
    }
    let mut output = vec![0i16; input.len()];
    StereoRenderer::new(2, 2).render(&input, &mut output, &ops()).unwrap();
    let mut want = Vec::new();
    append_le_i16(&mut want, &output);
    assert_eq!(bytes, want);
}

#[test]
fn framing_errors_reach_the_caller() {
    let mut session = Av3aRenderSession::new();
    let error = run(&mut session, vec![1, 255], None).unwrap_err();
    assert_eq!(error.message(), "bad sync");
    let error = run(&mut session, vec![1, 2], Some(vec![3])).unwrap_err();
    assert_eq!(
        error.message(),
        "AV3A sample batch ends at 3, but input has only 2 bytes"
    );
}

#[test]
fn a_closed_session_does_nothing() {
    let mut session = Av3aRenderSession::<u32>::new();
    session.close();
    let error = run(&mut session, vec![1], None).unwrap_err();
    assert_eq!(error.message(), "AV3A render session is closed");
    let error = session.reset(&|d: u32| (d, Ok(()))).unwrap_err();
    assert_eq!(error.message(), "AV3A render session is closed");
    session.close();
}

#[test]
fn reset_forgets_the_look_ahead() {
    let mut session = Av3aRenderSession::new();
    let first = run(&mut session, vec![100; 40], None).unwrap();
    let second = run(&mut session, vec![100; 40], None).unwrap();
    assert_ne!(first, second);
    session.reset(&|d: u32| (d, Ok(()))).unwrap();
    let third = run(&mut session, vec![100; 40], None).unwrap();
    assert_eq!(first, third);
}

#[test]
fn a_failed_reset_keeps_the_look_ahead() {
    let mut session = Av3aRenderSession::new();
    // Nothing is configured, so the decoder is not asked.
    session.reset(&|d: u32| (d, Err("not asked".to_string()))).unwrap();
    run(&mut session, vec![100; 40], None).unwrap();
    let steady = run(&mut session, vec![100; 40], None).unwrap();
    let error = session.reset(&|d: u32| (d, Err("decoder stuck".to_string()))).unwrap_err();
    assert_eq!(error.message(), "decoder stuck");
    assert_eq!(run(&mut session, vec![100; 40], None).unwrap(), steady);
}

#[test]
fn a_changed_timeline_is_refused() {
    let decoder = FrameDecoder {
        configure: |frame: &EncodedFrame<f32>| Ok((0u32, format_of(&frame.header))),
        changed: |_: &u32, _: &EncodedFrame<f32>| true,
        decode: |d: u32, _: &EncodedFrame<f32>, buffer: Vec<u32>| (d, vec![0; buffer.len()], Ok(())),
    };
    for change in 0..3 {
        let mut state = RenderState::new();
        state.decode_frame(&frame(stereo(4), 0.0), true, &decoder, &ops()).unwrap();
        let mut header = stereo(4);
        match change {
            0 => header.sample_rate = 44_100,
            1 => header.channels = 3,
            _ => header.samples_per_channel = 8,
        }
        let error = state.decode_frame(&frame(header, 0.0), false, &decoder, &ops()).unwrap_err();
        assert_eq!(
            error.message(),
            "AV3A stream format changed between frames; PCM timeline cannot be resized"
        );
        // The state is as it was.
        state.decode_frame(&frame(stereo(4), 0.0), false, &decoder, &ops()).unwrap();
    }
}

#[test]
fn a_changed_configuration_is_rebuilt() {
    let configured = RefCell::new(0);
    let decoder = FrameDecoder {
        configure: |frame: &EncodedFrame<f32>| {
            *configured.borrow_mut() += 1;
            Ok((0u32, format_of(&frame.header)))
        },
        changed: |_: &u32, frame: &EncodedFrame<f32>| frame.header.bed_channels != 2,
        decode: |d: u32, frame: &EncodedFrame<f32>, buffer: Vec<u32>| {
            (d + 1, vec![frame.coded.to_bits(); buffer.len()], Ok(()))
        },
    };
    let mut state = RenderState::new();
    for _ in 0..3 {
        state.decode_frame(&frame(stereo(200), 100.0), true, &decoder, &ops()).unwrap();
    }
    assert_eq!(*configured.borrow(), 1);
    let mut header = stereo(200);
    header.bed_channels = 1;
    let bytes = state.decode_frame(&frame(header, 100.0), false, &decoder, &ops()).unwrap();
    assert_eq!(*configured.borrow(), 2);
    // A new renderer starts with silence in its look-ahead, and has no right channel.
    assert_eq!(&bytes[..4], &[0, 0, 0, 0]);
    assert_eq!(&bytes[4 * 150..4 * 151], &[85, 0, 0, 0]);
}

#[test]
fn formats_that_cannot_be_rendered_are_reported() {
    let decoder = FrameDecoder {
        configure: |frame: &EncodedFrame<f32>| Ok((0u32, format_of(&frame.header))),
        changed: |_: &u32, _: &EncodedFrame<f32>| false,
        decode: |d: u32, _: &EncodedFrame<f32>, buffer: Vec<u32>| (d, vec![0; buffer.len()], Ok(())),
    };
    let message = |header: FrameHeader| {
        let mut state = RenderState::new();
        state.configure(&frame(header, 0.0), &decoder).unwrap_err().message()
    };
    let mut header = stereo(4);
    header.profile = CodecProfile::Other("Object".to_string());
    assert_eq!(
        message(header),
        "AV3A profile Object is not supported by the stereo renderer"
    );
    let mut header = stereo(4);
    header.channel_config = None;
    assert_eq!(
        message(header),
        "AV3A channel-based stream has no channel configuration"
    );
    let mut header = stereo(4);
    header.channel_config = Some(ChannelConfig::Mc5_1_4);
    assert_eq!(
        message(header),
        "Audio Vivid configuration Mc5_1_4 maps to layout 4+5+0, which the renderer does not define"
    );
}

#[test]
fn decoder_errors_reach_the_caller() {
    let decoder = FrameDecoder {
        configure: |_: &EncodedFrame<f32>| Err::<(u32, StreamFormat), String>("no such profile".to_string()),
        changed: |_: &u32, _: &EncodedFrame<f32>| false,
        decode: |d: u32, _: &EncodedFrame<f32>, buffer: Vec<u32>| (d, vec![0; buffer.len()], Ok(())),
    };
    let mut state = RenderState::new();
    let error = state
        .decode_frame(&frame(stereo(4), 0.0), true, &decoder, &ops())
        .unwrap_err();
    assert_eq!(error.message(), "no such profile");

    let decoder = FrameDecoder {
        configure: |frame: &EncodedFrame<f32>| Ok((0u32, format_of(&frame.header))),
        changed: |_: &u32, _: &EncodedFrame<f32>| false,
        decode: |d: u32, frame: &EncodedFrame<f32>, buffer: Vec<u32>| {
            if frame.coded < 0.0 {
                (d, buffer, Err("corrupt frame".to_string()))
            } else {
                (d, vec![0u32; buffer.len() + frame.coded as usize], Ok(()))
            }
        },
    };
    let mut state = RenderState::new();
    let error = state
        .decode_frame(&frame(stereo(4), -1.0), true, &decoder, &ops())
        .unwrap_err();
    assert_eq!(error.message(), "corrupt frame");
    let error = state
        .decode_frame(&frame(stereo(4), 1.0), true, &decoder, &ops())
        .unwrap_err();
    assert_eq!(
        error.message(),
        "render: 9 input samples is not a multiple of 2 channels"
    );
    assert_eq!(SessionError::SampleCount.message(), "AV3A sample count overflow");
    assert_eq!(SessionError::FrameSize.message(), "AV3A PCM frame size overflow");
    assert_eq!(
        SessionError::NotConfigured.message(),
        "AV3A decoder was not configured"
    );
}

/// A decoder that carries overlap: each frame comes out as the mean of itself and the one before.
fn decode_overlapping(session: &mut Av3aRenderSession<f32>, input: &[u8], sizes: &[u32]) -> Vec<u8> {
    let decoder = FrameDecoder {
        configure: |frame: &EncodedFrame<f32>| Ok((0.0f32, format_of(&frame.header))),
        changed: |_: &f32, _: &EncodedFrame<f32>| false,
        decode: |last: f32, frame: &EncodedFrame<f32>, buffer: Vec<u32>| {
            let mean = (last + frame.coded) / 2.0;
            (frame.coded, vec![mean.to_bits(); buffer.len()], Ok(()))
        },
    };
    let task = session.decode(input.to_vec(), Some(sizes.to_vec()));
    task.compute(session, &parse_frames, &parse_sample, &decoder, &ops()).unwrap()
}

#[test]
fn cutting_a_stream_keeps_its_pcm() {
    let input: Vec<u8> = (0..120u8).map(|i| i.wrapping_mul(37) % 251).collect();
    let sizes = vec![2u32; 60];
    let mut whole = Av3aRenderSession::new();
    let r = decode_overlapping(&mut whole, &input, &sizes);
    for cut in [1usize, 7, 30, 59] {
        let mut session = Av3aRenderSession::new();
        let mut pcm = decode_overlapping(&mut session, &input[..2 * cut], &sizes[..cut]);
        pcm.extend(decode_overlapping(&mut session, &input[2 * cut..], &sizes[cut..]));
        assert_eq!(pcm, r, "cut at {cut}");
    }
    // The overlap shows: a new session for the second part gives something else.
    let mut session = Av3aRenderSession::new();
    let second = decode_overlapping(&mut session, &input[60..], &sizes[30..]);
    assert_ne!(second, r[r.len() - second.len()..]);
}

#[test]
fn each_frame_is_decoded_once() {
    let decoder = FrameDecoder {
        configure: |frame: &EncodedFrame<f32>| Ok((10u32, format_of(&frame.header))),
        changed: |_: &u32, _: &EncodedFrame<f32>| false,
        decode: |count: u32, _: &EncodedFrame<f32>, buffer: Vec<u32>| {
            (count + 1, buffer, Ok(()))
        },
    };
    let mut state = RenderState::new();
    for _ in 0..5 {
        state.decode_frame(&frame(stereo(4), 0.0), true, &decoder, &ops()).unwrap();
    }
    // The reset gets the decoder as the frames left it.
    let seen = RefCell::new(0);
    state
        .reset(&|count: u32| {
            *seen.borrow_mut() = count;
            (0, Ok(()))
        })
        .unwrap();
    assert_eq!(*seen.borrow(), 15);
}

#[test]
fn configuring_leaves_silence_in_the_buffers() {
    // A decoder that reports what it finds in the buffer, and then fills it.
    let found: RefCell<Vec<(usize, bool)>> = RefCell::new(Vec::new());
    let decoder = FrameDecoder {
        configure: |frame: &EncodedFrame<f32>| Ok(((), format_of(&frame.header))),
        changed: |_: &(), frame: &EncodedFrame<f32>| frame.header.bed_channels != 2,
        decode: |d: (), _: &EncodedFrame<f32>, buffer: Vec<u32>| {
            found.borrow_mut().push((buffer.len(), buffer.iter().all(|s| *s == 0)));
            (d, vec![5.0f32.to_bits(); buffer.len()], Ok(()))
        },
    };
    let mut state = RenderState::new();
    let mut changed = stereo(4);
    changed.bed_channels = 1;
    for header in [stereo(4), stereo(4), changed] {
        state.decode_frame(&frame(header, 0.0), true, &decoder, &ops()).unwrap();
    }
    assert_eq!(*found.borrow(), vec![(8, true), (8, false), (8, true)]);
}

#[test]
fn pcm_is_little_endian() {
    let mut bytes = vec![9u8];
    append_le_i16(&mut bytes, &[0, 1, -1, i16::MIN, i16::MAX, 0x1234]);
    assert_eq!(
        bytes,
        [9, 0, 0, 1, 0, 0xff, 0xff, 0, 0x80, 0xff, 0x7f, 0x34, 0x12]
    );
    for sample in [i16::MIN, -12_345, -1, 0, 1, 300, i16::MAX] {
        let mut one = Vec::new();
        append_le_i16(&mut one, &[sample]);
        assert_eq!(one, sample.to_le_bytes());
    }
}
