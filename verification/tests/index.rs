use orpheus_native::av3a::index::{
    build_index, export_sample, first_header_from_sample, index_av3a_mp4_moov,
    read_av3a_mp4_first_sample, to_js_number, warmup_frames_for, Av3aMp4Sample, Av3aTrack,
    IndexError, Mp4Sample, MAX_SAFE_INTEGER,
};
use orpheus_native::av3a::stream::{ChannelConfig, CodecProfile, FrameHeader};

fn header() -> FrameHeader {
    FrameHeader {
        profile: CodecProfile::ChannelBased,
        channel_config: Some(ChannelConfig::Mc7_1_4),
        sample_rate: 44_100,
        channels: 12,
        bed_channels: 12,
        samples_per_channel: 1_024,
    }
}

fn track() -> Av3aTrack {
    Av3aTrack {
        samples: vec![
            Mp4Sample { offset: 48, size: 5 },
            Mp4Sample { offset: 53, size: 900 },
        ],
        identity_edits: vec![true],
    }
}

fn one_frame(_: &FrameHeader) -> Result<u64, String> {
    Ok(1)
}

#[test]
fn safe_integers_pass() {
    assert_eq!(MAX_SAFE_INTEGER, (1 << 53) - 1);
    assert_eq!(to_js_number(0, "n").unwrap(), 0);
    assert_eq!(to_js_number(MAX_SAFE_INTEGER, "n").unwrap(), MAX_SAFE_INTEGER);
    assert_eq!(
        to_js_number(MAX_SAFE_INTEGER + 1, "AV3A sample offset").unwrap_err().message(),
        "AV3A sample offset is outside the JavaScript safe integer range"
    );
    let far = Mp4Sample { offset: u64::MAX, size: 1 };
    assert!(matches!(export_sample(&far), Err(IndexError::UnsafeInteger(_))));
    let near = Mp4Sample { offset: 7, size: u32::MAX };
    assert_eq!(
        export_sample(&near).unwrap(),
        Av3aMp4Sample { offset: 7, size: 4_294_967_295 }
    );
}

#[test]
fn warmup_adds_the_frame_of_the_render() {
    assert_eq!(warmup_frames_for(&header(), &one_frame).unwrap(), 2);
    let huge = |_: &FrameHeader| Ok::<u64, String>(u64::MAX);
    assert_eq!(warmup_frames_for(&header(), &huge).unwrap(), u64::MAX);
    let failing = |_: &FrameHeader| Err::<u64, String>("no profile".to_string());
    assert_eq!(
        warmup_frames_for(&header(), &failing).unwrap_err().message(),
        "no profile"
    );
}

#[test]
fn index_lists_every_sample() {
    let index = build_index(&track(), &header(), &one_frame).unwrap();
    assert_eq!(
        index.samples,
        vec![
            Av3aMp4Sample { offset: 48, size: 5 },
            Av3aMp4Sample { offset: 53, size: 900 },
        ]
    );
    assert_eq!(index.sample_rate, 44_100);
    assert_eq!(index.samples_per_frame, 1_024);
    assert_eq!(index.warmup_frames, 2);
}

#[test]
fn tracks_that_cannot_be_indexed_are_reported() {
    let message = |t: &Av3aTrack, h: &FrameHeader| {
        build_index(t, h, &one_frame).unwrap_err().message()
    };
    let empty = Av3aTrack { samples: vec![], identity_edits: vec![false] };
    assert_eq!(message(&empty, &header()), "AV3A MP4 track has no samples");

    let mut object = header();
    object.profile = CodecProfile::Other("Mixed".to_string());
    assert_eq!(
        message(&track(), &object),
        "AV3A profile Mixed is not supported by the stereo renderer"
    );
    let mut none = header();
    none.channel_config = None;
    assert_eq!(
        message(&track(), &none),
        "AV3A channel-based stream has no channel configuration"
    );
    let mut mono = header();
    mono.channel_config = Some(ChannelConfig::Mono);
    assert_eq!(
        message(&track(), &mono),
        "Audio Vivid configuration Mono maps to layout 0+1+0, which the renderer does not define"
    );

    let mut edited = track();
    edited.identity_edits = vec![true, false];
    assert_eq!(
        message(&edited, &header()),
        "AV3A MP4 carries an unsupported non-identity edit list"
    );
    let mut far = track();
    far.samples[1].offset = MAX_SAFE_INTEGER + 1;
    assert_eq!(
        message(&far, &header()),
        "AV3A sample offset is outside the JavaScript safe integer range"
    );
    let slow = |_: &FrameHeader| Ok::<u64, String>(u64::from(u32::MAX));
    assert_eq!(
        build_index(&track(), &header(), &slow).unwrap_err().message(),
        "AV3A warm-up frame count overflow"
    );
}

#[test]
fn first_header_is_read_from_the_declared_bytes() {
    let seen = |s: &[u8], index: usize| {
        if s == [1, 2, 3, 4, 5] && index == 0 {
            Ok(header())
        } else {
            Err(format!("{} bytes at {index}", s.len()))
        }
    };
    let read = first_header_from_sample(&track(), &[1, 2, 3, 4, 5, 6, 7], &seen).unwrap();
    assert_eq!(read.sample_rate, 44_100);
    assert_eq!(
        first_header_from_sample(&track(), &[1, 2, 3], &seen).unwrap_err().message(),
        "AV3A first sample is incomplete: got 3 of 5 bytes"
    );
    assert_eq!(
        first_header_from_sample(&track(), &[0; 5], &seen).unwrap_err().message(),
        "5 bytes at 0"
    );
    let empty = Av3aTrack { samples: vec![], identity_edits: vec![] };
    assert_eq!(
        first_header_from_sample(&empty, &[1], &seen).unwrap_err().message(),
        "AV3A MP4 track has no samples"
    );
}

#[test]
fn moov_leads_to_first_sample_and_index() {
    let reader = |moov: &[u8]| {
        if moov == b"moov" {
            Ok(track())
        } else {
            Err("not a moov box".to_string())
        }
    };
    let parser = |s: &[u8], _: usize| {
        if s.len() == 5 {
            Ok(header())
        } else {
            Err("length".to_string())
        }
    };
    let first = read_av3a_mp4_first_sample(b"moov", &reader).unwrap();
    assert_eq!(first, Av3aMp4Sample { offset: 48, size: 5 });
    let index = index_av3a_mp4_moov(b"moov", &[0; 9], &reader, &parser, &one_frame).unwrap();
    assert_eq!(index.samples[0], first);
    assert_eq!(index.warmup_frames, 2);

    assert_eq!(
        read_av3a_mp4_first_sample(b"mdat", &reader).unwrap_err().message(),
        "not a moov box"
    );
    assert_eq!(
        index_av3a_mp4_moov(b"mdat", &[0; 9], &reader, &parser, &one_frame)
            .unwrap_err()
            .message(),
        "not a moov box"
    );
    let none = |_: &[u8]| Ok::<_, String>(Av3aTrack { samples: vec![], identity_edits: vec![] });
    assert_eq!(
        read_av3a_mp4_first_sample(b"moov", &none).unwrap_err().message(),
        "AV3A MP4 track has no samples"
    );
}
