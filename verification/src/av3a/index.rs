//! Indexing AV3A in MP4.
//!
//! Reading the boxes and parsing a sample are supplied by the caller; every contract here holds
//! for all readers and parsers.
use crate::av3a::render;
use crate::av3a::stream;
use crate::av3a::stream::ChannelConfig;
use crate::av3a::stream::CodecProfile;
use crate::av3a::stream::FormatError;
use crate::av3a::stream::FrameHeader;
use crate::text;
use vstd::prelude::*;

verus! {

/// Largest value that survives a round trip through a JavaScript number: `2^53 - 1`.
pub const MAX_SAFE_INTEGER: u64 = 9_007_199_254_740_991;

/// A sample of a track: where it lies in the file, and its size.
#[derive(Debug, Clone, Copy, PartialEq, Eq, Structural)]
pub struct Mp4Sample {
    pub offset: u64,
    pub size: u32,
}

/// A track: its samples, and for each edit whether it leaves the timeline as it is.
#[derive(Debug)]
pub struct Av3aTrack {
    pub samples: Vec<Mp4Sample>,
    pub identity_edits: Vec<bool>,
}

/// One access unit: a single AV3A frame in `mdat`. Both numbers are safe integers.
#[derive(Debug, Clone, Copy, PartialEq, Eq, Structural)]
pub struct Av3aMp4Sample {
    pub offset: u64,
    pub size: u64,
}

/// The index of a track.
#[derive(Debug)]
pub struct Av3aMp4Index {
    pub samples: Vec<Av3aMp4Sample>,
    pub sample_rate: u32,
    pub samples_per_frame: u32,
    /// Frames the caller must decode ahead of a seek target to refill the decoder's synthesis
    /// overlap.
    pub warmup_frames: u32,
}

/// Why a track cannot be indexed.
#[derive(Debug, Clone)]
pub enum IndexError {
    /// The track has no samples.
    NoSamples,
    /// The stream cannot be rendered.
    Format(FormatError),
    /// An edit that is not the identity.
    EditList,
    /// The named number is not a safe integer.
    UnsafeInteger(String),
    /// The warm-up does not fit its field.
    WarmupOverflow,
    /// Fewer bytes of the first sample than the track declares.
    Incomplete { got: usize, size: u32 },
    /// What the box reader, the sample parser or the decoder reported.
    Codec(String),
}

impl IndexError {
    /// The text that reports the error.
    pub open spec fn text(&self) -> Seq<char> {
        match self {
            IndexError::NoSamples => "AV3A MP4 track has no samples"@,
            IndexError::Format(e) => e.text(),
            IndexError::EditList => "AV3A MP4 carries an unsupported non-identity edit list"@,
            IndexError::UnsafeInteger(name) => name@
                + " is outside the JavaScript safe integer range"@,
            IndexError::WarmupOverflow => "AV3A warm-up frame count overflow"@,
            IndexError::Incomplete { got, size } => "AV3A first sample is incomplete: got "@
                + text::decimal(*got as nat) + " of "@ + text::decimal(*size as nat) + " bytes"@,
            IndexError::Codec(message) => message@,
        }
    }

    /// Renders [`IndexError::text`].
    pub fn message(&self) -> (r: String)
        ensures
            r@ == self.text(),
    {
        match self {
            IndexError::NoSamples => "AV3A MP4 track has no samples".to_owned(),
            IndexError::Format(e) => e.message(),
            IndexError::EditList => {
                "AV3A MP4 carries an unsupported non-identity edit list".to_owned()
            },
            IndexError::UnsafeInteger(name) => name.clone().concat(
                " is outside the JavaScript safe integer range",
            ),
            IndexError::WarmupOverflow => "AV3A warm-up frame count overflow".to_owned(),
            IndexError::Incomplete { got, size } => {
                "AV3A first sample is incomplete: got ".to_owned().concat(
                    text::decimal_text(*got as u128).as_str(),
                ).concat(" of ").concat(text::decimal_text(*size as u128).as_str()).concat(" bytes")
            },
            IndexError::Codec(message) => message.clone(),
        }
    }
}

/// `value` as a JavaScript number can hold it, or an error that names it.
pub fn to_js_number(value: u64, name: &str) -> (r: Result<u64, IndexError>)
    ensures
        match r {
            Ok(number) => value <= 9_007_199_254_740_991 && number == value,
            Err(e) => value > 9_007_199_254_740_991 && (e matches IndexError::UnsafeInteger(n) && n@
                == name@),
        },
{
    if value > MAX_SAFE_INTEGER {
        return Err(IndexError::UnsafeInteger(name.to_owned()));
    }
    Ok(value)
}

/// The name under which an unsafe sample offset is reported.
pub open spec fn offset_name() -> Seq<char> {
    "AV3A sample offset"@
}

/// `e` reports an unsafe sample offset.
pub open spec fn offset_unsafe(e: IndexError) -> bool {
    e matches IndexError::UnsafeInteger(name) && name@ == offset_name()
}

/// `sample` with both numbers as JavaScript can hold them.
pub open spec fn exported(sample: Mp4Sample) -> Av3aMp4Sample {
    Av3aMp4Sample { offset: sample.offset, size: sample.size as u64 }
}

/// Exports one sample.
pub fn export_sample(sample: &Mp4Sample) -> (r: Result<Av3aMp4Sample, IndexError>)
    ensures
        match r {
            Ok(s) => {
                &&& sample.offset <= MAX_SAFE_INTEGER
                &&& s == exported(*sample)
                &&& s.offset == sample.offset
                &&& s.size == sample.size
            },
            Err(e) => sample.offset > MAX_SAFE_INTEGER && offset_unsafe(e),
        },
{
    match to_js_number(sample.offset, "AV3A sample offset") {
        Ok(offset) => Ok(Av3aMp4Sample { offset, size: sample.size as u64 }),
        Err(e) => Err(e),
    }
}

/// `2^64 - 1` where the sum exceeds it.
pub open spec fn warmup_total(decoder: u64) -> u64 {
    if decoder + render::WARMUP_FRAMES > u64::MAX {
        u64::MAX
    } else {
        (decoder + render::WARMUP_FRAMES) as u64
    }
}

/// Frames of preroll a seek needs: the decoder's own warm-up plus the render's.
///
/// The decoder's part is profile-dependent, so it comes from `decoder_warmup` rather than being
/// hardcoded here.
pub fn warmup_frames_for<W: Fn(&FrameHeader) -> Result<u64, String>>(
    header: &FrameHeader,
    decoder_warmup: &W,
) -> (r: Result<u64, IndexError>)
    requires
        call_requires(decoder_warmup, (header,)),
    ensures
        match r {
            Ok(frames) => exists|own: u64| #[trigger]
                call_ensures(decoder_warmup, (header,), Ok(own)) && frames == warmup_total(own) && (
                frames == own + 1 || (own == u64::MAX && frames == own)),
            Err(e) => e matches IndexError::Codec(message) && call_ensures(
                decoder_warmup,
                (header,),
                Err(message),
            ),
        },
{
    match decoder_warmup(header) {
        Ok(own) => Ok(own.saturating_add(render::WARMUP_FRAMES as u64)),
        Err(message) => Err(IndexError::Codec(message)),
    }
}

/// What stops a track whose first sample has `header` from being indexed, if anything does
/// before its samples are exported.
pub open spec fn track_fault(track: Av3aTrack, header: FrameHeader) -> Option<IndexError> {
    if track.samples@.len() == 0 {
        Some(IndexError::NoSamples)
    } else {
        match stream::format_fault(header) {
            Some(e) => Some(IndexError::Format(e)),
            None => if exists|i: int|
                0 <= i < track.identity_edits@.len() && !#[trigger] track.identity_edits@[i] {
                Some(IndexError::EditList)
            } else {
                None
            },
        }
    }
}

/// All sample offsets are safe integers.
pub open spec fn offsets_safe(samples: Seq<Mp4Sample>) -> bool {
    forall|i: int| 0 <= i < samples.len() ==> (#[trigger] samples[i]).offset <= MAX_SAFE_INTEGER
}

/// What indexing can give, from the decoder's own warm-up.
pub open spec fn warmup_outcome<W: Fn(&FrameHeader) -> Result<u64, String>>(
    track: Av3aTrack,
    header: &FrameHeader,
    decoder_warmup: W,
    own: Result<u64, String>,
    r: Result<Av3aMp4Index, IndexError>,
) -> bool {
    &&& call_ensures(decoder_warmup, (header,), own)
    &&& match own {
        Err(message) => r == Err::<Av3aMp4Index, IndexError>(IndexError::Codec(message)),
        Ok(frames) => if warmup_total(frames) > u32::MAX {
            r == Err::<Av3aMp4Index, IndexError>(IndexError::WarmupOverflow)
        } else {
            r matches Ok(index) && {
                &&& index.samples@ == track.samples@.map_values(|s: Mp4Sample| exported(s))
                &&& index.sample_rate == header.sample_rate
                &&& index.samples_per_frame == header.samples_per_channel
                &&& index.warmup_frames == warmup_total(frames)
            }
        },
    }
}

/// What indexing can give.
pub open spec fn index_outcome<W: Fn(&FrameHeader) -> Result<u64, String>>(
    track: Av3aTrack,
    header: &FrameHeader,
    decoder_warmup: W,
    r: Result<Av3aMp4Index, IndexError>,
) -> bool {
    match track_fault(track, *header) {
        Some(e) => r == Err::<Av3aMp4Index, IndexError>(e),
        None => if !offsets_safe(track.samples@) {
            r matches Err(e) && offset_unsafe(e)
        } else {
            exists|own: Result<u64, String>| #[trigger]
                warmup_outcome(track, header, decoder_warmup, own, r)
        },
    }
}

/// Builds the index of a track whose first sample has `first_header`.
pub fn build_index<W: Fn(&FrameHeader) -> Result<u64, String>>(
    track: &Av3aTrack,
    first_header: &FrameHeader,
    decoder_warmup: &W,
) -> (r: Result<Av3aMp4Index, IndexError>)
    requires
        call_requires(decoder_warmup, (first_header,)),
    ensures
        index_outcome(*track, first_header, *decoder_warmup, r),
{
    if track.samples.len() == 0 {
        return Err(IndexError::NoSamples);
    }
    match stream::check_format(first_header) {
        Err(e) => {
            return Err(IndexError::Format(e));
        },
        Ok(_) => {},
    }
    let mut i: usize = 0;
    while i < track.identity_edits.len()
        invariant
            i <= track.identity_edits@.len(),
            track.samples@.len() > 0,
            stream::format_fault(*first_header) is None,
            forall|k: int| 0 <= k < i ==> #[trigger] track.identity_edits@[k],
        decreases track.identity_edits@.len() - i,
    {
        if !track.identity_edits[i] {
            assert(!track.identity_edits@[i as int]);
            return Err(IndexError::EditList);
        }
        i += 1;
    }
    let mut samples: Vec<Av3aMp4Sample> = Vec::new();
    let mut k: usize = 0;
    while k < track.samples.len()
        invariant
            k <= track.samples@.len(),
            track_fault(*track, *first_header) is None,
            samples@.len() == k,
            forall|j: int| 0 <= j < k ==> (#[trigger] track.samples@[j]).offset <= MAX_SAFE_INTEGER,
            forall|j: int| 0 <= j < k ==> #[trigger] samples@[j] == exported(track.samples@[j]),
        decreases track.samples@.len() - k,
    {
        match export_sample(&track.samples[k]) {
            Ok(sample) => {
                samples.push(sample);
            },
            Err(e) => {
                assert(track.samples@[k as int].offset > MAX_SAFE_INTEGER);
                return Err(e);
            },
        }
        k += 1;
    }
    let ghost all = track.samples@.map_values(|s: Mp4Sample| exported(s));
    assert(samples@ =~= all);
    match warmup_frames_for(first_header, decoder_warmup) {
        Err(e) => {
            let r = Err(e);
            assert(warmup_outcome(
                *track,
                first_header,
                *decoder_warmup,
                Err(e->Codec_0),
                r,
            ));
            r
        },
        Ok(warmup) => {
            let ghost own = choose|own: u64| #[trigger]
                call_ensures(decoder_warmup, (first_header,), Ok(own)) && warmup == warmup_total(
                    own,
                );
            let r = if warmup > u32::MAX as u64 {
                Err(IndexError::WarmupOverflow)
            } else {
                Ok(
                    Av3aMp4Index {
                        samples,
                        sample_rate: first_header.sample_rate,
                        samples_per_frame: first_header.samples_per_channel,
                        warmup_frames: warmup as u32,
                    },
                )
            };
            assert(warmup_outcome(*track, first_header, *decoder_warmup, Ok(own), r));
            r
        },
    }
}

/// `parse_sample`, given `bytes` as the first sample, can give `result`.
pub open spec fn first_parses<Q: Fn(&[u8], usize) -> Result<FrameHeader, String>>(
    parse_sample: Q,
    bytes: Seq<u8>,
    result: Result<FrameHeader, String>,
) -> bool {
    exists|s: &[u8]| s@ == bytes && #[trigger] call_ensures(parse_sample, (s, 0usize), result)
}

/// What reading the header of the first sample can give.
pub open spec fn first_header_outcome<Q: Fn(&[u8], usize) -> Result<FrameHeader, String>>(
    track: Av3aTrack,
    first_sample: &[u8],
    parse_sample: Q,
    r: Result<FrameHeader, IndexError>,
) -> bool {
    if track.samples@.len() == 0 {
        r == Err::<FrameHeader, IndexError>(IndexError::NoSamples)
    } else {
        let size = track.samples@[0].size;
        if first_sample.len() < size {
            r == Err::<FrameHeader, IndexError>(
                IndexError::Incomplete { got: first_sample.len(), size },
            )
        } else {
            let bytes = first_sample@.take(size as int);
            match r {
                Ok(header) => first_parses(parse_sample, bytes, Ok(header)),
                Err(e) => e matches IndexError::Codec(message) && first_parses(
                    parse_sample,
                    bytes,
                    Err(message),
                ),
            }
        }
    }
}

/// The header of the first sample of `track`, the bytes of which `first_sample` starts with.
pub fn first_header_from_sample<Q: Fn(&[u8], usize) -> Result<FrameHeader, String>>(
    track: &Av3aTrack,
    first_sample: &[u8],
    parse_sample: &Q,
) -> (r: Result<FrameHeader, IndexError>)
    requires
        forall|s: &[u8], i: usize| call_requires(parse_sample, (s, i)),
    ensures
        first_header_outcome(*track, first_sample, *parse_sample, r),
{
    if track.samples.len() == 0 {
        return Err(IndexError::NoSamples);
    }
    let size: u32 = track.samples[0].size;
    let sample_size: usize = size as usize;
    if first_sample.len() < sample_size {
        return Err(IndexError::Incomplete { got: first_sample.len(), size });
    }
    let bytes: &[u8] = &first_sample[0..sample_size];
    assert(bytes@ == first_sample@.take(size as int));
    let parsed = parse_sample(bytes, 0);
    assert(call_ensures(*parse_sample, (bytes, 0usize), parsed));
    assert(first_parses(*parse_sample, first_sample@.take(size as int), parsed));
    match parsed {
        Ok(header) => Ok(header),
        Err(message) => Err(IndexError::Codec(message)),
    }
}

/// What reading the first sample's location can give, from what the box reader gives.
pub open spec fn first_sample_outcome(
    track: Result<Av3aTrack, String>,
    r: Result<Av3aMp4Sample, IndexError>,
) -> bool {
    match track {
        Err(message) => r == Err::<Av3aMp4Sample, IndexError>(IndexError::Codec(message)),
        Ok(track) => if track.samples@.len() == 0 {
            r == Err::<Av3aMp4Sample, IndexError>(IndexError::NoSamples)
        } else if track.samples@[0].offset > MAX_SAFE_INTEGER {
            r matches Err(e) && offset_unsafe(e)
        } else {
            r == Ok::<Av3aMp4Sample, IndexError>(exported(track.samples@[0]))
        },
    }
}

/// What reading the first sample's location from `moov` can give.
pub open spec fn first_sample_read<T: Fn(&[u8]) -> Result<Av3aTrack, String>>(
    moov: &[u8],
    read_track: T,
    r: Result<Av3aMp4Sample, IndexError>,
) -> bool {
    exists|track: Result<Av3aTrack, String>| #[trigger]
        call_ensures(read_track, (moov,), track) && first_sample_outcome(track, r)
}

/// Read only the first sample's location from a complete `moov` box.
pub fn read_av3a_mp4_first_sample<T: Fn(&[u8]) -> Result<Av3aTrack, String>>(
    moov: &[u8],
    read_track: &T,
) -> (r: Result<Av3aMp4Sample, IndexError>)
    requires
        call_requires(read_track, (moov,)),
    ensures
        first_sample_read(moov, *read_track, r),
{
    let read = read_track(moov);
    assert(call_ensures(*read_track, (moov,), read));
    let ghost given = read;
    let r = match read {
        Err(message) => Err(IndexError::Codec(message)),
        Ok(track) => if track.samples.len() == 0 {
            Err(IndexError::NoSamples)
        } else {
            export_sample(&track.samples[0])
        },
    };
    assert(first_sample_outcome(given, r));
    r
}

/// What indexing a file can give, from what the box reader gives.
pub open spec fn moov_outcome<
    Q: Fn(&[u8], usize) -> Result<FrameHeader, String>,
    W: Fn(&FrameHeader) -> Result<u64, String>,
>(
    track: Result<Av3aTrack, String>,
    first_sample: &[u8],
    parse_sample: Q,
    decoder_warmup: W,
    r: Result<Av3aMp4Index, IndexError>,
) -> bool {
    match track {
        Err(message) => r == Err::<Av3aMp4Index, IndexError>(IndexError::Codec(message)),
        Ok(track) => exists|header: Result<FrameHeader, IndexError>| #[trigger]
            first_header_outcome(track, first_sample, parse_sample, header) && match header {
                Err(e) => r == Err::<Av3aMp4Index, IndexError>(e),
                Ok(header) => index_outcome(track, &header, decoder_warmup, r),
            },
    }
}

/// What indexing the file of `moov` and `first_sample` can give.
pub open spec fn moov_indexed<
    T: Fn(&[u8]) -> Result<Av3aTrack, String>,
    Q: Fn(&[u8], usize) -> Result<FrameHeader, String>,
    W: Fn(&FrameHeader) -> Result<u64, String>,
>(
    moov: &[u8],
    first_sample: &[u8],
    read_track: T,
    parse_sample: Q,
    decoder_warmup: W,
    r: Result<Av3aMp4Index, IndexError>,
) -> bool {
    exists|track: Result<Av3aTrack, String>| #[trigger]
        call_ensures(read_track, (moov,), track) && moov_outcome(
            track,
            first_sample,
            parse_sample,
            decoder_warmup,
            r,
        )
}

/// Build the full AV3A index from a complete `moov` box and its first sample.
///
/// The two buffers are intentionally independent: for a non-fast-start MP4, `moov` can be
/// fetched from the tail while the first sample is fetched from the beginning, without
/// materialising the intervening media bytes.
pub fn index_av3a_mp4_moov<
    T: Fn(&[u8]) -> Result<Av3aTrack, String>,
    Q: Fn(&[u8], usize) -> Result<FrameHeader, String>,
    W: Fn(&FrameHeader) -> Result<u64, String>,
>(
    moov: &[u8],
    first_sample: &[u8],
    read_track: &T,
    parse_sample: &Q,
    decoder_warmup: &W,
) -> (r: Result<Av3aMp4Index, IndexError>)
    requires
        call_requires(read_track, (moov,)),
        forall|s: &[u8], i: usize| call_requires(parse_sample, (s, i)),
        forall|header: &FrameHeader| call_requires(decoder_warmup, (header,)),
    ensures
        moov_indexed(moov, first_sample, *read_track, *parse_sample, *decoder_warmup, r),
{
    let read = read_track(moov);
    assert(call_ensures(*read_track, (moov,), read));
    let ghost given = read;
    let track: Av3aTrack = match read {
        Err(message) => {
            let r = Err(IndexError::Codec(message));
            assert(moov_outcome(given, first_sample, *parse_sample, *decoder_warmup, r));
            return r;
        },
        Ok(track) => track,
    };
    let first = first_header_from_sample(&track, first_sample, parse_sample);
    assert(first_header_outcome(track, first_sample, *parse_sample, first));
    let r = match first {
        Err(e) => Err(e),
        Ok(header) => build_index(&track, &header, decoder_warmup),
    };
    assert(moov_outcome(given, first_sample, *parse_sample, *decoder_warmup, r));
    r
}

/// An index lists every sample of its track, in order; its first entry is the location that
/// reading the first sample alone gives.
pub proof fn index_starts_with_first_sample<W: Fn(&FrameHeader) -> Result<u64, String>>(
    track: Av3aTrack,
    header: &FrameHeader,
    decoder_warmup: W,
    index: Av3aMp4Index,
    first: Result<Av3aMp4Sample, IndexError>,
)
    requires
        index_outcome(track, header, decoder_warmup, Ok(index)),
        first_sample_outcome(Ok(track), first),
    ensures
        index.samples@.len() == track.samples@.len() > 0,
        first == Ok::<Av3aMp4Sample, IndexError>(index.samples@[0]),
{
    assert(offsets_safe(track.samples@));
    let own = choose|own: Result<u64, String>| #[trigger]
        warmup_outcome(track, header, decoder_warmup, own, Ok(index));
    assert(track.samples@[0].offset <= MAX_SAFE_INTEGER);
}

/// An index asks for at least the preroll of the render.
pub proof fn index_covers_render_warmup<W: Fn(&FrameHeader) -> Result<u64, String>>(
    track: Av3aTrack,
    header: &FrameHeader,
    decoder_warmup: W,
    index: Av3aMp4Index,
)
    requires
        index_outcome(track, header, decoder_warmup, Ok(index)),
    ensures
        index.warmup_frames >= render::WARMUP_FRAMES,
{
}

/// Whether `read_track` succeeds, and the samples that it gives, depend on the bytes alone.
pub open spec fn reads_boxes<T: Fn(&[u8]) -> Result<Av3aTrack, String>>(read_track: T) -> bool {
    forall|s: &[u8], a: Result<Av3aTrack, String>, t: &[u8], b: Result<Av3aTrack, String>|
        s@ == t@ && #[trigger] call_ensures(read_track, (s,), a) && #[trigger] call_ensures(
            read_track,
            (t,),
            b,
        ) ==> match (a, b) {
            (Ok(x), Ok(y)) => x.samples@ == y.samples@,
            (Err(_), Err(_)) => true,
            _ => false,
        }
}

/// The samples of the index are those of the track that was read.
proof fn index_lists_track<
    Q: Fn(&[u8], usize) -> Result<FrameHeader, String>,
    W: Fn(&FrameHeader) -> Result<u64, String>,
>(
    track: Result<Av3aTrack, String>,
    first_sample: &[u8],
    parse_sample: Q,
    decoder_warmup: W,
    index: Av3aMp4Index,
)
    requires
        moov_outcome(track, first_sample, parse_sample, decoder_warmup, Ok(index)),
    ensures
        track is Ok,
        index.samples@ == track->Ok_0.samples@.map_values(|s: Mp4Sample| exported(s)),
        index.samples@.len() > 0,
        offsets_safe(track->Ok_0.samples@),
{
    let t = track->Ok_0;
    let header = choose|header: Result<FrameHeader, IndexError>| #[trigger]
        first_header_outcome(t, first_sample, parse_sample, header) && match header {
            Err(e) => Ok::<Av3aMp4Index, IndexError>(index) == Err::<Av3aMp4Index, IndexError>(e),
            Ok(header) => index_outcome(t, &header, decoder_warmup, Ok(index)),
        };
    let h = header->Ok_0;
    let own = choose|own: Result<u64, String>| #[trigger]
        warmup_outcome(t, &h, decoder_warmup, own, Ok(index));
}

/// Where a file can be indexed, reading its first sample gives the first entry of the index.
pub proof fn first_sample_is_that_of_the_index<
    T: Fn(&[u8]) -> Result<Av3aTrack, String>,
    Q: Fn(&[u8], usize) -> Result<FrameHeader, String>,
    W: Fn(&FrameHeader) -> Result<u64, String>,
>(
    moov: &[u8],
    first_sample: &[u8],
    read_track: T,
    parse_sample: Q,
    decoder_warmup: W,
    index: Av3aMp4Index,
    first: Result<Av3aMp4Sample, IndexError>,
)
    requires
        reads_boxes(read_track),
        moov_indexed(moov, first_sample, read_track, parse_sample, decoder_warmup, Ok(index)),
        first_sample_read(moov, read_track, first),
    ensures
        index.samples@.len() > 0,
        first == Ok::<Av3aMp4Sample, IndexError>(index.samples@[0]),
{
    let a = choose|a: Result<Av3aTrack, String>| #[trigger]
        call_ensures(read_track, (moov,), a) && moov_outcome(
            a,
            first_sample,
            parse_sample,
            decoder_warmup,
            Ok(index),
        );
    let b = choose|b: Result<Av3aTrack, String>| #[trigger]
        call_ensures(read_track, (moov,), b) && first_sample_outcome(b, first);
    index_lists_track(a, first_sample, parse_sample, decoder_warmup, index);
    assert(call_ensures(read_track, (moov,), a) && call_ensures(read_track, (moov,), b));
    assert(a->Ok_0.samples@ == b->Ok_0.samples@);
    assert(b->Ok_0.samples@[0].offset <= MAX_SAFE_INTEGER);
}

/// The samples of an index depend on `moov` alone: any other first sample with which the file
/// can be indexed gives the same ones.
pub proof fn samples_depend_on_moov_alone<
    T: Fn(&[u8]) -> Result<Av3aTrack, String>,
    Q: Fn(&[u8], usize) -> Result<FrameHeader, String>,
    W: Fn(&FrameHeader) -> Result<u64, String>,
>(
    moov: &[u8],
    first_sample: &[u8],
    index: Av3aMp4Index,
    other_sample: &[u8],
    other: Av3aMp4Index,
    read_track: T,
    parse_sample: Q,
    decoder_warmup: W,
)
    requires
        reads_boxes(read_track),
        moov_indexed(moov, first_sample, read_track, parse_sample, decoder_warmup, Ok(index)),
        moov_indexed(moov, other_sample, read_track, parse_sample, decoder_warmup, Ok(other)),
    ensures
        index.samples@ == other.samples@,
{
    let a = choose|a: Result<Av3aTrack, String>| #[trigger]
        call_ensures(read_track, (moov,), a) && moov_outcome(
            a,
            first_sample,
            parse_sample,
            decoder_warmup,
            Ok(index),
        );
    let b = choose|b: Result<Av3aTrack, String>| #[trigger]
        call_ensures(read_track, (moov,), b) && moov_outcome(
            b,
            other_sample,
            parse_sample,
            decoder_warmup,
            Ok(other),
        );
    index_lists_track(a, first_sample, parse_sample, decoder_warmup, index);
    index_lists_track(b, other_sample, parse_sample, decoder_warmup, other);
    assert(call_ensures(read_track, (moov,), a) && call_ensures(read_track, (moov,), b));
}

/// The index tells where the samples lie: entry `i` has the offset and the size of sample `i`.
pub open spec fn lists_samples(entries: Seq<Av3aMp4Sample>, samples: Seq<Mp4Sample>) -> bool {
    &&& entries.len() == samples.len()
    &&& forall|i: int|
        0 <= i < samples.len() ==> {
            &&& (#[trigger] entries[i]).offset == samples[i].offset
            &&& entries[i].size == samples[i].size
        }
}

/// A track whose samples can be played and located: it has samples, is channel-based and stereo
/// or 7.1.4, leaves its timeline as it is, and every offset is at most `2^53 - 1`.
pub open spec fn is_indexable(track: Av3aTrack, header: FrameHeader) -> bool {
    &&& track.samples@.len() > 0
    &&& header.profile is ChannelBased
    &&& header.channel_config == Some(ChannelConfig::Stereo) || header.channel_config == Some(
        ChannelConfig::Mc7_1_4,
    )
    &&& forall|i: int|
        0 <= i < track.identity_edits@.len() ==> #[trigger] track.identity_edits@[i]
    &&& forall|i: int|
        0 <= i < track.samples@.len() ==> (#[trigger] track.samples@[i]).offset
            <= 9_007_199_254_740_991
}

/// An index locates every sample of its track as the track does, and gives the rate and the
/// frame length of the first header. Its warm-up is one frame more than the decoder's own. Only
/// an indexable track has an index.
pub proof fn index_locates_every_sample<W: Fn(&FrameHeader) -> Result<u64, String>>(
    track: Av3aTrack,
    header: &FrameHeader,
    decoder_warmup: W,
    index: Av3aMp4Index,
)
    requires
        index_outcome(track, header, decoder_warmup, Ok(index)),
    ensures
        is_indexable(track, *header),
        lists_samples(index.samples@, track.samples@),
        index.sample_rate == header.sample_rate,
        index.samples_per_frame == header.samples_per_channel,
        exists|own: u64| #[trigger]
            call_ensures(decoder_warmup, (header,), Ok(own)) && index.warmup_frames == own + 1,
{
    let own = choose|own: Result<u64, String>| #[trigger]
        warmup_outcome(track, header, decoder_warmup, own, Ok(index));
    assert(offsets_safe(track.samples@));
    assert(call_ensures(decoder_warmup, (header,), Ok(own->Ok_0)));
    assert forall|i: int| 0 <= i < track.samples@.len() implies (#[trigger] index.samples@[i]).offset
        == track.samples@[i].offset && index.samples@[i].size == track.samples@[i].size by {
        assert(index.samples@[i] == exported(track.samples@[i]));
    }
}

/// An indexable track is indexed, whatever warm-up the decoder asks for, as long as it fits its
/// field.
pub proof fn indexable_track_is_indexed<W: Fn(&FrameHeader) -> Result<u64, String>>(
    track: Av3aTrack,
    header: &FrameHeader,
    decoder_warmup: W,
    r: Result<Av3aMp4Index, IndexError>,
)
    requires
        is_indexable(track, *header),
        index_outcome(track, header, decoder_warmup, r),
        forall|own: Result<u64, String>| #[trigger]
            call_ensures(decoder_warmup, (header,), own) ==> own is Ok && own->Ok_0 < u32::MAX,
    ensures
        r is Ok,
{
    assert(offsets_safe(track.samples@));
    let own = choose|own: Result<u64, String>| #[trigger]
        warmup_outcome(track, header, decoder_warmup, own, r);
    assert(call_ensures(decoder_warmup, (header,), own));
}

/// Why a track has no index: each error comes of what it names, and the first that applies is
/// the one that is reported.
pub proof fn unindexable_track_is_refused<W: Fn(&FrameHeader) -> Result<u64, String>>(
    track: Av3aTrack,
    header: &FrameHeader,
    decoder_warmup: W,
    r: Result<Av3aMp4Index, IndexError>,
)
    requires
        index_outcome(track, header, decoder_warmup, r),
    ensures
        match r {
            Ok(_) => true,
            Err(IndexError::NoSamples) => track.samples@.len() == 0,
            Err(IndexError::Format(FormatError::Profile(name))) => {
                &&& track.samples@.len() > 0
                &&& header.profile matches CodecProfile::Other(n) && n == name
            },
            Err(IndexError::Format(FormatError::NoConfiguration)) => {
                &&& track.samples@.len() > 0
                &&& header.profile is ChannelBased && header.channel_config is None
            },
            Err(IndexError::Format(FormatError::Layout(config))) => {
                &&& track.samples@.len() > 0
                &&& header.profile is ChannelBased && header.channel_config == Some(config)
                &&& config != ChannelConfig::Stereo && config != ChannelConfig::Mc7_1_4
            },
            Err(IndexError::EditList) => {
                &&& track.samples@.len() > 0
                &&& header.profile is ChannelBased
                &&& header.channel_config == Some(ChannelConfig::Stereo) || header.channel_config
                    == Some(ChannelConfig::Mc7_1_4)
                &&& exists|i: int|
                    0 <= i < track.identity_edits@.len() && !#[trigger] track.identity_edits@[i]
            },
            Err(IndexError::UnsafeInteger(name)) => {
                &&& track.samples@.len() > 0
                &&& header.profile is ChannelBased
                &&& header.channel_config == Some(ChannelConfig::Stereo) || header.channel_config
                    == Some(ChannelConfig::Mc7_1_4)
                &&& forall|i: int|
                    0 <= i < track.identity_edits@.len() ==> #[trigger] track.identity_edits@[i]
                &&& name@ == "AV3A sample offset"@
                &&& exists|i: int|
                    0 <= i < track.samples@.len() && (#[trigger] track.samples@[i]).offset
                        > 9_007_199_254_740_991
            },
            Err(IndexError::WarmupOverflow) => is_indexable(track, *header) && exists|own: u64|
                #[trigger] call_ensures(decoder_warmup, (header,), Ok(own)) && own >= u32::MAX,
            Err(IndexError::Codec(message)) => is_indexable(track, *header) && call_ensures(
                decoder_warmup,
                (header,),
                Err(message),
            ),
            Err(IndexError::Incomplete { .. }) => false,
        },
        track.samples@.len() == 0 ==> r == Err::<Av3aMp4Index, IndexError>(IndexError::NoSamples),
{
    if track_fault(track, *header) is None && offsets_safe(track.samples@) {
        let own = choose|own: Result<u64, String>| #[trigger]
            warmup_outcome(track, header, decoder_warmup, own, r);
        assert(call_ensures(decoder_warmup, (header,), own));
        if own is Ok {
            assert(call_ensures(decoder_warmup, (header,), Ok(own->Ok_0)));
        }
    }
}

/// The location of the first sample is that of the track's first sample: its offset and its size.
/// It is given wherever the track has a sample whose offset is at most `2^53 - 1`.
pub proof fn first_sample_is_located(
    track: Result<Av3aTrack, String>,
    r: Result<Av3aMp4Sample, IndexError>,
)
    requires
        first_sample_outcome(track, r),
    ensures
        match track {
            Err(message) => r == Err::<Av3aMp4Sample, IndexError>(IndexError::Codec(message)),
            Ok(track) => {
                &&& track.samples@.len() == 0 ==> r == Err::<Av3aMp4Sample, IndexError>(
                    IndexError::NoSamples,
                )
                &&& track.samples@.len() > 0 && track.samples@[0].offset <= 9_007_199_254_740_991
                    ==> {
                    &&& r is Ok
                    &&& r->Ok_0.offset == track.samples@[0].offset
                    &&& r->Ok_0.size == track.samples@[0].size
                }
                &&& track.samples@.len() > 0 && track.samples@[0].offset > 9_007_199_254_740_991
                    ==> (r matches Err(IndexError::UnsafeInteger(name)) && name@
                    == "AV3A sample offset"@)
            },
        },
{
}

/// The first header is parsed from the bytes of the first sample alone: as many as the track
/// declares, from the start of what was handed in. Bytes that follow them play no part; where
/// there are too few, how many there are and how many it takes is reported.
pub proof fn first_header_is_parsed_from_the_first_sample<
    Q: Fn(&[u8], usize) -> Result<FrameHeader, String>,
>(
    track: Av3aTrack,
    first_sample: &[u8],
    parse_sample: Q,
    r: Result<FrameHeader, IndexError>,
)
    requires
        first_header_outcome(track, first_sample, parse_sample, r),
    ensures
        track.samples@.len() == 0 ==> r == Err::<FrameHeader, IndexError>(IndexError::NoSamples),
        track.samples@.len() > 0 ==> {
            let size = track.samples@[0].size;
            if first_sample@.len() < size {
                r matches Err(IndexError::Incomplete { got, size: declared }) && got
                    == first_sample@.len() && declared == size
            } else {
                let bytes = first_sample@.subrange(0, size as int);
                match r {
                    Ok(header) => exists|s: &[u8]|
                        s@ == bytes && #[trigger] call_ensures(
                            parse_sample,
                            (s, 0usize),
                            Ok(header),
                        ),
                    Err(IndexError::Codec(message)) => exists|s: &[u8]|
                        s@ == bytes && #[trigger] call_ensures(
                            parse_sample,
                            (s, 0usize),
                            Err(message),
                        ),
                    Err(_) => false,
                }
            }
        },
{
    if track.samples@.len() > 0 && first_sample@.len() >= track.samples@[0].size {
        assert(first_sample.len() == first_sample@.len());
        let size = track.samples@[0].size;
        let bytes = first_sample@.take(size as int);
        let result: Result<FrameHeader, String> = match r {
            Ok(header) => Ok(header),
            Err(e) => Err(e->Codec_0),
        };
        assert(first_parses(parse_sample, bytes, result));
        let s = choose|s: &[u8]|
            s@ == bytes && #[trigger] call_ensures(parse_sample, (s, 0usize), result);
        assert(s@ == first_sample@.subrange(0, size as int));
        if r is Ok {
            assert(call_ensures(parse_sample, (s, 0usize), Ok(r->Ok_0)));
        } else {
            assert(call_ensures(parse_sample, (s, 0usize), Err(r->Err_0->Codec_0)));
        }
    } else {
        assert(first_sample.len() == first_sample@.len());
    }
}

/// `read_track` found `track` in `moov`, and `header` is that of its first sample.
pub open spec fn file_holds<
    T: Fn(&[u8]) -> Result<Av3aTrack, String>,
    Q: Fn(&[u8], usize) -> Result<FrameHeader, String>,
>(
    moov: &[u8],
    first_sample: &[u8],
    read_track: T,
    parse_sample: Q,
    track: Av3aTrack,
    header: FrameHeader,
) -> bool {
    &&& call_ensures(read_track, (moov,), Ok(track))
    &&& first_header_outcome(track, first_sample, parse_sample, Ok(header))
}

/// The index of a file locates the samples of the track that its `moov` box holds, at the rate
/// and frame length that the header of the first sample gives.
pub proof fn file_index_locates_every_sample<
    T: Fn(&[u8]) -> Result<Av3aTrack, String>,
    Q: Fn(&[u8], usize) -> Result<FrameHeader, String>,
    W: Fn(&FrameHeader) -> Result<u64, String>,
>(
    moov: &[u8],
    first_sample: &[u8],
    read_track: T,
    parse_sample: Q,
    decoder_warmup: W,
    index: Av3aMp4Index,
)
    requires
        moov_indexed(moov, first_sample, read_track, parse_sample, decoder_warmup, Ok(index)),
    ensures
        exists|track: Av3aTrack, header: FrameHeader|
            {
                &&& #[trigger] file_holds(
                    moov,
                    first_sample,
                    read_track,
                    parse_sample,
                    track,
                    header,
                )
                &&& lists_samples(index.samples@, track.samples@)
                &&& index.sample_rate == header.sample_rate
                &&& index.samples_per_frame == header.samples_per_channel
            },
{
    let read = choose|read: Result<Av3aTrack, String>| #[trigger]
        call_ensures(read_track, (moov,), read) && moov_outcome(
            read,
            first_sample,
            parse_sample,
            decoder_warmup,
            Ok(index),
        );
    let track = read->Ok_0;
    let first = choose|first: Result<FrameHeader, IndexError>| #[trigger]
        first_header_outcome(track, first_sample, parse_sample, first) && match first {
            Err(e) => Ok::<Av3aMp4Index, IndexError>(index) == Err::<Av3aMp4Index, IndexError>(e),
            Ok(header) => index_outcome(track, &header, decoder_warmup, Ok(index)),
        };
    let header = first->Ok_0;
    index_locates_every_sample(track, &header, decoder_warmup, index);
    assert(call_ensures(read_track, (moov,), Ok(track)));
    assert(file_holds(moov, first_sample, read_track, parse_sample, track, header));
}

/// A file of which everything can be read is indexed: its `moov` box holds a track with samples,
/// enough of the first sample is there and parses, the track is indexable, and the decoder's
/// warm-up fits.
pub proof fn readable_file_is_indexed<
    T: Fn(&[u8]) -> Result<Av3aTrack, String>,
    Q: Fn(&[u8], usize) -> Result<FrameHeader, String>,
    W: Fn(&FrameHeader) -> Result<u64, String>,
>(
    moov: &[u8],
    first_sample: &[u8],
    read_track: T,
    parse_sample: Q,
    decoder_warmup: W,
    r: Result<Av3aMp4Index, IndexError>,
)
    requires
        moov_indexed(moov, first_sample, read_track, parse_sample, decoder_warmup, r),
        forall|read: Result<Av3aTrack, String>| #[trigger]
            call_ensures(read_track, (moov,), read) ==> read is Ok && read->Ok_0.samples@.len() > 0
                && read->Ok_0.samples@[0].size <= first_sample@.len(),
        forall|s: &[u8], parsed: Result<FrameHeader, String>| #[trigger]
            call_ensures(parse_sample, (s, 0usize), parsed) ==> parsed is Ok,
        forall|track: Av3aTrack, header: FrameHeader| #[trigger]
            file_holds(moov, first_sample, read_track, parse_sample, track, header)
                ==> is_indexable(track, header),
        forall|header: &FrameHeader, own: Result<u64, String>| #[trigger]
            call_ensures(decoder_warmup, (header,), own) ==> own is Ok && own->Ok_0 < u32::MAX,
    ensures
        r is Ok,
{
    let read = choose|read: Result<Av3aTrack, String>| #[trigger]
        call_ensures(read_track, (moov,), read) && moov_outcome(
            read,
            first_sample,
            parse_sample,
            decoder_warmup,
            r,
        );
    let track = read->Ok_0;
    let first = choose|first: Result<FrameHeader, IndexError>| #[trigger]
        first_header_outcome(track, first_sample, parse_sample, first) && match first {
            Err(e) => r == Err::<Av3aMp4Index, IndexError>(e),
            Ok(header) => index_outcome(track, &header, decoder_warmup, r),
        };
    first_header_is_parsed_from_the_first_sample(track, first_sample, parse_sample, first);
    let header = first->Ok_0;
    assert(call_ensures(read_track, (moov,), Ok(track)));
    assert(file_holds(moov, first_sample, read_track, parse_sample, track, header));
    indexable_track_is_indexed(track, &header, decoder_warmup, r);
}

/// What is said of a track that cannot be indexed.
pub proof fn index_faults_are_said(format: FormatError, name: String, got: usize, size: u32)
    ensures
        IndexError::NoSamples.text() == "AV3A MP4 track has no samples"@,
        IndexError::Format(format).text() == format.text(),
        IndexError::EditList.text() == "AV3A MP4 carries an unsupported non-identity edit list"@,
        IndexError::UnsafeInteger(name).text() == name@
            + " is outside the JavaScript safe integer range"@,
        IndexError::WarmupOverflow.text() == "AV3A warm-up frame count overflow"@,
        (IndexError::Incomplete { got, size }).text() == "AV3A first sample is incomplete: got "@
            + text::decimal(got as nat) + " of "@ + text::decimal(size as nat) + " bytes"@,
        IndexError::Codec(name).text() == name@,
{
}

} // verus!
