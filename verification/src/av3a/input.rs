//! Splitting a batch of coded bytes into frames.
use crate::text;
use vstd::prelude::*;

verus! {

/// Why a batch cannot be split into frames.
#[derive(Debug, Clone)]
pub enum InputError {
    /// A sample of no bytes.
    Empty { index: usize },
    /// The end of a sample exceeds what can be addressed.
    RangeOverflow { index: usize },
    /// A sample that ends past the input.
    PastEnd { end: usize, len: usize },
    /// Bytes of the input that no sample covers.
    Uncovered { covered: usize, len: usize },
    /// What the framing parser reported.
    Framing(String),
}

impl InputError {
    /// The text that reports the error.
    pub open spec fn text(&self) -> Seq<char> {
        match self {
            InputError::Empty { index } => "AV3A sample "@ + text::decimal(*index as nat)
                + " is empty"@,
            InputError::RangeOverflow { index } => "AV3A sample "@ + text::decimal(*index as nat)
                + " range overflows usize"@,
            InputError::PastEnd { end, len } => "AV3A sample batch ends at "@ + text::decimal(
                *end as nat,
            ) + ", but input has only "@ + text::decimal(*len as nat) + " bytes"@,
            InputError::Uncovered { covered, len } => "AV3A sample sizes cover "@
                + text::decimal(*covered as nat) + " bytes, but input has "@ + text::decimal(
                *len as nat,
            ),
            InputError::Framing(message) => message@,
        }
    }

    /// Renders [`InputError::text`].
    pub fn message(&self) -> (r: String)
        ensures
            r@ == self.text(),
    {
        match self {
            InputError::Empty { index } => "AV3A sample ".to_owned().concat(
                text::decimal_text(*index as u128).as_str(),
            ).concat(" is empty"),
            InputError::RangeOverflow { index } => "AV3A sample ".to_owned().concat(
                text::decimal_text(*index as u128).as_str(),
            ).concat(" range overflows usize"),
            InputError::PastEnd { end, len } => "AV3A sample batch ends at ".to_owned().concat(
                text::decimal_text(*end as u128).as_str(),
            ).concat(", but input has only ").concat(
                text::decimal_text(*len as u128).as_str(),
            ).concat(" bytes"),
            InputError::Uncovered { covered, len } => "AV3A sample sizes cover ".to_owned().concat(
                text::decimal_text(*covered as u128).as_str(),
            ).concat(" bytes, but input has ").concat(
                text::decimal_text(*len as u128).as_str(),
            ),
            InputError::Framing(message) => message.clone(),
        }
    }
}

/// Where the sample at `index` starts: the sum of the sizes before it.
pub open spec fn offset_of(sizes: Seq<u32>, index: int) -> nat
    decreases index,
{
    if index <= 0 {
        0
    } else {
        offset_of(sizes, index - 1) + sizes[index - 1] as nat
    }
}

/// The bytes of the sample at `index`.
pub open spec fn sample_at(input: Seq<u8>, sizes: Seq<u32>, index: int) -> Seq<u8> {
    input.subrange(offset_of(sizes, index) as int, offset_of(sizes, index + 1) as int)
}

/// What is wrong with the size of the sample at `index`, if anything is.
pub open spec fn size_fault(len: usize, sizes: Seq<u32>, index: int) -> Option<InputError> {
    let end = offset_of(sizes, index + 1);
    if sizes[index] == 0 {
        Some(InputError::Empty { index: index as usize })
    } else if end > usize::MAX {
        Some(InputError::RangeOverflow { index: index as usize })
    } else if end > len {
        Some(InputError::PastEnd { end: end as usize, len })
    } else {
        None
    }
}

/// `parse_sample`, given `bytes` and `index`, can give `result`.
pub open spec fn sample_parses<F, Q: Fn(&[u8], usize) -> Result<F, String>>(
    parse_sample: Q,
    bytes: Seq<u8>,
    index: int,
    result: Result<F, String>,
) -> bool {
    exists|s: &[u8]| s@ == bytes && #[trigger] call_ensures(
        parse_sample,
        (s, index as usize),
        result,
    )
}

/// The size of the sample at `index` is sound, and parsing the sample can give `frame`.
pub open spec fn frame_from_sample<F, Q: Fn(&[u8], usize) -> Result<F, String>>(
    input: &[u8],
    sizes: Seq<u32>,
    parse_sample: Q,
    index: int,
    frame: F,
) -> bool {
    &&& size_fault(input.len(), sizes, index) is None
    &&& sample_parses(parse_sample, sample_at(input@, sizes, index), index, Ok(frame))
}

/// `frames` come from the first samples of the batch, each parsed on its own.
pub open spec fn frames_from_samples<F, Q: Fn(&[u8], usize) -> Result<F, String>>(
    input: &[u8],
    sizes: Seq<u32>,
    parse_sample: Q,
    frames: Seq<F>,
) -> bool {
    &&& frames.len() <= sizes.len()
    &&& forall|i: int|
        0 <= i < frames.len() ==> frame_from_sample(
            input,
            sizes,
            parse_sample,
            i,
            #[trigger] frames[i],
        )
}

/// The batch fails with `error` after its first samples gave `frames`: on the size of the next
/// sample, on parsing it, or because the samples do not cover the input.
pub open spec fn sample_failure<F, Q: Fn(&[u8], usize) -> Result<F, String>>(
    input: &[u8],
    sizes: Seq<u32>,
    parse_sample: Q,
    frames: Seq<F>,
    error: InputError,
) -> bool {
    let i = frames.len() as int;
    &&& frames_from_samples(input, sizes, parse_sample, frames)
    &&& if i == sizes.len() {
        &&& offset_of(sizes, i) != input.len()
        &&& error == InputError::Uncovered {
            covered: offset_of(sizes, i) as usize,
            len: input.len(),
        }
    } else {
        match size_fault(input.len(), sizes, i) {
            Some(fault) => error == fault,
            None => error matches InputError::Framing(message) && sample_parses(
                parse_sample,
                sample_at(input@, sizes, i),
                i,
                Err(message),
            ),
        }
    }
}

/// The batch fails with `error` at some sample, or at its end.
pub open spec fn samples_fail<F, Q: Fn(&[u8], usize) -> Result<F, String>>(
    input: &[u8],
    sizes: Seq<u32>,
    parse_sample: Q,
    error: InputError,
) -> bool {
    exists|frames: Seq<F>| #[trigger] sample_failure(input, sizes, parse_sample, frames, error)
}

/// What splitting a batch can give: without sizes what `parse_frames` gives, with sizes one
/// frame for each sample.
pub open spec fn batch_parses<
    F,
    P: Fn(&[u8]) -> Result<Vec<F>, String>,
    Q: Fn(&[u8], usize) -> Result<F, String>,
>(
    input: &[u8],
    sizes: Option<&[u32]>,
    parse_frames: P,
    parse_sample: Q,
    result: Result<Vec<F>, InputError>,
) -> bool {
    match sizes {
        None => match result {
            Ok(frames) => call_ensures(parse_frames, (input,), Ok(frames)),
            Err(error) => error matches InputError::Framing(message) && call_ensures(
                parse_frames,
                (input,),
                Err(message),
            ),
        },
        Some(sizes) => match result {
            Ok(frames) => {
                &&& frames@.len() == sizes@.len()
                &&& frames_from_samples(input, sizes@, parse_sample, frames@)
                &&& offset_of(sizes@, sizes@.len() as int) == input.len()
            },
            Err(error) => samples_fail(input, sizes@, parse_sample, error),
        },
    }
}

/// Parse either a normal elementary-stream batch or a batch made from MP4 samples.
///
/// MP4 sample sizes may include muxer padding; parsing each sample independently lets the
/// framing parser discard that padding instead of treating it as the start of another frame.
pub fn parse_input_frames<
    F,
    P: Fn(&[u8]) -> Result<Vec<F>, String>,
    Q: Fn(&[u8], usize) -> Result<F, String>,
>(input: &[u8], sample_sizes: Option<&[u32]>, parse_frames: &P, parse_sample: &Q) -> (r: Result<
    Vec<F>,
    InputError,
>)
    requires
        call_requires(parse_frames, (input,)),
        forall|s: &[u8], i: usize| call_requires(parse_sample, (s, i)),
    ensures
        batch_parses(input, sample_sizes, *parse_frames, *parse_sample, r),
{
    let sizes: &[u32] = match sample_sizes {
        None => {
            return match parse_frames(input) {
                Ok(frames) => Ok(frames),
                Err(message) => Err(InputError::Framing(message)),
            };
        },
        Some(sizes) => sizes,
    };
    let mut frames: Vec<F> = Vec::new();
    let mut offset: usize = 0;
    let mut index: usize = 0;
    while index < sizes.len()
        invariant
            sample_sizes == Some(sizes),
            forall|s: &[u8], i: usize| call_requires(parse_sample, (s, i)),
            index <= sizes@.len(),
            frames@.len() == index,
            offset == offset_of(sizes@, index as int),
            offset <= input.len(),
            frames_from_samples(input, sizes@, *parse_sample, frames@),
        decreases sizes@.len() - index,
    {
        let size: usize = sizes[index] as usize;
        assert(offset_of(sizes@, index + 1) == offset + size);
        if size == 0 {
            let e = InputError::Empty { index };
            assert(sample_failure(input, sizes@, *parse_sample, frames@, e));
            assert(samples_fail::<F, Q>(input, sizes@, *parse_sample, e));
            return Err(e);
        }
        let end: usize = match offset.checked_add(size) {
            Some(end) => end,
            None => {
                let e = InputError::RangeOverflow { index };
                assert(sample_failure(input, sizes@, *parse_sample, frames@, e));
                assert(samples_fail::<F, Q>(input, sizes@, *parse_sample, e));
                return Err(e);
            },
        };
        if end > input.len() {
            let e = InputError::PastEnd { end, len: input.len() };
            assert(sample_failure(input, sizes@, *parse_sample, frames@, e));
            assert(samples_fail::<F, Q>(input, sizes@, *parse_sample, e));
            return Err(e);
        }
        let sample: &[u8] = &input[offset..end];
        assert(sample@ == sample_at(input@, sizes@, index as int));
        let ghost before = frames@;
        let parsed = parse_sample(sample, index);
        assert(call_ensures(*parse_sample, (sample, index as int as usize), parsed));
        assert(sample_parses(
            *parse_sample,
            sample_at(input@, sizes@, index as int),
            index as int,
            parsed,
        ));
        match parsed {
            Ok(frame) => {
                frames.push(frame);
                assert(frame_from_sample(input, sizes@, *parse_sample, index as int, frame));
                assert forall|i: int| 0 <= i < frames@.len() implies frame_from_sample(
                    input,
                    sizes@,
                    *parse_sample,
                    i,
                    #[trigger] frames@[i],
                ) by {
                    if i < index {
                        assert(frames@[i] == before[i]);
                    }
                }
            },
            Err(message) => {
                let e = InputError::Framing(message);
                assert(sample_failure(input, sizes@, *parse_sample, frames@, e));
                assert(samples_fail::<F, Q>(input, sizes@, *parse_sample, e));
                return Err(e);
            },
        }
        offset = end;
        index += 1;
    }
    if offset != input.len() {
        let e = InputError::Uncovered { covered: offset, len: input.len() };
        assert(sample_failure(input, sizes@, *parse_sample, frames@, e));
        assert(samples_fail::<F, Q>(input, sizes@, *parse_sample, e));
        return Err(e);
    }
    Ok(frames)
}

/// The bytes of the first `count` samples, one after the other.
pub open spec fn samples_joined(input: Seq<u8>, sizes: Seq<u32>, count: int) -> Seq<u8>
    decreases count,
{
    if count <= 0 {
        Seq::empty()
    } else {
        samples_joined(input, sizes, count - 1) + sample_at(input, sizes, count - 1)
    }
}

proof fn offsets_grow(sizes: Seq<u32>, a: int, b: int)
    requires
        a <= b,
    ensures
        offset_of(sizes, a) <= offset_of(sizes, b),
    decreases b - a,
{
    if a < b {
        offsets_grow(sizes, a, b - 1);
    }
}

proof fn joined_prefix(input: Seq<u8>, sizes: Seq<u32>, count: int)
    requires
        0 <= count <= sizes.len(),
        offset_of(sizes, sizes.len() as int) <= input.len(),
    ensures
        samples_joined(input, sizes, count) == input.take(offset_of(sizes, count) as int),
    decreases count,
{
    if count > 0 {
        joined_prefix(input, sizes, count - 1);
        offsets_grow(sizes, count, sizes.len() as int);
        assert(samples_joined(input, sizes, count) =~= input.take(
            offset_of(sizes, count) as int,
        ));
    } else {
        assert(samples_joined(input, sizes, count) =~= input.take(0));
    }
}

/// A batch whose sizes add up to its length is split without loss: the samples, joined in
/// order, are the input.
pub proof fn samples_cover_input(input: Seq<u8>, sizes: Seq<u32>)
    requires
        offset_of(sizes, sizes.len() as int) == input.len(),
    ensures
        samples_joined(input, sizes, sizes.len() as int) == input,
{
    joined_prefix(input, sizes, sizes.len() as int);
    assert(input.take(input.len() as int) =~= input);
}

/// The frame that `parse_sample` gives depends on the bytes alone.
pub open spec fn reads_bytes<F, Q: Fn(&[u8], usize) -> Result<F, String>>(parse_sample: Q) -> bool {
    forall|s: &[u8], i: usize, f: F, t: &[u8], j: usize, g: F|
        s@ == t@ && #[trigger] call_ensures(parse_sample, (s, i), Ok::<F, String>(f))
            && #[trigger] call_ensures(parse_sample, (t, j), Ok::<F, String>(g)) ==> f == g
}

proof fn offsets_of_first(a: Seq<u32>, b: Seq<u32>, i: int)
    requires
        i <= a.len(),
    ensures
        offset_of(a + b, i) == offset_of(a, i),
    decreases i,
{
    if i > 0 {
        offsets_of_first(a, b, i - 1);
    }
}

proof fn offsets_of_second(a: Seq<u32>, b: Seq<u32>, i: int)
    requires
        0 <= i <= b.len(),
    ensures
        offset_of(a + b, a.len() + i) == offset_of(a, a.len() as int) + offset_of(b, i),
    decreases i,
{
    if i > 0 {
        offsets_of_second(a, b, i - 1);
        assert((a + b)[a.len() + i - 1] == b[i - 1]);
    } else {
        offsets_of_first(a, b, a.len() as int);
    }
}

/// The sample at `i` of one batch and that at `j` of another, with the same bytes, are the same
/// frame.
proof fn same_bytes_same_frame<F, Q: Fn(&[u8], usize) -> Result<F, String>>(
    parse_sample: Q,
    bytes: Seq<u8>,
    i: int,
    f: F,
    j: int,
    g: F,
)
    requires
        reads_bytes::<F, Q>(parse_sample),
        sample_parses(parse_sample, bytes, i, Ok(f)),
        sample_parses(parse_sample, bytes, j, Ok(g)),
    ensures
        f == g,
{
    let s = choose|s: &[u8]| s@ == bytes && #[trigger] call_ensures(
        parse_sample,
        (s, i as usize),
        Ok::<F, String>(f),
    );
    let t = choose|t: &[u8]| t@ == bytes && #[trigger] call_ensures(
        parse_sample,
        (t, j as usize),
        Ok::<F, String>(g),
    );
    assert(call_ensures(parse_sample, (s, i as usize), Ok::<F, String>(f)));
    assert(call_ensures(parse_sample, (t, j as usize), Ok::<F, String>(g)));
}

/// Two batches that follow each other split into the frames of both, whether they are split one
/// after the other or at once.
pub proof fn batches_split_alike<
    F,
    P: Fn(&[u8]) -> Result<Vec<F>, String>,
    Q: Fn(&[u8], usize) -> Result<F, String>,
>(
    parse_frames: P,
    parse_sample: Q,
    a: &[u8],
    a_sizes: &[u32],
    a_frames: Vec<F>,
    b: &[u8],
    b_sizes: &[u32],
    b_frames: Vec<F>,
    both: &[u8],
    both_sizes: &[u32],
    frames: Vec<F>,
)
    requires
        reads_bytes::<F, Q>(parse_sample),
        both@ == a@ + b@,
        both_sizes@ == a_sizes@ + b_sizes@,
        batch_parses(a, Some(a_sizes), parse_frames, parse_sample, Ok(a_frames)),
        batch_parses(b, Some(b_sizes), parse_frames, parse_sample, Ok(b_frames)),
        batch_parses(both, Some(both_sizes), parse_frames, parse_sample, Ok(frames)),
    ensures
        frames@ == a_frames@ + b_frames@,
{
    let (sa, sb, m) = (a_sizes@, b_sizes@, a_sizes@.len() as int);
    assert(a.len() == a@.len() && b.len() == b@.len() && both.len() == both@.len());
    assert forall|i: int| 0 <= i < frames@.len() implies frames@[i] == (a_frames@ + b_frames@)[i] by {
        assert(frame_from_sample(both, both_sizes@, parse_sample, i, frames@[i]));
        if i < m {
            offsets_of_first(sa, sb, i);
            offsets_of_first(sa, sb, i + 1);
            offsets_grow(sa, i + 1, m);
            assert(frame_from_sample(a, sa, parse_sample, i, a_frames@[i]));
            assert(sample_at(both@, both_sizes@, i) =~= sample_at(a@, sa, i));
            same_bytes_same_frame(
                parse_sample,
                sample_at(a@, sa, i),
                i,
                frames@[i],
                i,
                a_frames@[i],
            );
        } else {
            let k = i - m;
            offsets_of_second(sa, sb, k);
            offsets_of_second(sa, sb, k + 1);
            offsets_grow(sb, k + 1, sb.len() as int);
            assert(frame_from_sample(b, sb, parse_sample, k, b_frames@[k]));
            assert(sample_at(both@, both_sizes@, i) =~= sample_at(b@, sb, k));
            same_bytes_same_frame(
                parse_sample,
                sample_at(b@, sb, k),
                i,
                frames@[i],
                k,
                b_frames@[k],
            );
        }
    }
    assert(frames@ =~= a_frames@ + b_frames@);
}

/// Where each sample of a batch starts, and where the last one ends: the first at zero, each
/// other one where the one before it ends.
pub open spec fn are_offsets(offsets: Seq<nat>, sizes: Seq<u32>) -> bool {
    &&& offsets.len() == sizes.len() + 1
    &&& offsets[0] == 0
    &&& forall|i: int|
        0 <= i < sizes.len() ==> #[trigger] offsets[i + 1] == offsets[i] + sizes[i]
}

proof fn offsets_are_sums(offsets: Seq<nat>, sizes: Seq<u32>, i: int)
    requires
        are_offsets(offsets, sizes),
        0 <= i <= sizes.len(),
    ensures
        offsets[i] == offset_of(sizes, i),
    decreases i,
{
    if i > 0 {
        offsets_are_sums(offsets, sizes, i - 1);
        assert(offsets[(i - 1) + 1] == offsets[i - 1] + sizes[i - 1]);
    }
}

/// `parse_sample` gave `result` for the bytes of `input` from `start` to `end`, as sample `index`.
pub open spec fn parsed_from<F, Q: Fn(&[u8], usize) -> Result<F, String>>(
    parse_sample: Q,
    input: Seq<u8>,
    start: nat,
    end: nat,
    index: usize,
    result: Result<F, String>,
) -> bool {
    exists|s: &[u8]|
        s@ == input.subrange(start as int, end as int) && #[trigger] call_ensures(
            parse_sample,
            (s, index),
            result,
        )
}

/// Each sample is parsed from its own bytes: frame `i` comes from the bytes between the offsets
/// `i` and `i + 1`, and all frames together from all of the input. A batch fails where a sample
/// is empty, where one ends past the input, where parsing one fails, or where bytes are left
/// over, and not otherwise.
pub proof fn samples_are_parsed_in_place<
    F,
    P: Fn(&[u8]) -> Result<Vec<F>, String>,
    Q: Fn(&[u8], usize) -> Result<F, String>,
>(
    input: &[u8],
    sizes: &[u32],
    offsets: Seq<nat>,
    parse_frames: P,
    parse_sample: Q,
    r: Result<Vec<F>, InputError>,
)
    requires
        batch_parses(input, Some(sizes), parse_frames, parse_sample, r),
        are_offsets(offsets, sizes@),
    ensures
        match r {
            Ok(frames) => {
                &&& frames@.len() == sizes@.len()
                &&& offsets.last() == input@.len()
                &&& forall|i: int| 0 <= i < sizes@.len() ==> #[trigger] sizes@[i] > 0
                &&& forall|i: int|
                    0 <= i < frames@.len() ==> parsed_from(
                        parse_sample,
                        input@,
                        offsets[i],
                        offsets[i + 1],
                        i as usize,
                        Ok(#[trigger] frames@[i]),
                    )
            },
            Err(InputError::Empty { index }) => {
                &&& index < sizes@.len()
                &&& sizes@[index as int] == 0
                &&& offsets[index as int] <= input@.len()
                &&& forall|i: int| 0 <= i < index ==> #[trigger] sizes@[i] > 0
            },
            Err(InputError::RangeOverflow { index }) => {
                &&& index < sizes@.len()
                &&& offsets[index + 1] > usize::MAX
            },
            Err(InputError::PastEnd { end, len }) => {
                &&& len == input@.len()
                &&& end > len
                &&& exists|i: int|
                    0 <= i < sizes@.len() && offsets[i] <= len && #[trigger] offsets[i + 1] == end
            },
            Err(InputError::Uncovered { covered, len }) => {
                &&& len == input@.len()
                &&& covered == offsets.last()
                &&& covered < len
            },
            Err(InputError::Framing(message)) => exists|i: int|
                0 <= i < sizes@.len() && offsets[i + 1] <= input@.len() && #[trigger] parsed_from(
                    parse_sample,
                    input@,
                    offsets[i],
                    offsets[i + 1],
                    i as usize,
                    Err::<F, String>(message),
                ),
        },
        offsets.last() == input@.len() && (forall|i: int|
            0 <= i < sizes@.len() ==> #[trigger] sizes@[i] > 0) && (forall|
            s: &[u8],
            i: usize,
            x: Result<F, String>,
        | #[trigger] call_ensures(parse_sample, (s, i), x) ==> x is Ok) ==> r is Ok,
{
    let all = sizes@;
    let n = all.len() as int;
    assert(input.len() == input@.len() && sizes.len() == all.len());
    assert forall|i: int| 0 <= i <= n implies #[trigger] offsets[i] == offset_of(all, i) by {
        offsets_are_sums(offsets, all, i);
    }
    assert(offsets[n] == offset_of(all, n));
    match r {
        Ok(frames) => {
            assert forall|i: int| 0 <= i < all.len() implies #[trigger] all[i] > 0 by {
                assert(frame_from_sample(input, all, parse_sample, i, frames@[i]));
            }
            assert forall|i: int| 0 <= i < frames@.len() implies parsed_from(
                parse_sample,
                input@,
                offsets[i],
                offsets[i + 1],
                i as usize,
                Ok(#[trigger] frames@[i]),
            ) by {
                assert(frame_from_sample(input, all, parse_sample, i, frames@[i]));
                assert(offsets[i + 1] == offset_of(all, i + 1));
                parses_in_place(parse_sample, input@, all, i, Ok(frames@[i]));
            }
        },
        Err(error) => {
            let frames = choose|frames: Seq<F>| #[trigger]
                sample_failure(input, all, parse_sample, frames, error);
            let k = frames.len() as int;
            assert forall|i: int| 0 <= i < k implies #[trigger] all[i] > 0 && offset_of(
                all,
                i + 1,
            ) <= input.len() by {
                assert(frame_from_sample(input, all, parse_sample, i, frames[i]));
            }
            if k > 0 {
                assert(all[k - 1] > 0);
            }
            assert(offset_of(all, k) <= input.len());
            if k < n {
                assert(offsets[k + 1] == offset_of(all, k + 1));
                offsets_grow(all, k + 1, n);
                if let InputError::Framing(message) = error {
                    parses_in_place(parse_sample, input@, all, k, Err::<F, String>(message));
                    assert(parsed_from(
                        parse_sample,
                        input@,
                        offsets[k],
                        offsets[k + 1],
                        k as usize,
                        Err::<F, String>(message),
                    ));
                }
            }
        },
    }
}

proof fn parses_in_place<F, Q: Fn(&[u8], usize) -> Result<F, String>>(
    parse_sample: Q,
    input: Seq<u8>,
    sizes: Seq<u32>,
    i: int,
    result: Result<F, String>,
)
    requires
        sample_parses(parse_sample, sample_at(input, sizes, i), i, result),
    ensures
        parsed_from(
            parse_sample,
            input,
            offset_of(sizes, i),
            offset_of(sizes, i + 1),
            i as usize,
            result,
        ),
        exists|s: &[u8]| #[trigger] call_ensures(parse_sample, (s, i as usize), result),
{
    let s = choose|s: &[u8]|
        s@ == sample_at(input, sizes, i) && #[trigger] call_ensures(
            parse_sample,
            (s, i as usize),
            result,
        );
    assert(call_ensures(parse_sample, (s, i as usize), result));
}

/// Without sizes the whole input goes to `parse_frames`, and what that gives comes out.
pub proof fn stream_is_parsed_whole<
    F,
    P: Fn(&[u8]) -> Result<Vec<F>, String>,
    Q: Fn(&[u8], usize) -> Result<F, String>,
>(input: &[u8], parse_frames: P, parse_sample: Q, r: Result<Vec<F>, InputError>)
    requires
        batch_parses(input, None, parse_frames, parse_sample, r),
    ensures
        match r {
            Ok(frames) => call_ensures(parse_frames, (input,), Ok(frames)),
            Err(InputError::Framing(message)) => call_ensures(
                parse_frames,
                (input,),
                Err(message),
            ),
            Err(_) => false,
        },
{
}

/// What is said of a batch that cannot be split.
pub proof fn input_faults_are_said(index: usize, end: usize, len: usize, message: String)
    ensures
        (InputError::Empty { index }).text() == "AV3A sample "@ + text::decimal(index as nat)
            + " is empty"@,
        (InputError::RangeOverflow { index }).text() == "AV3A sample "@ + text::decimal(
            index as nat,
        ) + " range overflows usize"@,
        (InputError::PastEnd { end, len }).text() == "AV3A sample batch ends at "@ + text::decimal(
            end as nat,
        ) + ", but input has only "@ + text::decimal(len as nat) + " bytes"@,
        (InputError::Uncovered { covered: end, len }).text() == "AV3A sample sizes cover "@
            + text::decimal(end as nat) + " bytes, but input has "@ + text::decimal(len as nat),
        InputError::Framing(message).text() == message@,
{
}

} // verus!
