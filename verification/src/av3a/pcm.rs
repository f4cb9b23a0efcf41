//! Sixteen-bit PCM as bytes.
use vstd::prelude::*;

verus! {

/// The two bytes of a sample: two's complement, least significant first.
pub open spec fn sample_bytes(sample: i16) -> Seq<u8> {
    let unsigned: int = if sample < 0 {
        sample + 65536
    } else {
        sample as int
    };
    seq![(unsigned % 256) as u8, (unsigned / 256) as u8]
}

/// The bytes of all samples, one after the other.
pub open spec fn pcm_bytes(samples: Seq<i16>) -> Seq<u8>
    decreases samples.len(),
{
    if samples.len() == 0 {
        Seq::empty()
    } else {
        pcm_bytes(samples.drop_last()) + sample_bytes(samples.last())
    }
}

/// Appends the bytes of `samples`.
pub fn append_le_i16(out: &mut Vec<u8>, samples: &[i16])
    ensures
        final(out)@ == old(out)@ + pcm_bytes(samples@),
{
    let mut i: usize = 0;
    assert(samples@.take(0) =~= Seq::<i16>::empty());
    assert(out@ =~= old(out)@ + pcm_bytes(samples@.take(0)));
    while i < samples.len()
        invariant
            i <= samples@.len(),
            out@ == old(out)@ + pcm_bytes(samples@.take(i as int)),
        decreases samples@.len() - i,
    {
        let sample: i16 = samples[i];
        let unsigned: i32 = if sample < 0 {
            sample as i32 + 65536
        } else {
            sample as i32
        };
        let ghost before = out@;
        out.push((unsigned % 256) as u8);
        out.push((unsigned / 256) as u8);
        assert(out@ =~= before + sample_bytes(sample));
        assert(samples@.take(i + 1).drop_last() =~= samples@.take(i as int));
        assert(out@ =~= old(out)@ + pcm_bytes(samples@.take(i + 1)));
        i += 1;
    }
    assert(samples@.take(i as int) =~= samples@);
}

/// Two bytes for each sample.
pub proof fn pcm_length(samples: Seq<i16>)
    ensures
        pcm_bytes(samples).len() == 2 * samples.len(),
    decreases samples.len(),
{
    if samples.len() > 0 {
        pcm_length(samples.drop_last());
    }
}

/// Different samples have different bytes.
pub proof fn pcm_is_lossless(a: Seq<i16>, b: Seq<i16>)
    requires
        pcm_bytes(a) == pcm_bytes(b),
    ensures
        a == b,
    decreases a.len(),
{
    pcm_length(a);
    pcm_length(b);
    if a.len() > 0 {
        let (x, y) = (pcm_bytes(a.drop_last()), pcm_bytes(b.drop_last()));
        let whole = pcm_bytes(a);
        pcm_length(a.drop_last());
        pcm_length(b.drop_last());
        assert(whole.take(x.len() as int) =~= x);
        assert(whole.take(y.len() as int) =~= y);
        pcm_is_lossless(a.drop_last(), b.drop_last());
        assert(whole[x.len() as int] == sample_bytes(a.last())[0]);
        assert(whole[x.len() as int + 1] == sample_bytes(a.last())[1]);
        assert(whole[y.len() as int] == sample_bytes(b.last())[0]);
        assert(whole[y.len() as int + 1] == sample_bytes(b.last())[1]);
        assert(a.last() == b.last());
        assert(a =~= a.drop_last().push(a.last()));
        assert(b =~= b.drop_last().push(b.last()));
    } else {
        assert(a =~= b);
    }
}

/// Appending in two steps gives what appending at once gives.
pub proof fn pcm_concatenates(a: Seq<i16>, b: Seq<i16>)
    ensures
        pcm_bytes(a + b) == pcm_bytes(a) + pcm_bytes(b),
    decreases b.len(),
{
    if b.len() == 0 {
        assert(a + b =~= a);
        assert(pcm_bytes(a) + pcm_bytes(b) =~= pcm_bytes(a));
    } else {
        pcm_concatenates(a, b.drop_last());
        assert((a + b).drop_last() =~= a + b.drop_last());
        assert(pcm_bytes(a + b) =~= pcm_bytes(a) + pcm_bytes(b));
    }
}

} // verus!
