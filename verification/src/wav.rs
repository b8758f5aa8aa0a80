//! 16-bit PCM WAV encoding.
use vstd::prelude::*;

verus! {

/// Little-endian bytes of a 16-bit value.
pub open spec fn le16(v: int) -> Seq<u8> {
    seq![(v % 256) as u8, ((v / 256) % 256) as u8]
}

/// Little-endian bytes of a 32-bit value.
pub open spec fn le32(v: int) -> Seq<u8> {
    seq![
        (v % 256) as u8,
        ((v / 256) % 256) as u8,
        ((v / 65536) % 256) as u8,
        ((v / 16777216) % 256) as u8,
    ]
}

/// The ASCII bytes "RIFF", "WAVE", "fmt " and "data".
pub open spec fn riff_tag() -> Seq<u8> {
    seq![82u8, 73, 70, 70]
}

pub open spec fn wave_tag() -> Seq<u8> {
    seq![87u8, 65, 86, 69]
}

pub open spec fn fmt_tag() -> Seq<u8> {
    seq![102u8, 109, 116, 32]
}

pub open spec fn data_tag() -> Seq<u8> {
    seq![100u8, 97, 116, 97]
}

/// The 44-byte header of a 16-bit PCM WAV file holding `num_samples`
/// samples: RIFF chunk, `fmt ` chunk (PCM, `channels`, `sample_rate`, byte
/// rate, block alignment, 16 bits per sample) and the `data` chunk header.
pub open spec fn wav_header(channels: int, sample_rate: int, num_samples: int) -> Seq<u8> {
    riff_tag() + le32(36 + 2 * num_samples) + wave_tag() + fmt_tag() + le32(16) + le16(1) + le16(
        channels,
    ) + le32(sample_rate) + le32(sample_rate * channels * 2) + le16(channels * 2) + le16(16)
        + data_tag() + le32(2 * num_samples)
}

/// Two's-complement little-endian bytes of a 16-bit sample.
pub open spec fn sample_bytes(s: i16) -> Seq<u8> {
    le16(if s < 0 { s + 65536 } else { s as int })
}

pub open spec fn samples_bytes(samples: Seq<i16>) -> Seq<u8>
    decreases samples.len(),
{
    if samples.len() == 0 {
        Seq::empty()
    } else {
        samples_bytes(samples.drop_last()) + sample_bytes(samples.last())
    }
}

/// The whole WAV file: header, then the samples.
pub open spec fn wav_file(channels: int, sample_rate: int, samples: Seq<i16>) -> Seq<u8> {
    wav_header(channels, sample_rate, samples.len() as int) + samples_bytes(samples)
}

fn push_le16(out: &mut Vec<u8>, v: u32)
    requires
        v < 65536,
    ensures
        final(out)@ == old(out)@ + le16(v as int),
{
    out.push((v % 256) as u8);
    out.push(((v / 256) % 256) as u8);
    assert(out@ =~= old(out)@ + le16(v as int));
}

fn push_le32(out: &mut Vec<u8>, v: u32)
    ensures
        final(out)@ == old(out)@ + le32(v as int),
{
    out.push((v % 256) as u8);
    out.push(((v / 256) % 256) as u8);
    out.push(((v / 65536) % 256) as u8);
    out.push(((v / 16777216) % 256) as u8);
    assert(out@ =~= old(out)@ + le32(v as int));
}

fn push_tag(out: &mut Vec<u8>, a: u8, b: u8, c: u8, d: u8)
    ensures
        final(out)@ == old(out)@ + seq![a, b, c, d],
{
    out.push(a);
    out.push(b);
    out.push(c);
    out.push(d);
    assert(out@ =~= old(out)@ + seq![a, b, c, d]);
}

/// The bytes of a 16-bit PCM WAV file of interleaved `samples`.
pub fn encode_wav(channels: u16, sample_rate: u32, samples: &[i16]) -> (r: Vec<u8>)
    requires
        2 * channels <= u16::MAX,
        sample_rate * channels * 2 <= u32::MAX,
        36 + 2 * samples@.len() <= u32::MAX,
    ensures
        r@ == wav_file(channels as int, sample_rate as int, samples@),
{
    let num_samples = samples.len() as u32;
    let block_align: u32 = channels as u32 * 2;
    assert(sample_rate * block_align == sample_rate * channels * 2) by (nonlinear_arith)
        requires
            block_align == channels * 2,
    ;
    let byte_rate: u32 = sample_rate * block_align;
    let data_size: u32 = num_samples * 2;
    let mut out: Vec<u8> = Vec::new();
    push_tag(&mut out, 82, 73, 70, 70);
    push_le32(&mut out, 36 + data_size);
    push_tag(&mut out, 87, 65, 86, 69);
    push_tag(&mut out, 102, 109, 116, 32);
    push_le32(&mut out, 16);
    push_le16(&mut out, 1);
    push_le16(&mut out, channels as u32);
    push_le32(&mut out, sample_rate);
    push_le32(&mut out, byte_rate);
    push_le16(&mut out, block_align);
    push_le16(&mut out, 16);
    push_tag(&mut out, 100, 97, 116, 97);
    push_le32(&mut out, data_size);
    let ghost head = out@;
    assert(head =~= wav_header(channels as int, sample_rate as int, samples@.len() as int));
    let mut i: usize = 0;
    while i < samples.len()
        invariant
            i <= samples@.len(),
            out@ == head + samples_bytes(samples@.take(i as int)),
        decreases samples@.len() - i,
    {
        let s = samples[i];
        let u: u32 = if s < 0 {
            (s as i32 + 65536) as u32
        } else {
            s as u32
        };
        push_le16(&mut out, u);
        assert(samples@.take(i + 1).drop_last() =~= samples@.take(i as int));
        assert(out@ =~= head + samples_bytes(samples@.take(i + 1)));
        i = i + 1;
    }
    assert(samples@.take(samples@.len() as int) =~= samples@);
    out
}

} // verus!
