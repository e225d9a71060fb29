//! 16-bit PCM sample codecs and the 8 kHz / 16 kHz rate converters.

use vstd::prelude::*;

verus! {

/// The unsigned 16-bit pattern of a signed sample (two's complement).
pub open spec fn sample_bits(s: i16) -> int {
    if s < 0 { s + 65536 } else { s as int }
}

/// Low (first) little-endian byte of a sample.
pub open spec fn sample_lo(s: i16) -> u8 {
    (sample_bits(s) % 256) as u8
}

/// High (second) little-endian byte of a sample.
pub open spec fn sample_hi(s: i16) -> u8 {
    (sample_bits(s) / 256) as u8
}

/// The sample whose little-endian encoding is `[lo, hi]`.
pub open spec fn sample_from_le(lo: u8, hi: u8) -> i16 {
    let u = lo + 256 * hi;
    if u >= 32768 { (u - 65536) as i16 } else { u as i16 }
}

/// Little-endian byte encoding of a sequence of samples.
pub open spec fn pcm_encode(samples: Seq<i16>) -> Seq<u8> {
    Seq::new(
        2 * samples.len(),
        |i: int| if i % 2 == 0 { sample_lo(samples[i / 2]) } else { sample_hi(samples[i / 2]) },
    )
}

/// Samples decoded from little-endian byte pairs; a trailing odd byte is ignored.
pub open spec fn pcm_decode(bytes: Seq<u8>) -> Seq<i16> {
    Seq::new(bytes.len() / 2, |i: int| sample_from_le(bytes[2 * i], bytes[2 * i + 1]))
}

/// Every sample repeated twice, in order.
pub open spec fn upsampled(input: Seq<i16>) -> Seq<i16> {
    Seq::new(2 * input.len(), |i: int| input[i / 2])
}

/// Every other sample, starting with the first.
pub open spec fn downsampled(input: Seq<i16>) -> Seq<i16> {
    Seq::new((input.len() + 1) / 2, |i: int| input[2 * i])
}

/// A sample survives encoding to little-endian bytes and decoding back.
pub proof fn lemma_sample_le_roundtrip(s: i16)
    ensures
        sample_from_le(sample_lo(s), sample_hi(s)) == s,
{
}

/// Encodes one sample into its two little-endian bytes.
pub fn sample_to_le_bytes(s: i16) -> (r: (u8, u8))
    ensures
        r.0 == sample_lo(s),
        r.1 == sample_hi(s),
{
    let u: u32 = if s < 0 { (s as i32 + 65536) as u32 } else { s as u32 };
    ((u % 256) as u8, (u / 256) as u8)
}

/// Decodes one sample from its two little-endian bytes.
pub fn sample_from_le_bytes(lo: u8, hi: u8) -> (s: i16)
    ensures
        s == sample_from_le(lo, hi),
{
    let u: u32 = lo as u32 + 256 * hi as u32;
    if u >= 32768 {
        (u as i32 - 65536) as i16
    } else {
        u as i16
    }
}

/// Little-endian PCM bytes of `samples`.
pub fn samples_to_pcm_bytes(samples: &[i16]) -> (bytes: Vec<u8>)
    requires
        2 * samples@.len() <= usize::MAX,
    ensures
        bytes@ == pcm_encode(samples@),
{
    let mut bytes: Vec<u8> = Vec::with_capacity(samples.len() * 2);
    let mut i: usize = 0;
    while i < samples.len()
        invariant
            i <= samples@.len(),
            bytes@.len() == 2 * i,
            forall|k: int| 0 <= k < 2 * i ==> #[trigger] bytes@[k] == pcm_encode(samples@)[k],
        decreases samples@.len() - i,
    {
        let (lo, hi) = sample_to_le_bytes(samples[i]);
        bytes.push(lo);
        bytes.push(hi);
        i += 1;
    }
    assert(bytes@ =~= pcm_encode(samples@));
    bytes
}

/// Samples decoded from little-endian PCM bytes (a trailing odd byte is dropped).
pub fn pcm_bytes_to_samples(bytes: &[u8]) -> (samples: Vec<i16>)
    ensures
        samples@ == pcm_decode(bytes@),
{
    let n = bytes.len() / 2;
    let mut samples: Vec<i16> = Vec::with_capacity(n);
    let mut i: usize = 0;
    while i < n
        invariant
            n == bytes.len() / 2,
            i <= n,
            samples@ =~= pcm_decode(bytes@).take(i as int),
        decreases n - i,
    {
        let s = sample_from_le_bytes(bytes[2 * i], bytes[2 * i + 1]);
        samples.push(s);
        i += 1;
    }
    assert(pcm_decode(bytes@).take(n as int) =~= pcm_decode(bytes@));
    samples
}

/// Doubles the sample rate by repeating each sample.
pub fn upsample_8k_to_16k(input: &[i16]) -> (output: Vec<i16>)
    requires
        2 * input@.len() <= usize::MAX,
    ensures
        output@ == upsampled(input@),
{
    let mut output: Vec<i16> = Vec::with_capacity(input.len() * 2);
    let mut i: usize = 0;
    while i < input.len()
        invariant
            i <= input@.len(),
            output@ =~= upsampled(input@).take(2 * i),
        decreases input@.len() - i,
    {
        output.push(input[i]);
        output.push(input[i]);
        i += 1;
    }
    assert(upsampled(input@).take(2 * input@.len() as int) =~= upsampled(input@));
    output
}

/// Halves the sample rate by keeping every other sample.
pub fn downsample_16k_to_8k(input: &[i16]) -> (output: Vec<i16>)
    ensures
        output@ == downsampled(input@),
        output@.len() == (input@.len() + 1) / 2,
        forall|i: int| 0 <= i < output@.len() ==> #[trigger] output@[i] == input@[2 * i],
{
    let m = input.len() / 2 + input.len() % 2;
    let mut output: Vec<i16> = Vec::with_capacity(m);
    let mut j: usize = 0;
    while j < m
        invariant
            m == (input.len() + 1) / 2,
            j <= m,
            output@ =~= downsampled(input@).take(j as int),
        decreases m - j,
    {
        output.push(input[2 * j]);
        j += 1;
    }
    assert(downsampled(input@).take(m as int) =~= downsampled(input@));
    output
}

/// Decoding the encoding of any samples gives them back.
pub proof fn lemma_pcm_roundtrip(samples: Seq<i16>)
    ensures
        pcm_decode(pcm_encode(samples)) == samples,
{
    assert forall|i: int| 0 <= i < samples.len() implies #[trigger] pcm_decode(pcm_encode(samples))[i]
        == samples[i] by {
        lemma_sample_le_roundtrip(samples[i]);
    }
    assert(pcm_decode(pcm_encode(samples)) =~= samples);
}

/// Halving the rate after doubling it gives the input back, for every input.
pub proof fn lemma_down_after_up(input: Seq<i16>)
    ensures
        downsampled(upsampled(input)) == input,
{
    assert(downsampled(upsampled(input)) =~= input);
}

/// Doubling the rate after halving it keeps every even-indexed sample of
/// the input, and gives as many samples as the input had, rounded up to an
/// even number.
pub proof fn lemma_up_after_down_keeps_even_samples(input: Seq<i16>)
    ensures
        upsampled(downsampled(input)).len() == 2 * ((input.len() + 1) / 2),
        forall|i: int| 0 <= 2 * i < input.len() ==> #[trigger] upsampled(downsampled(input))[2 * i] == input[2 * i],
{
    assert forall|i: int| 0 <= 2 * i < input.len() implies #[trigger] upsampled(downsampled(input))[2 * i] == input[2 * i] by {
        assert((2 * i) / 2 == i);
    }
}

} // verus!
