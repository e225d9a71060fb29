//! RTP/PCMU packet building and parsing, and the µ-law sample codec.

use vstd::prelude::*;
use crate::frame::AudioFrame;
use crate::pcm::{downsample_16k_to_8k, downsampled, upsample_8k_to_16k, upsampled};

verus! {

/// Length of the fixed RTP header.
pub const RTP_HEADER_LEN: usize = 12;
/// RTP payload type of G.711 µ-law.
pub const RTP_PAYLOAD_TYPE_PCMU: u8 = 0;
/// Bias added to a linear magnitude before µ-law segmentation.
pub const MU_LAW_BIAS: i32 = 0x84;
/// Largest biased magnitude the encoder represents.
pub const MU_LAW_CLIP: i32 = 32635;

/// `2^k` for the shifts used by the µ-law codec.
pub open spec fn pow2(k: int) -> int
    decreases k,
{
    if k <= 0 { 1 } else { 2 * pow2(k - 1) }
}

/// Biased, clipped magnitude of a linear sample.
pub open spec fn mulaw_magnitude(s: i16) -> int {
    let a: int = if s < 0 { -(s as int) } else { s as int };
    if a + 132 < 32635 { a + 132 } else { 32635 }
}

/// Index of the first segment whose end (`2^(8+k) - 1`) is at least `m`.
pub open spec fn mulaw_segment(m: int) -> int {
    if m <= 0xFF { 0 }
    else if m <= 0x1FF { 1 }
    else if m <= 0x3FF { 2 }
    else if m <= 0x7FF { 3 }
    else if m <= 0xFFF { 4 }
    else if m <= 0x1FFF { 5 }
    else if m <= 0x3FFF { 6 }
    else { 7 }
}

/// G.711 µ-law code of a linear 16-bit sample.
pub open spec fn mulaw_encode(s: i16) -> u8 {
    let m = mulaw_magnitude(s);
    let seg = mulaw_segment(m);
    let code = seg * 16 + (m / pow2(seg + 3)) % 16;
    if s < 0 { (127 - code) as u8 } else { (255 - code) as u8 }
}

/// Linear 16-bit sample of a G.711 µ-law code.
pub open spec fn mulaw_decode(e: u8) -> i16 {
    let inv = 255 - e;
    let mag = ((inv % 16) * 8 + 132) * pow2((inv / 16) % 8);
    if inv >= 128 { (132 - mag) as i16 } else { (mag - 132) as i16 }
}

/// Big-endian bytes of a 16-bit value.
pub open spec fn be16(x: u16) -> Seq<u8> {
    seq![(x / 256) as u8, (x % 256) as u8]
}

/// Big-endian bytes of a 32-bit value.
pub open spec fn be32(x: u32) -> Seq<u8> {
    seq![
        (x / 0x1000000) as u8,
        ((x / 0x10000) % 256) as u8,
        ((x / 256) % 256) as u8,
        (x % 256) as u8,
    ]
}

/// A PCMU RTP packet: version 2, no padding, extension or CSRCs, payload type 0.
pub open spec fn pcmu_packet(payload: Seq<u8>, sequence: u16, timestamp: u32, ssrc: u32) -> Seq<u8> {
    seq![0x80u8, 0u8] + be16(sequence) + be32(timestamp) + be32(ssrc) + payload
}

/// µ-law payload carrying 16 kHz samples at 8 kHz.
pub open spec fn pcmu_payload(samples_16k: Seq<i16>) -> Seq<u8> {
    downsampled(samples_16k).map_values(|s: i16| mulaw_encode(s))
}

/// The byte range `[start, end)` of an RTP packet's payload, or `None` when the
/// packet is malformed (too short, version other than 2, truncated CSRC list or
/// extension, or padding longer than the payload).
pub open spec fn rtp_payload_range(p: Seq<u8>) -> Option<(int, int)> {
    if p.len() < 12 {
        None
    } else if p[0] / 64 != 2 {
        None
    } else {
        let off0: int = 12 + 4 * (p[0] % 16);
        let has_ext = (p[0] / 16) % 2 == 1;
        let has_pad = (p[0] / 32) % 2 == 1;
        if p.len() < off0 {
            None
        } else if has_ext && p.len() < off0 + 4 {
            None
        } else {
            let off: int = if has_ext {
                off0 + 4 + 4 * (p[off0 + 2] * 256 + p[off0 + 3])
            } else {
                off0
            };
            let pad: int = if has_pad { p[p.len() - 1] as int } else { 0 };
            if p.len() < off {
                None
            } else if pad > p.len() {
                None
            } else if p.len() - pad < off {
                None
            } else {
                Some((off, p.len() - pad))
            }
        }
    }
}

/// Encodes a linear sample as µ-law.
pub fn linear_to_mulaw(sample: i16) -> (code: u8)
    ensures
        code == mulaw_encode(sample),
{
    let a: i32 = if sample < 0 { -(sample as i32) } else { sample as i32 };
    let magnitude: i32 = if a + MU_LAW_BIAS < MU_LAW_CLIP { a + MU_LAW_BIAS } else { MU_LAW_CLIP };
    let (segment, divisor): (i32, i32) =
        if magnitude <= 0xFF { (0, 8) }
        else if magnitude <= 0x1FF { (1, 16) }
        else if magnitude <= 0x3FF { (2, 32) }
        else if magnitude <= 0x7FF { (3, 64) }
        else if magnitude <= 0xFFF { (4, 128) }
        else if magnitude <= 0x1FFF { (5, 256) }
        else if magnitude <= 0x3FFF { (6, 512) }
        else { (7, 1024) };
    proof {
        reveal_with_fuel(pow2, 11);
    }
    let code: i32 = segment * 16 + (magnitude / divisor) % 16;
    if sample < 0 {
        (127 - code) as u8
    } else {
        (255 - code) as u8
    }
}

/// Decodes a µ-law code to a linear sample.
pub fn mulaw_to_linear(encoded: u8) -> (sample: i16)
    ensures
        sample == mulaw_decode(encoded),
{
    let inv: i32 = 255 - encoded as i32;
    let seg: i32 = (inv / 16) % 8;
    let mult: i32 =
        if seg == 0 { 1 }
        else if seg == 1 { 2 }
        else if seg == 2 { 4 }
        else if seg == 3 { 8 }
        else if seg == 4 { 16 }
        else if seg == 5 { 32 }
        else if seg == 6 { 64 }
        else { 128 };
    proof {
        reveal_with_fuel(pow2, 9);
    }
    let low: i32 = inv % 16;
    assert(0 <= (low * 8 + 132) * mult <= 252 * 128) by (nonlinear_arith)
        requires 0 <= low < 16, 1 <= mult <= 128;
    let magnitude: i32 = (low * 8 + 132) * mult;
    if inv >= 128 {
        (132 - magnitude) as i16
    } else {
        (magnitude - 132) as i16
    }
}

/// Re-encoding a decoded µ-law code gives the code back, for every code but
/// 0x7F (negative zero, which decodes to the same sample as 0xFF).
pub proof fn lemma_mulaw_reencode(c: u8)
    requires
        c != 0x7F,
    ensures
        mulaw_encode(mulaw_decode(c)) == c,
{
    reveal_with_fuel(pow2, 11);
    let inv: int = 255 - c;
    let low: int = inv % 16;
    let seg: int = (inv / 16) % 8;
    let p: int = pow2(seg);
    assert(inv == (if inv >= 128 { 128int } else { 0int }) + seg * 16 + low);
    let mag: int = (low * 8 + 132) * p;
    assert(132 * p <= mag <= 252 * p) by (nonlinear_arith)
        requires mag == (low * 8 + 132) * p, 0 <= low < 16, p >= 1;
    if seg == 0 { assert(p == 1); }
    else if seg == 1 { assert(p == 2); }
    else if seg == 2 { assert(p == 4); }
    else if seg == 3 { assert(p == 8); }
    else if seg == 4 { assert(p == 16); }
    else if seg == 5 { assert(p == 32); }
    else if seg == 6 { assert(p == 64); }
    else { assert(p == 128); }
    assert(mulaw_segment(mag) == seg);
    assert(mulaw_decode(c) as int == if inv >= 128 { 132 - mag } else { mag - 132 });
    assert(mulaw_magnitude(mulaw_decode(c)) == mag);
    assert((mag / pow2(seg + 3)) % 16 == low) by (nonlinear_arith)
        requires
            mag == (low * 8 + 132) * p,
            pow2(seg + 3) == 8 * p,
            p >= 1,
            0 <= low < 16;
}

/// A µ-law round trip moves a sample by at most 644, and by at most 4 when the
/// sample's magnitude is below 124.
pub proof fn lemma_mulaw_roundtrip_error(x: i16)
    ensures
        -644 <= mulaw_decode(mulaw_encode(x)) as int - x as int <= 644,
        -124 < x < 124 ==> -4 <= mulaw_decode(mulaw_encode(x)) as int - x as int <= 4,
{
    reveal_with_fuel(pow2, 11);
    let a: int = if x < 0 { -(x as int) } else { x as int };
    let m = mulaw_magnitude(x);
    let seg = mulaw_segment(m);
    let p = pow2(seg);
    assert(132 <= m <= 32635);
    if seg == 0 { assert(p == 1); }
    else if seg == 1 { assert(p == 2); }
    else if seg == 2 { assert(p == 4); }
    else if seg == 3 { assert(p == 8); }
    else if seg == 4 { assert(p == 16); }
    else if seg == 5 { assert(p == 32); }
    else if seg == 6 { assert(p == 64); }
    else { assert(p == 128); }
    assert(128 * p <= m < 256 * p);
    assert(pow2(seg + 3) == 8 * p);
    let q = m / (8 * p);
    let r = m % (8 * p);
    assert(m == 8 * p * q + r && 0 <= r < 8 * p) by (nonlinear_arith)
        requires q == m / (8 * p), r == m % (8 * p), p >= 1;
    assert(16 <= q <= 31) by (nonlinear_arith)
        requires m == 8 * p * q + r, 0 <= r < 8 * p, 128 * p <= m < 256 * p, p >= 1;
    let code = seg * 16 + q % 16;
    assert(q % 16 == q - 16);
    assert(mulaw_encode(x) as int == if x < 0 { 127 - code } else { 255 - code });
    let inv: int = if x < 0 { 128 + code } else { code };
    assert(255 - mulaw_encode(x) as int == inv);
    assert(inv % 16 == q - 16);
    assert((inv / 16) % 8 == seg);
    let mag = ((q - 16) * 8 + 132) * p;
    assert(mag == 8 * p * q + 4 * p) by (nonlinear_arith)
        requires mag == ((q - 16) * 8 + 132) * p;
    assert(mulaw_decode(mulaw_encode(x)) as int == if x < 0 { 132 - mag } else { mag - 132 });
    if a + 132 < 32635 {
        assert(m == a + 132);
    } else {
        assert(m == 32635);
        assert(seg == 7);
        assert(q == 31);
    }
}

/// Builds a PCMU RTP packet from 16 kHz samples (downsampled to 8 kHz).
pub fn build_pcmu_packet(samples_16k: &[i16], sequence: u16, timestamp: u32, ssrc: u32) -> (packet: Vec<u8>)
    requires
        samples_16k@.len() + RTP_HEADER_LEN <= usize::MAX,
    ensures
        packet@ == pcmu_packet(pcmu_payload(samples_16k@), sequence, timestamp, ssrc),
{
    let ulaw_samples = downsample_16k_to_8k(samples_16k);
    let mut packet: Vec<u8> = Vec::with_capacity(RTP_HEADER_LEN + ulaw_samples.len());
    packet.push(0x80);
    packet.push(RTP_PAYLOAD_TYPE_PCMU);
    packet.push((sequence / 256) as u8);
    packet.push((sequence % 256) as u8);
    packet.push((timestamp / 0x1000000) as u8);
    packet.push(((timestamp / 0x10000) % 256) as u8);
    packet.push(((timestamp / 256) % 256) as u8);
    packet.push((timestamp % 256) as u8);
    packet.push((ssrc / 0x1000000) as u8);
    packet.push(((ssrc / 0x10000) % 256) as u8);
    packet.push(((ssrc / 256) % 256) as u8);
    packet.push((ssrc % 256) as u8);
    let ghost header = packet@;
    assert(header =~= seq![0x80u8, 0u8] + be16(sequence) + be32(timestamp) + be32(ssrc));
    let ghost payload = pcmu_payload(samples_16k@);
    let mut i: usize = 0;
    while i < ulaw_samples.len()
        invariant
            ulaw_samples@ == downsampled(samples_16k@),
            payload == pcmu_payload(samples_16k@),
            i <= ulaw_samples@.len(),
            packet@ =~= header + payload.take(i as int),
        decreases ulaw_samples@.len() - i,
    {
        let code = linear_to_mulaw(ulaw_samples[i]);
        packet.push(code);
        i += 1;
    }
    assert(payload.take(ulaw_samples@.len() as int) =~= payload);
    packet
}

/// The payload of an RTP packet, or `None` when the packet is malformed.
pub fn parse_rtp_payload(packet: &[u8]) -> (payload: Option<&[u8]>)
    ensures
        match rtp_payload_range(packet@) {
            None => payload is None,
            Some((start, end)) => payload matches Some(p) && p@ == packet@.subrange(start, end),
        },
{
    let len = packet.len();
    if len < RTP_HEADER_LEN {
        return None;
    }
    let b0 = packet[0];
    if b0 / 64 != 2 {
        return None;
    }
    let csrc_count = (b0 % 16) as usize;
    let has_extension = (b0 / 16) % 2 == 1;
    let has_padding = (b0 / 32) % 2 == 1;
    let mut offset: usize = RTP_HEADER_LEN + csrc_count * 4;
    if len < offset {
        return None;
    }
    if has_extension {
        if len - offset < 4 {
            return None;
        }
        let words: usize = packet[offset + 2] as usize * 256 + packet[offset + 3] as usize;
        if len - offset - 4 < words * 4 {
            return None;
        }
        offset = offset + 4 + words * 4;
    }
    let payload_end: usize = if has_padding {
        let padding = packet[len - 1] as usize;
        if padding > len {
            return None;
        }
        len - padding
    } else {
        len
    };
    if payload_end < offset {
        return None;
    }
    Some(&packet[offset..payload_end])
}

/// Parsing a packet built by [`build_pcmu_packet`] from any samples gives back
/// everything after its 12-byte header: the µ-law payload, one byte for every
/// other input sample.
pub proof fn lemma_parse_built_packet(samples_16k: Seq<i16>, sequence: u16, timestamp: u32, ssrc: u32)
    ensures
        ({
            let p = pcmu_packet(pcmu_payload(samples_16k), sequence, timestamp, ssrc);
            &&& rtp_payload_range(p) == Some((12int, p.len() as int))
            &&& p.subrange(12, p.len() as int) == pcmu_payload(samples_16k)
            &&& pcmu_payload(samples_16k).len() == (samples_16k.len() + 1) / 2
        }),
{
    let payload = pcmu_payload(samples_16k);
    let p = pcmu_packet(payload, sequence, timestamp, ssrc);
    assert(p[0] == 0x80u8);
    assert(p.len() == 12 + payload.len());
    assert(p.subrange(12, p.len() as int) =~= payload);
}

/// Decodes a PCMU payload into a 16 kHz pipeline frame.
pub fn pcmu_payload_to_frame(payload: &[u8], timestamp_ms: u64) -> (frame: AudioFrame)
    requires
        2 * payload@.len() <= usize::MAX,
    ensures
        frame.data@ == upsampled(payload@.map_values(|e: u8| mulaw_decode(e))),
        frame.sample_rate == 16000,
        frame.channels == 1,
        frame.timestamp_ms == timestamp_ms,
{
    let mut decoded: Vec<i16> = Vec::with_capacity(payload.len());
    let mut i: usize = 0;
    while i < payload.len()
        invariant
            i <= payload@.len(),
            decoded@ =~= payload@.map_values(|e: u8| mulaw_decode(e)).take(i as int),
        decreases payload@.len() - i,
    {
        decoded.push(mulaw_to_linear(payload[i]));
        i += 1;
    }
    assert(payload@.map_values(|e: u8| mulaw_decode(e)).take(payload@.len() as int)
        =~= payload@.map_values(|e: u8| mulaw_decode(e)));
    AudioFrame::new(upsample_8k_to_16k(decoded.as_slice()), timestamp_ms)
}

} // verus!
