//! AudioSocket framing (`[kind: u8][length: u16 BE][payload]`) and the
//! packet-level logic of the AudioSocket media bridge.

use vstd::prelude::*;
use crate::frame::AudioFrame;
use crate::pcm::{pcm_decode, pcm_encode, pcm_bytes_to_samples, samples_to_pcm_bytes};

verus! {

/// Packet kind that ends the call.
pub const KIND_HANGUP: u8 = 0x00;
/// Packet kind that carries the call identifier.
pub const KIND_UUID: u8 = 0x01;
/// Packet kind that carries slin16 audio.
pub const KIND_AUDIO: u8 = 0x10;
/// Bytes of audio per outgoing packet: 10 ms of 16 kHz slin16.
pub const AUDIO_CHUNK_BYTES: usize = 320;

/// A decoded AudioSocket packet.
pub struct AudioSocketPacket {
    pub kind: u8,
    pub payload: Vec<u8>,
}

/// Wire bytes of a packet of `kind` carrying `payload`.
pub open spec fn packet_bytes(kind: u8, payload: Seq<u8>) -> Seq<u8> {
    seq![kind, (payload.len() / 256) as u8, (payload.len() % 256) as u8] + payload
}

/// The first packet framed at the start of `buf`, with the number of bytes it
/// occupies, or `None` when `buf` does not yet hold a whole packet.
pub open spec fn first_packet(buf: Seq<u8>) -> Option<(u8, Seq<u8>, int)> {
    if buf.len() < 3 {
        None
    } else {
        let len: int = buf[1] * 256 + buf[2];
        if buf.len() < 3 + len {
            None
        } else {
            Some((buf[0], buf.subrange(3, 3 + len), 3 + len))
        }
    }
}

/// Frames `payload` as a packet of `kind`.
pub fn encode_packet(kind: u8, payload: &[u8]) -> (bytes: Vec<u8>)
    requires
        payload@.len() <= 0xFFFF,
    ensures
        bytes@ == packet_bytes(kind, payload@),
{
    let len = payload.len();
    let mut bytes: Vec<u8> = Vec::with_capacity(len + 3);
    bytes.push(kind);
    bytes.push((len / 256) as u8);
    bytes.push((len % 256) as u8);
    let mut i: usize = 0;
    while i < len
        invariant
            len == payload@.len(),
            i <= len,
            bytes@ =~= seq![kind, (len / 256) as u8, (len % 256) as u8] + payload@.take(i as int),
        decreases len - i,
    {
        bytes.push(payload[i]);
        i += 1;
    }
    assert(payload@.take(len as int) =~= payload@);
    bytes
}

/// An audio packet (kind 0x10) carrying slin16 PCM bytes.
pub fn encode_audio_packet(pcm_bytes: &[u8]) -> (bytes: Vec<u8>)
    requires
        pcm_bytes@.len() <= 0xFFFF,
    ensures
        bytes@ == packet_bytes(KIND_AUDIO, pcm_bytes@),
{
    encode_packet(KIND_AUDIO, pcm_bytes)
}

/// A hangup packet (kind 0x00, empty payload).
pub fn encode_hangup_packet() -> (bytes: Vec<u8>)
    ensures
        bytes@ == packet_bytes(KIND_HANGUP, Seq::<u8>::empty()),
{
    let empty: Vec<u8> = Vec::new();
    encode_packet(KIND_HANGUP, empty.as_slice())
}

/// Reads the first whole packet framed at the start of `buf`, returning it with
/// the number of bytes it used, or `None` when more bytes are needed.
pub fn decode_packet(buf: &[u8]) -> (r: Option<(AudioSocketPacket, usize)>)
    ensures
        match first_packet(buf@) {
            None => r is None,
            Some((kind, payload, used)) => r matches Some((p, n)) && p.kind == kind
                && p.payload@ == payload && n == used,
        },
{
    if buf.len() < 3 {
        return None;
    }
    let len: usize = buf[1] as usize * 256 + buf[2] as usize;
    if buf.len() - 3 < len {
        return None;
    }
    let mut payload: Vec<u8> = Vec::with_capacity(len);
    let mut i: usize = 0;
    while i < len
        invariant
            3 + len <= buf.len(),
            i <= len,
            payload@ =~= buf@.subrange(3, 3 + i),
        decreases len - i,
    {
        payload.push(buf[3 + i]);
        i += 1;
    }
    Some((AudioSocketPacket { kind: buf[0], payload }, len + 3))
}

/// Decoding the wire bytes of a packet gives back its kind and payload, and
/// uses exactly those bytes.
pub proof fn lemma_packet_roundtrip(kind: u8, payload: Seq<u8>, rest: Seq<u8>)
    requires
        payload.len() <= 0xFFFF,
    ensures
        first_packet(packet_bytes(kind, payload) + rest) == Some(
            (kind, payload, 3 + payload.len() as int),
        ),
{
    let b = packet_bytes(kind, payload) + rest;
    assert(b[1] * 256 + b[2] == payload.len());
    assert(b.subrange(3, 3 + payload.len() as int) =~= payload);
}

/// Converts raw slin16 bytes into a 16 kHz pipeline frame.
pub fn pcm_bytes_to_frame(bytes: &[u8], timestamp_ms: u64) -> (frame: AudioFrame)
    ensures
        frame.data@ == pcm_decode(bytes@),
        frame.sample_rate == 16000,
        frame.channels == 1,
        frame.timestamp_ms == timestamp_ms,
{
    AudioFrame::from_pcm_bytes(bytes, timestamp_ms)
}

/// Converts a frame into raw slin16 bytes.
pub fn frame_to_pcm_bytes(frame: &AudioFrame) -> (bytes: Vec<u8>)
    requires
        2 * frame.data@.len() <= usize::MAX,
    ensures
        bytes@ == pcm_encode(frame.data@),
{
    frame.to_pcm_bytes()
}

/// The payloads of the audio packets that play `pcm`: consecutive 320-byte
/// chunks, the last one padded with zero bytes.
pub open spec fn padded_chunks(pcm: Seq<u8>) -> Seq<Seq<u8>> {
    Seq::new(
        ((pcm.len() + 319) / 320) as nat,
        |k: int| Seq::new(320, |j: int| if 320 * k + j < pcm.len() { pcm[320 * k + j] } else { 0u8 }),
    )
}

/// The wire bytes of the audio packets that play `samples` in 10 ms chunks.
pub fn audio_packets_for_samples(samples: &[i16]) -> (packets: Vec<Vec<u8>>)
    requires
        2 * samples@.len() + 320 <= usize::MAX,
    ensures
        packets@.len() == padded_chunks(pcm_encode(samples@)).len(),
        forall|k: int| 0 <= k < packets@.len() ==> #[trigger] packets@[k]@ == packet_bytes(
            KIND_AUDIO,
            padded_chunks(pcm_encode(samples@))[k],
        ),
{
    let pcm = samples_to_pcm_bytes(samples);
    let ghost chunks = padded_chunks(pcm@);
    let n = (pcm.len() + 319) / 320;
    let mut packets: Vec<Vec<u8>> = Vec::with_capacity(n);
    let mut k: usize = 0;
    while k < n
        invariant
            pcm@ == pcm_encode(samples@),
            chunks == padded_chunks(pcm@),
            n == chunks.len(),
            pcm@.len() + 320 <= usize::MAX,
            k <= n,
            packets@.len() == k,
            forall|q: int| 0 <= q < k ==> #[trigger] packets@[q]@ == packet_bytes(KIND_AUDIO, chunks[q]),
        decreases n - k,
    {
        let mut chunk: Vec<u8> = Vec::with_capacity(AUDIO_CHUNK_BYTES);
        let mut j: usize = 0;
        while j < AUDIO_CHUNK_BYTES
            invariant
                pcm@.len() + 320 <= usize::MAX,
                k < n,
                n == (pcm@.len() + 319) / 320,
                j <= 320,
                chunk@ =~= chunks[k as int].take(j as int),
                chunks == padded_chunks(pcm@),
            decreases 320 - j,
        {
            let pos = 320 * k + j;
            if pos < pcm.len() {
                chunk.push(pcm[pos]);
            } else {
                chunk.push(0);
            }
            j += 1;
        }
        assert(chunks[k as int].take(320) =~= chunks[k as int]);
        let packet = encode_audio_packet(chunk.as_slice());
        packets.push(packet);
        k += 1;
    }
    packets
}

/// What the AudioSocket reader has collected so far.
pub struct RecordingState {
    pub recorded_samples: Vec<i16>,
    pub hangup_received: bool,
}

impl RecordingState {
    /// Nothing recorded yet.
    pub fn new() -> (s: RecordingState)
        ensures
            s.recorded_samples@ == Seq::<i16>::empty(),
            !s.hangup_received,
    {
        RecordingState { recorded_samples: Vec::new(), hangup_received: false }
    }

    /// Takes one received packet into account; returns whether reading should go on.
    /// Audio packets add their samples, a hangup packet ends the recording, every
    /// other kind is ignored.
    pub fn on_packet(&mut self, packet: &AudioSocketPacket) -> (more: bool)
        ensures
            more == (packet.kind != KIND_HANGUP),
            final(self).hangup_received == (old(self).hangup_received || packet.kind == KIND_HANGUP),
            final(self).recorded_samples@ == if packet.kind == KIND_AUDIO {
                old(self).recorded_samples@ + pcm_decode(packet.payload@)
            } else {
                old(self).recorded_samples@
            },
    {
        if packet.kind == KIND_HANGUP {
            self.hangup_received = true;
            return false;
        }
        if packet.kind == KIND_AUDIO {
            let samples = pcm_bytes_to_samples(packet.payload.as_slice());
            let mut i: usize = 0;
            let ghost start = self.recorded_samples@;
            while i < samples.len()
                invariant
                    i <= samples@.len(),
                    samples@ == pcm_decode(packet.payload@),
                    self.recorded_samples@ =~= start + samples@.take(i as int),
                    self.hangup_received == old(self).hangup_received,
                decreases samples@.len() - i,
            {
                self.recorded_samples.push(samples[i]);
                i += 1;
            }
            assert(samples@.take(samples@.len() as int) =~= samples@);
        }
        true
    }
}

} // verus!
