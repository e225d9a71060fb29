//! The Asterisk transport: ARI events and what each one sets off, the ARI
//! URLs and replies, and the RTP stream of a call in both directions.

use vstd::prelude::*;
use crate::frame::{AudioFrame, PipelineEvent};
use crate::rtp::{
    build_pcmu_packet, mulaw_decode, parse_rtp_payload, pcmu_packet, pcmu_payload, pcmu_payload_to_frame,
    rtp_payload_range,
};
use crate::pcm::upsampled;
use crate::text::{decimal, decimal_string, push_str, starts_with, text_is};

verus! {

/// Samples of 16 kHz audio in one outgoing RTP packet (20 ms).
pub const RTP_FRAME_16K_SAMPLES: usize = 320;

/// RTP timestamp advance per packet (20 ms at 8 kHz).
pub const RTP_TIMESTAMP_STEP: u32 = 160;

/// Caller identity on an ARI channel.
pub struct AriCaller {
    pub name: String,
    pub number: String,
}

/// A channel as ARI describes it.
pub struct AriChannel {
    pub id: String,
    pub name: String,
    pub caller: Option<AriCaller>,
    pub language: Option<String>,
}

/// One event from the ARI event stream, every kind in one shape.
pub struct AriEvent {
    pub kind: String,
    pub channel: Option<AriChannel>,
    pub digit: Option<String>,
    pub duration_ms: Option<u32>,
    pub cause: Option<i32>,
    pub cause_txt: Option<String>,
    pub application: Option<String>,
}

/// Errors of the Asterisk transport.
pub enum AriError {
    Rest { status: u16, url: String },
    WebSocket(String),
    Protocol(String),
    Session(String),
    Timeout,
}

/// What the transport does about an ARI event.
pub enum AriAction {
    /// Answer and handle a new call on this channel.
    StartCall(AriChannel),
    /// Stop the session of the call on the channel with this id.
    CancelCall(String),
    /// Nothing.
    Ignore,
}

/// Event kinds that end a call.
pub open spec fn is_hangup_kind(kind: Seq<char>) -> bool {
    kind == "StasisEnd"@ || kind == "ChannelHangupRequest"@ || kind == "ChannelDestroyed"@
}

/// A `#` or `*` key press.
pub open spec fn is_interrupt_digit(digit: Option<String>) -> bool {
    match digit {
        Some(d) => d@ == "#"@ || d@ == "*"@,
        None => false,
    }
}

/// What each event sets off: a channel entering the app starts a call,
/// unless it is an RTP channel the transport made itself; a channel leaving
/// or hanging up cancels its call, and so does a `#` or `*` key press;
/// anything else is ignored.
pub open spec fn ari_action_for(event: AriEvent, action: AriAction) -> bool {
    match event.channel {
        None => action is Ignore,
        Some(ch) => if event.kind@ == "StasisStart"@ {
            if "UnicastRTP/"@.is_prefix_of(ch.name@) { action is Ignore } else { action == AriAction::StartCall(ch) }
        } else if is_hangup_kind(event.kind@) {
            action matches AriAction::CancelCall(id) && id@ == ch.id@
        } else if event.kind@ == "ChannelDtmfReceived"@ && is_interrupt_digit(event.digit) {
            action matches AriAction::CancelCall(id) && id@ == ch.id@
        } else {
            action is Ignore
        },
    }
}

/// Decides what to do about an ARI event.
pub fn dispatch_ari_event(event: AriEvent) -> (action: AriAction)
    ensures
        ari_action_for(event, action),
{
    let ghost ev = event;
    let is_start = text_is(&event.kind, "StasisStart");
    let is_hangup = text_is(&event.kind, "StasisEnd") || text_is(&event.kind, "ChannelHangupRequest")
        || text_is(&event.kind, "ChannelDestroyed");
    let is_dtmf = text_is(&event.kind, "ChannelDtmfReceived");
    let interrupt = match &event.digit {
        Some(d) => text_is(d, "#") || text_is(d, "*"),
        None => false,
    };
    match event.channel {
        None => AriAction::Ignore,
        Some(channel) => {
            if is_start {
                if starts_with(channel.name.as_str(), "UnicastRTP/") {
                    AriAction::Ignore
                } else {
                    AriAction::StartCall(channel)
                }
            } else if is_hangup {
                AriAction::CancelCall(channel.id)
            } else if is_dtmf && interrupt {
                AriAction::CancelCall(channel.id)
            } else {
                AriAction::Ignore
            }
        },
    }
}

/// URL of the ARI event stream for an app.
pub fn ari_events_url(host: &str, port: u16, username: &str, password: &str, app_name: &str) -> (url: String)
    ensures
        url@ == "ws://"@ + host@ + ":"@ + decimal(port as nat) + "/ari/events?api_key="@ + username@ + ":"@
            + password@ + "&app="@ + app_name@,
{
    let mut url = String::new();
    push_str(&mut url, "ws://");
    push_str(&mut url, host);
    push_str(&mut url, ":");
    let p = decimal_string(port as u64);
    push_str(&mut url, p.as_str());
    push_str(&mut url, "/ari/events?api_key=");
    push_str(&mut url, username);
    push_str(&mut url, ":");
    push_str(&mut url, password);
    push_str(&mut url, "&app=");
    push_str(&mut url, app_name);
    url
}

/// Base URL of the ARI REST interface.
pub fn ari_base_url(host: &str, port: u16) -> (url: String)
    ensures
        url@ == "http://"@ + host@ + ":"@ + decimal(port as nat) + "/ari"@,
{
    let mut url = String::new();
    push_str(&mut url, "http://");
    push_str(&mut url, host);
    push_str(&mut url, ":");
    let p = decimal_string(port as u64);
    push_str(&mut url, p.as_str());
    push_str(&mut url, "/ari");
    url
}

/// Whether an HTTP status is a success (2xx).
pub open spec fn is_success_status(status: u16) -> bool {
    200 <= status < 300
}

/// Accepts a successful ARI reply; any other status is a REST error that
/// names the status and the URL.
pub fn check_rest_status(status: u16, url: String) -> (r: Result<(), AriError>)
    ensures
        is_success_status(status) ==> r is Ok,
        !is_success_status(status) ==> (r matches Err(AriError::Rest { status: s, url: u }) && s == status && u == url),
{
    if 200 <= status && status < 300 {
        Ok(())
    } else {
        Err(AriError::Rest { status, url })
    }
}

/// The address Asterisk is told to send a call's media to.
pub fn external_media_host(audio_host: &str, port: u16) -> (host: String)
    ensures
        host@ == audio_host@ + ":"@ + decimal(port as nat),
{
    let mut h = String::new();
    push_str(&mut h, audio_host);
    push_str(&mut h, ":");
    let p = decimal_string(port as u64);
    push_str(&mut h, p.as_str());
    h
}

/// Number of 320-sample packets that `n` samples make (the last may be short).
pub open spec fn packet_count(n: nat) -> nat {
    ((n + 319) / 320) as nat
}

/// The samples of packet `k`.
pub open spec fn packet_chunk(s: Seq<i16>, k: int) -> Seq<i16> {
    s.subrange(320 * k, if 320 * k + 320 <= s.len() { 320 * k + 320 } else { s.len() as int })
}

/// `x + k` modulo 2^16.
pub open spec fn wrap16(x: u16, k: int) -> u16 {
    ((x + k) % 65536) as u16
}

/// `x + k` modulo 2^32.
pub open spec fn wrap32(x: u32, k: int) -> u32 {
    ((x + k) % 4294967296) as u32
}

/// A big-endian 16-bit value from two bytes.
pub open spec fn be_u16(a: u8, b: u8) -> u16 {
    (a * 256 + b) as u16
}

/// A big-endian 32-bit value from four bytes.
pub open spec fn be_u32(a: u8, b: u8, c: u8, d: u8) -> u32 {
    (a * 16777216 + b * 65536 + c * 256 + d) as u32
}

proof fn lemma_wrap_steps(seq0: u16, ts0: u32, k: int)
    requires
        k >= 0,
    ensures
        wrap16(seq0, k + 1) == vstd::wrapping::u16_specs::wrapping_add(wrap16(seq0, k), 1),
        wrap32(ts0, 160 * (k + 1)) == vstd::wrapping::u32_specs::wrapping_add(wrap32(ts0, 160 * k), 160),
{
    assert(((seq0 + k) % 65536 + 1) % 65536 == (seq0 + k + 1) % 65536) by {
        vstd::arithmetic::div_mod::lemma_add_mod_noop(seq0 + k, 1, 65536);
    }
    assert(((ts0 + 160 * k) % 4294967296 + 160) % 4294967296 == (ts0 + 160 * k + 160) % 4294967296) by {
        vstd::arithmetic::div_mod::lemma_add_mod_noop(ts0 + 160 * k, 160, 4294967296);
    }
}

proof fn lemma_packet_count_step(start: int, end: int, k: int)
    requires
        k >= 0,
        start == 320 * k,
        start < end,
        end == start + 320 || end < start + 320,
    ensures
        packet_count(end as nat) == k + 1,
{
    assert((end + 319) / 320 == k + 1) by (nonlinear_arith)
        requires
            start == 320 * k,
            start < end,
            end <= start + 320,
    ;
}

/// The RTP stream of one call: the numbering of the packets sent and the
/// clock of the audio received.
pub struct RtpStream {
    sequence: u16,
    timestamp: u32,
    ssrc: u32,
    received_ms: u64,
}

impl RtpStream {
    /// Sequence number of the next packet sent.
    pub closed spec fn next_sequence(&self) -> u16 {
        self.sequence
    }

    /// RTP timestamp of the next packet sent.
    pub closed spec fn next_timestamp(&self) -> u32 {
        self.timestamp
    }

    /// Source identifier of the packets sent.
    pub closed spec fn source(&self) -> u32 {
        self.ssrc
    }

    /// Milliseconds of audio received so far.
    pub closed spec fn received(&self) -> u64 {
        self.received_ms
    }

    /// A stream whose numbering starts from random bytes: the sequence from
    /// the first two, the timestamp from the next four, the source from the
    /// four after.
    pub fn from_seed(seed: &[u8]) -> (s: RtpStream)
        requires
            seed@.len() >= 10,
        ensures
            s.next_sequence() == be_u16(seed@[0], seed@[1]),
            s.next_timestamp() == be_u32(seed@[2], seed@[3], seed@[4], seed@[5]),
            s.source() == be_u32(seed@[6], seed@[7], seed@[8], seed@[9]),
            s.received() == 0,
    {
        let sequence = seed[0] as u16 * 256 + seed[1] as u16;
        let timestamp = seed[2] as u32 * 16777216 + seed[3] as u32 * 65536 + seed[4] as u32 * 256 + seed[5] as u32;
        let ssrc = seed[6] as u32 * 16777216 + seed[7] as u32 * 65536 + seed[8] as u32 * 256 + seed[9] as u32;
        RtpStream { sequence, timestamp, ssrc, received_ms: 0 }
    }

    /// The PCMU packets for a chunk of synthesized 16 kHz audio, 20 ms each,
    /// numbered on from where the stream stands.
    pub fn packets_for(&mut self, samples: &[i16]) -> (packets: Vec<Vec<u8>>)
        ensures
            packets@.len() == packet_count(samples@.len()),
            forall|k: int| 0 <= k < packets@.len() ==> #[trigger] packets@[k]@ == pcmu_packet(
                pcmu_payload(packet_chunk(samples@, k)),
                wrap16(old(self).next_sequence(), k),
                wrap32(old(self).next_timestamp(), 160 * k),
                old(self).source(),
            ),
            final(self).next_sequence() == wrap16(old(self).next_sequence(), packets@.len() as int),
            final(self).next_timestamp() == wrap32(old(self).next_timestamp(), 160 * packets@.len() as int),
            final(self).source() == old(self).source(),
            final(self).received() == old(self).received(),
    {
        let ghost seq0 = self.sequence;
        let ghost ts0 = self.timestamp;
        let mut packets: Vec<Vec<u8>> = Vec::new();
        let mut start: usize = 0;
        let mut k: usize = 0;
        while start < samples.len()
            invariant
                k == packets@.len(),
                start <= samples@.len(),
                start < samples@.len() ==> start == 320 * k,
                k == packet_count(start as nat),
                self.sequence == wrap16(seq0, k as int),
                self.timestamp == wrap32(ts0, 160 * k),
                self.ssrc == old(self).ssrc,
                self.received_ms == old(self).received_ms,
                forall|q: int| 0 <= q < k ==> #[trigger] packets@[q]@ == pcmu_packet(
                    pcmu_payload(packet_chunk(samples@, q)),
                    wrap16(seq0, q),
                    wrap32(ts0, 160 * q),
                    self.ssrc,
                ),
            decreases samples@.len() - start,
        {
            let end = if samples.len() - start >= RTP_FRAME_16K_SAMPLES { start + RTP_FRAME_16K_SAMPLES } else { samples.len() };
            let chunk = vstd::slice::slice_subrange(samples, start, end);
            assert(chunk@ == packet_chunk(samples@, k as int));
            let packet = build_pcmu_packet(chunk, self.sequence, self.timestamp, self.ssrc);
            packets.push(packet);
            proof {
                lemma_wrap_steps(seq0, ts0, k as int);
                lemma_packet_count_step(start as int, end as int, k as int);
            }
            self.sequence = self.sequence.wrapping_add(1);
            self.timestamp = self.timestamp.wrapping_add(RTP_TIMESTAMP_STEP);
            start = end;
            k += 1;
        }
        packets
    }

    /// A received RTP packet as a 16 kHz frame stamped with the audio time
    /// received before it; a malformed packet or an empty payload gives
    /// nothing.
    pub fn on_packet(&mut self, packet: &[u8]) -> (frame: Option<AudioFrame>)
        requires
            packet@.len() <= 65535,
            old(self).received() + packet@.len() <= u64::MAX,
        ensures
            final(self).next_sequence() == old(self).next_sequence(),
            final(self).next_timestamp() == old(self).next_timestamp(),
            final(self).source() == old(self).source(),
            match rtp_payload_range(packet@) {
                Some((start, end)) if end > start => {
                    let payload = packet@.subrange(start, end);
                    &&& frame matches Some(f)
                    &&& f.data@ == upsampled(payload.map_values(|e: u8| mulaw_decode(e)))
                    &&& f.sample_rate == 16000
                    &&& f.timestamp_ms == old(self).received()
                    &&& final(self).received() == old(self).received() + 2 * payload.len() * 1000 / 16000
                },
                _ => frame is None && final(self).received() == old(self).received(),
            },
    {
        match parse_rtp_payload(packet) {
            None => None,
            Some(payload) => {
                if payload.len() == 0 {
                    return None;
                }
                let frame = pcmu_payload_to_frame(payload, self.received_ms);
                let d = frame.duration_ms();
                self.received_ms = self.received_ms + d;
                Some(frame)
            },
        }
    }
}

/// What the media bridge does with an event from the pipeline.
pub enum EgressStep {
    /// Send synthesized audio to Asterisk.
    Play,
    /// Stop the bridge.
    Stop,
    /// Nothing.
    Skip,
}

/// Synthesized audio is played, the end of the session stops the bridge,
/// other events are skipped.
pub fn egress_step(event: &PipelineEvent) -> (s: EgressStep)
    ensures
        (s is Play) == (event is TtsAudioChunk),
        (s is Stop) == (event is SessionEnd),
{
    match event {
        PipelineEvent::TtsAudioChunk { .. } => EgressStep::Play,
        PipelineEvent::SessionEnd => EgressStep::Stop,
        _ => EgressStep::Skip,
    }
}

} // verus!
