//! The WebSocket transport of the voice bot: its protocol messages, the
//! decoding of inbound audio into pipeline frames, what each pipeline event
//! is sent as, and the WAV form of recorded sessions.

use vstd::prelude::*;
use crate::frame::{AudioFrame, PipelineEvent, PIPELINE_SAMPLE_RATE};
use crate::pcm::{pcm_decode, pcm_encode, pcm_bytes_to_samples, samples_to_pcm_bytes};
use crate::text::push_str;

verus! {

/// Samples in one 20 ms pipeline frame.
pub const PIPELINE_FRAME_SAMPLES: usize = 320;

/// Duration of one pipeline frame in milliseconds.
pub const PIPELINE_FRAME_DURATION_MS: u64 = 20;

/// Errors of the WebSocket transport.
pub enum TransportError {
    InvalidFrameSize(usize),
    InvalidJson(String),
    SessionStartTimeout,
    Session(String),
    InvalidSampleRate(u32),
    AudioResampler(String),
}

/// Messages a client sends.
pub enum ClientMessage {
    SessionStart { language: String, asr: String, tts: String, sample_rate: Option<u32> },
    SessionEnd,
}

/// Messages the server sends.
pub enum ServerMessage {
    SessionReady,
    SpeechStarted { timestamp_ms: u64 },
    TranscriptPartial { text: String },
    TranscriptFinal { text: String },
    AgentPartial { text: String },
    AgentFinal { text: String },
    TtsComplete,
    Error { code: String, recoverable: bool },
}

/// What is sent to the client for a pipeline event.
pub enum Outbound {
    Text(ServerMessage),
    Binary(Vec<u8>),
    Nothing,
}

/// The message for each pipeline event: speech starts, transcripts and
/// agent responses and the end of speech as JSON messages, synthesized
/// audio as binary PCM, a component error as an error message whose code is
/// `component_error`; other events are not sent.
pub fn outbound_for(event: PipelineEvent) -> (out: Outbound)
    requires
        event matches PipelineEvent::TtsAudioChunk { frame, .. } ==> 2 * frame.data@.len() <= usize::MAX,
    ensures
        match event {
            PipelineEvent::SpeechStarted { timestamp_ms } => out == Outbound::Text(ServerMessage::SpeechStarted { timestamp_ms }),
            PipelineEvent::PartialTranscript { text } => out == Outbound::Text(ServerMessage::TranscriptPartial { text }),
            PipelineEvent::FinalTranscript { text } => out == Outbound::Text(ServerMessage::TranscriptFinal { text }),
            PipelineEvent::AgentPartialResponse { text } => out == Outbound::Text(ServerMessage::AgentPartial { text }),
            PipelineEvent::AgentFinalResponse { text } => out == Outbound::Text(ServerMessage::AgentFinal { text }),
            PipelineEvent::TtsAudioChunk { frame, .. } => out matches Outbound::Binary(b) && b@ == pcm_encode(frame.data@),
            PipelineEvent::TtsComplete => out == Outbound::Text(ServerMessage::TtsComplete),
            PipelineEvent::ComponentError { component, error, recoverable } => out matches Outbound::Text(
                ServerMessage::Error { code, recoverable: r },
            ) && r == recoverable && code@ == component@ + "_"@ + error@,
            _ => out is Nothing,
        },
{
    match event {
        PipelineEvent::SpeechStarted { timestamp_ms } => Outbound::Text(ServerMessage::SpeechStarted { timestamp_ms }),
        PipelineEvent::PartialTranscript { text } => Outbound::Text(ServerMessage::TranscriptPartial { text }),
        PipelineEvent::FinalTranscript { text } => Outbound::Text(ServerMessage::TranscriptFinal { text }),
        PipelineEvent::AgentPartialResponse { text } => Outbound::Text(ServerMessage::AgentPartial { text }),
        PipelineEvent::AgentFinalResponse { text } => Outbound::Text(ServerMessage::AgentFinal { text }),
        PipelineEvent::TtsAudioChunk { frame, .. } => Outbound::Binary(samples_to_pcm_bytes(frame.data.as_slice())),
        PipelineEvent::TtsComplete => Outbound::Text(ServerMessage::TtsComplete),
        PipelineEvent::ComponentError { component, error, recoverable } => {
            let mut code = String::new();
            push_str(&mut code, component.as_str());
            push_str(&mut code, "_");
            push_str(&mut code, error.as_str());
            Outbound::Text(ServerMessage::Error { code, recoverable })
        },
        _ => Outbound::Nothing,
    }
}

/// The input sample rate a `session_start` announces: 16 kHz when it names
/// none; zero is refused.
pub fn session_input_rate(sample_rate: Option<u32>) -> (r: Result<u32, TransportError>)
    ensures
        match sample_rate {
            None => r == Ok::<u32, TransportError>(PIPELINE_SAMPLE_RATE),
            Some(0) => r matches Err(TransportError::InvalidSampleRate(0)),
            Some(rate) => r == Ok::<u32, TransportError>(rate),
        },
{
    match sample_rate {
        None => Ok(PIPELINE_SAMPLE_RATE),
        Some(rate) => if rate == 0 { Err(TransportError::InvalidSampleRate(0)) } else { Ok(rate) },
    }
}

/// Samples in 20 ms at `sample_rate`, rounded to the nearest.
pub fn samples_per_20ms(sample_rate: u32) -> (n: usize)
    ensures
        n == (sample_rate + 25) / 50,
{
    ((sample_rate as u64 + 25) / 50) as usize
}

/// The samples of a binary audio message; an odd number of bytes is an
/// invalid frame size.
pub fn decode_pcm_message(bytes: &[u8]) -> (r: Result<Vec<i16>, TransportError>)
    ensures
        bytes@.len() % 2 == 0 ==> (r matches Ok(s) && s@ == pcm_decode(bytes@)),
        bytes@.len() % 2 == 1 ==> (r matches Err(TransportError::InvalidFrameSize(n)) && n == bytes@.len()),
{
    if bytes.len() % 2 != 0 {
        Err(TransportError::InvalidFrameSize(bytes.len()))
    } else {
        Ok(pcm_bytes_to_samples(bytes))
    }
}

/// The frames that whole 320-sample blocks of `s` make.
pub open spec fn blocks_of(s: Seq<i16>) -> Seq<Seq<i16>> {
    Seq::new(s.len() / 320, |i: int| s.subrange(320 * i, 320 * i + 320))
}

/// What is left of `s` after its whole 320-sample blocks.
pub open spec fn blocks_rest(s: Seq<i16>) -> Seq<i16> {
    s.skip(320 * (s.len() / 320) as int)
}

/// Client audio is framed continuously across messages: framing `x` and then
/// what was left of it followed by `y` gives the frames of `x` followed by `y`,
/// in the same order, and leaves the same rest. So splitting a stream into
/// messages anywhere changes neither the frames nor their timestamps.
pub proof fn lemma_blocks_continue(x: Seq<i16>, y: Seq<i16>)
    ensures
        blocks_of(x) + blocks_of(blocks_rest(x) + y) == blocks_of(x + y),
        blocks_rest(blocks_rest(x) + y) == blocks_rest(x + y),
{
    let q = x.len() / 320;
    let r = blocks_rest(x);
    let z = r + y;
    let qz = z.len() / 320;
    assert(320 * q <= x.len()) by (nonlinear_arith)
        requires q == x.len() / 320;
    assert(r.len() == x.len() - 320 * q);
    assert((x + y).len() / 320 == q + qz) by (nonlinear_arith)
        requires
            q == x.len() / 320,
            qz == z.len() / 320,
            z.len() == x.len() - 320 * q + y.len(),
            (x + y).len() == x.len() + y.len(),
    ;
    assert forall|i: int| 0 <= i < q + qz implies (blocks_of(x) + blocks_of(z))[i] == #[trigger] blocks_of(x + y)[i] by {
        if i < q {
            assert(320 * i + 320 <= 320 * q) by (nonlinear_arith)
                requires i < q;
            assert(blocks_of(x)[i] =~= (x + y).subrange(320 * i, 320 * i + 320));
        } else {
            let j = i - q;
            assert(320 * j + 320 <= 320 * qz) by (nonlinear_arith)
                requires j < qz;
            assert(320 * qz <= z.len()) by (nonlinear_arith)
                requires qz == z.len() / 320;
            assert(320 * i == 320 * q + 320 * j);
            assert(blocks_of(z)[j] =~= (x + y).subrange(320 * i, 320 * i + 320));
        }
    }
    assert(blocks_of(x) + blocks_of(z) =~= blocks_of(x + y));
    assert(320 * qz <= z.len()) by (nonlinear_arith)
        requires qz == z.len() / 320;
    assert(blocks_rest(z) =~= blocks_rest(x + y));
}

/// Turns a client's audio into 20 ms pipeline frames with running
/// timestamps. Audio that is not at 16 kHz is resampled by the caller before
/// it is handed in.
pub struct InboundAudioDecoder {
    next_timestamp_ms: u64,
    output_residual: Vec<i16>,
    input_sample_rate: u32,
}

impl InboundAudioDecoder {
    /// Timestamp of the next frame.
    pub closed spec fn next_timestamp(&self) -> u64 {
        self.next_timestamp_ms
    }

    /// Samples received and not yet framed.
    pub closed spec fn residual(&self) -> Seq<i16> {
        self.output_residual@
    }

    /// The client's sample rate.
    pub closed spec fn input_rate(&self) -> u32 {
        self.input_sample_rate
    }

    /// A decoder for a client sending at `input_sample_rate`; zero is refused.
    pub fn new(input_sample_rate: u32) -> (r: Result<InboundAudioDecoder, TransportError>)
        ensures
            input_sample_rate == 0 ==> r matches Err(TransportError::InvalidSampleRate(0)),
            input_sample_rate != 0 ==> (r matches Ok(d) && d.next_timestamp() == 0 && d.residual() == Seq::<i16>::empty()
                && d.input_rate() == input_sample_rate),
    {
        if input_sample_rate == 0 {
            return Err(TransportError::InvalidSampleRate(input_sample_rate));
        }
        Ok(InboundAudioDecoder { next_timestamp_ms: 0, output_residual: Vec::new(), input_sample_rate })
    }

    /// How many samples are held back until a whole frame is available.
    pub fn buffered_len(&self) -> (n: usize)
        ensures
            n == self.residual().len(),
    {
        self.output_residual.len()
    }

    /// Timestamp the next frame will carry.
    pub fn next_frame_timestamp(&self) -> (t: u64)
        ensures
            t == self.next_timestamp(),
    {
        self.next_timestamp_ms
    }

    /// Whether the client's audio must be resampled to 16 kHz first.
    pub fn needs_resampling(&self) -> (r: bool)
        ensures
            r == (self.input_rate() != PIPELINE_SAMPLE_RATE),
    {
        self.input_sample_rate != PIPELINE_SAMPLE_RATE
    }

    /// Takes in 16 kHz samples and hands out every whole frame now available,
    /// stamped 20 ms apart.
    pub fn push_normalized(&mut self, samples: &[i16]) -> (frames: Vec<AudioFrame>)
        requires
            old(self).residual().len() + samples@.len() <= usize::MAX,
            old(self).next_timestamp() + 20 * ((old(self).residual().len() + samples@.len()) / 320) <= u64::MAX,
        ensures
            frames@.len() == blocks_of(old(self).residual() + samples@).len(),
            forall|i: int| 0 <= i < frames@.len() ==> {
                &&& #[trigger] frames@[i].data@ == blocks_of(old(self).residual() + samples@)[i]
                &&& frames@[i].timestamp_ms == old(self).next_timestamp() + 20 * i
                &&& frames@[i].sample_rate == PIPELINE_SAMPLE_RATE
                &&& frames@[i].channels == 1
            },
            final(self).residual() == blocks_rest(old(self).residual() + samples@),
            final(self).next_timestamp() == old(self).next_timestamp() + 20 * frames@.len(),
            final(self).input_rate() == old(self).input_rate(),
    {
        let ghost t0 = self.next_timestamp_ms;
        let ghost rate0 = self.input_sample_rate;
        let mut all: Vec<i16> = Vec::new();
        let mut i: usize = 0;
        while i < self.output_residual.len()
            invariant
                i <= self.output_residual@.len(),
                all@ =~= self.output_residual@.take(i as int),
            decreases self.output_residual@.len() - i,
        {
            all.push(self.output_residual[i]);
            i += 1;
        }
        let mut j: usize = 0;
        while j < samples.len()
            invariant
                j <= samples@.len(),
                all@ =~= self.output_residual@ + samples@.take(j as int),
            decreases samples@.len() - j,
        {
            all.push(samples[j]);
            j += 1;
        }
        assert(all@ =~= self.output_residual@ + samples@);
        let n = all.len() / PIPELINE_FRAME_SAMPLES;
        let mut frames: Vec<AudioFrame> = Vec::new();
        let mut k: usize = 0;
        while k < n
            invariant
                k <= n,
                n == all.len() / 320,
                frames@.len() == k,
                self.next_timestamp_ms == t0 + 20 * k,
                self.input_sample_rate == rate0,
                t0 + 20 * n <= u64::MAX,
                forall|q: int| 0 <= q < k ==> {
                    &&& #[trigger] frames@[q].data@ == blocks_of(all@)[q]
                    &&& frames@[q].timestamp_ms == t0 + 20 * q
                    &&& frames@[q].sample_rate == PIPELINE_SAMPLE_RATE
                    &&& frames@[q].channels == 1
                },
            decreases n - k,
        {
            assert(k * 320 + 320 <= all.len()) by (nonlinear_arith)
                requires
                    k < n,
                    n == all.len() / 320,
            ;
            let start = k * PIPELINE_FRAME_SAMPLES;
            let block = vstd::slice::slice_to_vec(
                vstd::slice::slice_subrange(all.as_slice(), start, start + PIPELINE_FRAME_SAMPLES),
            );
            let frame = AudioFrame::new(block, self.next_timestamp_ms);
            frames.push(frame);
            self.next_timestamp_ms = self.next_timestamp_ms + PIPELINE_FRAME_DURATION_MS;
            k += 1;
        }
        assert(n * 320 <= all.len()) by (nonlinear_arith)
            requires
                n == all.len() / 320,
        ;
        let mut rest: Vec<i16> = Vec::new();
        let mut r: usize = n * PIPELINE_FRAME_SAMPLES;
        while r < all.len()
            invariant
                n * 320 <= r <= all@.len(),
                rest@ =~= all@.subrange(n * 320, r as int),
            decreases all@.len() - r,
        {
            rest.push(all[r]);
            r += 1;
        }
        self.output_residual = rest;
        frames
    }

    /// Decodes a binary message of 16 kHz audio into frames; an odd number
    /// of bytes is an invalid frame size and changes nothing.
    pub fn decode(&mut self, bytes: &[u8]) -> (r: Result<Vec<AudioFrame>, TransportError>)
        requires
            old(self).input_rate() == PIPELINE_SAMPLE_RATE,
            old(self).residual().len() + bytes@.len() / 2 <= usize::MAX,
            old(self).next_timestamp() + 20 * ((old(self).residual().len() + bytes@.len() / 2) / 320) <= u64::MAX,
        ensures
            bytes@.len() % 2 == 1 ==> (r matches Err(TransportError::InvalidFrameSize(n)) && n == bytes@.len()
                && *final(self) == *old(self)),
            bytes@.len() % 2 == 0 ==> (r matches Ok(frames) && {
                let all = old(self).residual() + pcm_decode(bytes@);
                &&& frames@.len() == blocks_of(all).len()
                &&& forall|i: int| 0 <= i < frames@.len() ==> {
                    &&& #[trigger] frames@[i].data@ == blocks_of(all)[i]
                    &&& frames@[i].timestamp_ms == old(self).next_timestamp() + 20 * i
                    &&& frames@[i].sample_rate == PIPELINE_SAMPLE_RATE
                    &&& frames@[i].channels == 1
                }
                &&& final(self).residual() == blocks_rest(all)
                &&& final(self).next_timestamp() == old(self).next_timestamp() + 20 * frames@.len()
                &&& final(self).input_rate() == old(self).input_rate()
            }),
    {
        match decode_pcm_message(bytes) {
            Err(e) => Err(e),
            Ok(samples) => Ok(self.push_normalized(samples.as_slice())),
        }
    }
}

/// Little-endian bytes of a 16-bit value.
pub open spec fn le16(x: u16) -> Seq<u8> {
    seq![(x & 0xff) as u8, (x >> 8) as u8]
}

/// Little-endian bytes of a 32-bit value.
pub open spec fn le32(x: u32) -> Seq<u8> {
    seq![(x & 0xff) as u8, ((x >> 8) & 0xff) as u8, ((x >> 16) & 0xff) as u8, (x >> 24) as u8]
}

/// A mono 16-bit PCM WAV file of `samples` at `rate` Hz.
pub open spec fn wav_bytes(samples: Seq<i16>, rate: u32) -> Seq<u8> {
    let data_bytes = (2 * samples.len()) as u32;
    seq![82u8, 73, 70, 70] + le32((36 + 2 * samples.len()) as u32) + seq![87u8, 65, 86, 69]
        + seq![102u8, 109, 116, 32] + le32(16) + le16(1) + le16(1) + le32(rate) + le32((2 * rate) as u32)
        + le16(2) + le16(16) + seq![100u8, 97, 116, 97] + le32(data_bytes) + pcm_encode(samples)
}

fn push_le16(out: &mut Vec<u8>, x: u16)
    ensures
        final(out)@ == old(out)@ + le16(x),
{
    out.push((x & 0xff) as u8);
    out.push((x >> 8) as u8);
    assert(final(out)@ =~= old(out)@ + le16(x));
}

fn push_le32(out: &mut Vec<u8>, x: u32)
    ensures
        final(out)@ == old(out)@ + le32(x),
{
    out.push((x & 0xff) as u8);
    out.push(((x >> 8) & 0xff) as u8);
    out.push(((x >> 16) & 0xff) as u8);
    out.push((x >> 24) as u8);
    assert(final(out)@ =~= old(out)@ + le32(x));
}

fn push_tag(out: &mut Vec<u8>, a: u8, b: u8, c: u8, d: u8)
    ensures
        final(out)@ == old(out)@ + seq![a, b, c, d],
{
    out.push(a);
    out.push(b);
    out.push(c);
    out.push(d);
    assert(final(out)@ =~= old(out)@ + seq![a, b, c, d]);
}

/// Encodes mono 16-bit PCM at `sample_rate` Hz as a WAV file.
pub fn encode_pcm_to_wav(samples: &[i16], sample_rate: u32) -> (wav: Vec<u8>)
    requires
        36 + 2 * samples@.len() <= u32::MAX,
        2 * sample_rate <= u32::MAX,
    ensures
        wav@ == wav_bytes(samples@, sample_rate),
{
    let num_samples = samples.len() as u32;
    let byte_rate = sample_rate * 2;
    let data_bytes = num_samples * 2;
    let total_size = 36 + data_bytes;
    let mut out: Vec<u8> = Vec::new();
    push_tag(&mut out, 82, 73, 70, 70);
    push_le32(&mut out, total_size);
    push_tag(&mut out, 87, 65, 86, 69);
    push_tag(&mut out, 102, 109, 116, 32);
    push_le32(&mut out, 16);
    push_le16(&mut out, 1);
    push_le16(&mut out, 1);
    push_le32(&mut out, sample_rate);
    push_le32(&mut out, byte_rate);
    push_le16(&mut out, 2);
    push_le16(&mut out, 16);
    push_tag(&mut out, 100, 97, 116, 97);
    push_le32(&mut out, data_bytes);
    let ghost header = out@;
    let pcm = samples_to_pcm_bytes(samples);
    let mut i: usize = 0;
    while i < pcm.len()
        invariant
            i <= pcm@.len(),
            out@ =~= header + pcm@.take(i as int),
        decreases pcm@.len() - i,
    {
        out.push(pcm[i]);
        i += 1;
    }
    assert(pcm@.take(pcm@.len() as int) =~= pcm@);
    assert(out@ =~= wav_bytes(samples@, sample_rate));
    out
}

/// Sessions a tenant may hold at once when its own limit cannot be read.
pub const DEFAULT_MAX_CONCURRENT_SESSIONS: i64 = 10;

/// Whether a tenant with `active` sessions may open another: only below its
/// limit (the default limit when the tenant's own is unknown).
pub fn accept_session(active: i64, tenant_limit: Option<i64>) -> (accepted: bool)
    ensures
        accepted == (active < match tenant_limit {
            Some(l) => l,
            None => DEFAULT_MAX_CONCURRENT_SESSIONS,
        }),
{
    let limit = match tenant_limit {
        Some(l) => l,
        None => DEFAULT_MAX_CONCURRENT_SESSIONS,
    };
    active < limit
}

/// The key of the set of a tenant's active sessions.
pub fn active_sessions_key(tenant_id: &str) -> (key: String)
    ensures
        key@ == "tenant:"@ + tenant_id@ + ":active_sessions"@,
{
    let mut key = String::new();
    push_str(&mut key, "tenant:");
    push_str(&mut key, tenant_id);
    push_str(&mut key, ":active_sessions");
    key
}

/// Whether a finished session's recording is uploaded: recording is on for
/// its campaign, storage is configured, and audio was recorded.
pub fn should_upload_recording(recording_enabled: bool, storage_configured: bool, recorded: &[i16]) -> (r: bool)
    ensures
        r == (recording_enabled && storage_configured && recorded@.len() > 0),
{
    recording_enabled && storage_configured && recorded.len() > 0
}

/// What arrives on the client connection while a session is set up or runs.
pub enum ClientEvent {
    /// A text message, as parsed.
    Text(Result<ClientMessage, TransportError>),
    /// A binary message.
    Binary(Vec<u8>),
    /// The client closed the connection.
    Close,
    /// The connection failed.
    Failed(String),
    /// The stream of messages ended.
    Ended,
    /// Anything else (ping, pong).
    Other,
}

/// Where waiting for `session_start` stands after one event.
pub enum StartStep {
    /// The session starts with this input sample rate and these settings.
    Start { language: String, asr: String, tts: String, input_sample_rate: u32 },
    /// Keep waiting.
    Wait,
    /// Give up with this error.
    Fail(TransportError),
}

/// One step of waiting for `session_start`: a valid start begins the session
/// (at 16 kHz unless it names a rate; a zero rate is refused), any other
/// message is ignored, an unparsable one fails, and so does the connection
/// closing, failing or ending first.
pub fn session_start_step(event: ClientEvent) -> (s: StartStep)
    ensures
        match event {
            ClientEvent::Text(Ok(ClientMessage::SessionStart { language, asr, tts, sample_rate })) => match sample_rate {
                Some(0) => s matches StartStep::Fail(TransportError::InvalidSampleRate(0)),
                _ => s == StartStep::Start {
                    language,
                    asr,
                    tts,
                    input_sample_rate: match sample_rate {
                        Some(r) => r,
                        None => PIPELINE_SAMPLE_RATE,
                    },
                },
            },
            ClientEvent::Text(Ok(ClientMessage::SessionEnd)) => s is Wait,
            ClientEvent::Text(Err(e)) => s == StartStep::Fail(e),
            ClientEvent::Close => s matches StartStep::Fail(TransportError::Session(m))
                && m@ == "connection closed before session_start"@,
            ClientEvent::Failed(e) => s matches StartStep::Fail(TransportError::Session(m)) && m == e,
            ClientEvent::Ended => s matches StartStep::Fail(TransportError::Session(m))
                && m@ == "stream ended before session_start"@,
            _ => s is Wait,
        },
{
    match event {
        ClientEvent::Text(Ok(ClientMessage::SessionStart { language, asr, tts, sample_rate })) => {
            match session_input_rate(sample_rate) {
                Ok(rate) => StartStep::Start { language, asr, tts, input_sample_rate: rate },
                Err(e) => StartStep::Fail(e),
            }
        },
        ClientEvent::Text(Ok(ClientMessage::SessionEnd)) => StartStep::Wait,
        ClientEvent::Text(Err(e)) => StartStep::Fail(e),
        ClientEvent::Close => StartStep::Fail(TransportError::Session("connection closed before session_start".to_owned())),
        ClientEvent::Failed(e) => StartStep::Fail(TransportError::Session(e)),
        ClientEvent::Ended => StartStep::Fail(TransportError::Session("stream ended before session_start".to_owned())),
        _ => StartStep::Wait,
    }
}

/// What the running bridge does after a client event.
pub enum BridgeStep {
    /// Forward these frames to the pipeline.
    Forward(Vec<AudioFrame>),
    /// Keep going (a bad message is logged and skipped).
    Continue,
    /// End the session.
    Stop,
}

/// One client event of a running session at 16 kHz: audio is decoded into
/// frames (a bad frame is skipped), `session_end` or the connection closing,
/// failing or ending stops the session, anything else is ignored.
pub fn bridge_step(decoder: &mut InboundAudioDecoder, event: ClientEvent) -> (s: BridgeStep)
    requires
        old(decoder).input_rate() == PIPELINE_SAMPLE_RATE,
        event matches ClientEvent::Binary(b) ==> old(decoder).residual().len() + b@.len() / 2 <= usize::MAX
            && old(decoder).next_timestamp() + 20 * ((old(decoder).residual().len() + b@.len() / 2) / 320) <= u64::MAX,
    ensures
        match event {
            ClientEvent::Binary(b) => if b@.len() % 2 == 0 {
                s matches BridgeStep::Forward(frames) && frames@.len() == blocks_of(old(decoder).residual() + pcm_decode(b@)).len()
                    && (forall|i: int| 0 <= i < frames@.len() ==> {
                        &&& #[trigger] frames@[i].data@ == blocks_of(old(decoder).residual() + pcm_decode(b@))[i]
                        &&& frames@[i].timestamp_ms == old(decoder).next_timestamp() + 20 * i
                        &&& frames@[i].sample_rate == PIPELINE_SAMPLE_RATE
                        &&& frames@[i].channels == 1
                    })
                    && final(decoder).residual() == blocks_rest(old(decoder).residual() + pcm_decode(b@))
                    && final(decoder).next_timestamp() == old(decoder).next_timestamp() + 20 * frames@.len()
                    && final(decoder).input_rate() == old(decoder).input_rate()
            } else {
                s is Continue && *final(decoder) == *old(decoder)
            },
            ClientEvent::Text(Ok(ClientMessage::SessionEnd)) => s is Stop && *final(decoder) == *old(decoder),
            ClientEvent::Close | ClientEvent::Failed(_) | ClientEvent::Ended => s is Stop && *final(decoder) == *old(decoder),
            _ => s is Continue && *final(decoder) == *old(decoder),
        },
{
    match event {
        ClientEvent::Binary(bytes) => match decoder.decode(bytes.as_slice()) {
            Ok(frames) => BridgeStep::Forward(frames),
            Err(_) => BridgeStep::Continue,
        },
        ClientEvent::Text(Ok(ClientMessage::SessionEnd)) => BridgeStep::Stop,
        ClientEvent::Close | ClientEvent::Failed(_) | ClientEvent::Ended => BridgeStep::Stop,
        _ => BridgeStep::Continue,
    }
}

} // verus!
