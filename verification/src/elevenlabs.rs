//! The ElevenLabs streaming TTS provider: its settings, the stream URL, the
//! cancel flag, and what each server message turns into.

use vstd::prelude::*;
use std::sync::Arc;
use std::sync::atomic::{AtomicBool, Ordering};
use base64::Engine;
use crate::frame::{AudioFrame, PIPELINE_SAMPLE_RATE};
use crate::pcm::pcm_decode;
use crate::text::push_str;
use crate::tts::TtsError;

verus! {

/// Model used when none is chosen.
pub const DEFAULT_ELEVENLABS_MODEL: &'static str = "eleven_multilingual_v2";

/// ElevenLabs streaming TTS provider (WebSocket API).
pub struct ElevenLabsProvider {
    api_key: String,
    voice_id: String,
    model_id: String,
    cancelled: Arc<AtomicBool>,
}

impl ElevenLabsProvider {
    /// The API key.
    pub closed spec fn api_key_view(&self) -> Seq<char> {
        self.api_key@
    }

    /// The voice.
    pub closed spec fn voice_id_view(&self) -> Seq<char> {
        self.voice_id@
    }

    /// The model.
    pub closed spec fn model_id_view(&self) -> Seq<char> {
        self.model_id@
    }

    /// A provider for `voice_id` with the default model.
    pub fn new(api_key: String, voice_id: String) -> (p: ElevenLabsProvider)
        ensures
            p.api_key_view() == api_key@,
            p.voice_id_view() == voice_id@,
            p.model_id_view() == DEFAULT_ELEVENLABS_MODEL@,
    {
        ElevenLabsProvider {
            api_key,
            voice_id,
            model_id: DEFAULT_ELEVENLABS_MODEL.to_owned(),
            cancelled: Arc::new(AtomicBool::new(false)),
        }
    }

    /// The same provider with another model.
    pub fn with_model(self, model_id: String) -> (p: ElevenLabsProvider)
        ensures
            p.api_key_view() == self.api_key_view(),
            p.voice_id_view() == self.voice_id_view(),
            p.model_id_view() == model_id@,
    {
        let mut p = self;
        p.model_id = model_id;
        p
    }

    /// The voice this provider speaks with.
    pub fn voice_id(&self) -> (v: &str)
        ensures
            v@ == self.voice_id_view(),
    {
        self.voice_id.as_str()
    }

    /// The model this provider synthesizes with.
    pub fn model_id(&self) -> (m: &str)
        ensures
            m@ == self.model_id_view(),
    {
        self.model_id.as_str()
    }

    /// The API key sent with the opening message.
    pub fn api_key(&self) -> (k: &str)
        ensures
            k@ == self.api_key_view(),
    {
        self.api_key.as_str()
    }

    /// The stream-input WebSocket URL for this voice and model.
    pub fn stream_url(&self) -> (url: String)
        ensures
            url@ == "wss://api.elevenlabs.io/v1/text-to-speech/"@ + self.voice_id_view()
                + "/stream-input?model_id="@ + self.model_id_view(),
    {
        let mut url = String::new();
        push_str(&mut url, "wss://api.elevenlabs.io/v1/text-to-speech/");
        push_str(&mut url, self.voice_id.as_str());
        push_str(&mut url, "/stream-input?model_id=");
        push_str(&mut url, self.model_id.as_str());
        url
    }

    /// Asks a running synthesis to stop at its next step.
    pub fn cancel(&self) {
        self.cancelled.store(true, Ordering::Relaxed);
    }

    /// Clears the cancel request before a new synthesis.
    pub fn reset_cancel(&self) {
        self.cancelled.store(false, Ordering::Relaxed);
    }

    /// Whether a cancel has been requested (the flag is shared with running
    /// syntheses, so its value is whatever was stored last).
    pub fn is_cancelled(&self) -> bool {
        self.cancelled.load(Ordering::Relaxed)
    }
}

/// A synthesized chunk of audio and its place in the stream.
pub struct AudioChunk {
    pub frame: AudioFrame,
    pub sequence: u32,
}

/// What one server message yields: perhaps a chunk of audio, the sequence
/// number of the next chunk, and whether synthesis is complete.
pub struct ResponseStep {
    pub chunk: Option<AudioChunk>,
    pub next_sequence: u32,
    pub complete: bool,
}

/// `step` is what a message with decoded audio `decoded` and final flag
/// `is_final` yields when the next chunk is number `sequence`: non-empty
/// audio becomes a 16 kHz chunk stamped 0 with that number.
pub open spec fn response_step_matches(
    step: ResponseStep,
    decoded: Option<Seq<u8>>,
    is_final: Option<bool>,
    sequence: u32,
) -> bool {
    &&& step.complete == (is_final == Some(true))
    &&& if decoded is Some && decoded->0.len() > 0 {
        &&& step.chunk matches Some(c)
        &&& c.sequence == sequence
        &&& c.frame.data@ == pcm_decode(decoded->0)
        &&& c.frame.sample_rate == PIPELINE_SAMPLE_RATE
        &&& c.frame.channels == 1
        &&& c.frame.timestamp_ms == 0
        &&& step.next_sequence == sequence + 1
    } else {
        step.chunk is None && step.next_sequence == sequence
    }
}

/// The step for a message whose audio, if any, has been decoded already.
pub fn audio_response_step(decoded: Option<&[u8]>, is_final: Option<bool>, sequence: u32) -> (step: ResponseStep)
    requires
        decoded matches Some(b) && b@.len() > 0 ==> sequence < u32::MAX,
    ensures
        response_step_matches(
            step,
            match decoded {
                Some(b) => Some(b@),
                None => None,
            },
            is_final,
            sequence,
        ),
{
    let complete = match is_final {
        Some(f) => f,
        None => false,
    };
    match decoded {
        Some(bytes) => {
            if bytes.len() > 0 {
                let frame = AudioFrame::from_pcm_bytes(bytes, 0);
                ResponseStep { chunk: Some(AudioChunk { frame, sequence }), next_sequence: sequence + 1, complete }
            } else {
                ResponseStep { chunk: None, next_sequence: sequence, complete }
            }
        },
        None => ResponseStep { chunk: None, next_sequence: sequence, complete },
    }
}

/// What standard base64 decoding gives for a text: the bytes, or the
/// decoder's error message.
pub uninterp spec fn base64_standard_decode(text: Seq<char>) -> Result<Seq<u8>, Seq<char>>;

/// `base64::engine::general_purpose::STANDARD.decode` on the text's bytes;
/// an error is handed back as its message. The result is named, not stated.
#[verifier::external_body]
fn base64_decode(text: &str) -> (r: Result<Vec<u8>, String>)
    ensures
        match r {
            Ok(bytes) => base64_standard_decode(text@) == Ok::<Seq<u8>, Seq<char>>(bytes@),
            Err(msg) => base64_standard_decode(text@) == Err::<Seq<u8>, Seq<char>>(msg@),
        },
{
    match base64::engine::general_purpose::STANDARD.decode(text) {
        Ok(bytes) => Ok(bytes),
        Err(e) => Err(e.to_string()),
    }
}

/// Handles one parsed server message (`audio` in base64, `isFinal`): its
/// audio is decoded and framed; a decoding failure is a synthesis error.
pub fn elevenlabs_response_step(audio: Option<&str>, is_final: Option<bool>, sequence: u32) -> (r: Result<ResponseStep, TtsError>)
    requires
        audio is Some ==> sequence < u32::MAX,
    ensures
        match audio {
            None => r matches Ok(step) && response_step_matches(step, None, is_final, sequence),
            Some(text) => match base64_standard_decode(text@) {
                Ok(bytes) => r matches Ok(step) && response_step_matches(step, Some(bytes), is_final, sequence),
                Err(msg) => r matches Err(TtsError::SynthesisError(m)) && m@ == "base64 decode error: "@ + msg,
            },
        },
{
    match audio {
        None => Ok(audio_response_step(None, is_final, sequence)),
        Some(text) => match base64_decode(text) {
            Ok(bytes) => Ok(audio_response_step(Some(bytes.as_slice()), is_final, sequence)),
            Err(msg) => {
                let mut m = String::new();
                push_str(&mut m, "base64 decode error: ");
                push_str(&mut m, msg.as_str());
                Err(TtsError::SynthesisError(m))
            },
        },
    }
}

} // verus!
