//! The audio frame and the events passed between the transports and the
//! voice pipeline.

use vstd::prelude::*;
use crate::pcm::{pcm_decode, pcm_encode, pcm_bytes_to_samples, samples_to_pcm_bytes};

verus! {

/// Sample rate of every frame inside the pipeline.
pub const PIPELINE_SAMPLE_RATE: u32 = 16000;

/// Events flowing out of the voice pipeline.
pub enum PipelineEvent {
    SpeechStarted { timestamp_ms: u64 },
    SpeechEnded { timestamp_ms: u64 },
    PartialTranscript { text: String },
    FinalTranscript { text: String },
    AgentPartialResponse { text: String },
    AgentFinalResponse { text: String },
    TtsAudioChunk { frame: AudioFrame, sequence: u32 },
    TtsComplete,
    ComponentError { component: String, error: String, recoverable: bool },
    SessionEnd,
}

/// A block of mono 16-bit PCM with its capture time.
pub struct AudioFrame {
    pub data: Vec<i16>,
    pub sample_rate: u32,
    pub channels: u16,
    pub timestamp_ms: u64,
}

/// Duration in milliseconds of `n` samples at `rate` Hz (rounded down).
pub open spec fn samples_duration_ms(n: nat, rate: nat) -> nat {
    (n * 1000 / rate) as nat
}

impl AudioFrame {
    /// A 16 kHz mono frame holding `data`, stamped at `timestamp_ms`.
    pub fn new(data: Vec<i16>, timestamp_ms: u64) -> (frame: AudioFrame)
        ensures
            frame.data@ == data@,
            frame.sample_rate == PIPELINE_SAMPLE_RATE,
            frame.channels == 1,
            frame.timestamp_ms == timestamp_ms,
    {
        AudioFrame { data, sample_rate: PIPELINE_SAMPLE_RATE, channels: 1, timestamp_ms }
    }

    /// Number of samples in the frame.
    pub fn num_samples(&self) -> (n: usize)
        ensures
            n == self.data@.len(),
    {
        self.data.len()
    }

    /// Duration of the frame in whole milliseconds.
    pub fn duration_ms(&self) -> (ms: u64)
        requires
            self.sample_rate > 0,
            self.data@.len() * 1000 <= u64::MAX,
        ensures
            ms == samples_duration_ms(self.data@.len(), self.sample_rate as nat),
    {
        (self.data.len() as u64 * 1000) / self.sample_rate as u64
    }

    /// A 16 kHz frame decoded from little-endian PCM bytes.
    pub fn from_pcm_bytes(bytes: &[u8], timestamp_ms: u64) -> (frame: AudioFrame)
        ensures
            frame.data@ == pcm_decode(bytes@),
            frame.sample_rate == PIPELINE_SAMPLE_RATE,
            frame.channels == 1,
            frame.timestamp_ms == timestamp_ms,
    {
        AudioFrame::new(pcm_bytes_to_samples(bytes), timestamp_ms)
    }

    /// The frame's samples as little-endian PCM bytes.
    pub fn to_pcm_bytes(&self) -> (bytes: Vec<u8>)
        requires
            2 * self.data@.len() <= usize::MAX,
        ensures
            bytes@ == pcm_encode(self.data@),
    {
        samples_to_pcm_bytes(self.data.as_slice())
    }

    /// A frame of `duration_ms` milliseconds of silence at 16 kHz.
    pub fn silence(duration_ms: u64, timestamp_ms: u64) -> (frame: AudioFrame)
        requires
            duration_ms * 16 <= usize::MAX,
        ensures
            frame.data@ == Seq::new((duration_ms * 16) as nat, |i: int| 0i16),
            frame.sample_rate == PIPELINE_SAMPLE_RATE,
            frame.channels == 1,
            frame.timestamp_ms == timestamp_ms,
    {
        let n = (duration_ms * 16) as usize;
        let mut data: Vec<i16> = Vec::with_capacity(n);
        let mut i: usize = 0;
        while i < n
            invariant
                i <= n,
                data@ =~= Seq::new(i as nat, |k: int| 0i16),
            decreases n - i,
        {
            data.push(0);
            i += 1;
        }
        AudioFrame::new(data, timestamp_ms)
    }
}

} // verus!
