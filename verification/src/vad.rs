//! Voice activity detection: the energy-gated detector's decisions, from a
//! stream of per-frame voiced/unvoiced verdicts to SpeechStarted /
//! SpeechEnded events, and the batch detector's segments and request body.

use vstd::prelude::*;
use crate::frame::AudioFrame;
use crate::pcm::pcm_encode;

verus! {

/// Duration of one analysed frame.
pub const FRAME_DURATION_MS: u32 = 20;

/// Timing thresholds of the detector.
pub struct VadTiming {
    /// Consecutive voiced time needed before speech is reported as started.
    pub min_speech_ms: u32,
    /// Consecutive silent time needed before speech is reported as ended.
    pub silence_ms: u32,
}

/// An event the detector emits.
#[derive(PartialEq, Eq, Structural)]
pub enum VadEvent {
    SpeechStarted { timestamp_ms: u64 },
    SpeechEnded { timestamp_ms: u64 },
}

/// The detector's state between frames.
pub struct VadState {
    pub is_speaking: bool,
    pub voiced_ms: u32,
    pub silence_ms: u32,
    pub last_timestamp_ms: u64,
}

/// The state and event after one frame: voiced time accumulates over
/// consecutive voiced frames and starts speech once it reaches `min_speech_ms`;
/// silent time accumulates over consecutive silent frames and ends speech once
/// it reaches `silence_ms`.
pub open spec fn vad_step(s: VadState, voiced: bool, ts: u64, t: VadTiming) -> (VadState, Option<VadEvent>) {
    if voiced {
        let v = (s.voiced_ms + 20) as u32;
        if !s.is_speaking && v >= t.min_speech_ms {
            (VadState { is_speaking: true, voiced_ms: v, silence_ms: 0, last_timestamp_ms: ts },
             Some(VadEvent::SpeechStarted { timestamp_ms: ts }))
        } else {
            (VadState { is_speaking: s.is_speaking, voiced_ms: v, silence_ms: 0, last_timestamp_ms: ts }, None)
        }
    } else {
        let q = (s.silence_ms + 20) as u32;
        if s.is_speaking && q >= t.silence_ms {
            (VadState { is_speaking: false, voiced_ms: 0, silence_ms: q, last_timestamp_ms: ts },
             Some(VadEvent::SpeechEnded { timestamp_ms: ts }))
        } else if s.is_speaking {
            (VadState { is_speaking: true, voiced_ms: s.voiced_ms, silence_ms: q, last_timestamp_ms: ts }, None)
        } else {
            (VadState { is_speaking: false, voiced_ms: 0, silence_ms: q, last_timestamp_ms: ts }, None)
        }
    }
}

impl VadState {
    /// The state before any frame.
    pub fn new() -> (s: VadState)
        ensures
            !s.is_speaking,
            s.voiced_ms == 0,
            s.silence_ms == 0,
            s.last_timestamp_ms == 0,
    {
        VadState { is_speaking: false, voiced_ms: 0, silence_ms: 0, last_timestamp_ms: 0 }
    }

    /// Takes one frame's verdict into account and returns the event it causes.
    pub fn on_frame(&mut self, voiced: bool, timestamp_ms: u64, timing: &VadTiming) -> (event: Option<VadEvent>)
        requires
            old(self).voiced_ms <= u32::MAX - 20,
            old(self).silence_ms <= u32::MAX - 20,
        ensures
            (*final(self), event) == vad_step(*old(self), voiced, timestamp_ms, *timing),
    {
        self.last_timestamp_ms = timestamp_ms;
        if voiced {
            self.voiced_ms = self.voiced_ms + FRAME_DURATION_MS;
            self.silence_ms = 0;
            if !self.is_speaking && self.voiced_ms >= timing.min_speech_ms {
                self.is_speaking = true;
                return Some(VadEvent::SpeechStarted { timestamp_ms });
            }
            None
        } else {
            self.silence_ms = self.silence_ms + FRAME_DURATION_MS;
            let mut event: Option<VadEvent> = None;
            if self.is_speaking && self.silence_ms >= timing.silence_ms {
                self.is_speaking = false;
                self.voiced_ms = 0;
                event = Some(VadEvent::SpeechEnded { timestamp_ms });
            }
            if !self.is_speaking {
                self.voiced_ms = 0;
            }
            event
        }
    }

    /// The event due when the audio stream ends: speech in progress ends at the
    /// last frame's timestamp.
    pub fn on_stream_end(&self) -> (event: Option<VadEvent>)
        ensures
            event == if self.is_speaking {
                Some(VadEvent::SpeechEnded { timestamp_ms: self.last_timestamp_ms })
            } else {
                None
            },
    {
        if self.is_speaking {
            Some(VadEvent::SpeechEnded { timestamp_ms: self.last_timestamp_ms })
        } else {
            None
        }
    }
}

/// Speech events alternate: a start is only reported while not speaking and
/// leaves the detector speaking, an end only while speaking and leaves it
/// silent, and a frame without an event leaves the speaking flag as it was.
pub proof fn lemma_vad_events_alternate(s: VadState, voiced: bool, ts: u64, t: VadTiming)
    ensures
        ({
            let (n, e) = vad_step(s, voiced, ts, t);
            &&& (e matches Some(VadEvent::SpeechStarted { .. }) ==> !s.is_speaking && n.is_speaking)
            &&& (e matches Some(VadEvent::SpeechEnded { .. }) ==> s.is_speaking && !n.is_speaking)
            &&& (e is None ==> n.is_speaking == s.is_speaking)
        }),
{
}

/// Speech never starts on a silent frame and never ends on a voiced one.
pub proof fn lemma_vad_event_matches_frame(s: VadState, voiced: bool, ts: u64, t: VadTiming)
    ensures
        ({
            let (n, e) = vad_step(s, voiced, ts, t);
            &&& (e matches Some(VadEvent::SpeechStarted { timestamp_ms }) ==> voiced && timestamp_ms == ts
                && n.voiced_ms >= t.min_speech_ms)
            &&& (e matches Some(VadEvent::SpeechEnded { timestamp_ms }) ==> !voiced && timestamp_ms == ts
                && n.silence_ms >= t.silence_ms)
        }),
{
}

/// The state after a stream of frames (voiced verdict, timestamp) and the
/// events they caused, in order.
pub open spec fn vad_run(s: VadState, frames: Seq<(bool, u64)>, t: VadTiming) -> (VadState, Seq<VadEvent>)
    decreases frames.len(),
{
    if frames.len() == 0 {
        (s, Seq::empty())
    } else {
        let (p, events) = vad_run(s, frames.drop_last(), t);
        let (n, e) = vad_step(p, frames.last().0, frames.last().1, t);
        (n, match e {
            Some(x) => events.push(x),
            None => events,
        })
    }
}

/// The events of a whole stream: those of its frames, then the end of
/// speech still in progress when the stream ends.
pub open spec fn vad_stream_events(s: VadState, frames: Seq<(bool, u64)>, t: VadTiming) -> Seq<VadEvent> {
    let (n, events) = vad_run(s, frames, t);
    if n.is_speaking {
        events.push(VadEvent::SpeechEnded { timestamp_ms: n.last_timestamp_ms })
    } else {
        events
    }
}

/// Over any stream, starting silent, the events strictly alternate
/// SpeechStarted, SpeechEnded, SpeechStarted, ... beginning with a start;
/// the detector is speaking exactly after an odd number of events; and with
/// the end-of-stream event every start is matched by an end.
pub proof fn lemma_vad_stream_alternates(s: VadState, frames: Seq<(bool, u64)>, t: VadTiming)
    requires
        !s.is_speaking,
    ensures
        ({
            let (n, events) = vad_run(s, frames, t);
            &&& forall|i: int| 0 <= i < events.len() ==> ((#[trigger] events[i]) is SpeechStarted <==> i % 2 == 0)
            &&& n.is_speaking <==> events.len() % 2 == 1
        }),
        forall|i: int| 0 <= i < vad_stream_events(s, frames, t).len()
            ==> ((#[trigger] vad_stream_events(s, frames, t)[i]) is SpeechStarted <==> i % 2 == 0),
        vad_stream_events(s, frames, t).len() % 2 == 0,
    decreases frames.len(),
{
    if frames.len() > 0 {
        lemma_vad_stream_alternates(s, frames.drop_last(), t);
        let (p, events) = vad_run(s, frames.drop_last(), t);
        lemma_vad_events_alternate(p, frames.last().0, frames.last().1, t);
        let (n, e) = vad_step(p, frames.last().0, frames.last().1, t);
        match e {
            Some(x) => {
                assert forall|i: int| 0 <= i < events.push(x).len() implies ((#[trigger] events.push(x)[i]) is SpeechStarted
                    <==> i % 2 == 0) by {
                    if i < events.len() {
                        assert(events.push(x)[i] == events[i]);
                    }
                }
            },
            None => {},
        }
    }
    let (n, events) = vad_run(s, frames, t);
    if n.is_speaking {
        let all = events.push(VadEvent::SpeechEnded { timestamp_ms: n.last_timestamp_ms });
        assert forall|i: int| 0 <= i < all.len() implies ((#[trigger] all[i]) is SpeechStarted <==> i % 2 == 0) by {
            if i < events.len() {
                assert(all[i] == events[i]);
            }
        }
    }
}

/// What the speech-state side channel is told of an event: `true` when
/// speech starts, `false` when it ends.
pub fn speech_state_signal(event: &VadEvent) -> (signal: bool)
    ensures
        signal == (event is SpeechStarted),
{
    match event {
        VadEvent::SpeechStarted { .. } => true,
        VadEvent::SpeechEnded { .. } => false,
    }
}

impl VadState {
    /// Takes a run of frames into account and returns the events they
    /// cause, in order.
    pub fn on_frames(&mut self, frames: &[(bool, u64)], timing: &VadTiming) -> (events: Vec<VadEvent>)
        requires
            old(self).voiced_ms + 20 * frames@.len() <= u32::MAX,
            old(self).silence_ms + 20 * frames@.len() <= u32::MAX,
        ensures
            (*final(self), events@) == vad_run(*old(self), frames@, *timing),
    {
        let ghost s0 = *self;
        let mut events: Vec<VadEvent> = Vec::new();
        let mut i: usize = 0;
        while i < frames.len()
            invariant
                i <= frames@.len(),
                (*self, events@) == vad_run(s0, frames@.take(i as int), *timing),
                self.voiced_ms <= s0.voiced_ms + 20 * i,
                self.silence_ms <= s0.silence_ms + 20 * i,
                s0.voiced_ms + 20 * frames@.len() <= u32::MAX,
                s0.silence_ms + 20 * frames@.len() <= u32::MAX,
            decreases frames@.len() - i,
        {
            proof {
                assert(frames@.take(i + 1).drop_last() =~= frames@.take(i as int));
                assert(frames@.take(i + 1).last() == frames@[i as int]);
            }
            let (voiced, ts) = frames[i];
            match self.on_frame(voiced, ts, timing) {
                Some(e) => events.push(e),
                None => {},
            }
            i += 1;
        }
        assert(frames@.take(frames@.len() as int) =~= frames@);
        events
    }
}

/// Errors of the streaming detector.
pub enum VadError {
    ChannelClosed,
}

/// A speech segment found by the batch detector, in milliseconds.
pub struct SpeechTimestamp {
    pub start: u64,
    pub end: u64,
}

/// Errors of the batch detector.
pub enum SpeachesVadError {
    ConnectionFailed(String),
    Timeout,
    ServerError(String),
    InvalidResponse(String),
    RequestBuild(String),
}

/// The PCM of all frames, one after another.
pub open spec fn frames_pcm(frames: Seq<AudioFrame>) -> Seq<u8>
    decreases frames.len(),
{
    if frames.len() == 0 { Seq::empty() } else { frames_pcm(frames.drop_last()) + pcm_encode(frames.last().data@) }
}

/// The body sent to the batch detector: the frames as one stretch of
/// little-endian PCM.
pub fn frames_to_pcm(frames: &[AudioFrame]) -> (bytes: Vec<u8>)
    requires
        2 * frames_pcm(frames@).len() <= usize::MAX,
    ensures
        bytes@ == frames_pcm(frames@),
{
    let mut bytes: Vec<u8> = Vec::new();
    let mut i: usize = 0;
    while i < frames.len()
        invariant
            i <= frames@.len(),
            bytes@ == frames_pcm(frames@.take(i as int)),
            2 * frames_pcm(frames@).len() <= usize::MAX,
        decreases frames@.len() - i,
    {
        proof {
            assert(frames@.take(i + 1).drop_last() =~= frames@.take(i as int));
            lemma_frames_pcm_prefix(frames@, i + 1);
        }
        let pcm = frames[i].to_pcm_bytes();
        let mut j: usize = 0;
        let ghost before = bytes@;
        while j < pcm.len()
            invariant
                j <= pcm@.len(),
                bytes@ =~= before + pcm@.take(j as int),
            decreases pcm@.len() - j,
        {
            bytes.push(pcm[j]);
            j += 1;
        }
        assert(pcm@.take(pcm@.len() as int) =~= pcm@);
        i += 1;
    }
    assert(frames@.take(frames@.len() as int) =~= frames@);
    bytes
}

/// The PCM of a prefix of the frames is no longer than that of all of them,
/// and each frame's own PCM fits within it.
proof fn lemma_frames_pcm_prefix(frames: Seq<AudioFrame>, k: int)
    requires
        0 <= k <= frames.len(),
    ensures
        frames_pcm(frames.take(k)).len() <= frames_pcm(frames).len(),
        k > 0 ==> 2 * frames.take(k).last().data@.len() <= frames_pcm(frames.take(k)).len(),
    decreases frames.len() - k,
{
    if k > 0 {
        assert(frames.take(k).drop_last() =~= frames.take(k - 1));
    }
    if k < frames.len() {
        lemma_frames_pcm_prefix(frames, k + 1);
        assert(frames.take(k + 1).drop_last() =~= frames.take(k));
    } else {
        assert(frames.take(k) =~= frames);
    }
}

} // verus!

verus! {

/// How many frames at the end of `frames` are unvoiced.
pub open spec fn trailing_unvoiced(frames: Seq<(bool, u64)>) -> nat
    decreases frames.len(),
{
    if frames.len() == 0 || frames.last().0 { 0 } else { trailing_unvoiced(frames.drop_last()) + 1 }
}

/// Silence is only counted over consecutive unvoiced frames: starting with
/// no silence counted, after any frames the detector has counted 20 ms for
/// each unvoiced frame since the last voiced one (none after a voiced frame).
/// So speech ends at an unvoiced frame exactly when it closes at least
/// `silence_ms` of uninterrupted silence, never on pauses added up across
/// voiced frames.
pub proof fn lemma_vad_silence_is_consecutive(s: VadState, frames: Seq<(bool, u64)>, t: VadTiming)
    requires
        s.silence_ms == 0,
        20 * frames.len() <= u32::MAX,
    ensures
        vad_run(s, frames, t).0.silence_ms == 20 * trailing_unvoiced(frames),
        (frames.len() > 0 && (vad_step(vad_run(s, frames.drop_last(), t).0, frames.last().0, frames.last().1, t).1
            matches Some(VadEvent::SpeechEnded { .. }))) ==> !frames.last().0 && 20 * trailing_unvoiced(frames)
            >= t.silence_ms,
        (frames.len() > 0 && vad_run(s, frames.drop_last(), t).0.is_speaking && !frames.last().0 && 20
            * trailing_unvoiced(frames) >= t.silence_ms) ==> (vad_step(
            vad_run(s, frames.drop_last(), t).0,
            frames.last().0,
            frames.last().1,
            t,
        ).1 matches Some(VadEvent::SpeechEnded { .. })),
    decreases frames.len(),
{
    if frames.len() > 0 {
        lemma_vad_silence_is_consecutive(s, frames.drop_last(), t);
        lemma_trailing_bound(frames.drop_last());
    }
}

proof fn lemma_trailing_bound(frames: Seq<(bool, u64)>)
    ensures
        trailing_unvoiced(frames) <= frames.len(),
    decreases frames.len(),
{
    if frames.len() > 0 {
        lemma_trailing_bound(frames.drop_last());
    }
}

/// How many frames at the end of `frames` are voiced.
pub open spec fn trailing_voiced(frames: Seq<(bool, u64)>) -> nat
    decreases frames.len(),
{
    if frames.len() == 0 || !frames.last().0 { 0 } else { trailing_voiced(frames.drop_last()) + 1 }
}

proof fn lemma_trailing_voiced_bound(frames: Seq<(bool, u64)>)
    ensures
        trailing_voiced(frames) <= frames.len(),
    decreases frames.len(),
{
    if frames.len() > 0 {
        lemma_trailing_voiced_bound(frames.drop_last());
    }
}

/// Speech only starts on consecutive voiced frames: starting silent with
/// nothing counted, while not speaking the detector has counted 20 ms for each
/// voiced frame since the last unvoiced one, so speech starts at a voiced frame
/// exactly when it closes at least `min_speech_ms` of uninterrupted voice.
pub proof fn lemma_vad_speech_is_consecutive(s: VadState, frames: Seq<(bool, u64)>, t: VadTiming)
    requires
        !s.is_speaking,
        s.voiced_ms == 0,
        20 * frames.len() <= u32::MAX,
    ensures
        !vad_run(s, frames, t).0.is_speaking ==> vad_run(s, frames, t).0.voiced_ms == 20 * trailing_voiced(frames),
        (frames.len() > 0 && (vad_step(vad_run(s, frames.drop_last(), t).0, frames.last().0, frames.last().1, t).1
            matches Some(VadEvent::SpeechStarted { .. }))) ==> frames.last().0 && 20 * trailing_voiced(frames)
            >= t.min_speech_ms,
        (frames.len() > 0 && !vad_run(s, frames.drop_last(), t).0.is_speaking && frames.last().0 && 20
            * trailing_voiced(frames) >= t.min_speech_ms) ==> (vad_step(
            vad_run(s, frames.drop_last(), t).0,
            frames.last().0,
            frames.last().1,
            t,
        ).1 matches Some(VadEvent::SpeechStarted { .. })),
    decreases frames.len(),
{
    if frames.len() > 0 {
        lemma_vad_speech_is_consecutive(s, frames.drop_last(), t);
        lemma_trailing_voiced_bound(frames.drop_last());
    }
}

} // verus!
