//! The load tester's WebSocket backend: its settings, what it makes of the
//! server's messages, and the conversation recording it assembles.

use vstd::prelude::*;
use crate::pcm::{pcm_decode, pcm_encode, pcm_bytes_to_samples, samples_to_pcm_bytes};
use crate::ari::{packet_chunk, packet_count};
use crate::wsserver::ClientMessage;

verus! {

/// Samples per 20 ms frame sent to the server.
pub const WS_FRAME_SAMPLES: usize = 320;

/// Silence frames sent after each utterance so the server's VAD ends it.
pub const SILENCE_FRAMES_AFTER_TX: usize = 50;

/// How long to wait for `session_ready`, in milliseconds.
pub const SESSION_READY_TIMEOUT_MS: u64 = 2000;

/// Settings of the WebSocket backend.
pub struct WebSocketBackendConfig {
    pub url: String,
    pub turns_per_session: usize,
    pub turn_timeout_ms: u64,
    pub language: String,
    pub asr: String,
    pub tts: String,
}

/// The messages of one WebSocket session, in the order they are sent:
/// `start`, then `turns` times the speech frames followed by the silence
/// frames, and `end`.
pub struct SessionPlan {
    pub start: ClientMessage,
    pub speech_frames: Vec<Vec<u8>>,
    pub silence_frames: Vec<Vec<u8>>,
    pub turns: usize,
    pub end: ClientMessage,
}

/// Backend that talks to a voicebot WebSocket server directly; each call is
/// one session of several turns.
pub struct WsBackend {
    pub config: WebSocketBackendConfig,
}

impl WsBackend {
    /// A backend with these settings.
    pub fn new(config: WebSocketBackendConfig) -> (b: WsBackend)
        ensures
            b.config == config,
    {
        WsBackend { config }
    }

    /// Turns per session: as configured, but at least one.
    pub fn turns(&self) -> (n: usize)
        ensures
            n == if self.config.turns_per_session == 0 { 1 } else { self.config.turns_per_session as int },
    {
        if self.config.turns_per_session == 0 { 1 } else { self.config.turns_per_session }
    }

    /// What one session sends: `session_start` asking for 16 kHz audio in the
    /// configured language with the configured providers; then, for each
    /// turn, the caller's speech as 20 ms binary frames (the last one shorter
    /// when the speech does not fill it) followed by the silence frames, after
    /// which the reply is awaited; and `session_end` last.
    pub fn session_plan(&self, tx_samples: &[i16]) -> (p: SessionPlan)
        requires
            2 * tx_samples@.len() <= usize::MAX,
        ensures
            p.start matches ClientMessage::SessionStart { language, asr, tts, sample_rate } && language@
                == self.config.language@ && asr@ == self.config.asr@ && tts@ == self.config.tts@ && sample_rate
                == Some(16000u32),
            p.end is SessionEnd,
            p.turns == if self.config.turns_per_session == 0 { 1 } else { self.config.turns_per_session as int },
            p.speech_frames@.len() == packet_count(tx_samples@.len()),
            forall|k: int| 0 <= k < p.speech_frames@.len() ==> #[trigger] p.speech_frames@[k]@ == pcm_encode(
                packet_chunk(tx_samples@, k),
            ),
            p.silence_frames@.len() == SILENCE_FRAMES_AFTER_TX,
            forall|k: int| 0 <= k < p.silence_frames@.len() ==> #[trigger] p.silence_frames@[k]@ == Seq::new(
                640,
                |i: int| 0u8,
            ),
    {
        let start = ClientMessage::SessionStart {
            language: self.config.language.clone(),
            asr: self.config.asr.clone(),
            tts: self.config.tts.clone(),
            sample_rate: Some(16000u32),
        };
        let mut speech_frames: Vec<Vec<u8>> = Vec::new();
        let mut pos: usize = 0;
        let mut k: usize = 0;
        while pos < tx_samples.len()
            invariant
                2 * tx_samples@.len() <= usize::MAX,
                k == speech_frames@.len(),
                pos <= tx_samples@.len(),
                pos < tx_samples@.len() ==> pos == 320 * k,
                packet_count(pos as nat) == k,
                forall|q: int| 0 <= q < k ==> #[trigger] speech_frames@[q]@ == pcm_encode(packet_chunk(tx_samples@, q)),
            decreases tx_samples@.len() - pos,
        {
            let end = if tx_samples.len() - pos >= WS_FRAME_SAMPLES { pos + WS_FRAME_SAMPLES } else { tx_samples.len() };
            let chunk = vstd::slice::slice_subrange(tx_samples, pos, end);
            assert(chunk@ == packet_chunk(tx_samples@, k as int));
            speech_frames.push(samples_to_pcm_bytes(chunk));
            assert(packet_count(end as nat) == k + 1) by (nonlinear_arith)
                requires pos == 320 * k, pos < end, end <= pos + 320, packet_count(end as nat) == (end + 319) / 320;
            pos = end;
            k += 1;
        }
        let mut silence_frames: Vec<Vec<u8>> = Vec::new();
        let mut j: usize = 0;
        while j < SILENCE_FRAMES_AFTER_TX
            invariant
                j <= SILENCE_FRAMES_AFTER_TX,
                silence_frames@.len() == j,
                forall|q: int| 0 <= q < j ==> #[trigger] silence_frames@[q]@ == Seq::new(640, |i: int| 0u8),
            decreases SILENCE_FRAMES_AFTER_TX - j,
        {
            let frame: Vec<u8> = vec![0u8; 640];
            assert(frame@ =~= Seq::new(640, |i: int| 0u8));
            silence_frames.push(frame);
            j += 1;
        }
        SessionPlan { start, speech_frames, silence_frames, turns: self.turns(), end: ClientMessage::SessionEnd }
    }

    /// Name of the backend in reports.
    pub fn backend_name(&self) -> (name: &'static str)
        ensures
            name@ == "websocket"@,
    {
        "websocket"
    }
}

/// Whether `needle` occurs in `hay` at position `i`.
pub open spec fn occurs_at(hay: Seq<char>, needle: Seq<char>, i: int) -> bool {
    0 <= i && i + needle.len() <= hay.len() && hay.subrange(i, i + needle.len()) == needle
}

/// Whether `needle` occurs anywhere in `hay`.
pub fn text_contains(hay: &str, needle: &str) -> (r: bool)
    ensures
        r == exists|i: int| occurs_at(hay@, needle@, i),
{
    let h = crate::text::chars_of(hay);
    let n = crate::text::chars_of(needle);
    if n.len() > h.len() {
        proof {
            assert forall|i: int| !occurs_at(hay@, needle@, i) by {}
        }
        return false;
    }
    let mut i: usize = 0;
    while i <= h.len() - n.len()
        invariant
            h@ == hay@,
            n@ == needle@,
            n.len() <= h.len(),
            i <= h.len() - n.len() + 1,
            forall|q: int| 0 <= q < i ==> !occurs_at(hay@, needle@, q),
        decreases h@.len() - i,
    {
        let mut j: usize = 0;
        let mut same = true;
        while j < n.len()
            invariant
                h@ == hay@,
                n@ == needle@,
                i + n.len() <= h.len(),
                j <= n@.len(),
                same == forall|k: int| 0 <= k < j ==> h@[i + k] == n@[k],
            decreases n@.len() - j,
        {
            if h[i + j] != n[j] {
                same = false;
            }
            j += 1;
        }
        if same {
            assert(hay@.subrange(i as int, i + needle@.len()) =~= needle@);
            assert(occurs_at(hay@, needle@, i as int));
            return true;
        }
        assert(!occurs_at(hay@, needle@, i as int)) by {
            let k = choose|k: int| 0 <= k < n@.len() && h@[i + k] != n@[k];
            assert(hay@.subrange(i as int, i + needle@.len())[k] != needle@[k]);
        }
        i += 1;
    }
    assert forall|q: int| !occurs_at(hay@, needle@, q) by {
        if 0 <= q && q + needle@.len() <= hay@.len() {
            assert(q < i);
        }
    }
    false
}

/// What the server's text messages announce.
pub enum ServerSignal {
    SessionReady,
    TtsComplete,
    Other,
}

/// Reads a text message from the server: one that mentions
/// `"session_ready"` announces readiness, else one that mentions
/// `"tts_complete"` ends the turn's speech.
pub fn classify_server_text(text: &str) -> (s: ServerSignal)
    ensures
        (s is SessionReady) == (exists|i: int| occurs_at(text@, "\"session_ready\""@, i)),
        (s is TtsComplete) == (!(exists|i: int| occurs_at(text@, "\"session_ready\""@, i))
            && exists|i: int| occurs_at(text@, "\"tts_complete\""@, i)),
{
    if text_contains(text, "\"session_ready\"") {
        ServerSignal::SessionReady
    } else if text_contains(text, "\"tts_complete\"") {
        ServerSignal::TtsComplete
    } else {
        ServerSignal::Other
    }
}

/// Samples of a binary message from the server; a message of odd length is
/// skipped.
pub fn decode_binary_message(bytes: &[u8]) -> (r: Option<Vec<i16>>)
    ensures
        bytes@.len() % 2 == 1 ==> r is None,
        bytes@.len() % 2 == 0 ==> (r matches Some(s) && s@ == pcm_decode(bytes@)),
{
    if bytes.len() % 2 != 0 {
        None
    } else {
        Some(pcm_bytes_to_samples(bytes))
    }
}

/// The bot's speech in one turn: when its first chunk arrived (ms since the
/// session started) and all its samples in order.
pub struct TurnTtsAudio {
    pub first_arrival_ms: Option<u64>,
    pub samples: Vec<i16>,
}

impl TurnTtsAudio {
    /// A turn with no speech yet.
    pub fn new() -> (t: TurnTtsAudio)
        ensures
            t.first_arrival_ms is None,
            t.samples@ == Seq::<i16>::empty(),
    {
        TurnTtsAudio { first_arrival_ms: None, samples: Vec::new() }
    }

    /// Adds a chunk that arrived at `arrival_ms`; the first chunk fixes the
    /// turn's arrival time.
    pub fn add_chunk(&mut self, arrival_ms: u64, samples: &[i16])
        ensures
            final(self).first_arrival_ms == match old(self).first_arrival_ms {
                Some(a) => Some(a),
                None => Some(arrival_ms),
            },
            final(self).samples@ == old(self).samples@ + samples@,
    {
        if self.first_arrival_ms.is_none() {
            self.first_arrival_ms = Some(arrival_ms);
        }
        let mut i: usize = 0;
        let ghost start = self.samples@;
        let ghost first = self.first_arrival_ms;
        while i < samples.len()
            invariant
                i <= samples@.len(),
                self.first_arrival_ms == first,
                self.samples@ =~= start + samples@.take(i as int),
            decreases samples@.len() - i,
        {
            self.samples.push(samples[i]);
            i += 1;
        }
        assert(samples@.take(samples@.len() as int) =~= samples@);
    }
}

/// `a + b` clamped to the range of `i16`.
pub open spec fn sat_add(a: i16, b: i16) -> i16 {
    if a + b > i16::MAX {
        i16::MAX
    } else if a + b < i16::MIN {
        i16::MIN
    } else {
        (a + b) as i16
    }
}

/// Saturating addition of two samples (`i16::saturating_add`).
pub fn saturating_add_i16(a: i16, b: i16) -> (r: i16)
    ensures
        r == sat_add(a, b),
{
    let s: i32 = a as i32 + b as i32;
    if s > 32767 {
        32767
    } else if s < -32768 {
        -32768
    } else {
        s as i16
    }
}

/// Position in the 16 kHz recording of a time in milliseconds.
pub open spec fn ms_offset(ms: u64) -> int {
    ms * 16
}

/// A piece of audio placed at a sample offset.
pub open spec fn turn_piece(t: TurnTtsAudio) -> (int, Seq<i16>) {
    match t.first_arrival_ms {
        Some(a) => (ms_offset(a), t.samples@),
        None => (0, Seq::empty()),
    }
}

/// The pieces of a conversation: each bot turn at its first arrival (a turn
/// with no speech places nothing), then the caller's utterance at each turn's
/// start.
pub open spec fn timeline_pieces(turns: Seq<TurnTtsAudio>, tx_starts: Seq<u64>, tx: Seq<i16>) -> Seq<(int, Seq<i16>)> {
    turns.map_values(|t: TurnTtsAudio| turn_piece(t)) + tx_starts.map_values(|s: u64| (ms_offset(s), tx))
}

/// Length of a recording that holds every piece.
pub open spec fn pieces_len(ps: Seq<(int, Seq<i16>)>) -> int
    decreases ps.len(),
{
    if ps.len() == 0 {
        0
    } else {
        let rest = pieces_len(ps.drop_last());
        let end = ps.last().0 + ps.last().1.len();
        if end > rest { end } else { rest }
    }
}

/// Sample `p` of the recording: the pieces that cover it added in order,
/// each addition saturating.
pub open spec fn mix_at(ps: Seq<(int, Seq<i16>)>, p: int) -> i16
    decreases ps.len(),
{
    if ps.len() == 0 {
        0
    } else {
        let v = mix_at(ps.drop_last(), p);
        let (o, s) = ps.last();
        if o <= p < o + s.len() { sat_add(v, s[p - o]) } else { v }
    }
}

/// Adds `samples` into `rec` from `offset` on, saturating.
fn mix_into(rec: &mut Vec<i16>, offset: usize, samples: &[i16])
    requires
        offset + samples@.len() <= old(rec)@.len(),
    ensures
        final(rec)@.len() == old(rec)@.len(),
        forall|p: int| 0 <= p < old(rec)@.len() ==> #[trigger] final(rec)@[p] == if offset <= p < offset + samples@.len() {
            sat_add(old(rec)@[p], samples@[p - offset])
        } else {
            old(rec)@[p]
        },
{
    let ghost r0 = rec@;
    let mut i: usize = 0;
    while i < samples.len()
        invariant
            i <= samples@.len(),
            offset + samples.len() <= rec.len(),
            rec@.len() == r0.len(),
            forall|p: int| 0 <= p < r0.len() ==> #[trigger] rec@[p] == if offset <= p < offset + i {
                sat_add(r0[p], samples@[p - offset])
            } else {
                r0[p]
            },
        decreases samples@.len() - i,
    {
        let v = saturating_add_i16(rec[offset + i], samples[i]);
        rec.set(offset + i, v);
        i += 1;
    }
}

proof fn lemma_pieces_step(ps: Seq<(int, Seq<i16>)>, k: int)
    requires
        0 <= k < ps.len(),
    ensures
        ps.take(k + 1).drop_last() == ps.take(k),
        ps.take(k + 1).last() == ps[k],
{
    assert(ps.take(k + 1).drop_last() =~= ps.take(k));
}

/// Lays the bot's turns and the caller's utterances out on one 16 kHz
/// timeline, as a recording of the whole conversation.
pub fn build_conversation_timeline(turns: &[TurnTtsAudio], tx_starts: &[u64], tx_samples: &[i16]) -> (rec: Vec<i16>)
    requires
        forall|k: int| 0 <= k < turns@.len() ==> ((#[trigger] turns@[k]).first_arrival_ms matches Some(a)
            ==> ms_offset(a) + turns@[k].samples@.len() <= usize::MAX),
        forall|k: int| 0 <= k < tx_starts@.len() ==> ms_offset(#[trigger] tx_starts@[k]) + tx_samples@.len() <= usize::MAX,
    ensures
        rec@.len() == pieces_len(timeline_pieces(turns@, tx_starts@, tx_samples@)),
        forall|p: int| 0 <= p < rec@.len() ==> #[trigger] rec@[p] == mix_at(timeline_pieces(turns@, tx_starts@, tx_samples@), p),
{
    let ghost ps = timeline_pieces(turns@, tx_starts@, tx_samples@);
    let ghost nt = turns@.len() as int;
    assert(ps.len() == turns@.len() + tx_starts@.len());
    // Length of the recording.
    let mut total: usize = 0;
    let mut k: usize = 0;
    while k < turns.len()
        invariant
            k <= turns@.len(),
            nt == turns@.len(),
            ps == timeline_pieces(turns@, tx_starts@, tx_samples@),
            ps.len() == turns@.len() + tx_starts@.len(),
            total == pieces_len(ps.take(k as int)),
            forall|q: int| 0 <= q < turns@.len() ==> ((#[trigger] turns@[q]).first_arrival_ms matches Some(a)
                ==> ms_offset(a) + turns@[q].samples@.len() <= usize::MAX),
        decreases turns@.len() - k,
    {
        proof {
            lemma_pieces_step(ps, k as int);
            assert(ps[k as int] == turn_piece(turns@[k as int]));
        }
        match turns[k].first_arrival_ms {
            Some(a) => {
                let end = (a * 16) as usize + turns[k].samples.len();
                if end > total {
                    total = end;
                }
            },
            None => {},
        }
        k += 1;
    }
    let mut k2: usize = 0;
    while k2 < tx_starts.len()
        invariant
            k2 <= tx_starts@.len(),
            nt == turns@.len(),
            ps == timeline_pieces(turns@, tx_starts@, tx_samples@),
            ps.len() == turns@.len() + tx_starts@.len(),
            total == pieces_len(ps.take(nt + k2)),
            forall|q: int| 0 <= q < tx_starts@.len() ==> ms_offset(#[trigger] tx_starts@[q]) + tx_samples@.len() <= usize::MAX,
        decreases tx_starts@.len() - k2,
    {
        proof {
            lemma_pieces_step(ps, nt + k2);
            assert(ps[nt + k2] == (ms_offset(tx_starts@[k2 as int]), tx_samples@));
        }
        let end = (tx_starts[k2] * 16) as usize + tx_samples.len();
        if end > total {
            total = end;
        }
        k2 += 1;
    }
    assert(ps.take(ps.len() as int) =~= ps);
    // The pieces, mixed in order.
    let mut rec: Vec<i16> = Vec::new();
    let mut z: usize = 0;
    while z < total
        invariant
            z <= total,
            rec@.len() == z,
            forall|p: int| 0 <= p < z ==> #[trigger] rec@[p] == 0i16,
        decreases total - z,
    {
        rec.push(0);
        z += 1;
    }
    proof {
        lemma_pieces_cover(ps);
        assert forall|q: int| 0 <= q < ps.len() implies ps[q].0 >= 0 by {
            if q < nt {
                assert(ps[q] == turn_piece(turns@[q]));
            } else {
                assert(ps[q] == (ms_offset(tx_starts@[q - nt]), tx_samples@));
            }
        }
        assert forall|p: int| 0 <= p < rec@.len() implies #[trigger] rec@[p] == mix_at(ps.take(0), p) by {}
    }
    let mut k: usize = 0;
    while k < turns.len()
        invariant
            k <= turns@.len(),
            nt == turns@.len(),
            ps == timeline_pieces(turns@, tx_starts@, tx_samples@),
            ps.len() == turns@.len() + tx_starts@.len(),
            rec@.len() == total,
            total == pieces_len(ps),
            forall|q: int| 0 <= q < ps.len() ==> ps[q].0 >= 0 && #[trigger] ps[q].0 + ps[q].1.len() <= pieces_len(ps),
            forall|p: int| 0 <= p < rec@.len() ==> #[trigger] rec@[p] == mix_at(ps.take(k as int), p),
        decreases turns@.len() - k,
    {
        proof {
            lemma_pieces_step(ps, k as int);
            assert(ps[k as int] == turn_piece(turns@[k as int]));
        }
        let ghost before = rec@;
        match turns[k].first_arrival_ms {
            Some(a) => {
                assert(ps[k as int].0 + ps[k as int].1.len() <= pieces_len(ps));
                mix_into(&mut rec, (a * 16) as usize, turns[k].samples.as_slice());
            },
            None => {},
        }
        proof {
            assert forall|p: int| 0 <= p < rec@.len() implies #[trigger] rec@[p] == mix_at(ps.take(k + 1), p) by {
                assert(before[p] == mix_at(ps.take(k as int), p));
            }
        }
        k += 1;
    }
    let mut k2: usize = 0;
    while k2 < tx_starts.len()
        invariant
            k2 <= tx_starts@.len(),
            nt == turns@.len(),
            ps == timeline_pieces(turns@, tx_starts@, tx_samples@),
            ps.len() == turns@.len() + tx_starts@.len(),
            rec@.len() == total,
            total == pieces_len(ps),
            forall|q: int| 0 <= q < ps.len() ==> ps[q].0 >= 0 && #[trigger] ps[q].0 + ps[q].1.len() <= pieces_len(ps),
            forall|p: int| 0 <= p < rec@.len() ==> #[trigger] rec@[p] == mix_at(ps.take(nt + k2), p),
        decreases tx_starts@.len() - k2,
    {
        proof {
            lemma_pieces_step(ps, nt + k2);
            assert(ps[nt + k2] == (ms_offset(tx_starts@[k2 as int]), tx_samples@));
        }
        let ghost before = rec@;
        assert(ps[nt + k2].0 + ps[nt + k2].1.len() <= pieces_len(ps));
        mix_into(&mut rec, (tx_starts[k2] * 16) as usize, tx_samples);
        proof {
            assert forall|p: int| 0 <= p < rec@.len() implies #[trigger] rec@[p] == mix_at(ps.take(nt + k2 + 1), p) by {
                assert(before[p] == mix_at(ps.take(nt + k2), p));
            }
        }
        k2 += 1;
    }
    rec
}

/// Every piece with a non-negative offset ends within the recording's length.
proof fn lemma_pieces_cover(ps: Seq<(int, Seq<i16>)>)
    ensures
        pieces_len(ps) >= 0,
        forall|q: int| 0 <= q < ps.len() ==> #[trigger] ps[q].0 + ps[q].1.len() <= pieces_len(ps),
    decreases ps.len(),
{
    if ps.len() > 0 {
        lemma_pieces_cover(ps.drop_last());
        assert forall|q: int| 0 <= q < ps.len() implies #[trigger] ps[q].0 + ps[q].1.len() <= pieces_len(ps) by {
            if q < ps.len() - 1 {
                assert(ps.drop_last()[q] == ps[q]);
            }
        }
    }
}

/// Nothing is covered at or past the recording's length, so every sample
/// beyond it would be silence.
pub proof fn lemma_timeline_silent_after(ps: Seq<(int, Seq<i16>)>, p: int)
    requires
        p >= pieces_len(ps),
    ensures
        mix_at(ps, p) == 0,
    decreases ps.len(),
{
    if ps.len() > 0 {
        lemma_pieces_cover(ps);
        lemma_timeline_silent_after(ps.drop_last(), p);
        assert(ps.last() == ps[ps.len() - 1]);
    }
}

/// Whether piece `q` covers sample `p`.
pub open spec fn covers(ps: Seq<(int, Seq<i16>)>, q: int, p: int) -> bool {
    ps[q].0 <= p < ps[q].0 + ps[q].1.len()
}

/// A sample that no piece covers is silence.
pub proof fn lemma_uncovered_is_silent(ps: Seq<(int, Seq<i16>)>, p: int)
    requires
        forall|q: int| 0 <= q < ps.len() ==> !#[trigger] covers(ps, q, p),
    ensures
        mix_at(ps, p) == 0,
    decreases ps.len(),
{
    if ps.len() > 0 {
        assert(!covers(ps, ps.len() - 1, p));
        assert forall|q: int| 0 <= q < ps.drop_last().len() implies !#[trigger] covers(ps.drop_last(), q, p) by {
            assert(!covers(ps, q, p));
        }
        lemma_uncovered_is_silent(ps.drop_last(), p);
    }
}

/// Where only one piece covers a sample, the recording holds that piece's
/// sample unchanged: audio that does not overlap is laid out verbatim.
pub proof fn lemma_lone_piece_verbatim(ps: Seq<(int, Seq<i16>)>, q: int, p: int)
    requires
        0 <= q < ps.len(),
        covers(ps, q, p),
        forall|r: int| 0 <= r < ps.len() && r != q ==> !#[trigger] covers(ps, r, p),
    ensures
        mix_at(ps, p) == ps[q].1[p - ps[q].0],
    decreases ps.len(),
{
    let last = ps.len() - 1;
    if q == last {
        assert forall|r: int| 0 <= r < ps.drop_last().len() implies !#[trigger] covers(ps.drop_last(), r, p) by {
            assert(!covers(ps, r, p));
        }
        lemma_uncovered_is_silent(ps.drop_last(), p);
    } else {
        assert(!covers(ps, last, p));
        assert forall|r: int| 0 <= r < ps.drop_last().len() && r != q implies !#[trigger] covers(ps.drop_last(), r, p) by {
            assert(!covers(ps, r, p));
        }
        assert(covers(ps.drop_last(), q, p));
        lemma_lone_piece_verbatim(ps.drop_last(), q, p);
    }
}

} // verus!
