//! Text-to-speech: errors, text normalization for speech, framing of
//! streamed PCM, and the stub provider.

use vstd::prelude::*;
use crate::frame::{AudioFrame, PIPELINE_SAMPLE_RATE};
use crate::pcm::pcm_decode;
use crate::text::{chars_of, is_whitespace, is_ws, push_char};

verus! {

/// Errors of TTS synthesis.
pub enum TtsError {
    ChannelClosed,
    SynthesisFailed(String),
    Timeout,
    ConnectionFailed,
    SynthesisError(String),
    Cancelled,
}

/// Whether `c` is alphabetic or numeric in Unicode (`char::is_alphanumeric`).
pub uninterp spec fn is_alphanumeric_char(c: char) -> bool;

/// `char::is_alphanumeric` (Unicode `Alphabetic` or `Numeric`); trusted to
/// answer by the name above, whose table of characters is not written out.
#[verifier::external_body]
fn char_is_alphanumeric(c: char) -> (r: bool)
    ensures
        r == is_alphanumeric_char(c),
{
    c.is_alphanumeric()
}

/// Whether `c` is alphabetic or numeric: among ASCII characters exactly the
/// letters and digits, beyond ASCII as the Unicode tables say.
pub open spec fn is_alnum(c: char) -> bool {
    if (c as u32) < 128 {
        ('a' <= c && c <= 'z') || ('A' <= c && c <= 'Z') || ('0' <= c && c <= '9')
    } else {
        is_alphanumeric_char(c)
    }
}

/// `char::is_alphanumeric`, answered here for ASCII.
fn alphanumeric(c: char) -> (r: bool)
    ensures
        r == is_alnum(c),
{
    if (c as u32) < 128 {
        ('a' <= c && c <= 'z') || ('A' <= c && c <= 'Z') || ('0' <= c && c <= '9')
    } else {
        char_is_alphanumeric(c)
    }
}

/// Markup characters that are replaced by a space.
pub open spec fn is_markup(c: char) -> bool {
    c == '*' || c == '`' || c == '#' || c == '>' || c == '~' || c == '|' || c == '[' || c == ']'
        || c == '{' || c == '}' || c == '_'
}

/// Punctuation kept as is.
pub open spec fn is_kept_punct(c: char) -> bool {
    c == '.' || c == ',' || c == '!' || c == '?' || c == ';' || c == ':' || c == '\'' || c == '"'
        || c == '-' || c == '(' || c == ')' || c == '/' || c == '&'
}

/// Punctuation that attaches to the preceding word (a space before it is dropped).
pub open spec fn is_attaching(c: char) -> bool {
    c == '.' || c == ',' || c == '!' || c == '?' || c == ';' || c == ':' || c == ')' || c == '/'
}

/// What a character becomes: newlines, tabs, markup, other whitespace and
/// any other symbol become a space; letters, digits and kept punctuation stay.
pub open spec fn mapped_char(c: char) -> char {
    if c == '\n' || c == '\t' || is_markup(c) {
        ' '
    } else if is_alnum(c) {
        c
    } else if is_ws(c) {
        ' '
    } else if is_kept_punct(c) {
        c
    } else {
        ' '
    }
}

/// Text built so far and whether the last character taken in was a space
/// (carriage returns are dropped; runs of spaces collapse; a space before
/// attaching punctuation is removed).
pub open spec fn collapse(s: Seq<char>) -> (Seq<char>, bool)
    decreases s.len(),
{
    if s.len() == 0 {
        (Seq::empty(), true)
    } else {
        let (out, last_space) = collapse(s.drop_last());
        let c = s.last();
        if c == '\r' {
            (out, last_space)
        } else {
            let m = mapped_char(c);
            if m == ' ' {
                if !last_space { (out.push(' '), true) } else { (out, true) }
            } else {
                let base = if is_attaching(m) && out.len() > 0 && out.last() == ' ' { out.drop_last() } else { out };
                (base.push(m), false)
            }
        }
    }
}

/// `s` without leading whitespace.
pub open spec fn trim_start(s: Seq<char>) -> Seq<char>
    decreases s.len(),
{
    if s.len() > 0 && is_ws(s[0]) { trim_start(s.drop_first()) } else { s }
}

/// `s` without trailing whitespace.
pub open spec fn trim_end(s: Seq<char>) -> Seq<char>
    decreases s.len(),
{
    if s.len() > 0 && is_ws(s.last()) { trim_end(s.drop_last()) } else { s }
}

/// Characters of a fragment that is only a counter or list marker.
pub open spec fn is_counter_char(c: char) -> bool {
    ('0' <= c && c <= '9') || is_ws(c) || c == '.' || c == ')' || c == '(' || c == '-' || c == '/'
}

/// The speakable form of a TTS text, or `None` when nothing speakable is
/// left (empty after normalization, or only counters and list markers).
pub open spec fn normalized_tts(s: Seq<char>) -> Option<Seq<char>> {
    let t = trim_end(trim_start(collapse(s).0));
    if t.len() == 0 {
        None
    } else if forall|i: int| 0 <= i < t.len() ==> is_counter_char(#[trigger] t[i]) {
        None
    } else {
        Some(t)
    }
}

/// Trims whitespace from both ends of a character sequence.
fn trim_chars(v: &Vec<char>) -> (r: Vec<char>)
    ensures
        r@ == trim_end(trim_start(v@)),
{
    let mut start: usize = 0;
    assert(v@.skip(0) =~= v@);
    while start < v.len() && is_whitespace(v[start])
        invariant
            start <= v@.len(),
            trim_start(v@) == trim_start(v@.skip(start as int)),
        decreases v@.len() - start,
    {
        assert(v@.skip(start as int).drop_first() =~= v@.skip(start + 1));
        start += 1;
    }
    proof {
        if start < v@.len() {
            assert(v@.skip(start as int)[0] == v@[start as int]);
        } else {
            assert(v@.skip(start as int).len() == 0);
        }
    }
    let ghost ts = v@.skip(start as int);
    let mut end: usize = v.len();
    while end > start && is_whitespace(v[end - 1])
        invariant
            start <= end <= v@.len(),
            ts == v@.skip(start as int),
            trim_end(ts) == trim_end(v@.subrange(start as int, end as int)),
        decreases end,
    {
        assert(v@.subrange(start as int, end as int).drop_last() =~= v@.subrange(start as int, end - 1));
        end -= 1;
    }
    assert(ts =~= v@.subrange(start as int, v@.len() as int));
    let mut r: Vec<char> = Vec::new();
    let mut k: usize = start;
    while k < end
        invariant
            start <= k <= end <= v@.len(),
            r@ =~= v@.subrange(start as int, k as int),
        decreases end - k,
    {
        r.push(v[k]);
        k += 1;
    }
    proof {
        let sub = v@.subrange(start as int, end as int);
        if sub.len() > 0 {
            assert(sub.last() == v@[end - 1]);
        }
        assert(r@ == sub);
    }
    r
}

/// Normalizes text for speech: strips markup and symbols (emoji included),
/// collapses whitespace, keeps basic punctuation; `None` when nothing
/// speakable remains.
pub fn normalize_tts_input(text: &str) -> (r: Option<String>)
    ensures
        match normalized_tts(text@) {
            None => r is None,
            Some(t) => r matches Some(s) && s@ == t,
        },
{
    let chars = chars_of(text);
    let mut out: Vec<char> = Vec::new();
    let mut last_was_space = true;
    let mut i: usize = 0;
    while i < chars.len()
        invariant
            chars@ == text@,
            i <= chars@.len(),
            (out@, last_was_space) == collapse(chars@.take(i as int)),
        decreases chars@.len() - i,
    {
        let ch = chars[i];
        assert(chars@.take(i + 1).drop_last() =~= chars@.take(i as int));
        assert(chars@.take(i + 1).last() == ch);
        if ch != '\r' {
            let mapped: char = if ch == '\n' || ch == '\t' || ch == '*' || ch == '`' || ch == '#' || ch == '>'
                || ch == '~' || ch == '|' || ch == '[' || ch == ']' || ch == '{' || ch == '}' || ch == '_' {
                ' '
            } else if alphanumeric(ch) {
                ch
            } else if is_whitespace(ch) {
                ' '
            } else if ch == '.' || ch == ',' || ch == '!' || ch == '?' || ch == ';' || ch == ':' || ch == '\''
                || ch == '"' || ch == '-' || ch == '(' || ch == ')' || ch == '/' || ch == '&' {
                ch
            } else {
                ' '
            };
            if mapped == ' ' {
                if !last_was_space {
                    out.push(' ');
                    last_was_space = true;
                }
            } else {
                if (mapped == '.' || mapped == ',' || mapped == '!' || mapped == '?' || mapped == ';'
                    || mapped == ':' || mapped == ')' || mapped == '/') && out.len() > 0 && out[out.len() - 1] == ' ' {
                    out.pop();
                }
                out.push(mapped);
                last_was_space = false;
            }
        }
        i += 1;
    }
    assert(chars@.take(chars@.len() as int) =~= chars@);
    let trimmed = trim_chars(&out);
    if trimmed.len() == 0 {
        return None;
    }
    let mut all_counter = true;
    let mut k: usize = 0;
    while k < trimmed.len()
        invariant
            k <= trimmed@.len(),
            all_counter == forall|j: int| 0 <= j < k ==> is_counter_char(#[trigger] trimmed@[j]),
        decreases trimmed@.len() - k,
    {
        let c = trimmed[k];
        if !(('0' <= c && c <= '9') || is_whitespace(c) || c == '.' || c == ')' || c == '(' || c == '-' || c == '/') {
            all_counter = false;
        }
        k += 1;
    }
    if all_counter {
        return None;
    }
    let mut s = String::new();
    let mut j: usize = 0;
    while j < trimmed.len()
        invariant
            j <= trimmed@.len(),
            s@ =~= trimmed@.take(j as int),
        decreases trimmed@.len() - j,
    {
        push_char(&mut s, trimmed[j]);
        j += 1;
    }
    assert(trimmed@.take(trimmed@.len() as int) =~= trimmed@);
    Some(s)
}

/// Whether an error ends the whole synthesis (the others only skip the
/// sentence that failed).
pub fn ends_synthesis(e: &TtsError) -> (r: bool)
    ensures
        r == (e is Cancelled || e is ChannelClosed),
{
    match e {
        TtsError::Cancelled | TtsError::ChannelClosed => true,
        _ => false,
    }
}

/// Bytes of a 20 ms frame of 16 kHz mono 16-bit PCM.
pub const TTS_FRAME_BYTES: usize = 640;

/// The frames that whole 640-byte blocks of `bytes` make, in order.
pub open spec fn frames_of(bytes: Seq<u8>) -> Seq<Seq<i16>> {
    Seq::new(bytes.len() / 640, |i: int| pcm_decode(bytes.subrange(640 * i, 640 * i + 640)))
}

/// What is left of `bytes` after its whole 640-byte blocks.
pub open spec fn frames_rest(bytes: Seq<u8>) -> Seq<u8> {
    bytes.skip(640 * (bytes.len() / 640) as int)
}

/// Cuts a stream of PCM bytes into 20 ms frames as it arrives.
pub struct PcmFramer {
    buf: Vec<u8>,
}

impl PcmFramer {
    /// Bytes received and not yet framed.
    pub closed spec fn pending(&self) -> Seq<u8> {
        self.buf@
    }

    /// A framer with nothing pending.
    pub fn new() -> (f: PcmFramer)
        ensures
            f.pending() == Seq::<u8>::empty(),
    {
        PcmFramer { buf: Vec::new() }
    }

    /// Takes in `bytes` and hands out every whole frame now available,
    /// keeping the rest for later.
    pub fn push(&mut self, bytes: &[u8]) -> (frames: Vec<AudioFrame>)
        requires
            old(self).pending().len() + bytes@.len() <= usize::MAX,
        ensures
            frames@.len() == frames_of(old(self).pending() + bytes@).len(),
            forall|i: int| 0 <= i < frames@.len() ==> {
                &&& #[trigger] frames@[i].data@ == frames_of(old(self).pending() + bytes@)[i]
                &&& frames@[i].sample_rate == PIPELINE_SAMPLE_RATE
                &&& frames@[i].channels == 1
                &&& frames@[i].timestamp_ms == 0
            },
            final(self).pending() == frames_rest(old(self).pending() + bytes@),
    {
        let ghost all0 = self.buf@ + bytes@;
        let mut all: Vec<u8> = Vec::new();
        let mut i: usize = 0;
        while i < self.buf.len()
            invariant
                i <= self.buf@.len(),
                all@ =~= self.buf@.take(i as int),
            decreases self.buf@.len() - i,
        {
            all.push(self.buf[i]);
            i += 1;
        }
        let mut j: usize = 0;
        while j < bytes.len()
            invariant
                j <= bytes@.len(),
                all@ =~= self.buf@ + bytes@.take(j as int),
                self.buf@.len() + bytes@.len() <= usize::MAX,
            decreases bytes@.len() - j,
        {
            all.push(bytes[j]);
            j += 1;
        }
        assert(all@ =~= all0);
        let n = all.len() / TTS_FRAME_BYTES;
        let mut frames: Vec<AudioFrame> = Vec::new();
        let mut k: usize = 0;
        while k < n
            invariant
                k <= n,
                n == all.len() / 640,
                frames@.len() == k,
                forall|q: int| 0 <= q < k ==> {
                    &&& #[trigger] frames@[q].data@ == frames_of(all@)[q]
                    &&& frames@[q].sample_rate == PIPELINE_SAMPLE_RATE
                    &&& frames@[q].channels == 1
                    &&& frames@[q].timestamp_ms == 0
                },
            decreases n - k,
        {
            assert(k * 640 + 640 <= all.len()) by (nonlinear_arith)
                requires
                    k < n,
                    n == all.len() / 640,
            ;
            let start = k * TTS_FRAME_BYTES;
            let block = vstd::slice::slice_subrange(all.as_slice(), start, start + TTS_FRAME_BYTES);
            let frame = AudioFrame::from_pcm_bytes(block, 0);
            frames.push(frame);
            k += 1;
        }
        assert(n * 640 <= all@.len()) by (nonlinear_arith)
            requires
                n == all@.len() / 640,
        ;
        let mut rest: Vec<u8> = Vec::new();
        let mut r: usize = n * TTS_FRAME_BYTES;
        while r < all.len()
            invariant
                n * 640 <= r <= all@.len(),
                rest@ =~= all@.subrange(n * 640, r as int),
            decreases all@.len() - r,
        {
            rest.push(all[r]);
            r += 1;
        }
        self.buf = rest;
        frames
    }

    /// Hands out what is pending as a last, shorter frame, if anything is.
    pub fn finish(&mut self) -> (frame: Option<AudioFrame>)
        ensures
            final(self).pending() == Seq::<u8>::empty(),
            old(self).pending().len() == 0 ==> frame is None,
            old(self).pending().len() > 0 ==> (frame matches Some(f) && f.data@ == pcm_decode(old(self).pending())
                && f.sample_rate == PIPELINE_SAMPLE_RATE && f.channels == 1 && f.timestamp_ms == 0),
    {
        if self.buf.len() == 0 {
            None
        } else {
            let frame = AudioFrame::from_pcm_bytes(self.buf.as_slice(), 0);
            self.buf = Vec::new();
            Some(frame)
        }
    }
}

/// A TTS provider that says nothing: it answers every request with one
/// 20 ms frame of silence.
pub struct StubTtsProvider;

impl StubTtsProvider {
    /// The single chunk the stub emits before completing.
    pub fn reply(&self) -> (chunk: (AudioFrame, u32))
        ensures
            chunk.0.data@ == Seq::new(320, |i: int| 0i16),
            chunk.0.sample_rate == PIPELINE_SAMPLE_RATE,
            chunk.0.channels == 1,
            chunk.0.timestamp_ms == 0,
            chunk.1 == 0,
    {
        (AudioFrame::silence(20, 0), 0)
    }
}

/// No markup character occurs in `t`.
pub open spec fn markup_free(t: Seq<char>) -> bool {
    forall|i: int| 0 <= i < t.len() ==> !is_markup(#[trigger] t[i])
}

/// No two spaces follow each other in `t`.
pub open spec fn single_spaced(t: Seq<char>) -> bool {
    forall|i: int| 0 <= i < t.len() - 1 ==> !(#[trigger] t[i] == ' ' && t[i + 1] == ' ')
}

proof fn lemma_collapse_clean(s: Seq<char>)
    ensures
        markup_free(collapse(s).0),
        single_spaced(collapse(s).0),
        collapse(s).0.len() == 0 ==> collapse(s).1,
        collapse(s).0.len() > 0 ==> (collapse(s).1 <==> collapse(s).0.last() == ' '),
    decreases s.len(),
{
    if s.len() > 0 {
        lemma_collapse_clean(s.drop_last());
        let (out, last_space) = collapse(s.drop_last());
        let c = s.last();
        if c != '\r' {
            let m = mapped_char(c);
            assert(!is_markup(m));
            if m != ' ' && is_attaching(m) && out.len() > 0 && out.last() == ' ' {
                let base = out.drop_last();
                assert forall|i: int| 0 <= i < base.len() implies !is_markup(#[trigger] base[i]) by {
                    assert(base[i] == out[i]);
                }
                assert forall|i: int| 0 <= i < base.len() - 1 implies !(#[trigger] base[i] == ' ' && base[i + 1] == ' ') by {
                    assert(base[i] == out[i] && base[i + 1] == out[i + 1]);
                }
                let r = base.push(m);
                assert forall|i: int| 0 <= i < r.len() implies !is_markup(#[trigger] r[i]) by {
                    if i < base.len() {
                        assert(r[i] == base[i]);
                    }
                }
                assert forall|i: int| 0 <= i < r.len() - 1 implies !(#[trigger] r[i] == ' ' && r[i + 1] == ' ') by {
                    if i + 1 < base.len() {
                        assert(r[i] == base[i] && r[i + 1] == base[i + 1]);
                    }
                }
            } else if m != ' ' {
                let r = out.push(m);
                assert forall|i: int| 0 <= i < r.len() implies !is_markup(#[trigger] r[i]) by {
                    if i < out.len() {
                        assert(r[i] == out[i]);
                    }
                }
                assert forall|i: int| 0 <= i < r.len() - 1 implies !(#[trigger] r[i] == ' ' && r[i + 1] == ' ') by {
                    if i + 1 < out.len() {
                        assert(r[i] == out[i] && r[i + 1] == out[i + 1]);
                    }
                }
            } else if !last_space {
                let r = out.push(' ');
                assert forall|i: int| 0 <= i < r.len() implies !is_markup(#[trigger] r[i]) by {
                    if i < out.len() {
                        assert(r[i] == out[i]);
                    }
                }
                assert forall|i: int| 0 <= i < r.len() - 1 implies !(#[trigger] r[i] == ' ' && r[i + 1] == ' ') by {
                    if i + 1 < out.len() {
                        assert(r[i] == out[i] && r[i + 1] == out[i + 1]);
                    } else {
                        assert(out.last() != ' ');
                    }
                }
            }
        }
    }
}

proof fn lemma_trim_start_clean(s: Seq<char>)
    requires
        markup_free(s),
        single_spaced(s),
    ensures
        markup_free(trim_start(s)),
        single_spaced(trim_start(s)),
        trim_start(s).len() > 0 ==> !is_ws(trim_start(s)[0]),
    decreases s.len(),
{
    if s.len() > 0 && is_ws(s[0]) {
        let d = s.drop_first();
        assert forall|i: int| 0 <= i < d.len() implies !is_markup(#[trigger] d[i]) by {
            assert(d[i] == s[i + 1]);
        }
        assert forall|i: int| 0 <= i < d.len() - 1 implies !(#[trigger] d[i] == ' ' && d[i + 1] == ' ') by {
            assert(d[i] == s[i + 1] && d[i + 1] == s[i + 2]);
        }
        lemma_trim_start_clean(d);
    }
}

proof fn lemma_trim_end_clean(s: Seq<char>)
    requires
        markup_free(s),
        single_spaced(s),
        s.len() > 0 ==> !is_ws(s[0]),
    ensures
        markup_free(trim_end(s)),
        single_spaced(trim_end(s)),
        trim_end(s).len() > 0 ==> !is_ws(trim_end(s)[0]) && !is_ws(trim_end(s).last()),
    decreases s.len(),
{
    if s.len() > 0 && is_ws(s.last()) {
        let d = s.drop_last();
        assert forall|i: int| 0 <= i < d.len() implies !is_markup(#[trigger] d[i]) by {
            assert(d[i] == s[i]);
        }
        assert forall|i: int| 0 <= i < d.len() - 1 implies !(#[trigger] d[i] == ' ' && d[i + 1] == ' ') by {
            assert(d[i] == s[i] && d[i + 1] == s[i + 1]);
        }
        if d.len() > 0 {
            assert(d[0] == s[0]);
        }
        lemma_trim_end_clean(d);
    }
}

/// Every character of `t` is one that normalization keeps as it is, and none
/// is a carriage return.
pub open spec fn fixed_chars(t: Seq<char>) -> bool {
    forall|i: int| 0 <= i < t.len() ==> #[trigger] t[i] != '\r' && mapped_char(t[i]) == t[i]
}

/// No space stands directly before attaching punctuation in `t`.
pub open spec fn tight_punct(t: Seq<char>) -> bool {
    forall|i: int| 1 <= i < t.len() ==> is_attaching(#[trigger] t[i]) ==> t[i - 1] != ' '
}

proof fn lemma_collapse_fixed(s: Seq<char>)
    ensures
        fixed_chars(collapse(s).0),
        tight_punct(collapse(s).0),
    decreases s.len(),
{
    if s.len() > 0 {
        lemma_collapse_fixed(s.drop_last());
        lemma_collapse_clean(s.drop_last());
        let (out, last_space) = collapse(s.drop_last());
        let c = s.last();
        if c != '\r' {
            let m = mapped_char(c);
            assert(mapped_char(' ') == ' ');
            assert(m != '\r');
            assert(mapped_char(m) == m);
            let base = if m != ' ' && is_attaching(m) && out.len() > 0 && out.last() == ' ' {
                out.drop_last()
            } else {
                out
            };
            assert(fixed_chars(base)) by {
                assert forall|i: int| 0 <= i < base.len() implies #[trigger] base[i] != '\r' && mapped_char(base[i]) == base[i] by {
                    assert(base[i] == out[i]);
                }
            }
            assert(tight_punct(base)) by {
                assert forall|i: int| 1 <= i < base.len() && is_attaching(#[trigger] base[i]) implies base[i - 1] != ' ' by {
                    assert(base[i] == out[i] && base[i - 1] == out[i - 1]);
                }
            }
            if base.len() > 0 && base != out {
                assert(out[out.len() - 2] == base.last());
                assert(!(out[out.len() - 2] == ' ' && out[out.len() - 1] == ' '));
            }
            if m != ' ' || !last_space {
                let r = base.push(m);
                assert(fixed_chars(r)) by {
                    assert forall|i: int| 0 <= i < r.len() implies #[trigger] r[i] != '\r' && mapped_char(r[i]) == r[i] by {
                        if i < base.len() {
                            assert(r[i] == base[i]);
                        }
                    }
                }
                assert(tight_punct(r)) by {
                    assert forall|i: int| 1 <= i < r.len() && is_attaching(#[trigger] r[i]) implies r[i - 1] != ' ' by {
                        if i < base.len() {
                            assert(r[i] == base[i] && r[i - 1] == base[i - 1]);
                        } else {
                            assert(r[i - 1] == base.last());
                        }
                    }
                }
            }
        }
    }
}

/// Collapsing text that is already clean takes it in character for
/// character; the flag tells whether its last character is a space.
proof fn lemma_collapse_prefix(t: Seq<char>, i: int)
    requires
        0 <= i <= t.len(),
        fixed_chars(t),
        tight_punct(t),
        single_spaced(t),
        t.len() > 0 ==> t[0] != ' ',
    ensures
        collapse(t.take(i)) == (t.take(i), i == 0 || t[i - 1] == ' '),
    decreases i,
{
    if i > 0 {
        lemma_collapse_prefix(t, i - 1);
        assert(t.take(i).drop_last() =~= t.take(i - 1));
        assert(t.take(i).last() == t[i - 1]);
        assert(mapped_char(t[i - 1]) == t[i - 1]);
        if i >= 2 {
            assert(t.take(i - 1).last() == t[i - 2]);
            assert(!(t[i - 2] == ' ' && t[i - 1] == ' '));
        }
        assert(t.take(i - 1).push(t[i - 1]) =~= t.take(i));
    }
}

/// The parts of a text that trimming keeps form one stretch of it.
proof fn lemma_trim_is_stretch(s: Seq<char>)
    ensures
        exists|a: int, b: int| 0 <= a <= b <= s.len() && trim_end(trim_start(s)) == s.subrange(a, b),
{
    lemma_trim_start_stretch(s);
    let a = choose|a: int| 0 <= a <= s.len() && trim_start(s) == s.subrange(a, s.len() as int);
    lemma_trim_end_stretch(trim_start(s));
    let b = choose|b: int| 0 <= b <= trim_start(s).len() && trim_end(trim_start(s)) == trim_start(s).subrange(0, b);
    assert(trim_end(trim_start(s)) =~= s.subrange(a, a + b));
}

proof fn lemma_trim_start_stretch(s: Seq<char>)
    ensures
        exists|a: int| 0 <= a <= s.len() && trim_start(s) == s.subrange(a, s.len() as int),
    decreases s.len(),
{
    if s.len() > 0 && is_ws(s[0]) {
        lemma_trim_start_stretch(s.drop_first());
        let a = choose|a: int| 0 <= a <= s.drop_first().len() && trim_start(s.drop_first())
            == s.drop_first().subrange(a, s.drop_first().len() as int);
        assert(trim_start(s) =~= s.subrange(a + 1, s.len() as int));
    } else {
        assert(trim_start(s) =~= s.subrange(0, s.len() as int));
    }
}

proof fn lemma_trim_end_stretch(s: Seq<char>)
    ensures
        exists|b: int| 0 <= b <= s.len() && trim_end(s) == s.subrange(0, b),
    decreases s.len(),
{
    if s.len() > 0 && is_ws(s.last()) {
        lemma_trim_end_stretch(s.drop_last());
        let b = choose|b: int| 0 <= b <= s.drop_last().len() && trim_end(s.drop_last()) == s.drop_last().subrange(0, b);
        assert(trim_end(s) =~= s.subrange(0, b));
    } else {
        assert(trim_end(s) =~= s.subrange(0, s.len() as int));
    }
}

/// Normalizing text for speech twice gives what normalizing it once gave, and
/// what it gives is clean: already trimmed, not empty, free of markup, line
/// breaks, carriage returns and tabs, never two spaces in a row nor a space
/// before `.`, `,`, `!`, `?`, `;`, `:`, `)` or `/`, and not made only of
/// counter and list-marker characters. (What [`normalize_tts_input`] returns
/// is `normalized_tts` of its input, so this is said of it.)
pub proof fn lemma_normalize_idempotent(s: Seq<char>)
    ensures
        normalized_tts(s) matches Some(t) ==> {
            &&& normalized_tts(t) == Some(t)
            &&& trim_end(trim_start(t)) == t
            &&& t.len() > 0
            &&& forall|i: int| 0 <= i < t.len() ==> {
                &&& !is_markup(#[trigger] t[i])
                &&& t[i] != '\n'
                &&& t[i] != '\r'
                &&& t[i] != '\t'
            }
            &&& single_spaced(t)
            &&& forall|i: int| 1 <= i < t.len() ==> is_attaching(#[trigger] t[i]) ==> t[i - 1] != ' '
            &&& exists|i: int| 0 <= i < t.len() && !is_counter_char(#[trigger] t[i])
        },
{
    if let Some(t) = normalized_tts(s) {
        let c = collapse(s).0;
        lemma_normalized_is_clean(s);
        lemma_collapse_fixed(s);
        lemma_trim_is_stretch(c);
        let (a, b) = choose|a: int, b: int| 0 <= a <= b <= c.len() && trim_end(trim_start(c)) == c.subrange(a, b);
        assert(t == c.subrange(a, b));
        assert(fixed_chars(t)) by {
            assert forall|i: int| 0 <= i < t.len() implies #[trigger] t[i] != '\r' && mapped_char(t[i]) == t[i] by {
                assert(t[i] == c[a + i]);
            }
        }
        assert(tight_punct(t)) by {
            assert forall|i: int| 1 <= i < t.len() && is_attaching(#[trigger] t[i]) implies t[i - 1] != ' ' by {
                assert(t[i] == c[a + i] && t[i - 1] == c[a + i - 1]);
            }
        }
        assert forall|i: int| 0 <= i < t.len() implies t[i] != '\n' && t[i] != '\t' by {
            assert(t[i] != '\r' && mapped_char(t[i]) == t[i]);
        }
        assert(is_ws(' '));
        lemma_collapse_prefix(t, t.len() as int);
        assert(t.take(t.len() as int) =~= t);
        assert(trim_start(t) == t);
        assert(trim_end(t) == t);
        assert(!(forall|i: int| 0 <= i < t.len() ==> is_counter_char(#[trigger] t[i])));
    }
}

/// Text normalized for speech is clean: no markup character is left, no
/// two spaces follow each other, and it neither begins nor ends with
/// whitespace.
pub proof fn lemma_normalized_is_clean(s: Seq<char>)
    ensures
        normalized_tts(s) matches Some(t) ==> {
            &&& markup_free(t)
            &&& single_spaced(t)
            &&& !is_ws(t[0])
            &&& !is_ws(t.last())
        },
{
    lemma_collapse_clean(s);
    lemma_trim_start_clean(collapse(s).0);
    lemma_trim_end_clean(trim_start(collapse(s).0));
}

/// Characters that speech normalization passes through as they are: ASCII
/// letters and digits and the punctuation `. , ! ? ; : ' " - ( ) / &`.
pub open spec fn plain_char(c: char) -> bool {
    ('a' <= c && c <= 'z') || ('A' <= c && c <= 'Z') || ('0' <= c && c <= '9') || c == '.' || c == ','
        || c == '!' || c == '?' || c == ';' || c == ':' || c == '\'' || c == '"' || c == '-' || c == '('
        || c == ')' || c == '/' || c == '&'
}

/// Text that is already in speakable form comes back unchanged: made only of
/// plain characters and single spaces, not beginning or ending with a space,
/// with no space before `.`, `,`, `!`, `?`, `;`, `:`, `)` or `/`, and with a
/// character that is not a digit, a space or one of `. ) ( - /`. So
/// apostrophes, quotes and the other kept punctuation survive ("it's" stays
/// "it's").
pub proof fn lemma_plain_text_is_kept(t: Seq<char>)
    requires
        t.len() > 0,
        forall|i: int| 0 <= i < t.len() ==> plain_char(#[trigger] t[i]) || t[i] == ' ',
        t[0] != ' ',
        t.last() != ' ',
        forall|i: int| 0 <= i < t.len() - 1 ==> !(#[trigger] t[i] == ' ' && t[i + 1] == ' '),
        forall|i: int|
            1 <= i < t.len() && (t[i] == '.' || t[i] == ',' || t[i] == '!' || t[i] == '?' || t[i] == ';'
                || t[i] == ':' || t[i] == ')' || t[i] == '/') ==> #[trigger] t[i - 1] != ' ',
        exists|i: int|
            0 <= i < t.len() && !(('0' <= #[trigger] t[i] && t[i] <= '9') || t[i] == ' ' || t[i] == '.' || t[i] == ')'
                || t[i] == '(' || t[i] == '-' || t[i] == '/'),
    ensures
        normalized_tts(t) == Some(t),
{
    assert forall|i: int| 0 <= i < t.len() implies #[trigger] t[i] != '\r' && mapped_char(t[i]) == t[i] by {
        let c = t[i];
        if ('a' <= c && c <= 'z') || ('A' <= c && c <= 'Z') || ('0' <= c && c <= '9') {
            assert((c as u32) < 128);
            assert(is_alnum(c));
        } else if c != ' ' {
            assert((c as u32) < 128);
            assert(!is_alnum(c));
            assert(!is_ws(c));
        }
    }
    assert(fixed_chars(t));
    assert forall|i: int| 1 <= i < t.len() && is_attaching(#[trigger] t[i]) implies t[i - 1] != ' ' by {}
    assert(tight_punct(t));
    assert(single_spaced(t));
    lemma_collapse_prefix(t, t.len() as int);
    assert(t.take(t.len() as int) =~= t);
    assert(!is_ws(t[0]) && !is_ws(t.last())) by {
        assert(plain_char(t[0]));
        assert(plain_char(t.last()));
    }
    assert(trim_start(t) == t);
    assert(trim_end(t) == t);
    let w = choose|i: int|
        0 <= i < t.len() && !(('0' <= #[trigger] t[i] && t[i] <= '9') || t[i] == ' ' || t[i] == '.' || t[i] == ')'
            || t[i] == '(' || t[i] == '-' || t[i] == '/');
    assert(plain_char(t[w]));
    assert(!is_counter_char(t[w]));
    assert(collapse(t).0 == t);
    assert(!(forall|i: int| 0 <= i < t.len() ==> is_counter_char(#[trigger] t[i])));
}

proof fn lemma_collapse_same_mapping(s: Seq<char>, u: Seq<char>)
    requires
        s.len() == u.len(),
        forall|i: int| 0 <= i < s.len() ==> (#[trigger] s[i] == '\r') == (u[i] == '\r'),
        forall|i: int| 0 <= i < s.len() ==> mapped_char(#[trigger] s[i]) == mapped_char(u[i]),
    ensures
        collapse(s) == collapse(u),
    decreases s.len(),
{
    if s.len() > 0 {
        lemma_collapse_same_mapping(s.drop_last(), u.drop_last());
        assert(s.last() == s[s.len() - 1] && u.last() == u[u.len() - 1]);
    }
}

/// Markup characters (`* ` # > ~ | [ ] { } _`), line feeds and tabs only
/// separate words: writing a space in place of any one of them leaves the
/// normalized text unchanged.
pub proof fn lemma_markup_acts_as_space(s: Seq<char>, i: int)
    requires
        0 <= i < s.len(),
        s[i] == '*' || s[i] == '`' || s[i] == '#' || s[i] == '>' || s[i] == '~' || s[i] == '|' || s[i] == '['
            || s[i] == ']' || s[i] == '{' || s[i] == '}' || s[i] == '_' || s[i] == '\n' || s[i] == '\t',
    ensures
        normalized_tts(s.update(i, ' ')) == normalized_tts(s),
{
    let u = s.update(i, ' ');
    assert(mapped_char(' ') == ' ');
    assert forall|k: int| 0 <= k < s.len() implies mapped_char(#[trigger] s[k]) == mapped_char(u[k]) by {
        if k == i {
            assert(mapped_char(s[k]) == ' ');
        }
    }
    assert forall|k: int| 0 <= k < s.len() implies (#[trigger] s[k] == '\r') == (u[k] == '\r') by {}
    lemma_collapse_same_mapping(s, u);
}

} // verus!
