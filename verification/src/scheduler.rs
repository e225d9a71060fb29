//! Decisions of the campaign scheduler: its settings, when a contact is
//! dialed, how a failed call is retried, and the text of a finished call's
//! transcript.

use vstd::prelude::*;
use crate::text::{chars_of, push_char, push_str, text_is};

verus! {

/// Calls to a contact before it is marked failed.
pub const MAX_RETRY_ATTEMPTS: u32 = 3;

/// Calls per minute a campaign may place when it sets no rate.
pub const DEFAULT_CALL_RATE_PER_MINUTE: u64 = 10;

/// Asterisk ARI connection settings.
pub struct AriConfig {
    pub base_url: String,
    pub username: String,
    pub password: String,
    pub stasis_app: String,
}

/// Settings of the LLM used for post-call analysis.
pub struct LlmConfig {
    pub base_url: String,
    pub api_key: String,
    pub model: String,
}

/// `v`, or `default` when it is absent.
pub open spec fn or_default(v: Option<String>, default: Seq<char>) -> Seq<char> {
    match v {
        Some(s) => s@,
        None => default,
    }
}

fn string_or(v: Option<String>, default: &str) -> (s: String)
    ensures
        s@ == or_default(v, default@),
{
    match v {
        Some(s) => s,
        None => default.to_owned(),
    }
}

impl AriConfig {
    /// The settings from the values set in the environment, each missing one
    /// taken from the defaults (`http://localhost:8088`, `admin`, `admin`,
    /// `voicebot`).
    pub fn from_values(base_url: Option<String>, username: Option<String>, password: Option<String>, stasis_app: Option<String>) -> (c: AriConfig)
        ensures
            c.base_url@ == or_default(base_url, "http://localhost:8088"@),
            c.username@ == or_default(username, "admin"@),
            c.password@ == or_default(password, "admin"@),
            c.stasis_app@ == or_default(stasis_app, "voicebot"@),
    {
        AriConfig {
            base_url: string_or(base_url, "http://localhost:8088"),
            username: string_or(username, "admin"),
            password: string_or(password, "admin"),
            stasis_app: string_or(stasis_app, "voicebot"),
        }
    }
}

impl LlmConfig {
    /// The settings from the values set in the environment, each missing one
    /// taken from the defaults (`http://localhost:8000`, no key,
    /// `gpt-4o-mini`).
    pub fn from_values(base_url: Option<String>, api_key: Option<String>, model: Option<String>) -> (c: LlmConfig)
        ensures
            c.base_url@ == or_default(base_url, "http://localhost:8000"@),
            c.api_key@ == or_default(api_key, ""@),
            c.model@ == or_default(model, "gpt-4o-mini"@),
    {
        LlmConfig {
            base_url: string_or(base_url, "http://localhost:8000"),
            api_key: string_or(api_key, ""),
            model: string_or(model, "gpt-4o-mini"),
        }
    }
}

/// What is done with a contact whose call failed.
pub enum RetryDecision {
    /// Give up on the contact.
    MarkFailed,
    /// Call again after this many minutes.
    RetryAfterMinutes(u64),
}

/// `3^n`.
pub open spec fn pow3(n: nat) -> nat
    decreases n,
{
    if n == 0 { 1 } else { 3 * pow3((n - 1) as nat) }
}

/// What follows the failure of attempt `attempt`.
pub open spec fn retry_plan(attempt: u32) -> RetryDecision {
    if attempt >= MAX_RETRY_ATTEMPTS {
        RetryDecision::MarkFailed
    } else {
        RetryDecision::RetryAfterMinutes((5 * pow3(attempt as nat)) as u64)
    }
}

/// After attempt `attempt` fails: give up once the attempts are used up,
/// else wait 5, 15, 45, ... minutes (five times three to the attempt).
pub fn retry_decision(attempt: u32) -> (d: RetryDecision)
    ensures
        d == retry_plan(attempt),
        attempt >= MAX_RETRY_ATTEMPTS ==> d is MarkFailed,
        attempt < MAX_RETRY_ATTEMPTS ==> d == RetryDecision::RetryAfterMinutes((5 * pow3(attempt as nat)) as u64),
{
    if attempt >= MAX_RETRY_ATTEMPTS {
        RetryDecision::MarkFailed
    } else {
        let mut p: u64 = 1;
        let mut i: u32 = 0;
        while i < attempt
            invariant
                i <= attempt < 3,
                p == pow3(i as nat),
                p <= 9,
            decreases attempt - i,
        {
            assert(pow3((i + 1) as nat) == 3 * pow3(i as nat));
            assert(i == 0 ==> p == 1) by {
                if i == 0 {
                    assert(pow3(0) == 1);
                }
            }
            assert(i == 1 ==> p == 3) by {
                if i == 1 {
                    assert(pow3(1) == 3 * pow3(0));
                }
            }
            p = p * 3;
            i += 1;
        }
        RetryDecision::RetryAfterMinutes(5 * p)
    }
}

/// Whether the hour `hour` lies in the campaign's calling window; a
/// campaign without both bounds may call at any hour.
pub open spec fn in_schedule(start_hour: Option<u64>, end_hour: Option<u64>, hour: u64) -> bool {
    match (start_hour, end_hour) {
        (Some(s), Some(e)) => s <= hour && hour < e,
        _ => true,
    }
}

/// Whether a call may be placed at `hour` (UTC).
pub fn is_within_schedule(start_hour: Option<u64>, end_hour: Option<u64>, hour: u64) -> (r: bool)
    ensures
        r == in_schedule(start_hour, end_hour, hour),
{
    match (start_hour, end_hour) {
        (Some(s), Some(e)) => hour >= s && hour < e,
        _ => true,
    }
}

/// The campaign's calls per minute: as configured, else the default.
pub fn call_rate_from_config(configured: Option<u64>) -> (rate: u64)
    ensures
        rate == match configured {
            Some(r) => r,
            None => DEFAULT_CALL_RATE_PER_MINUTE,
        },
{
    match configured {
        Some(r) => r,
        None => DEFAULT_CALL_RATE_PER_MINUTE,
    }
}

/// The limit as the counter's signed type sees it (values past `i64::MAX`
/// wrap around).
pub open spec fn limit_as_i64(limit: u64) -> int {
    if limit <= i64::MAX { limit as int } else { limit - 18446744073709551616 }
}

/// Whether this minute's call count is over the limit.
pub fn rate_limit_exceeded(count: i64, limit: u64) -> (r: bool)
    ensures
        r == (count > limit_as_i64(limit)),
{
    let l: i64 = if limit <= 9223372036854775807 {
        limit as i64
    } else {
        (limit - 9223372036854775808) as i64 - 9223372036854775807 - 1
    };
    count > l
}

/// Whether a job may go on to dial, or why not.
pub enum DialGate {
    /// The campaign is not running: the job is done without a call.
    Skip,
    /// The hour is outside the calling window: the job fails, to be retried.
    OutsideSchedule,
    /// Dial.
    Proceed,
}

/// Checks a job against its campaign before any call is counted: only an
/// `active` campaign dials, and only inside its calling window.
pub fn campaign_gate(status: &String, within_schedule: bool) -> (g: DialGate)
    ensures
        status@ != "active"@ ==> g is Skip,
        status@ == "active"@ && !within_schedule ==> g is OutsideSchedule,
        status@ == "active"@ && within_schedule ==> g is Proceed,
{
    if !text_is(status, "active") {
        DialGate::Skip
    } else if !within_schedule {
        DialGate::OutsideSchedule
    } else {
        DialGate::Proceed
    }
}

/// `s` without its leading `+` signs.
pub open spec fn strip_plus(s: Seq<char>) -> Seq<char>
    decreases s.len(),
{
    if s.len() > 0 && s[0] == '+' { strip_plus(s.drop_first()) } else { s }
}

/// The SIP endpoint for a phone number: `PJSIP/` and the number without its
/// leading `+` signs.
pub fn dial_endpoint(phone_number: &str) -> (e: String)
    ensures
        e@ == "PJSIP/"@ + strip_plus(phone_number@),
{
    let cs = chars_of(phone_number);
    let mut start: usize = 0;
    assert(cs@.skip(0) =~= cs@);
    while start < cs.len() && cs[start] == '+'
        invariant
            cs@ == phone_number@,
            start <= cs@.len(),
            strip_plus(cs@) == strip_plus(cs@.skip(start as int)),
        decreases cs@.len() - start,
    {
        assert(cs@.skip(start as int).drop_first() =~= cs@.skip(start + 1));
        start += 1;
    }
    let mut e = String::new();
    push_str(&mut e, "PJSIP/");
    let ghost prefix = e@;
    let mut i: usize = start;
    while i < cs.len()
        invariant
            cs@ == phone_number@,
            start <= i <= cs@.len(),
            e@ == prefix + cs@.subrange(start as int, i as int),
        decreases cs@.len() - i,
    {
        push_char(&mut e, cs[i]);
        assert(cs@.subrange(start as int, i + 1) =~= cs@.subrange(start as int, i as int).push(cs@[i as int]));
        i += 1;
    }
    proof {
        assert(cs@.subrange(start as int, cs@.len() as int) =~= cs@.skip(start as int));
        let t = cs@.skip(start as int);
        assert(t.len() == 0 || t[0] != '+');
    }
    e
}

/// The key of a campaign's per-minute call counter.
pub fn dial_rate_key(campaign_id: &str) -> (k: String)
    ensures
        k@ == "campaign:"@ + campaign_id@ + ":dial_rate_1m"@,
{
    let mut k = String::new();
    push_str(&mut k, "campaign:");
    push_str(&mut k, campaign_id);
    push_str(&mut k, ":dial_rate_1m");
    k
}

/// The arguments handed to the Stasis app with an originated call.
pub fn originate_app_args(campaign_id: &str, contact_id: &str) -> (a: String)
    ensures
        a@ == "campaign_id="@ + campaign_id@ + ",contact_id="@ + contact_id@,
{
    let mut a = String::new();
    push_str(&mut a, "campaign_id=");
    push_str(&mut a, campaign_id);
    push_str(&mut a, ",contact_id=");
    push_str(&mut a, contact_id);
    a
}

/// One turn of a stored transcript: who spoke, if recorded, and what was
/// said, if recorded.
pub struct TranscriptTurn {
    pub role: Option<String>,
    pub text: Option<String>,
}

/// The line of a turn: `role: text`, with `?` for an unknown role; a turn
/// without text has no line.
pub open spec fn turn_line(t: TranscriptTurn) -> Option<Seq<char>> {
    match t.text {
        None => None,
        Some(text) => Some(or_default(t.role, "?"@) + ": "@ + text@),
    }
}

/// The lines of the turns that have one, in order.
pub open spec fn turn_lines(ts: Seq<TranscriptTurn>) -> Seq<Seq<char>>
    decreases ts.len(),
{
    if ts.len() == 0 {
        Seq::empty()
    } else {
        match turn_line(ts.last()) {
            Some(l) => turn_lines(ts.drop_last()).push(l),
            None => turn_lines(ts.drop_last()),
        }
    }
}

/// The transcript as plain text: the turns' lines joined by newlines.
pub fn transcript_text(turns: &[TranscriptTurn]) -> (t: String)
    ensures
        t@ == crate::text::joined(turn_lines(turns@), "\n"@),
{
    let mut out = String::new();
    let mut any = false;
    let mut i: usize = 0;
    while i < turns.len()
        invariant
            i <= turns@.len(),
            out@ == crate::text::joined(turn_lines(turns@.take(i as int)), "\n"@),
            any == (turn_lines(turns@.take(i as int)).len() > 0),
        decreases turns@.len() - i,
    {
        proof {
            assert(turns@.take(i + 1).drop_last() =~= turns@.take(i as int));
            assert(turns@.take(i + 1).last() == turns@[i as int]);
        }
        match &turns[i].text {
            None => {},
            Some(text) => {
                let ghost before = turn_lines(turns@.take(i as int));
                if any {
                    push_str(&mut out, "\n");
                }
                match &turns[i].role {
                    Some(r) => push_str(&mut out, r.as_str()),
                    None => push_str(&mut out, "?"),
                }
                push_str(&mut out, ": ");
                push_str(&mut out, text.as_str());
                any = true;
                proof {
                    let after = turn_lines(turns@.take(i + 1));
                    assert(after == before.push(turn_line(turns@[i as int])->0));
                    assert(after.drop_last() =~= before);
                }
            },
        }
        i += 1;
    }
    assert(turns@.take(turns@.len() as int) =~= turns@);
    out
}

/// The user message asking for the analysis of a transcript.
pub fn analysis_request_text(transcript: &str) -> (m: String)
    ensures
        m@ == "Transcript:\n"@ + transcript@,
{
    let mut m = String::new();
    push_str(&mut m, "Transcript:\n");
    push_str(&mut m, transcript);
    m
}

} // verus!
