//! Audio of the load tester: the canonical form test audio is brought to,
//! the validation of WAV input, and the requests and results of a test call.

use vstd::prelude::*;
use crate::config::LoadtestError;
use crate::pcm::upsampled;
use crate::text::{decimal, decimal_string, push_str};

verus! {

/// Sample rate of all audio the load tester sends and records.
pub const CANONICAL_SAMPLE_RATE: u32 = 16000;

/// Channels of all audio the load tester sends and records.
pub const CANONICAL_CHANNELS: u16 = 1;

/// Samples in 10 ms of canonical audio.
pub const TEN_MS_SAMPLES: usize = 160;

/// Audio in canonical form.
pub struct NormalizedAudio {
    pub sample_rate: u32,
    pub channels: u16,
    pub samples: Vec<i16>,
}

impl NormalizedAudio {
    /// Duration in whole milliseconds.
    pub fn duration_ms(&self) -> (ms: u64)
        requires
            self.sample_rate > 0,
            self.samples@.len() * 1000 <= u64::MAX,
        ensures
            ms == self.samples@.len() * 1000 / (self.sample_rate as nat),
    {
        (self.samples.len() as u64 * 1000) / self.sample_rate as u64
    }
}

/// Why a WAV file cannot be used, if it cannot: it must hold 16-bit integer
/// PCM, in one or two channels.
pub open spec fn wav_problem(is_float: bool, bits_per_sample: u16, channels: u16) -> Option<Seq<char>> {
    if is_float || bits_per_sample != 16 {
        Some("expected 16-bit PCM integer WAV, got "@ + (if is_float { "Float"@ } else { "Int"@ }) + " "@
            + decimal(bits_per_sample as nat) + "-bit"@)
    } else if channels != 1 && channels != 2 {
        Some("expected mono or stereo WAV, got "@ + decimal(channels as nat) + " channels"@)
    } else {
        None
    }
}

/// Checks the format of a WAV file at `path`; a file that cannot be used is
/// an `UnsupportedWav` error that says why.
pub fn check_wav_format(path: &str, is_float: bool, bits_per_sample: u16, channels: u16) -> (r: Result<(), LoadtestError>)
    ensures
        match wav_problem(is_float, bits_per_sample, channels) {
            None => r is Ok,
            Some(reason) => r matches Err(LoadtestError::UnsupportedWav { path: p, reason: m }) && p@ == path@
                && m@ == reason,
        },
{
    if is_float || bits_per_sample != 16 {
        let mut m = String::new();
        push_str(&mut m, "expected 16-bit PCM integer WAV, got ");
        if is_float {
            push_str(&mut m, "Float");
        } else {
            push_str(&mut m, "Int");
        }
        push_str(&mut m, " ");
        let b = decimal_string(bits_per_sample as u64);
        push_str(&mut m, b.as_str());
        push_str(&mut m, "-bit");
        Err(LoadtestError::UnsupportedWav { path: path.to_owned(), reason: m })
    } else if channels != 1 && channels != 2 {
        let mut m = String::new();
        push_str(&mut m, "expected mono or stereo WAV, got ");
        let c = decimal_string(channels as u64);
        push_str(&mut m, c.as_str());
        push_str(&mut m, " channels");
        Err(LoadtestError::UnsupportedWav { path: path.to_owned(), reason: m })
    } else {
        Ok(())
    }
}

/// Mean of a left and right sample, rounded toward zero.
pub open spec fn stereo_mean(l: i16, r: i16) -> i16 {
    ((l + r) / 2 + if (l + r) < 0 && (l + r) % 2 != 0 { 1int } else { 0int }) as i16
}

/// The mono signal of interleaved stereo: each whole pair averaged (a
/// trailing odd sample is dropped).
pub open spec fn stereo_to_mono_spec(raw: Seq<i16>) -> Seq<i16> {
    Seq::new(raw.len() / 2, |i: int| stereo_mean(raw[2 * i], raw[2 * i + 1]))
}

/// Averages interleaved stereo samples into mono.
pub fn stereo_to_mono(raw: &[i16]) -> (mono: Vec<i16>)
    ensures
        mono@ == stereo_to_mono_spec(raw@),
{
    let n = raw.len() / 2;
    let mut mono: Vec<i16> = Vec::new();
    let mut i: usize = 0;
    while i < n
        invariant
            i <= n,
            n == raw.len() / 2,
            mono@ =~= stereo_to_mono_spec(raw@).take(i as int),
        decreases n - i,
    {
        let l = raw[2 * i];
        let r = raw[2 * i + 1];
        let m = ((l as i32 + r as i32) / 2) as i16;
        mono.push(m);
        i += 1;
    }
    mono
}

/// How audio at a sample rate is brought to 16 kHz.
pub enum RatePlan {
    /// Already at 16 kHz.
    Keep,
    /// 8 kHz: each sample doubled.
    Upsample8k,
    /// Any other rate: linear interpolation from this rate.
    Resample(u32),
}

/// The way from `rate` to 16 kHz.
pub fn rate_plan(rate: u32) -> (p: RatePlan)
    ensures
        rate == 16000 ==> p is Keep,
        rate == 8000 ==> p is Upsample8k,
        rate != 16000 && rate != 8000 ==> p == RatePlan::Resample(rate),
{
    if rate == CANONICAL_SAMPLE_RATE {
        RatePlan::Keep
    } else if rate == 8000 {
        RatePlan::Upsample8k
    } else {
        RatePlan::Resample(rate)
    }
}

/// What the whole chain gives for mono audio at 16 or 8 kHz.
pub open spec fn canonical_samples(mono: Seq<i16>, rate: u32) -> Seq<i16> {
    if rate == 8000 { upsampled(mono) } else { mono }
}

/// Brings decoded WAV samples to canonical form where no interpolation is
/// needed: stereo is averaged to mono, and 8 kHz is upsampled. `None` for
/// a rate that needs interpolation.
pub fn normalize_decoded(raw: &[i16], channels: u16, rate: u32) -> (r: Option<NormalizedAudio>)
    requires
        channels == 1 || channels == 2,
        2 * raw@.len() <= usize::MAX,
    ensures
        (rate == 16000 || rate == 8000) ==> (r matches Some(a) && a.sample_rate == CANONICAL_SAMPLE_RATE
            && a.channels == CANONICAL_CHANNELS
            && a.samples@ == canonical_samples(if channels == 1 { raw@ } else { stereo_to_mono_spec(raw@) }, rate)),
        (rate != 16000 && rate != 8000) ==> r is None,
{
    let mono: Vec<i16> = if channels == 1 {
        let mut v: Vec<i16> = Vec::new();
        let mut i: usize = 0;
        while i < raw.len()
            invariant
                i <= raw@.len(),
                v@ =~= raw@.take(i as int),
            decreases raw@.len() - i,
        {
            v.push(raw[i]);
            i += 1;
        }
        assert(raw@.take(raw@.len() as int) =~= raw@);
        v
    } else {
        stereo_to_mono(raw)
    };
    match rate_plan(rate) {
        RatePlan::Keep => Some(NormalizedAudio { sample_rate: CANONICAL_SAMPLE_RATE, channels: CANONICAL_CHANNELS, samples: mono }),
        RatePlan::Upsample8k => {
            let up = crate::pcm::upsample_8k_to_16k(mono.as_slice());
            Some(NormalizedAudio { sample_rate: CANONICAL_SAMPLE_RATE, channels: CANONICAL_CHANNELS, samples: up })
        },
        RatePlan::Resample(_) => None,
    }
}

/// One outbound test call to place.
pub struct Phase1CallRequest {
    pub target_endpoint: String,
    pub caller_id: String,
    pub tx_samples: Vec<i16>,
    pub settle_before_playback_ms: u64,
    pub record_after_playback_ms: u64,
}

/// What a test call gave: timings and the recorded audio.
pub struct Phase1CallResult {
    pub connect_ms: u64,
    pub tx_started_at_ms: u64,
    pub tx_finished_at_ms: u64,
    pub recorded_samples: Vec<i16>,
    pub hangup_received: bool,
}

/// One inbound test call to wait for and answer.
pub struct Phase1InboundRequest {
    pub tx_samples: Vec<i16>,
    pub settle_before_playback_ms: u64,
    pub record_after_playback_ms: u64,
    pub inbound_timeout_ms: u64,
}

/// The error of a backend that cannot take inbound calls.
pub fn inbound_unsupported(backend_name: &str) -> (e: LoadtestError)
    ensures
        e matches LoadtestError::InvalidConfig(m) && m@ == "backend '"@ + backend_name@ + "' does not support inbound mode"@,
{
    let mut m = String::new();
    push_str(&mut m, "backend '");
    push_str(&mut m, backend_name);
    push_str(&mut m, "' does not support inbound mode");
    LoadtestError::InvalidConfig(m)
}

/// Accepts a successful ARI reply (2xx); any other status is a protocol
/// error naming the status and the URL.
pub fn ensure_success(status: u16, url: &str) -> (r: Result<(), LoadtestError>)
    ensures
        200 <= status < 300 ==> r is Ok,
        !(200 <= status < 300) ==> (r matches Err(LoadtestError::Protocol(m))
            && m@ == "ARI REST error "@ + decimal(status as nat) + " for "@ + url@),
{
    if 200 <= status && status < 300 {
        Ok(())
    } else {
        let mut m = String::new();
        push_str(&mut m, "ARI REST error ");
        let d = decimal_string(status as u64);
        push_str(&mut m, d.as_str());
        push_str(&mut m, " for ");
        push_str(&mut m, url);
        Err(LoadtestError::Protocol(m))
    }
}

/// Milliseconds that `n` samples of 16 kHz audio take to play.
pub fn playback_duration_ms(n: usize) -> (ms: u64)
    requires
        n * 1000 <= u64::MAX,
    ensures
        ms == n * 1000 / 16000,
{
    (n as u64 * 1000) / 16000
}

/// The states of a SIP call that matter while waiting for it to connect.
pub enum SipCallState {
    Active,
    OnHold,
    Ended,
    Other,
}

/// What a call's state says about waiting for it to become active: an
/// active or held call is ready, an ended one has failed, else keep waiting.
pub fn active_state_check(state: SipCallState) -> (r: Option<Result<(), LoadtestError>>)
    ensures
        (state is Active || state is OnHold) ==> r == Some(Ok::<(), LoadtestError>(())),
        state is Ended ==> (r matches Some(Err(LoadtestError::Protocol(m)))
            && m@ == "xphone: call ended before becoming active"@),
        state is Other ==> r is None,
{
    match state {
        SipCallState::Active | SipCallState::OnHold => Some(Ok(())),
        SipCallState::Ended => Some(Err(LoadtestError::Protocol("xphone: call ended before becoming active".to_owned()))),
        SipCallState::Other => None,
    }
}

/// `prefix`, `n` in decimal, then `suffix`.
fn number_message(prefix: &str, n: u64, suffix: &str) -> (m: String)
    ensures
        m@ == prefix@ + decimal(n as nat) + suffix@,
{
    let mut m = String::new();
    push_str(&mut m, prefix);
    let d = decimal_string(n);
    push_str(&mut m, d.as_str());
    push_str(&mut m, suffix);
    m
}

/// The error when no inbound call arrives in time.
pub fn inbound_timeout_error(timeout_ms: u64) -> (e: LoadtestError)
    ensures
        e matches LoadtestError::Timeout(m) && m@ == "no inbound call arrived within "@ + decimal(timeout_ms as nat) + "ms"@,
{
    LoadtestError::Timeout(number_message("no inbound call arrived within ", timeout_ms, "ms"))
}

/// The error when a call does not become active in time.
pub fn activation_timeout_error(timeout_ms: u64) -> (e: LoadtestError)
    ensures
        e matches LoadtestError::Timeout(m)
            && m@ == "xphone: call did not become active within "@ + decimal(timeout_ms as nat) + "ms"@,
{
    LoadtestError::Timeout(number_message("xphone: call did not become active within ", timeout_ms, "ms"))
}

/// The error when SIP registration does not complete in time.
pub fn registration_timeout_error(timeout_ms: u64) -> (e: LoadtestError)
    ensures
        e matches LoadtestError::Timeout(m) && m@ == "SIP registration timed out after "@ + decimal(timeout_ms as nat) + "ms"@,
{
    LoadtestError::Timeout(number_message("SIP registration timed out after ", timeout_ms, "ms"))
}

/// Accepts the reply to a deletion: success, or 404 (already gone); any
/// other status is the same protocol error as [`ensure_success`] gives.
pub fn ensure_deleted(status: u16, url: &str) -> (r: Result<(), LoadtestError>)
    ensures
        (200 <= status < 300 || status == 404) ==> r is Ok,
        !(200 <= status < 300 || status == 404) ==> (r matches Err(LoadtestError::Protocol(m))
            && m@ == "ARI REST error "@ + decimal(status as nat) + " for "@ + url@),
{
    if status == 404 {
        Ok(())
    } else {
        ensure_success(status, url)
    }
}

} // verus!
