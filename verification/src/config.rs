//! Load-test configuration: defaults and validation.

use vstd::prelude::*;
use crate::text::{blank, concat3, is_blank, text_is};

verus! {

/// Errors of the load tester that the library reports.
pub enum LoadtestError {
    InvalidConfig(String),
    MissingEnvVars(Vec<String>),
    UnsupportedWav { path: String, reason: String },
    Timeout(String),
    Protocol(String),
}

/// Which backend drives the calls and how to reach it.
pub struct BackendConfig {
    pub kind: String,
    pub asterisk: Option<AsteriskBackendConfig>,
    pub xphone: Option<XphoneBackendConfig>,
}

/// Asterisk ARI + AudioSocket external media backend.
pub struct AsteriskBackendConfig {
    pub ari_host: String,
    pub ari_port: u16,
    pub username: String,
    pub password: String,
    pub app_name: String,
    pub audio_host: String,
    pub accept_timeout_ms: u64,
}

/// SIP soft-phone backend.
pub struct XphoneBackendConfig {
    pub sip_host: String,
    pub local_ip: String,
    pub sip_port: u16,
    pub transport: String,
    pub username: String,
    pub password: String,
    pub rtp_port_min: u16,
    pub rtp_port_max: u16,
    pub register_timeout_ms: u64,
    pub call_timeout_ms: u64,
}

/// Campaign shape. The call rate (a float) is checked by the caller and
/// passed to [`LoadtestConfig::validate`] as a verdict.
pub struct CampaignConfig {
    pub name: String,
    /// "outbound" (default) or "inbound".
    pub mode: String,
    pub target_endpoint: String,
    pub caller_id: String,
    pub settle_before_playback_ms: u64,
    pub record_after_playback_ms: u64,
    /// Max simultaneous calls.
    pub concurrency: usize,
    /// Stop after N calls; 0 with a soak duration means soak mode.
    pub total_calls: usize,
    /// Stop after N seconds even if total_calls is not reached; 0 = no limit.
    pub soak_duration_secs: u64,
    /// Spread the first `concurrency` calls over this window (ms).
    pub ramp_up_ms: u64,
    /// Timeout waiting for each inbound INVITE in inbound mode.
    pub inbound_timeout_ms: u64,
}

/// Input audio and artifact locations.
pub struct MediaConfig {
    pub input_wav: String,
    pub artifact_dir: String,
}

/// Integer analysis settings (the silence threshold, a float, is checked by
/// the caller).
pub struct AnalysisSettings {
    pub window_ms: u32,
    pub gap_threshold_ms: u64,
    pub stutter_gap_ms: u64,
}

/// A whole load-test configuration.
pub struct LoadtestConfig {
    pub backend: BackendConfig,
    pub campaign: CampaignConfig,
    pub media: MediaConfig,
    pub analysis: AnalysisSettings,
}

/// Verdicts on the configuration's floating-point settings.
pub struct FloatChecks {
    /// `campaign.call_rate_per_second >= 0.0`
    pub call_rate_non_negative: bool,
    /// `0.0 < analysis.silence_threshold < 1.0`
    pub silence_threshold_in_range: bool,
}

pub fn default_backend_kind() -> (s: String) ensures s@ == "asterisk-external-media"@, { "asterisk-external-media".to_owned() }
pub fn default_ari_port() -> (p: u16) ensures p == 8088, { 8088 }
pub fn default_app_name() -> (s: String) ensures s@ == "voicebot-loadtest"@, { "voicebot-loadtest".to_owned() }
pub fn default_accept_timeout_ms() -> (v: u64) ensures v == 10_000, { 10_000 }
pub fn default_campaign_name() -> (s: String) ensures s@ == "phase1-outbound"@, { "phase1-outbound".to_owned() }
pub fn default_target_endpoint() -> (s: String) ensures s@ == "Local/1000@dp_entry_call_in"@, { "Local/1000@dp_entry_call_in".to_owned() }
pub fn default_caller_id() -> (s: String) ensures s@ == "voicebot-loadtest"@, { "voicebot-loadtest".to_owned() }
pub fn default_settle_before_playback_ms() -> (v: u64) ensures v == 500, { 500 }
pub fn default_record_after_playback_ms() -> (v: u64) ensures v == 3_000, { 3_000 }
pub fn default_artifact_dir() -> (s: String) ensures s@ == "artifacts/loadtest"@, { "artifacts/loadtest".to_owned() }
pub fn default_window_ms() -> (v: u32) ensures v == 20, { 20 }
pub fn default_gap_threshold_ms() -> (v: u64) ensures v == 250, { 250 }
pub fn default_concurrency() -> (v: usize) ensures v == 1, { 1 }
pub fn default_total_calls() -> (v: usize) ensures v == 1, { 1 }
pub fn default_stutter_gap_ms() -> (v: u64) ensures v == 200, { 200 }
pub fn default_mode() -> (s: String) ensures s@ == "outbound"@, { "outbound".to_owned() }
pub fn default_inbound_timeout_ms() -> (v: u64) ensures v == 60_000, { 60_000 }
pub fn default_sip_port() -> (p: u16) ensures p == 5060, { 5060 }
pub fn default_sip_transport() -> (s: String) ensures s@ == "udp"@, { "udp".to_owned() }
pub fn default_rtp_port_min() -> (p: u16) ensures p == 20000, { 20000 }
pub fn default_rtp_port_max() -> (p: u16) ensures p == 20100, { 20100 }
pub fn default_register_timeout_ms() -> (v: u64) ensures v == 10_000, { 10_000 }
pub fn default_call_timeout_ms() -> (v: u64) ensures v == 30_000, { 30_000 }

/// The first problem with an Asterisk backend section, if any.
pub open spec fn asterisk_problem(a: Option<AsteriskBackendConfig>) -> Option<Seq<char>> {
    match a {
        None => Some("backend.kind is 'asterisk-external-media' but [backend.asterisk] is missing"@),
        Some(a) => if blank(a.ari_host@) || blank(a.username@) || blank(a.password@) || blank(a.app_name@)
            || blank(a.audio_host@) {
            Some("backend.asterisk fields must be non-empty"@)
        } else if a.accept_timeout_ms == 0 {
            Some("backend.asterisk.accept_timeout_ms must be > 0"@)
        } else {
            None
        },
    }
}

/// The first problem with an xphone backend section, if any.
pub open spec fn xphone_problem(x: Option<XphoneBackendConfig>) -> Option<Seq<char>> {
    match x {
        None => Some("backend.kind is 'xphone' but [backend.xphone] is missing"@),
        Some(x) => if blank(x.sip_host@) || blank(x.username@) || blank(x.password@) {
            Some("backend.xphone: sip_host, username, password must be non-empty"@)
        } else if x.rtp_port_min >= x.rtp_port_max {
            Some("backend.xphone: rtp_port_min must be < rtp_port_max"@)
        } else if x.register_timeout_ms == 0 {
            Some("backend.xphone.register_timeout_ms must be > 0"@)
        } else {
            None
        },
    }
}

/// The first problem with a configuration, checked in a fixed order, if any.
pub open spec fn config_problem(c: LoadtestConfig, f: FloatChecks) -> Option<Seq<char>> {
    let backend_problem = if c.backend.kind@ == "asterisk-external-media"@ {
        asterisk_problem(c.backend.asterisk)
    } else if c.backend.kind@ == "xphone"@ {
        xphone_problem(c.backend.xphone)
    } else {
        Some("unsupported backend.kind: "@ + c.backend.kind@)
    };
    if backend_problem is Some {
        backend_problem
    } else if !(c.campaign.mode@ == "outbound"@ || c.campaign.mode@ == "inbound"@) {
        Some("unsupported campaign.mode: '"@ + c.campaign.mode@ + "' (expected 'outbound' or 'inbound')"@)
    } else if c.campaign.mode@ == "inbound"@ && c.backend.kind@ != "xphone"@ {
        Some("inbound mode is only supported with the 'xphone' backend"@)
    } else if c.campaign.mode@ == "outbound"@ && blank(c.campaign.target_endpoint@) {
        Some("campaign.target_endpoint must be non-empty for outbound mode"@)
    } else if c.campaign.concurrency == 0 {
        Some("campaign.concurrency must be > 0"@)
    } else if c.campaign.total_calls == 0 && c.campaign.soak_duration_secs == 0 {
        Some("campaign: at least one of total_calls or soak_duration_secs must be > 0"@)
    } else if !f.call_rate_non_negative {
        Some("campaign.call_rate_per_second must be >= 0.0"@)
    } else if c.campaign.settle_before_playback_ms > 30_000 {
        Some("campaign.settle_before_playback_ms is unreasonably large"@)
    } else if !f.silence_threshold_in_range {
        Some("analysis.silence_threshold must be between 0.0 and 1.0"@)
    } else if c.analysis.window_ms == 0 {
        Some("analysis.window_ms must be > 0"@)
    } else {
        None
    }
}

/// Whether `r` is `Ok` exactly when there is no problem, else the
/// invalid-configuration error with the problem's message.
pub open spec fn reports(r: Result<(), LoadtestError>, problem: Option<Seq<char>>) -> bool {
    match problem {
        None => r is Ok,
        Some(m) => r matches Err(LoadtestError::InvalidConfig(s)) && s@ == m,
    }
}

fn invalid(msg: &str) -> (r: Result<(), LoadtestError>)
    ensures
        r matches Err(LoadtestError::InvalidConfig(s)) && s@ == msg@,
{
    Err(LoadtestError::InvalidConfig(msg.to_owned()))
}

impl LoadtestConfig {
    fn validate_asterisk_backend(&self) -> (r: Result<(), LoadtestError>)
        ensures
            reports(r, asterisk_problem(self.backend.asterisk)),
    {
        match &self.backend.asterisk {
            None => invalid("backend.kind is 'asterisk-external-media' but [backend.asterisk] is missing"),
            Some(a) => {
                if is_blank(a.ari_host.as_str()) || is_blank(a.username.as_str()) || is_blank(a.password.as_str())
                    || is_blank(a.app_name.as_str()) || is_blank(a.audio_host.as_str()) {
                    return invalid("backend.asterisk fields must be non-empty");
                }
                if a.accept_timeout_ms == 0 {
                    return invalid("backend.asterisk.accept_timeout_ms must be > 0");
                }
                Ok(())
            }
        }
    }

    fn validate_xphone_backend(&self) -> (r: Result<(), LoadtestError>)
        ensures
            reports(r, xphone_problem(self.backend.xphone)),
    {
        match &self.backend.xphone {
            None => invalid("backend.kind is 'xphone' but [backend.xphone] is missing"),
            Some(x) => {
                if is_blank(x.sip_host.as_str()) || is_blank(x.username.as_str()) || is_blank(x.password.as_str()) {
                    return invalid("backend.xphone: sip_host, username, password must be non-empty");
                }
                if x.rtp_port_min >= x.rtp_port_max {
                    return invalid("backend.xphone: rtp_port_min must be < rtp_port_max");
                }
                if x.register_timeout_ms == 0 {
                    return invalid("backend.xphone.register_timeout_ms must be > 0");
                }
                Ok(())
            }
        }
    }

    /// Checks the configuration, reporting the first problem found.
    pub fn validate(&self, floats: &FloatChecks) -> (r: Result<(), LoadtestError>)
        ensures
            reports(r, config_problem(*self, *floats)),
    {
        if text_is(&self.backend.kind, "asterisk-external-media") {
            let r = self.validate_asterisk_backend();
            if r.is_err() {
                return r;
            }
        } else if text_is(&self.backend.kind, "xphone") {
            let r = self.validate_xphone_backend();
            if r.is_err() {
                return r;
            }
        } else {
            let msg = concat3("unsupported backend.kind: ", self.backend.kind.as_str(), "");
            proof {
                reveal_strlit("");
                assert(msg@ =~= "unsupported backend.kind: "@ + self.backend.kind@);
            }
            return Err(LoadtestError::InvalidConfig(msg));
        }
        let outbound = text_is(&self.campaign.mode, "outbound");
        let inbound = text_is(&self.campaign.mode, "inbound");
        if !(outbound || inbound) {
            let msg = concat3(
                "unsupported campaign.mode: '",
                self.campaign.mode.as_str(),
                "' (expected 'outbound' or 'inbound')",
            );
            return Err(LoadtestError::InvalidConfig(msg));
        }
        if inbound && !text_is(&self.backend.kind, "xphone") {
            return invalid("inbound mode is only supported with the 'xphone' backend");
        }
        if outbound && is_blank(self.campaign.target_endpoint.as_str()) {
            return invalid("campaign.target_endpoint must be non-empty for outbound mode");
        }
        if self.campaign.concurrency == 0 {
            return invalid("campaign.concurrency must be > 0");
        }
        if self.campaign.total_calls == 0 && self.campaign.soak_duration_secs == 0 {
            return invalid("campaign: at least one of total_calls or soak_duration_secs must be > 0");
        }
        if !floats.call_rate_non_negative {
            return invalid("campaign.call_rate_per_second must be >= 0.0");
        }
        if self.campaign.settle_before_playback_ms > 30_000 {
            return invalid("campaign.settle_before_playback_ms is unreasonably large");
        }
        if !floats.silence_threshold_in_range {
            return invalid("analysis.silence_threshold must be between 0.0 and 1.0");
        }
        if self.analysis.window_ms == 0 {
            return invalid("analysis.window_ms must be > 0");
        }
        Ok(())
    }
}

/// Inbound campaigns are only accepted with the xphone backend: a
/// configuration that validates in inbound mode names that backend.
pub proof fn lemma_inbound_requires_xphone(c: LoadtestConfig, f: FloatChecks)
    requires
        config_problem(c, f) is None,
        c.campaign.mode@ == "inbound"@,
    ensures
        c.backend.kind@ == "xphone"@,
{
}

/// A configuration that validates has a positive concurrency and analysis
/// window, and either a call count or a soak duration.
pub proof fn lemma_valid_config_is_runnable(c: LoadtestConfig, f: FloatChecks)
    requires
        config_problem(c, f) is None,
    ensures
        c.campaign.concurrency > 0,
        c.analysis.window_ms > 0,
        c.campaign.total_calls > 0 || c.campaign.soak_duration_secs > 0,
        c.campaign.settle_before_playback_ms <= 30_000,
{
}

} // verus!
