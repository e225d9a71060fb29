//! Object storage of call recordings: its settings, errors and key layout,
//! and the usage and sentiment rows read back for reporting.

use vstd::prelude::*;
use crate::text::push_str;

verus! {

/// Errors of object storage.
pub enum StorageError {
    S3(String),
    NotFound(String),
    Io(String),
}

/// Connection settings of the S3-compatible store.
pub struct StorageConfig {
    pub endpoint_url: String,
    pub access_key: String,
    pub secret_key: String,
    pub region: String,
    pub bucket: String,
    pub force_path_style: bool,
}

/// Key under which a session's recording is stored.
pub fn recording_key(tenant_id: &str, session_id: &str) -> (key: String)
    ensures
        key@ == "recordings/"@ + tenant_id@ + "/"@ + session_id@ + ".wav"@,
{
    let mut key = String::new();
    push_str(&mut key, "recordings/");
    push_str(&mut key, tenant_id);
    push_str(&mut key, "/");
    push_str(&mut key, session_id);
    push_str(&mut key, ".wav");
    key
}

/// Number of calls of a campaign with one sentiment.
pub struct SentimentRow {
    pub sentiment: String,
    pub count: i64,
}

/// Usage of a tenant over a period, summed.
pub struct UsageSummary {
    pub call_count: i64,
    pub total_duration_secs: i64,
    pub asr_seconds: i64,
    pub tts_characters: i64,
    pub llm_tokens: i64,
    pub cost_usd_cents: i64,
}

impl UsageSummary {
    /// The summary from the six sums, in column order.
    pub fn from_sums(sums: (i64, i64, i64, i64, i64, i64)) -> (u: UsageSummary)
        ensures
            u.call_count == sums.0,
            u.total_duration_secs == sums.1,
            u.asr_seconds == sums.2,
            u.tts_characters == sums.3,
            u.llm_tokens == sums.4,
            u.cost_usd_cents == sums.5,
    {
        UsageSummary {
            call_count: sums.0,
            total_duration_secs: sums.1,
            asr_seconds: sums.2,
            tts_characters: sums.3,
            llm_tokens: sums.4,
            cost_usd_cents: sums.5,
        }
    }
}

} // verus!
