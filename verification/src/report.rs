//! Campaign summaries, histograms and report building blocks of the load tester.

use vstd::prelude::*;
use crate::analysis::CallAnalysis;
use crate::text::{chars_of, decimal, decimal_string, push_char, push_str, text_is};
use crate::sort::{leq_u64, sort_u64, sorted_u64};
use vstd::relations::sorted_by;

verus! {

/// The result of one call of a campaign.
pub struct CallResult {
    pub call_index: usize,
    /// "success" | "no_audio" | "completed_without_response" | "failed"
    pub outcome: String,
    pub error: Option<String>,
    pub connect_ms: u64,
    pub tx_started_at_ms: u64,
    pub tx_finished_at_ms: u64,
    pub recorded_samples: usize,
    pub hangup_received: bool,
    pub analysis: Option<CallAnalysis>,
    pub rx_wav_path: String,
}

/// HTML text of one character.
pub open spec fn html_escape_char(c: char) -> Seq<char> {
    if c == '&' {
        seq!['&', 'a', 'm', 'p', ';']
    } else if c == '<' {
        seq!['&', 'l', 't', ';']
    } else if c == '>' {
        seq!['&', 'g', 't', ';']
    } else if c == '"' {
        seq!['&', 'q', 'u', 'o', 't', ';']
    } else if c == '\'' {
        seq!['&', '#', '3', '9', ';']
    } else {
        seq![c]
    }
}

/// HTML text of a string: `& < > " '` replaced by their entities.
pub open spec fn html_escaped(s: Seq<char>) -> Seq<char>
    decreases s.len(),
{
    if s.len() == 0 {
        Seq::empty()
    } else {
        html_escaped(s.drop_last()) + html_escape_char(s.last())
    }
}

/// Escapes `& < > " '` for safe inclusion in HTML.
pub fn escape_html(input: &str) -> (escaped: String)
    ensures
        escaped@ == html_escaped(input@),
{
    let chars = chars_of(input);
    let mut escaped = String::new();
    let mut i: usize = 0;
    proof {
        reveal_strlit("&amp;");
        reveal_strlit("&lt;");
        reveal_strlit("&gt;");
        reveal_strlit("&quot;");
        reveal_strlit("&#39;");
    }
    while i < chars.len()
        invariant
            chars@ == input@,
            i <= chars@.len(),
            escaped@ == html_escaped(chars@.take(i as int)),
        decreases chars@.len() - i,
    {
        let ch = chars[i];
        proof {
            reveal_strlit("&amp;");
            reveal_strlit("&lt;");
            reveal_strlit("&gt;");
            reveal_strlit("&quot;");
            reveal_strlit("&#39;");
            assert(chars@.take(i + 1).drop_last() =~= chars@.take(i as int));
            assert(chars@.take(i + 1).last() == ch);
        }
        if ch == '&' {
            push_str(&mut escaped, "&amp;");
        } else if ch == '<' {
            push_str(&mut escaped, "&lt;");
        } else if ch == '>' {
            push_str(&mut escaped, "&gt;");
        } else if ch == '"' {
            push_str(&mut escaped, "&quot;");
        } else if ch == '\'' {
            push_str(&mut escaped, "&#39;");
        } else {
            push_char(&mut escaped, ch);
        }
        assert(escaped@ =~= html_escaped(chars@.take(i + 1)));
        i += 1;
    }
    assert(chars@.take(chars@.len() as int) =~= chars@);
    escaped
}

/// Escaped text holds none of `< > " '`, so it cannot open or close a tag or
/// an attribute value.
pub proof fn lemma_escaped_has_no_markup(s: Seq<char>)
    ensures
        forall|i: int| 0 <= i < html_escaped(s).len() ==> {
            let c = #[trigger] html_escaped(s)[i];
            c != '<' && c != '>' && c != '"' && c != '\''
        },
    decreases s.len(),
{
    if s.len() > 0 {
        lemma_escaped_has_no_markup(s.drop_last());
        let a = html_escaped(s.drop_last());
        let b = html_escape_char(s.last());
        assert forall|i: int| 0 <= i < html_escaped(s).len() implies {
            let c = #[trigger] html_escaped(s)[i];
            c != '<' && c != '>' && c != '"' && c != '\''
        } by {
            if i < a.len() {
                assert(html_escaped(s)[i] == a[i]);
            } else {
                assert(html_escaped(s)[i] == b[i - a.len()]);
            }
        }
    }
}

/// Text of an optional duration: `"<n> ms"`, or an em dash when absent.
pub open spec fn opt_ms_text(v: Option<u64>) -> Seq<char> {
    match v {
        Some(ms) => decimal(ms as nat) + seq![' ', 'm', 's'],
        None => seq!['—'],
    }
}

/// Renders an optional duration in milliseconds.
pub fn opt_ms(v: Option<u64>) -> (s: String)
    ensures
        s@ == opt_ms_text(v),
{
    proof {
        reveal_strlit(" ms");
        reveal_strlit("—");
    }
    match v {
        Some(ms) => {
            let mut s = decimal_string(ms);
            push_str(&mut s, " ms");
            s
        }
        None => "—".to_owned(),
    }
}

/// Renders `"<label>: <duration>"`.
pub fn opt_ms_label(label: &str, value: Option<u64>) -> (s: String)
    ensures
        s@ == label@ + seq![':', ' '] + opt_ms_text(value),
{
    proof {
        reveal_strlit(": ");
    }
    let mut s: String = label.to_owned();
    push_str(&mut s, ": ");
    let tail = opt_ms(value);
    push_str(&mut s, tail.as_str());
    s
}

/// Bar colour class of an outcome in the outcome chart.
pub open spec fn outcome_class_text(label: Seq<char>) -> Seq<char> {
    if label == "success"@ {
        "good"@
    } else if label == "completed_without_response"@ || label == "no_audio"@ {
        "warn"@
    } else {
        "bad"@
    }
}

/// Bar colour class of an outcome in the outcome chart.
pub fn outcome_class(label: &String) -> (class: &'static str)
    ensures
        class@ == outcome_class_text(label@),
{
    if text_is(label, "success") {
        "good"
    } else if text_is(label, "completed_without_response") || text_is(label, "no_audio") {
        "warn"
    } else {
        "bad"
    }
}

/// Badge class of an outcome in call tables.
pub open spec fn pill_class_text(label: Seq<char>) -> Seq<char> {
    if label == "success"@ {
        "success"@
    } else if label == "completed_without_response"@ || label == "no_audio"@ {
        "warn"@
    } else {
        "bad"@
    }
}

/// Badge class of an outcome in call tables.
pub fn pill_class(label: &String) -> (class: &'static str)
    ensures
        class@ == pill_class_text(label@),
{
    if text_is(label, "success") {
        "success"
    } else if text_is(label, "completed_without_response") || text_is(label, "no_audio") {
        "warn"
    } else {
        "bad"
    }
}

/// Outcome of a completed call: `"success"` when a response was detected,
/// `"no_audio"` when nothing was recorded, else `"completed_without_response"`.
pub open spec fn call_outcome_text(num_recorded: nat, first_response: Option<u64>) -> Seq<char> {
    if first_response is Some {
        "success"@
    } else if num_recorded == 0 {
        "no_audio"@
    } else {
        "completed_without_response"@
    }
}

/// Outcome label of a call that completed, from its recording and analysis.
pub fn call_outcome(recorded_samples: &[i16], analysis: &CallAnalysis) -> (outcome: String)
    ensures
        outcome@ == call_outcome_text(recorded_samples@.len(), analysis.first_response_ms),
{
    match analysis.first_response_ms {
        Some(_) => "success".to_owned(),
        None => {
            if recorded_samples.len() == 0 {
                "no_audio".to_owned()
            } else {
                "completed_without_response".to_owned()
            }
        }
    }
}

/// Aggregated results of a campaign.
pub struct CampaignSummary {
    pub campaign_id: String,
    pub campaign_name: String,
    pub backend: String,
    pub total_calls: usize,
    pub successful: usize,
    pub failed: usize,
    pub duration_ms: u64,
    pub p50_first_response_ms: Option<u64>,
    pub p90_first_response_ms: Option<u64>,
    pub p99_first_response_ms: Option<u64>,
    pub avg_first_response_ms: Option<u64>,
    pub avg_longest_gap_ms: u64,
    pub total_stutter_count: u32,
    pub artifact_dir: String,
    pub call_results: Vec<CallResult>,
}

/// The first-response time of a call, when it was analysed and a response was detected.
pub open spec fn call_first_response(c: CallResult) -> Option<u64> {
    match c.analysis {
        Some(a) => a.first_response_ms,
        None => None,
    }
}

/// First-response times of the calls that have one, in call order.
pub open spec fn first_responses(calls: Seq<CallResult>) -> Seq<u64>
    decreases calls.len(),
{
    if calls.len() == 0 {
        Seq::empty()
    } else {
        first_responses(calls.drop_last()) + match call_first_response(calls.last()) {
            Some(v) => seq![v],
            None => Seq::<u64>::empty(),
        }
    }
}

/// Number of calls whose outcome is `"success"`.
pub open spec fn success_count(calls: Seq<CallResult>) -> nat
    decreases calls.len(),
{
    if calls.len() == 0 {
        0
    } else {
        success_count(calls.drop_last()) + if calls.last().outcome@ == "success"@ { 1nat } else { 0nat }
    }
}

/// Sum of the longest gaps of the analysed calls.
pub open spec fn longest_gap_total(calls: Seq<CallResult>) -> nat
    decreases calls.len(),
{
    if calls.len() == 0 {
        0
    } else {
        longest_gap_total(calls.drop_last()) + match calls.last().analysis {
            Some(a) => a.longest_gap_ms as nat,
            None => 0nat,
        }
    }
}

/// Sum of the stutter counts of the analysed calls.
pub open spec fn stutter_total(calls: Seq<CallResult>) -> nat
    decreases calls.len(),
{
    if calls.len() == 0 {
        0
    } else {
        stutter_total(calls.drop_last()) + match calls.last().analysis {
            Some(a) => a.stutter_count as nat,
            None => 0nat,
        }
    }
}

/// Sum of a sequence of values.
pub open spec fn sum_u64(s: Seq<u64>) -> nat
    decreases s.len(),
{
    if s.len() == 0 { 0 } else { sum_u64(s.drop_last()) + s.last() as nat }
}

/// Nearest-rank percentile of an ascending sequence: the element at index
/// `(len - 1) * pct / 100`, or `None` for an empty sequence.
pub open spec fn percentile_of(sorted: Seq<u64>, pct: int) -> Option<u64> {
    if sorted.len() == 0 {
        None
    } else {
        Some(sorted[(sorted.len() - 1) * pct / 100])
    }
}

/// Nearest-rank percentile of an ascending slice.
pub fn percentile(sorted: &[u64], pct: usize) -> (r: Option<u64>)
    requires
        pct <= 100,
        sorted@.len() * 100 <= usize::MAX,
    ensures
        r == percentile_of(sorted@, pct as int),
{
    if sorted.len() == 0 {
        return None;
    }
    let n = sorted.len() - 1;
    assert(n * pct <= n * 100) by (nonlinear_arith) requires pct <= 100;
    let index = (n * pct) / 100;
    assert(index <= n) by (nonlinear_arith) requires index == (n * pct) / 100, pct <= 100;
    Some(sorted[index])
}

/// Percentiles taken from an ascending sequence grow with the percentage.
pub proof fn lemma_percentiles_ordered(sorted: Seq<u64>, p: int, q: int)
    requires
        sorted_by(sorted, leq_u64()),
        0 <= p <= q <= 100,
        sorted.len() > 0,
    ensures
        percentile_of(sorted, p).unwrap() <= percentile_of(sorted, q).unwrap(),
{
    let n = sorted.len() - 1;
    assert((n * p) / 100 <= (n * q) / 100) by (nonlinear_arith) requires 0 <= p <= q, n >= 0;
    assert((n * q) / 100 <= n) by (nonlinear_arith) requires q <= 100, n >= 0;
    let i = (n * p) / 100;
    let j = (n * q) / 100;
    assert(i >= 0) by (nonlinear_arith) requires p >= 0, n >= 0, i == (n * p) / 100;
    if i < j {
        assert(leq_u64()(sorted[i], sorted[j]));
    }
}

/// The nearest-rank percentile is the element at the index `i` for which
/// `100 * i <= (len - 1) * pct < 100 * (i + 1)`: that is, `pct` percent of the
/// way from the first element to the last, rounded down. So p0 is the first
/// element, p100 the last, and p90 of ten elements the ninth.
pub proof fn lemma_percentile_index(sorted: Seq<u64>, pct: int, i: int)
    requires
        sorted.len() > 0,
        0 <= pct <= 100,
        0 <= i,
        100 * i <= (sorted.len() - 1) * pct < 100 * (i + 1),
    ensures
        i < sorted.len(),
        percentile_of(sorted, pct) == Some(sorted[i]),
{
    let n = sorted.len() - 1;
    assert((n * pct) / 100 == i) by (nonlinear_arith)
        requires 100 * i <= n * pct < 100 * (i + 1), i >= 0;
    assert(i <= n) by (nonlinear_arith)
        requires 100 * i <= n * pct, pct <= 100, n >= 0, i >= 0;
}

/// Every percentage from 0 to 100 has such an index.
pub proof fn lemma_percentile_index_exists(sorted: Seq<u64>, pct: int)
    requires
        sorted.len() > 0,
        0 <= pct <= 100,
    ensures
        exists|i: int| 0 <= i < sorted.len() && 100 * i <= (sorted.len() - 1) * pct < 100 * (i + 1)
            && #[trigger] percentile_of(sorted, pct) == Some(sorted[i]),
{
    let n = sorted.len() - 1;
    let i = (n * pct) / 100;
    assert(0 <= i && 100 * i <= n * pct < 100 * (i + 1)) by (nonlinear_arith)
        requires i == (n * pct) / 100, n >= 0, pct >= 0;
    lemma_percentile_index(sorted, pct, i);
}

impl CampaignSummary {
    /// Aggregates the results of a campaign's calls.
    pub fn compute(
        campaign_id: String,
        campaign_name: String,
        backend: String,
        duration_ms: u64,
        artifact_dir: String,
        calls: Vec<CallResult>,
    ) -> (s: CampaignSummary)
        requires
            calls@.len() * 100 <= usize::MAX,
            sum_u64(first_responses(calls@)) <= u64::MAX,
            longest_gap_total(calls@) <= u64::MAX,
            stutter_total(calls@) <= u32::MAX,
        ensures
            s.campaign_id == campaign_id,
            s.campaign_name == campaign_name,
            s.backend == backend,
            s.duration_ms == duration_ms,
            s.artifact_dir == artifact_dir,
            s.call_results@ == calls@,
            s.total_calls == calls@.len(),
            s.successful == success_count(calls@),
            s.failed == calls@.len() - success_count(calls@),
            s.p50_first_response_ms == percentile_of(sorted_u64(first_responses(calls@)), 50),
            s.p90_first_response_ms == percentile_of(sorted_u64(first_responses(calls@)), 90),
            s.p99_first_response_ms == percentile_of(sorted_u64(first_responses(calls@)), 99),
            s.avg_first_response_ms == if first_responses(calls@).len() == 0 {
                None
            } else {
                Some((sum_u64(first_responses(calls@)) / first_responses(calls@).len()) as u64)
            },
            s.avg_longest_gap_ms == if calls@.len() > 0 {
                longest_gap_total(calls@) / calls@.len()
            } else {
                0
            },
            s.total_stutter_count == stutter_total(calls@),
    {
        let total_calls = calls.len();
        let mut successful: usize = 0;
        let mut responses: Vec<u64> = Vec::new();
        let mut response_sum: u64 = 0;
        let mut gap_sum: u64 = 0;
        let mut stutter_sum: u32 = 0;
        let mut i: usize = 0;
        while i < calls.len()
            invariant
                i <= calls@.len(),
                successful == success_count(calls@.take(i as int)),
                successful <= i,
                responses@ == first_responses(calls@.take(i as int)),
                response_sum == sum_u64(responses@),
                gap_sum == longest_gap_total(calls@.take(i as int)),
                stutter_sum == stutter_total(calls@.take(i as int)),
                sum_u64(first_responses(calls@)) <= u64::MAX,
                longest_gap_total(calls@) <= u64::MAX,
                stutter_total(calls@) <= u32::MAX,
                responses@.len() <= i,
            decreases calls@.len() - i,
        {
            let ghost pre = calls@.take(i as int);
            let ghost next = calls@.take(i + 1);
            proof {
                assert(next.drop_last() =~= pre);
                assert(next.last() == calls@[i as int]);
                lemma_totals_prefix(calls@, i as int + 1);
            }
            let c = &calls[i];
            if text_is(&c.outcome, "success") {
                successful += 1;
            }
            match &c.analysis {
                Some(a) => {
                    match a.first_response_ms {
                        Some(v) => {
                            let ghost before = responses@;
                            responses.push(v);
                            assert(responses@.drop_last() =~= before);
                            assert(responses@ =~= first_responses(next));
                            assert(sum_u64(responses@) == response_sum + v);
                            response_sum = response_sum + v;
                        }
                        None => {}
                    }
                    gap_sum = gap_sum + a.longest_gap_ms;
                    stutter_sum = stutter_sum + a.stutter_count;
                }
                None => {}
            }
            assert(responses@ =~= first_responses(next));
            i += 1;
        }
        assert(calls@.take(calls@.len() as int) =~= calls@);
        let sorted = sort_u64(&responses);
        let p50 = percentile(sorted.as_slice(), 50);
        let p90 = percentile(sorted.as_slice(), 90);
        let p99 = percentile(sorted.as_slice(), 99);
        let avg_first: Option<u64> = if responses.len() == 0 {
            None
        } else {
            Some(response_sum / responses.len() as u64)
        };
        let avg_longest_gap_ms: u64 = if total_calls > 0 { gap_sum / total_calls as u64 } else { 0 };
        CampaignSummary {
            campaign_id,
            campaign_name,
            backend,
            total_calls,
            successful,
            failed: total_calls - successful,
            duration_ms,
            p50_first_response_ms: p50,
            p90_first_response_ms: p90,
            p99_first_response_ms: p99,
            avg_first_response_ms: avg_first,
            avg_longest_gap_ms,
            total_stutter_count: stutter_sum,
            artifact_dir,
            call_results: calls,
        }
    }
}

/// Totals over a prefix of the calls never exceed those over all of them.
proof fn lemma_totals_prefix(calls: Seq<CallResult>, k: int)
    requires
        0 <= k <= calls.len(),
    ensures
        sum_u64(first_responses(calls.take(k))) <= sum_u64(first_responses(calls)),
        longest_gap_total(calls.take(k)) <= longest_gap_total(calls),
        stutter_total(calls.take(k)) <= stutter_total(calls),
    decreases calls.len() - k,
{
    if k < calls.len() {
        lemma_totals_prefix(calls, k + 1);
        let t = calls.take(k + 1);
        assert(t.drop_last() =~= calls.take(k));
        lemma_sum_append(first_responses(calls.take(k)), match call_first_response(t.last()) {
            Some(v) => seq![v],
            None => Seq::<u64>::empty(),
        });
    } else {
        assert(calls.take(k) =~= calls);
    }
}

/// The sum of two sequences put together is the sum of their sums.
pub proof fn lemma_sum_append(a: Seq<u64>, b: Seq<u64>)
    ensures
        sum_u64(a + b) == sum_u64(a) + sum_u64(b),
    decreases b.len(),
{
    if b.len() > 0 {
        lemma_sum_append(a, b.drop_last());
        assert((a + b).drop_last() =~= a + b.drop_last());
    } else {
        assert(a + b =~= a);
    }
}

/// Successful and failed calls add up to all calls, and at most every call succeeds.
pub proof fn lemma_outcomes_partition(calls: Seq<CallResult>)
    ensures
        success_count(calls) <= calls.len(),
    decreases calls.len(),
{
    if calls.len() > 0 {
        lemma_outcomes_partition(calls.drop_last());
    }
}

/// Number of occurrences of `b` in `s`.
pub open spec fn count_eq(s: Seq<int>, b: int) -> nat
    decreases s.len(),
{
    if s.len() == 0 {
        0
    } else {
        count_eq(s.drop_last(), b) + if s.last() == b { 1nat } else { 0nat }
    }
}

/// `count_eq(s, 0) + ... + count_eq(s, k - 1)`.
pub open spec fn sum_counts(s: Seq<int>, k: int) -> nat
    decreases k,
{
    if k <= 0 { 0 } else { sum_counts(s, k - 1) + count_eq(s, k - 1) }
}

/// Counting the occurrences of every bin index `0..k` accounts for every
/// element of `s` that lies in `0..k`.
pub proof fn lemma_counts_cover(s: Seq<int>, k: int)
    requires
        k >= 0,
    ensures
        sum_counts(s, k) == s.filter(|x: int| 0 <= x < k).len(),
    decreases s.len(),
{
    reveal_with_fuel(Seq::filter, 1);
    if s.len() == 0 {
        lemma_sum_counts_empty(s, k);
    } else {
        lemma_counts_cover(s.drop_last(), k);
        lemma_sum_counts_step(s, k);
    }
}

proof fn lemma_sum_counts_empty(s: Seq<int>, k: int)
    requires
        s.len() == 0,
    ensures
        sum_counts(s, k) == 0,
    decreases k,
{
    if k > 0 {
        lemma_sum_counts_empty(s, k - 1);
    }
}

proof fn lemma_sum_counts_step(s: Seq<int>, k: int)
    requires
        s.len() > 0,
    ensures
        sum_counts(s, k) == sum_counts(s.drop_last(), k) + if 0 <= s.last() < k { 1nat } else { 0nat },
    decreases k,
{
    if k > 0 {
        lemma_sum_counts_step(s, k - 1);
    }
}

/// Bin of a call's first response: 0-250, 251-500, 501-1000, 1001-2000,
/// over 2000 ms, or 5 when no response was detected.
pub open spec fn first_response_bin(c: CallResult) -> int {
    match call_first_response(c) {
        Some(ms) => if ms <= 250 { 0 } else if ms <= 500 { 1 } else if ms <= 1000 { 2 } else if ms <= 2000 { 3 } else { 4 },
        None => 5,
    }
}

/// Labels of the first-response histogram.
pub open spec fn first_response_label(b: int) -> Seq<char> {
    if b == 0 { "0-250 ms"@ } else if b == 1 { "251-500 ms"@ } else if b == 2 { "501-1000 ms"@ }
    else if b == 3 { "1001-2000 ms"@ } else if b == 4 { "> 2000 ms"@ } else { "No response"@ }
}

/// Bin of an analysed call's longest gap: none, 1-250, 251-500, 501-1000,
/// 1001-2000, 2001-5000, over 5000 ms; -1 for a call without analysis.
pub open spec fn longest_gap_bin(c: CallResult) -> int {
    match c.analysis {
        Some(a) => gap_bin_with_zero(a.longest_gap_ms),
        None => -1,
    }
}

/// Bin of a gap in the longest-gap histogram.
pub open spec fn gap_bin_with_zero(ms: u64) -> int {
    if ms == 0 { 0 } else if ms <= 250 { 1 } else if ms <= 500 { 2 } else if ms <= 1000 { 3 }
    else if ms <= 2000 { 4 } else if ms <= 5000 { 5 } else { 6 }
}

/// Labels of the longest-gap histogram.
pub open spec fn longest_gap_label(b: int) -> Seq<char> {
    if b == 0 { "No gap"@ } else if b == 1 { "1-250 ms"@ } else if b == 2 { "251-500 ms"@ }
    else if b == 3 { "501-1000 ms"@ } else if b == 4 { "1001-2000 ms"@ } else if b == 5 { "2001-5000 ms"@ }
    else { "> 5000 ms"@ }
}

/// Bin of a positive gap in the all-gap histogram.
pub open spec fn gap_bin(ms: u64) -> int {
    if ms <= 250 { 0 } else if ms <= 500 { 1 } else if ms <= 1000 { 2 } else if ms <= 2000 { 3 }
    else if ms <= 5000 { 4 } else { 5 }
}

/// Labels of the all-gap histogram.
pub open spec fn gap_label(b: int) -> Seq<char> {
    if b == 0 { "1-250 ms"@ } else if b == 1 { "251-500 ms"@ } else if b == 2 { "501-1000 ms"@ }
    else if b == 3 { "1001-2000 ms"@ } else if b == 4 { "2001-5000 ms"@ } else { "> 5000 ms"@ }
}

/// Positive gaps between consecutive voiced regions of one analysis, in order.
pub open spec fn region_gaps(rs: Seq<crate::analysis::VoicedRegion>, k: int) -> Seq<u64>
    decreases k,
{
    if k <= 1 {
        Seq::empty()
    } else {
        let g: int = if rs[k - 1].start_ms >= rs[k - 2].end_ms { rs[k - 1].start_ms - rs[k - 2].end_ms } else { 0 };
        region_gaps(rs, k - 1) + if g > 0 { seq![g as u64] } else { Seq::<u64>::empty() }
    }
}

/// Positive gaps of every analysed call, call by call.
pub open spec fn all_gaps(calls: Seq<CallResult>) -> Seq<u64>
    decreases calls.len(),
{
    if calls.len() == 0 {
        Seq::empty()
    } else {
        all_gaps(calls.drop_last()) + match calls.last().analysis {
            Some(a) => region_gaps(a.voiced_regions@, a.voiced_regions@.len() as int),
            None => Seq::<u64>::empty(),
        }
    }
}

/// Labelled histogram rows from labels and counts.
fn label_rows(labels: Vec<&str>, counts: Vec<usize>) -> (rows: Vec<(String, usize)>)
    requires
        labels@.len() == counts@.len(),
    ensures
        rows@.len() == counts@.len(),
        forall|b: int| 0 <= b < rows@.len() ==> #[trigger] rows@[b].0@ == labels@[b]@ && rows@[b].1 == counts@[b],
{
    let mut rows: Vec<(String, usize)> = Vec::new();
    let mut b: usize = 0;
    while b < counts.len()
        invariant
            labels@.len() == counts@.len(),
            b <= counts@.len(),
            rows@.len() == b,
            forall|q: int| 0 <= q < b ==> #[trigger] rows@[q].0@ == labels@[q]@ && rows@[q].1 == counts@[q],
        decreases counts@.len() - b,
    {
        rows.push((labels[b].to_owned(), counts[b]));
        b += 1;
    }
    rows
}

/// Histogram of first-response times over all calls.
pub fn first_response_bins(summary: &CampaignSummary) -> (rows: Vec<(String, usize)>)
    ensures
        rows@.len() == 6,
        forall|b: int| 0 <= b < 6 ==> #[trigger] rows@[b].0@ == first_response_label(b)
            && rows@[b].1 == count_eq(summary.call_results@.map_values(|c: CallResult| first_response_bin(c)), b),
{
    let calls = &summary.call_results;
    let ghost bins = calls@.map_values(|c: CallResult| first_response_bin(c));
    let mut counts: Vec<usize> = vec![0, 0, 0, 0, 0, 0];
    let mut i: usize = 0;
    while i < calls.len()
        invariant
            bins == calls@.map_values(|c: CallResult| first_response_bin(c)),
            i <= calls@.len(),
            counts@.len() == 6,
            forall|b: int| 0 <= b < 6 ==> #[trigger] counts@[b] == count_eq(bins.take(i as int), b),
            forall|b: int| 0 <= b < 6 ==> #[trigger] counts@[b] <= i,
        decreases calls@.len() - i,
    {
        let k: usize = match &calls[i].analysis {
            Some(a) => match a.first_response_ms {
                Some(ms) => if ms <= 250 { 0 } else if ms <= 500 { 1 } else if ms <= 1000 { 2 } else if ms <= 2000 { 3 } else { 4 },
                None => 5,
            },
            None => 5,
        };
        assert(k == bins[i as int]);
        assert(bins.take(i + 1).drop_last() =~= bins.take(i as int));
        counts.set(k, counts[k] + 1);
        i += 1;
    }
    assert(bins.take(calls@.len() as int) =~= bins);
    let labels: Vec<&str> = vec!["0-250 ms", "251-500 ms", "501-1000 ms", "1001-2000 ms", "> 2000 ms", "No response"];
    proof {
        assert(labels@[0]@ == first_response_label(0));
        assert(labels@[1]@ == first_response_label(1));
        assert(labels@[2]@ == first_response_label(2));
        assert(labels@[3]@ == first_response_label(3));
        assert(labels@[4]@ == first_response_label(4));
        assert(labels@[5]@ == first_response_label(5));
    }
    let ghost cs = counts@;
    assert forall|b: int| 0 <= b < cs.len() implies #[trigger] cs[b] == count_eq(bins, b) by {
        assert(counts@[b] == count_eq(bins.take(bins.len() as int), b));
        assert(bins.take(bins.len() as int) =~= bins);
    }
    let rows = label_rows(labels, counts);
    assert forall|b: int| 0 <= b < 6 implies #[trigger] rows@[b].0@ == first_response_label(b) && rows@[b].1 == count_eq(bins, b) by {
        assert(rows@[b].0@ == labels@[b]@);
        assert(rows@[b].1 == cs[b]);
        assert(cs[b] == count_eq(bins, b));
    }
    rows
}

/// Histogram of the longest gap of each analysed call.
pub fn longest_gap_bins(summary: &CampaignSummary) -> (rows: Vec<(String, usize)>)
    ensures
        rows@.len() == 7,
        forall|b: int| 0 <= b < 7 ==> #[trigger] rows@[b].0@ == longest_gap_label(b)
            && rows@[b].1 == count_eq(summary.call_results@.map_values(|c: CallResult| longest_gap_bin(c)), b),
{
    let calls = &summary.call_results;
    let ghost bins = calls@.map_values(|c: CallResult| longest_gap_bin(c));
    let mut counts: Vec<usize> = vec![0, 0, 0, 0, 0, 0, 0];
    let mut i: usize = 0;
    while i < calls.len()
        invariant
            bins == calls@.map_values(|c: CallResult| longest_gap_bin(c)),
            i <= calls@.len(),
            counts@.len() == 7,
            forall|b: int| 0 <= b < 7 ==> #[trigger] counts@[b] == count_eq(bins.take(i as int), b),
            forall|b: int| 0 <= b < 7 ==> #[trigger] counts@[b] <= i,
        decreases calls@.len() - i,
    {
        assert(bins.take(i + 1).drop_last() =~= bins.take(i as int));
        match &calls[i].analysis {
            Some(a) => {
                let ms = a.longest_gap_ms;
                let k: usize = if ms == 0 { 0 } else if ms <= 250 { 1 } else if ms <= 500 { 2 }
                    else if ms <= 1000 { 3 } else if ms <= 2000 { 4 } else if ms <= 5000 { 5 } else { 6 };
                assert(k == bins[i as int]);
                counts.set(k, counts[k] + 1);
            }
            None => {
                assert(bins[i as int] == -1);
            }
        }
        i += 1;
    }
    assert(bins.take(calls@.len() as int) =~= bins);
    let labels: Vec<&str> = vec!["No gap", "1-250 ms", "251-500 ms", "501-1000 ms", "1001-2000 ms", "2001-5000 ms", "> 5000 ms"];
    proof {
        assert(labels@[0]@ == longest_gap_label(0));
        assert(labels@[1]@ == longest_gap_label(1));
        assert(labels@[2]@ == longest_gap_label(2));
        assert(labels@[3]@ == longest_gap_label(3));
        assert(labels@[4]@ == longest_gap_label(4));
        assert(labels@[5]@ == longest_gap_label(5));
        assert(labels@[6]@ == longest_gap_label(6));
    }
    let ghost cs = counts@;
    assert forall|b: int| 0 <= b < cs.len() implies #[trigger] cs[b] == count_eq(bins, b) by {
        assert(counts@[b] == count_eq(bins.take(bins.len() as int), b));
        assert(bins.take(bins.len() as int) =~= bins);
    }
    let rows = label_rows(labels, counts);
    assert forall|b: int| 0 <= b < 7 implies #[trigger] rows@[b].0@ == longest_gap_label(b) && rows@[b].1 == count_eq(bins, b) by {
        assert(rows@[b].0@ == labels@[b]@);
        assert(rows@[b].1 == cs[b]);
        assert(cs[b] == count_eq(bins, b));
    }
    rows
}

/// Positive gaps between consecutive voiced regions of every analysed call.
pub fn all_gap_values(summary: &CampaignSummary) -> (gaps: Vec<u64>)
    ensures
        gaps@ == all_gaps(summary.call_results@),
{
    let calls = &summary.call_results;
    let mut gaps: Vec<u64> = Vec::new();
    let mut i: usize = 0;
    while i < calls.len()
        invariant
            i <= calls@.len(),
            gaps@ == all_gaps(calls@.take(i as int)),
        decreases calls@.len() - i,
    {
        assert(calls@.take(i + 1).drop_last() =~= calls@.take(i as int));
        match &calls[i].analysis {
            Some(a) => {
                let rs = &a.voiced_regions;
                let ghost start = gaps@;
                let mut k: usize = 1;
                while k < rs.len()
                    invariant
                        1 <= k,
                        k <= rs@.len() || k == 1,
                        gaps@ == start + region_gaps(rs@, k as int),
                    decreases rs@.len() - k,
                {
                    let prev_end = rs[k - 1].end_ms;
                    let next_start = rs[k].start_ms;
                    let g: u64 = if next_start >= prev_end { next_start - prev_end } else { 0 };
                    let ghost before = gaps@;
                    if g > 0 {
                        gaps.push(g);
                    }
                    assert(gaps@ =~= start + region_gaps(rs@, k + 1));
                    k += 1;
                }
                proof {
                    if rs@.len() <= 1 {
                        assert(region_gaps(rs@, rs@.len() as int) =~= Seq::<u64>::empty());
                        assert(region_gaps(rs@, k as int) =~= Seq::<u64>::empty());
                        assert(gaps@ =~= start + region_gaps(rs@, rs@.len() as int));
                    }
                }
            }
            None => {
                assert(gaps@ =~= gaps@ + Seq::<u64>::empty());
            }
        }
        assert(gaps@ =~= all_gaps(calls@.take(i + 1)));
        i += 1;
    }
    assert(calls@.take(calls@.len() as int) =~= calls@);
    gaps
}

/// Histogram of every positive gap across the campaign.
pub fn all_gap_bins(summary: &CampaignSummary) -> (rows: Vec<(String, usize)>)
    ensures
        rows@.len() == 6,
        forall|b: int| 0 <= b < 6 ==> #[trigger] rows@[b].0@ == gap_label(b)
            && rows@[b].1 == count_eq(all_gaps(summary.call_results@).map_values(|g: u64| gap_bin(g)), b),
{
    let gaps = all_gap_values(summary);
    let ghost bins = gaps@.map_values(|g: u64| gap_bin(g));
    let mut counts: Vec<usize> = vec![0, 0, 0, 0, 0, 0];
    let mut i: usize = 0;
    while i < gaps.len()
        invariant
            bins == gaps@.map_values(|g: u64| gap_bin(g)),
            i <= gaps@.len(),
            counts@.len() == 6,
            forall|b: int| 0 <= b < 6 ==> #[trigger] counts@[b] == count_eq(bins.take(i as int), b),
            forall|b: int| 0 <= b < 6 ==> #[trigger] counts@[b] <= i,
        decreases gaps@.len() - i,
    {
        let ms = gaps[i];
        let k: usize = if ms <= 250 { 0 } else if ms <= 500 { 1 } else if ms <= 1000 { 2 }
            else if ms <= 2000 { 3 } else if ms <= 5000 { 4 } else { 5 };
        assert(k == bins[i as int]);
        assert(bins.take(i + 1).drop_last() =~= bins.take(i as int));
        counts.set(k, counts[k] + 1);
        i += 1;
    }
    assert(bins.take(gaps@.len() as int) =~= bins);
    let labels: Vec<&str> = vec!["1-250 ms", "251-500 ms", "501-1000 ms", "1001-2000 ms", "2001-5000 ms", "> 5000 ms"];
    proof {
        assert(labels@[0]@ == gap_label(0));
        assert(labels@[1]@ == gap_label(1));
        assert(labels@[2]@ == gap_label(2));
        assert(labels@[3]@ == gap_label(3));
        assert(labels@[4]@ == gap_label(4));
        assert(labels@[5]@ == gap_label(5));
    }
    let ghost cs = counts@;
    assert forall|b: int| 0 <= b < cs.len() implies #[trigger] cs[b] == count_eq(bins, b) by {
        assert(counts@[b] == count_eq(bins.take(bins.len() as int), b));
        assert(bins.take(bins.len() as int) =~= bins);
    }
    let rows = label_rows(labels, counts);
    assert forall|b: int| 0 <= b < 6 implies #[trigger] rows@[b].0@ == gap_label(b) && rows@[b].1 == count_eq(bins, b) by {
        assert(rows@[b].0@ == labels@[b]@);
        assert(rows@[b].1 == cs[b]);
        assert(cs[b] == count_eq(bins, b));
    }
    assert(bins == all_gaps(summary.call_results@).map_values(|g: u64| gap_bin(g)));
    rows
}

/// Calls of `calls` satisfying `p`.
pub open spec fn count_calls(calls: Seq<CallResult>, p: spec_fn(CallResult) -> bool) -> nat
    decreases calls.len(),
{
    if calls.len() == 0 {
        0
    } else {
        count_calls(calls.drop_last(), p) + if p(calls.last()) { 1nat } else { 0nat }
    }
}

/// Call counts shown in the quality section of the HTML report.
pub struct QualityCounts {
    pub response_detected: usize,
    pub no_audio_calls: usize,
    pub gap_issue_calls: usize,
    pub stutter_issue_calls: usize,
}

/// Whether an analysed call had at least one gap over the threshold.
pub open spec fn has_gap_issue(c: CallResult) -> bool {
    c.analysis matches Some(a) && a.gap_count_over_threshold > 0
}

/// Whether an analysed call had at least one stutter.
pub open spec fn has_stutter(c: CallResult) -> bool {
    c.analysis matches Some(a) && a.stutter_count > 0
}

/// Counts calls with a detected response, without audio, with over-threshold
/// gaps and with stutters.
pub fn quality_counts(summary: &CampaignSummary) -> (q: QualityCounts)
    ensures
        q.response_detected == count_calls(summary.call_results@, |c: CallResult| call_first_response(c) is Some),
        q.no_audio_calls == count_calls(summary.call_results@, |c: CallResult| c.outcome@ == "no_audio"@),
        q.gap_issue_calls == count_calls(summary.call_results@, |c: CallResult| has_gap_issue(c)),
        q.stutter_issue_calls == count_calls(summary.call_results@, |c: CallResult| has_stutter(c)),
{
    let calls = &summary.call_results;
    let mut q = QualityCounts { response_detected: 0, no_audio_calls: 0, gap_issue_calls: 0, stutter_issue_calls: 0 };
    let mut i: usize = 0;
    while i < calls.len()
        invariant
            i <= calls@.len(),
            q.response_detected == count_calls(calls@.take(i as int), |c: CallResult| call_first_response(c) is Some),
            q.no_audio_calls == count_calls(calls@.take(i as int), |c: CallResult| c.outcome@ == "no_audio"@),
            q.gap_issue_calls == count_calls(calls@.take(i as int), |c: CallResult| has_gap_issue(c)),
            q.stutter_issue_calls == count_calls(calls@.take(i as int), |c: CallResult| has_stutter(c)),
            q.response_detected <= i,
            q.no_audio_calls <= i,
            q.gap_issue_calls <= i,
            q.stutter_issue_calls <= i,
        decreases calls@.len() - i,
    {
        let c = &calls[i];
        assert(calls@.take(i + 1).drop_last() =~= calls@.take(i as int));
        assert(calls@.take(i + 1).last() == *c);
        match &c.analysis {
            Some(a) => {
                if a.first_response_ms.is_some() {
                    q.response_detected = q.response_detected + 1;
                }
                if a.gap_count_over_threshold > 0 {
                    q.gap_issue_calls = q.gap_issue_calls + 1;
                }
                if a.stutter_count > 0 {
                    q.stutter_issue_calls = q.stutter_issue_calls + 1;
                }
            }
            None => {}
        }
        if text_is(&c.outcome, "no_audio") {
            q.no_audio_calls = q.no_audio_calls + 1;
        }
        i += 1;
    }
    assert(calls@.take(calls@.len() as int) =~= calls@);
    q
}

/// Rank of an outcome in the inspection table: failures first.
pub open spec fn outcome_rank(o: Seq<char>) -> u8 {
    if o == "failed"@ { 4 } else if o == "no_audio"@ { 3 } else if o == "completed_without_response"@ { 2 }
    else if o == "success"@ { 1 } else { 0 }
}

/// Inspection rank of a call: outcome rank, first response (or `u64::MAX`),
/// longest gap and stutter count (0 without analysis).
pub open spec fn rank_of(c: CallResult) -> (u8, u64, u64, u32) {
    (
        outcome_rank(c.outcome@),
        match call_first_response(c) { Some(v) => v, None => u64::MAX },
        match c.analysis { Some(a) => a.longest_gap_ms, None => 0 },
        match c.analysis { Some(a) => a.stutter_count, None => 0 },
    )
}

/// Lexicographic "greater than" on ranks.
pub open spec fn rank_gt(a: (u8, u64, u64, u32), b: (u8, u64, u64, u32)) -> bool {
    a.0 > b.0 || (a.0 == b.0 && (a.1 > b.1 || (a.1 == b.1 && (a.2 > b.2 || (a.2 == b.2 && a.3 > b.3)))))
}

/// Whether call `i` comes before call `j` in the inspection table: higher rank
/// first, and among equal ranks the earlier call first.
pub open spec fn inspect_before(calls: Seq<CallResult>, i: int, j: int) -> bool {
    rank_gt(rank_of(calls[i]), rank_of(calls[j])) || (rank_of(calls[i]) == rank_of(calls[j]) && i < j)
}

/// The outcomes by severity, most severe first.
pub open spec fn severity_order() -> Seq<Seq<char>> {
    seq!["failed"@, "no_audio"@, "completed_without_response"@, "success"@]
}

/// Outcome severity orders the calls to inspect: a failed call comes before a
/// call without audio, which comes before one completed without a response,
/// which comes before a successful one, which comes before a call with any
/// other outcome, whatever their timings and wherever they stand in the run.
pub proof fn lemma_inspection_by_severity(calls: Seq<CallResult>, i: int, j: int, k: int, l: int)
    requires
        0 <= i < calls.len(),
        0 <= j < calls.len(),
        0 <= k < l <= 4,
        calls[i].outcome@ == severity_order()[k],
        l < 4 ==> calls[j].outcome@ == severity_order()[l],
        l == 4 ==> !severity_order().contains(calls[j].outcome@),
    ensures
        inspect_before(calls, i, j),
        !inspect_before(calls, j, i),
{
    reveal_strlit("failed");
    reveal_strlit("no_audio");
    reveal_strlit("completed_without_response");
    reveal_strlit("success");
    let f = "failed"@;
    let n = "no_audio"@;
    let c = "completed_without_response"@;
    let s = "success"@;
    assert(f.len() == 6 && n.len() == 8 && c.len() == 26 && s.len() == 7);
    assert(f != n && f != c && f != s && n != c && n != s && c != s);
    if l == 4 {
        assert(calls[j].outcome@ != severity_order()[0]);
        assert(calls[j].outcome@ != severity_order()[1]);
        assert(calls[j].outcome@ != severity_order()[2]);
        assert(calls[j].outcome@ != severity_order()[3]);
    }
    assert(outcome_rank(calls[i].outcome@) == 4 - k);
    assert(outcome_rank(calls[j].outcome@) == 4 - l);
}

/// Among calls with the same outcome, the slower response comes first (a
/// call without a detected response counts as slowest), then the longer
/// longest gap, then the more stutters (a call without analysis has neither),
/// and calls alike in all of these keep their order in the run.
pub proof fn lemma_inspection_ties(calls: Seq<CallResult>, i: int, j: int)
    requires
        0 <= i < calls.len(),
        0 <= j < calls.len(),
        i != j,
        calls[i].outcome@ == calls[j].outcome@,
    ensures
        ({
            let (ci, cj) = (calls[i], calls[j]);
            let ri: int = match ci.analysis { Some(a) => match a.first_response_ms { Some(v) => v as int, None => u64::MAX as int }, None => u64::MAX as int };
            let rj: int = match cj.analysis { Some(a) => match a.first_response_ms { Some(v) => v as int, None => u64::MAX as int }, None => u64::MAX as int };
            let gi: int = match ci.analysis { Some(a) => a.longest_gap_ms as int, None => 0 };
            let gj: int = match cj.analysis { Some(a) => a.longest_gap_ms as int, None => 0 };
            let si: int = match ci.analysis { Some(a) => a.stutter_count as int, None => 0 };
            let sj: int = match cj.analysis { Some(a) => a.stutter_count as int, None => 0 };
            &&& ri > rj ==> inspect_before(calls, i, j)
            &&& (ri == rj && gi > gj) ==> inspect_before(calls, i, j)
            &&& (ri == rj && gi == gj && si > sj) ==> inspect_before(calls, i, j)
            &&& (ri == rj && gi == gj && si == sj) ==> (inspect_before(calls, i, j) <==> i < j)
        }),
{
}

/// The inspection rank of a call.
pub fn inspection_rank(call: &CallResult) -> (r: (u8, u64, u64, u32))
    ensures
        r == rank_of(*call),
{
    let outcome_rank: u8 = if text_is(&call.outcome, "failed") {
        4
    } else if text_is(&call.outcome, "no_audio") {
        3
    } else if text_is(&call.outcome, "completed_without_response") {
        2
    } else if text_is(&call.outcome, "success") {
        1
    } else {
        0
    };
    match &call.analysis {
        Some(a) => {
            let fr: u64 = match a.first_response_ms { Some(v) => v, None => u64::MAX };
            (outcome_rank, fr, a.longest_gap_ms, a.stutter_count)
        }
        None => (outcome_rank, u64::MAX, 0, 0),
    }
}

fn rank_greater(a: (u8, u64, u64, u32), b: (u8, u64, u64, u32)) -> (r: bool)
    ensures
        r == rank_gt(a, b),
{
    a.0 > b.0 || (a.0 == b.0 && (a.1 > b.1 || (a.1 == b.1 && (a.2 > b.2 || (a.2 == b.2 && a.3 > b.3)))))
}

proof fn lemma_inspect_before_order(calls: Seq<CallResult>, i: int, j: int, k: int)
    ensures
        inspect_before(calls, i, j) && inspect_before(calls, j, k) ==> inspect_before(calls, i, k),
        i != j ==> inspect_before(calls, i, j) || inspect_before(calls, j, i),
        !(inspect_before(calls, i, j) && inspect_before(calls, j, i)),
{
}

/// Up to eight calls to inspect first: the order of the inspection table
/// (see [`inspect_before`]), as indices into the call list.
pub fn inspection_order(summary: &CampaignSummary) -> (order: Vec<usize>)
    ensures
        order@.len() == if summary.call_results@.len() < 8 { summary.call_results@.len() } else { 8 },
        forall|k: int| 0 <= k < order@.len() ==> #[trigger] order@[k] < summary.call_results@.len(),
        forall|k: int, l: int| 0 <= k < l < order@.len() ==> order@[k] != order@[l],
        forall|k: int, j: int|
            0 <= k < order@.len() && 0 <= j < summary.call_results@.len() && j != order@[k]
                && !order@.take(k).contains(j as usize)
                ==> #[trigger] inspect_before(summary.call_results@, order@[k] as int, j),
{
    let calls = &summary.call_results;
    let n = calls.len();
    let m: usize = if n < 8 { n } else { 8 };
    let mut ranks: Vec<(u8, u64, u64, u32)> = Vec::with_capacity(n);
    let mut chosen: Vec<bool> = Vec::with_capacity(n);
    let mut i: usize = 0;
    while i < n
        invariant
            n == calls@.len(),
            i <= n,
            ranks@.len() == i,
            chosen@.len() == i,
            forall|q: int| 0 <= q < i ==> #[trigger] ranks@[q] == rank_of(calls@[q]),
            forall|q: int| 0 <= q < i ==> !(#[trigger] chosen@[q]),
        decreases n - i,
    {
        ranks.push(inspection_rank(&calls[i]));
        chosen.push(false);
        i += 1;
    }
    let mut order: Vec<usize> = Vec::with_capacity(m);
    while order.len() < m
        invariant
            n == calls@.len(),
            m <= n,
            order@.len() <= m,
            ranks@.len() == n,
            chosen@.len() == n,
            forall|q: int| 0 <= q < n ==> #[trigger] ranks@[q] == rank_of(calls@[q]),
            forall|q: int| 0 <= q < n ==> (#[trigger] chosen@[q] <==> order@.contains(q as usize)),
            forall|k: int| 0 <= k < order@.len() ==> #[trigger] order@[k] < n,
            forall|k: int, l: int| 0 <= k < l < order@.len() ==> order@[k] != order@[l],
            forall|k: int, j: int|
                0 <= k < order@.len() && 0 <= j < n && j != order@[k] && !order@.take(k).contains(j as usize)
                    ==> #[trigger] inspect_before(calls@, order@[k] as int, j),
        decreases m - order@.len(),
    {
        proof {
            // Fewer than n chosen, so some call is left.
            assert(order@.len() < n);
        }
        let mut best: usize = n;
        let mut j: usize = 0;
        while j < n
            invariant
                n == calls@.len(),
                ranks@.len() == n,
                chosen@.len() == n,
                forall|q: int| 0 <= q < n ==> #[trigger] ranks@[q] == rank_of(calls@[q]),
                j <= n,
                best == n || (best < j && !chosen@[best as int]),
                forall|q: int| 0 <= q < j && !chosen@[q] && q != best ==> best < n && inspect_before(calls@, best as int, q),
                best == n ==> forall|q: int| 0 <= q < j ==> #[trigger] chosen@[q],
            decreases n - j,
        {
            if !chosen[j] {
                if best == n {
                    best = j;
                } else {
                    let better = rank_greater(ranks[j], ranks[best]);
                    proof {
                        assert forall|q: int| 0 <= q < j && !chosen@[q] && q != best implies
                            inspect_before(calls@, best as int, q) by {}
                    }
                    if better {
                        proof {
                            assert forall|q: int| 0 <= q < j && !chosen@[q] && q != j implies
                                inspect_before(calls@, j as int, q) by {
                                lemma_inspect_before_order(calls@, j as int, best as int, q);
                            }
                        }
                        best = j;
                    }
                }
            }
            j += 1;
        }
        proof {
            if best == n {
                // every call chosen: impossible while fewer than n are chosen
                assert forall|q: int| 0 <= q < n implies #[trigger] order@.contains(q as usize) by {
                    assert(chosen@[q]);
                }
                lemma_cover_bound(order@, n as int);
                assert(false);
            }
        }
        let ghost before = order@;
        order.push(best);
        chosen.set(best, true);
        proof {
            assert forall|q: int| 0 <= q < n implies (#[trigger] chosen@[q] <==> order@.contains(q as usize)) by {
                if q == best {
                    assert(order@[before.len() as int] == best);
                } else {
                    if before.contains(q as usize) {
                        let w = choose|w: int| 0 <= w < before.len() && before[w] == q as usize;
                        assert(order@[w] == q as usize);
                    }
                    if order@.contains(q as usize) {
                        let w = choose|w: int| 0 <= w < order@.len() && order@[w] == q as usize;
                        assert(w < before.len());
                        assert(before[w] == q as usize);
                    }
                }
            }
            assert forall|k: int, l: int| 0 <= k < l < order@.len() implies order@[k] != order@[l] by {
                if l == before.len() {
                    assert(before.contains(order@[k]));
                }
            }
            assert forall|k: int, j: int|
                0 <= k < order@.len() && 0 <= j < n && j != order@[k] && !order@.take(k).contains(j as usize)
                    implies #[trigger] inspect_before(calls@, order@[k] as int, j) by {
                if k < before.len() {
                    assert(order@.take(k) =~= before.take(k));
                } else {
                    assert(order@.take(k) =~= before);
                    if chosen@[j] {
                    }
                }
            }
        }
    }
    order
}

/// A sequence that contains every value below `n` has at least `n` elements.
proof fn lemma_cover_bound(s: Seq<usize>, n: int)
    requires
        0 <= n <= usize::MAX,
        forall|q: int| 0 <= q < n ==> #[trigger] s.contains(q as usize),
    ensures
        s.len() >= n,
{
    let t = s.map_values(|x: usize| x as int);
    vstd::set_lib::lemma_int_range(0, n);
    vstd::seq_lib::seq_to_set_is_finite(t);
    assert(vstd::set_lib::set_int_range(0, n).subset_of(t.to_set())) by {
        assert forall|x: int| vstd::set_lib::set_int_range(0, n).contains(x) implies t.to_set().contains(x) by {
            assert(s.contains(x as usize));
            let w = choose|w: int| 0 <= w < s.len() && s[w] == x as usize;
            assert(t[w] == s[w] as int);
        }
    }
    vstd::set_lib::lemma_len_subset(vstd::set_lib::set_int_range(0, n), t.to_set());
    t.lemma_cardinality_of_set();
}

/// Appends a metric card: a panel with the label, the value and a note,
/// each HTML-escaped.
pub fn push_metric_card(html: &mut String, label: &str, value: &str, note: &str)
    ensures
        final(html)@ == old(html)@
            + "      <section class=\"panel metric\"><div class=\"metric-label\">"@ + html_escaped(label@)
            + "</div><div class=\"metric-value\">"@ + html_escaped(value@)
            + "</div><div class=\"metric-note\">"@ + html_escaped(note@) + "</div></section>\n"@,
{
    push_str(html, "      <section class=\"panel metric\"><div class=\"metric-label\">");
    let l = escape_html(label);
    push_str(html, l.as_str());
    push_str(html, "</div><div class=\"metric-value\">");
    let v = escape_html(value);
    push_str(html, v.as_str());
    push_str(html, "</div><div class=\"metric-note\">");
    let n = escape_html(note);
    push_str(html, n.as_str());
    push_str(html, "</div></section>\n");
}

/// Appends a statistic row: the label and the value, HTML-escaped.
pub fn push_stat_item(html: &mut String, label: &str, value: &str)
    ensures
        final(html)@ == old(html)@ + "          <div class=\"stat-item\"><span>"@ + html_escaped(label@)
            + "</span><strong>"@ + html_escaped(value@) + "</strong></div>\n"@,
{
    push_str(html, "          <div class=\"stat-item\"><span>");
    let l = escape_html(label);
    push_str(html, l.as_str());
    push_str(html, "</span><strong>");
    let v = escape_html(value);
    push_str(html, v.as_str());
    push_str(html, "</strong></div>\n");
}

/// What `Path::strip_prefix` gives for a path and a base, both written as
/// text: the rest of the path below the base, when the base's components
/// begin the path's.
pub uninterp spec fn path_below(path: Seq<char>, base: Seq<char>) -> Option<Seq<char>>;

/// `std::path::Path::strip_prefix` on two paths given as UTF-8 text; the
/// rest is handed back as text (`to_string_lossy`, lossless on UTF-8). The
/// result is named, not stated.
#[verifier::external_body]
fn strip_path_prefix(path: &str, base: &str) -> (r: Option<String>)
    ensures
        match r {
            Some(rest) => path_below(path@, base@) == Some(rest@),
            None => path_below(path@, base@) is None,
        },
{
    match std::path::Path::new(path).strip_prefix(std::path::Path::new(base)) {
        Ok(rest) => Some(rest.to_string_lossy().into_owned()),
        Err(_) => None,
    }
}

/// `s` with every backslash turned into a slash.
pub open spec fn forward_slashes(s: Seq<char>) -> Seq<char> {
    s.map_values(|c: char| if c == '\\' { '/' } else { c })
}

/// The path of an artifact as the report links it: relative to the
/// campaign's artifact directory when it lies below it, with forward
/// slashes.
pub fn relative_artifact_path(summary: &CampaignSummary, full_path: &str) -> (r: String)
    ensures
        r@ == forward_slashes(match path_below(full_path@, summary.artifact_dir@) {
            Some(rest) => rest,
            None => full_path@,
        }),
{
    let rel: String = match strip_path_prefix(full_path, summary.artifact_dir.as_str()) {
        Some(rest) => rest,
        None => full_path.to_owned(),
    };
    let cs = chars_of(rel.as_str());
    let mut out = String::new();
    let mut i: usize = 0;
    while i < cs.len()
        invariant
            i <= cs@.len(),
            out@ == forward_slashes(cs@.take(i as int)),
        decreases cs@.len() - i,
    {
        let c = cs[i];
        push_char(&mut out, if c == '\\' { '/' } else { c });
        assert(forward_slashes(cs@.take(i + 1)) =~= forward_slashes(cs@.take(i as int)).push(if c == '\\' { '/' } else { c }));
        i += 1;
    }
    assert(cs@.take(cs@.len() as int) =~= cs@);
    out
}

/// The calls to inspect first, in the order of the inspection table.
pub fn inspection_calls(summary: &CampaignSummary) -> (calls: Vec<&CallResult>)
    ensures
        calls@.len() == if summary.call_results@.len() < 8 { summary.call_results@.len() } else { 8 },
        exists|order: Seq<usize>| #![trigger order.len()] {
            &&& order.len() == calls@.len()
            &&& forall|k: int| 0 <= k < order.len() ==> #[trigger] order[k] < summary.call_results@.len()
                && *calls@[k] == summary.call_results@[order[k] as int]
            &&& forall|k: int, l: int| 0 <= k < l < order.len() ==> order[k] != order[l]
            &&& forall|k: int, j: int|
                0 <= k < order.len() && 0 <= j < summary.call_results@.len() && j != order[k]
                    && !order.take(k).contains(j as usize)
                    ==> #[trigger] inspect_before(summary.call_results@, order[k] as int, j)
        },
{
    let order = inspection_order(summary);
    let mut calls: Vec<&CallResult> = Vec::new();
    let mut k: usize = 0;
    while k < order.len()
        invariant
            k <= order@.len(),
            calls@.len() == k,
            forall|q: int| 0 <= q < order@.len() ==> #[trigger] order@[q] < summary.call_results@.len(),
            forall|q: int| 0 <= q < k ==> *(#[trigger] calls@[q]) == summary.call_results@[order@[q] as int],
        decreases order@.len() - k,
    {
        calls.push(&summary.call_results[order[k]]);
        k += 1;
    }
    assert(forall|q: int| 0 <= q < order@.len() ==> #[trigger] order@[q] < summary.call_results@.len()
        && *calls@[q] == summary.call_results@[order@[q] as int]);
    calls
}

/// Summary of a single test call.
pub struct RunSummary {
    pub run_id: String,
    pub campaign_name: String,
    pub backend: String,
    pub target_endpoint: String,
    pub input_wav: String,
    pub artifact_dir: String,
    pub outcome: String,
    pub connect_ms: u64,
    pub tx_started_at_ms: u64,
    pub tx_finished_at_ms: u64,
    pub tx_duration_ms: u64,
    pub recorded_samples: usize,
    pub hangup_received: bool,
    pub tx_wav_path: String,
    pub rx_wav_path: String,
    pub analysis: CallAnalysis,
}

/// When every element is a bin index below `k`, the bins' counts add up to
/// the number of elements.
pub proof fn lemma_counts_total(s: Seq<int>, k: int)
    requires
        k >= 0,
        forall|i: int| 0 <= i < s.len() ==> 0 <= #[trigger] s[i] < k,
    ensures
        sum_counts(s, k) == s.len(),
    decreases s.len(),
{
    if s.len() == 0 {
        lemma_sum_counts_empty(s, k);
    } else {
        assert forall|i: int| 0 <= i < s.drop_last().len() implies 0 <= #[trigger] s.drop_last()[i] < k by {
            assert(s.drop_last()[i] == s[i]);
        }
        lemma_counts_total(s.drop_last(), k);
        lemma_sum_counts_step(s, k);
        assert(s.last() == s[s.len() - 1]);
    }
}

/// The first-response histogram counts every call exactly once: its six
/// counts add up to the number of calls.
pub proof fn lemma_first_response_bins_cover_calls(calls: Seq<CallResult>)
    ensures
        sum_counts(calls.map_values(|c: CallResult| first_response_bin(c)), 6) == calls.len(),
{
    let s = calls.map_values(|c: CallResult| first_response_bin(c));
    assert forall|i: int| 0 <= i < s.len() implies 0 <= #[trigger] s[i] < 6 by {
        assert(s[i] == first_response_bin(calls[i]));
    }
    lemma_counts_total(s, 6);
}

/// The all-gap histogram counts every positive gap exactly once: its six
/// counts add up to the number of gaps.
pub proof fn lemma_gap_bins_cover_gaps(calls: Seq<CallResult>)
    ensures
        sum_counts(all_gaps(calls).map_values(|g: u64| gap_bin(g)), 6) == all_gaps(calls).len(),
{
    let s = all_gaps(calls).map_values(|g: u64| gap_bin(g));
    assert forall|i: int| 0 <= i < s.len() implies 0 <= #[trigger] s[i] < 6 by {
        assert(s[i] == gap_bin(all_gaps(calls)[i]));
    }
    lemma_counts_total(s, 6);
}

/// The campaign's first-response percentiles are ordered: the 50th is at
/// most the 90th, which is at most the 99th, whenever a response was seen.
pub proof fn lemma_first_response_percentiles_ordered(calls: Seq<CallResult>)
    requires
        first_responses(calls).len() > 0,
    ensures
        percentile_of(sorted_u64(first_responses(calls)), 50) is Some,
        percentile_of(sorted_u64(first_responses(calls)), 50).unwrap()
            <= percentile_of(sorted_u64(first_responses(calls)), 90).unwrap(),
        percentile_of(sorted_u64(first_responses(calls)), 90).unwrap()
            <= percentile_of(sorted_u64(first_responses(calls)), 99).unwrap(),
{
    broadcast use vstd::seq_lib::group_to_multiset_ensures;
    let fr = first_responses(calls);
    crate::sort::lemma_leq_u64_total();
    fr.lemma_sort_by_ensures(leq_u64());
    let sorted = sorted_u64(fr);
    assert(sorted.len() == fr.len()) by {
        assert(fr.to_multiset().len() == sorted.to_multiset().len());
    }
    lemma_percentiles_ordered(sorted, 50, 90);
    lemma_percentiles_ordered(sorted, 90, 99);
}

} // verus!
