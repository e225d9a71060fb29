//! The campaign's HTML report page. The integer figures, every piece of text
//! taken from the summary and the page's layout are decided here; the
//! percentages and bar widths are floats and come in as ready-made text.

use vstd::prelude::*;
use crate::report::{
    call_first_response, count_calls, escape_html, has_gap_issue, has_stutter, html_escaped, inspect_before,
    inspection_calls, opt_ms, opt_ms_label, opt_ms_text, outcome_class, outcome_class_text, path_below, pill_class,
    pill_class_text, push_metric_card, push_stat_item, quality_counts, relative_artifact_path, forward_slashes,
    CallResult, CampaignSummary,
};
use crate::text::{decimal, decimal_string, push_str};

verus! {

// Fixed fragments of the page, in the order they appear.

pub const HEAD_OPEN: &'static str = "<!DOCTYPE html>\n<html lang=\"en\">\n<head>\n    <meta charset=\"utf-8\">\n    <meta name=\"viewport\" content=\"width=device-width, initial-scale=1\">\n    <title>Load Test Campaign Report</title>\n    <style>\n";

pub const HEAD_CLOSE: &'static str = "    </style>\n</head>\n<body>\n    <main class=\"page\">\n";

pub const HERO_TITLE: &'static str = "    <section class=\"hero\">\n      <p class=\"eyebrow\">Loadtest artifact</p>\n      <h1>";

pub const HERO_ID: &'static str = "</h1>\n      <div class=\"hero-meta\">\n        <div><strong>Campaign ID</strong>";

pub const HERO_BACKEND: &'static str = "</div>\n        <div><strong>Backend</strong>";

pub const HERO_TOTAL: &'static str = "</div>\n        <div><strong>Total Calls</strong>";

pub const HERO_DURATION: &'static str = "</div>\n        <div><strong>Duration</strong>";

pub const HERO_END: &'static str = "s</div>\n      </div>\n    </section>\n";

pub const CARDS_OPEN: &'static str = "    <section class=\"grid cards\">\n";

pub const OUTCOME_PANEL: &'static str = "    </section>\n    <section class=\"grid two-col\">\n      <section class=\"panel\">\n        <h2>Outcome Mix</h2>\n        <p class=\"muted\">The distribution below makes failure modes visible without opening individual call artifacts.</p>\n";

pub const OUTCOME_ROW_OPEN: &'static str = "        <div class=\"outcome-row\">\n          <div>";

pub const OUTCOME_ROW_FILL: &'static str = "</div>\n          <div class=\"bar-track\"><div class=\"bar-fill ";

pub const BAR_WIDTH: &'static str = "\" style=\"width:";

pub const BAR_COUNT: &'static str = "%\"></div></div>\n          <div>";

pub const OUTCOME_SHARE: &'static str = " (";

pub const OUTCOME_ROW_CLOSE: &'static str = "%)</div>\n        </div>\n";

pub const LATENCY_PANEL: &'static str = "      </section>\n      <section class=\"panel\">\n        <h2>First Response Latency</h2>\n        <p class=\"muted\">Bucketed first-response times show whether the run is dominated by fast starts or a long slow tail.</p>\n";

pub const BAR_ROW_OPEN: &'static str = "        <div class=\"latency-row\">\n          <div>";

pub const BAR_ROW_FILL: &'static str = "</div>\n          <div class=\"bar-track\"><div class=\"bar-fill";

pub const BAR_ROW_CLOSE: &'static str = "</div>\n        </div>\n";

pub const LONGEST_GAP_PANEL: &'static str = "      </section>\n    </section>\n    <section class=\"grid two-col\">\n      <section class=\"panel\">\n        <h2>Longest Gap Histogram</h2>\n        <p class=\"muted\">Each bar counts analyzed calls by their single worst silence gap after speech begins.</p>\n        <div class=\"stat-item\"><span>Analyzed calls</span><strong>";

pub const STAT_CLOSE: &'static str = "</strong></div>\n";

pub const ALL_GAP_PANEL: &'static str = "      </section>\n      <section class=\"panel\">\n        <h2>All Gap Histogram</h2>\n        <p class=\"muted\">Every inter-voiced gap across the run. This distinguishes a few bad outliers from a broadly choppy response profile.</p>\n        <div class=\"stat-item\"><span>Total gaps observed</span><strong>";

pub const QUALITY_PANEL: &'static str = "      </section>\n    </section>\n    <section class=\"grid two-col\">\n      <section class=\"panel\">\n        <h2>Quality Signals</h2>\n        <div class=\"stat-list\">\n";

pub const INSPECT_PANEL: &'static str = "        </div>\n      </section>\n      <section class=\"panel\">\n        <h2>Calls To Inspect</h2>\n        <p class=\"muted\">Sorted so failures and the slowest or choppiest responses rise to the top.</p>\n        <table>\n          <thead><tr><th>#</th><th>Outcome</th><th>First Response</th><th>Longest Gap</th><th>Stutters</th><th>Audio</th></tr></thead>\n          <tbody>\n";

pub const ROW_OPEN: &'static str = "            <tr><td>";

pub const ROW_PILL: &'static str = "</td><td><span class=\"pill ";

pub const ROW_OUTCOME: &'static str = "\">";

pub const ROW_AFTER_OUTCOME: &'static str = "</span></td><td>";

pub const CELL: &'static str = "</td><td>";

pub const ROW_LINK: &'static str = "</td><td><a href=\"";

pub const ROW_CLOSE: &'static str = "\">rx.wav</a></td></tr>\n";

pub const DETAIL_PANEL: &'static str = "          </tbody>\n        </table>\n      </section>\n    </section>\n    <section class=\"panel\">\n      <h2>Per-Call Detail</h2>\n      <p class=\"muted\">Full call list for correlation with raw audio artifacts and campaign JSON.</p>\n      <details open>\n        <summary>Show all calls</summary>\n        <table>\n          <thead><tr><th>#</th><th>Outcome</th><th>Connect</th><th>First Response</th><th>Longest Gap</th><th>Voiced Share</th><th>Samples</th><th>Error</th><th>Audio</th></tr></thead>\n          <tbody>\n";

pub const PAGE_END: &'static str = "          </tbody>\n        </table>\n      </details>\n    </section>\n  </main>\n</body>\n</html>\n";


/// A bar of a histogram: its label, its count, and its width in percent of
/// the longest bar (as text, one decimal).
pub struct BarRow {
    pub label: String,
    pub count: usize,
    pub width: String,
}

/// A bar of the outcome chart: the outcome, its count, its width in percent
/// of the longest bar, and its share of all calls in percent (as text).
pub struct OutcomeBar {
    pub label: String,
    pub count: usize,
    pub width: String,
    pub share: String,
}

/// The figures of the page that are not whole numbers, as text, and the bars
/// of the charts.
pub struct ReportFigures {
    /// Campaign duration in seconds, one decimal.
    pub duration_s: String,
    /// Successful calls in percent of all calls, one decimal.
    pub success_rate: String,
    /// Average voiced share of the analysed calls in percent, one decimal.
    pub avg_voiced_share: String,
    pub outcomes: Vec<OutcomeBar>,
    pub latency: Vec<BarRow>,
    pub longest_gaps: Vec<BarRow>,
    pub all_gaps: Vec<BarRow>,
    /// For each call, in order, its voiced share in percent (one decimal),
    /// when it has one.
    pub call_shares: Vec<Option<String>>,
}

/// A metric card, as [`push_metric_card`] writes it.
pub open spec fn metric_card_text(label: Seq<char>, value: Seq<char>, note: Seq<char>) -> Seq<char> {
    "      <section class=\"panel metric\"><div class=\"metric-label\">"@ + html_escaped(label)
        + "</div><div class=\"metric-value\">"@ + html_escaped(value) + "</div><div class=\"metric-note\">"@
        + html_escaped(note) + "</div></section>\n"@
}

/// A statistic row, as [`push_stat_item`] writes it.
pub open spec fn stat_item_text(label: Seq<char>, value: Seq<char>) -> Seq<char> {
    "          <div class=\"stat-item\"><span>"@ + html_escaped(label) + "</span><strong>"@ + html_escaped(value)
        + "</strong></div>\n"@
}

/// Calls with a detected response.
pub open spec fn responses_count(calls: Seq<CallResult>) -> nat {
    count_calls(calls, |c: CallResult| call_first_response(c) is Some)
}

/// Calls without audio.
pub open spec fn no_audio_count(calls: Seq<CallResult>) -> nat {
    count_calls(calls, |c: CallResult| c.outcome@ == "no_audio"@)
}

/// Calls with a gap over the threshold.
pub open spec fn gap_issue_count(calls: Seq<CallResult>) -> nat {
    count_calls(calls, |c: CallResult| has_gap_issue(c))
}

/// Calls with a stutter.
pub open spec fn stutter_issue_count(calls: Seq<CallResult>) -> nat {
    count_calls(calls, |c: CallResult| has_stutter(c))
}

/// The opening section: campaign name, id, backend, call count and duration.
pub open spec fn hero_text(s: CampaignSummary, duration_s: Seq<char>) -> Seq<char> {
    HERO_TITLE@ + html_escaped(s.campaign_name@) + HERO_ID@ + html_escaped(s.campaign_id@) + HERO_BACKEND@
        + html_escaped(s.backend@) + HERO_TOTAL@ + decimal(s.total_calls as nat) + HERO_DURATION@ + duration_s
        + HERO_END@
}

/// The six metric cards.
pub open spec fn cards_text(s: CampaignSummary, f: ReportFigures) -> Seq<char> {
    let calls = s.call_results@;
    CARDS_OPEN@ + metric_card_text(
        "Success Rate"@,
        f.success_rate@ + "%"@,
        decimal(s.successful as nat) + " successful / "@ + decimal(s.failed as nat) + " failed"@,
    ) + metric_card_text(
        "P50 First Response"@,
        opt_ms_text(s.p50_first_response_ms),
        decimal(responses_count(calls)) + " calls detected a response"@,
    ) + metric_card_text(
        "P90 First Response"@,
        opt_ms_text(s.p90_first_response_ms),
        "P99"@ + seq![':', ' '] + opt_ms_text(s.p99_first_response_ms),
    ) + metric_card_text(
        "Average Longest Gap"@,
        decimal(s.avg_longest_gap_ms as nat) + " ms"@,
        decimal(s.total_stutter_count as nat) + " total stutter events"@,
    ) + metric_card_text(
        "Gap-Heavy Calls"@,
        decimal(gap_issue_count(calls)),
        "Calls with at least one response gap over threshold"@,
    ) + metric_card_text(
        "Average Voiced Share"@,
        f.avg_voiced_share@ + "%"@,
        decimal(no_audio_count(calls)) + " no-audio calls"@,
    )
}

/// One bar of the outcome chart; its colour follows the outcome.
pub open spec fn outcome_row_text(r: OutcomeBar) -> Seq<char> {
    OUTCOME_ROW_OPEN@ + html_escaped(r.label@) + OUTCOME_ROW_FILL@ + outcome_class_text(r.label@) + BAR_WIDTH@
        + r.width@ + BAR_COUNT@ + decimal(r.count as nat) + OUTCOME_SHARE@ + r.share@ + OUTCOME_ROW_CLOSE@
}

/// The bars of the outcome chart, in order.
pub open spec fn outcome_rows_text(rs: Seq<OutcomeBar>) -> Seq<char>
    decreases rs.len(),
{
    if rs.len() == 0 { Seq::empty() } else { outcome_rows_text(rs.drop_last()) + outcome_row_text(rs.last()) }
}

/// One bar of a histogram, with the colour modifier `fill`.
pub open spec fn bar_row_text(fill: Seq<char>, r: BarRow) -> Seq<char> {
    BAR_ROW_OPEN@ + html_escaped(r.label@) + BAR_ROW_FILL@ + fill + BAR_WIDTH@ + r.width@ + BAR_COUNT@
        + decimal(r.count as nat) + BAR_ROW_CLOSE@
}

/// The bars of a histogram, in order.
pub open spec fn bar_rows_text(fill: Seq<char>, rs: Seq<BarRow>) -> Seq<char>
    decreases rs.len(),
{
    if rs.len() == 0 { Seq::empty() } else { bar_rows_text(fill, rs.drop_last()) + bar_row_text(fill, rs.last()) }
}

/// The counts of a histogram added up.
pub open spec fn bar_total(rs: Seq<BarRow>) -> nat
    decreases rs.len(),
{
    if rs.len() == 0 { 0 } else { bar_total(rs.drop_last()) + rs.last().count as nat }
}

/// The quality statistics.
pub open spec fn quality_stats_text(s: CampaignSummary) -> Seq<char> {
    let calls = s.call_results@;
    stat_item_text(
        "Detected responses"@,
        decimal(responses_count(calls)) + " / "@ + decimal(s.total_calls as nat) + " calls"@,
    ) + stat_item_text("Stutter-prone calls"@, decimal(stutter_issue_count(calls)) + " calls"@)
        + stat_item_text("Calls without audio"@, decimal(no_audio_count(calls)) + " calls"@)
        + stat_item_text("Artifact directory"@, html_escaped(s.artifact_dir@))
}

/// Where a call's audio is linked from the page.
pub open spec fn link_path(s: CampaignSummary, c: CallResult) -> Seq<char> {
    forward_slashes(match path_below(c.rx_wav_path@, s.artifact_dir@) {
        Some(rest) => rest,
        None => c.rx_wav_path@,
    })
}

/// The cells every call row begins with: index and outcome badge.
pub open spec fn row_head_text(c: CallResult) -> Seq<char> {
    ROW_OPEN@ + decimal(c.call_index as nat) + ROW_PILL@ + pill_class_text(c.outcome@) + ROW_OUTCOME@
        + html_escaped(c.outcome@) + ROW_AFTER_OUTCOME@
}

/// The longest-gap cell of a call row.
pub open spec fn gap_cell_text(c: CallResult) -> Seq<char> {
    match c.analysis {
        Some(a) => decimal(a.longest_gap_ms as nat) + " ms"@,
        None => "—"@,
    }
}

/// The stutter cell of a call row.
pub open spec fn stutter_cell_text(c: CallResult) -> Seq<char> {
    match c.analysis {
        Some(a) => decimal(a.stutter_count as nat),
        None => "—"@,
    }
}

/// The link cell every call row ends with.
pub open spec fn row_link_text(s: CampaignSummary, c: CallResult) -> Seq<char> {
    ROW_LINK@ + html_escaped(link_path(s, c)) + ROW_CLOSE@
}

/// A row of the table of calls to inspect.
pub open spec fn inspect_row_text(s: CampaignSummary, c: CallResult) -> Seq<char> {
    row_head_text(c) + opt_ms_text(call_first_response(c)) + CELL@ + gap_cell_text(c) + CELL@ + stutter_cell_text(c)
        + row_link_text(s, c)
}

/// The rows of the table of calls to inspect, in order.
pub open spec fn inspect_rows_text(s: CampaignSummary, cs: Seq<CallResult>) -> Seq<char>
    decreases cs.len(),
{
    if cs.len() == 0 { Seq::empty() } else { inspect_rows_text(s, cs.drop_last()) + inspect_row_text(s, cs.last()) }
}

/// The voiced-share cell of a call row.
pub open spec fn share_cell_text(share: Option<String>) -> Seq<char> {
    match share {
        Some(t) => t@ + "%"@,
        None => "—"@,
    }
}

/// The error cell of a call row, escaped.
pub open spec fn error_cell_text(c: CallResult) -> Seq<char> {
    match c.error {
        Some(e) => html_escaped(e@),
        None => "—"@,
    }
}

/// A row of the per-call table.
pub open spec fn detail_row_text(s: CampaignSummary, c: CallResult, share: Option<String>) -> Seq<char> {
    row_head_text(c) + decimal(c.connect_ms as nat) + " ms"@ + CELL@ + opt_ms_text(call_first_response(c)) + CELL@
        + gap_cell_text(c) + CELL@ + share_cell_text(share) + CELL@ + decimal(c.recorded_samples as nat) + CELL@
        + error_cell_text(c) + row_link_text(s, c)
}

/// The first `k` rows of the per-call table.
pub open spec fn detail_rows_text(s: CampaignSummary, shares: Seq<Option<String>>, k: int) -> Seq<char>
    decreases k,
{
    if k <= 0 {
        Seq::empty()
    } else {
        detail_rows_text(s, shares, k - 1) + detail_row_text(s, s.call_results@[k - 1], shares[k - 1])
    }
}

/// Whether `picked` are the calls to inspect, in order: the first (up to)
/// eight calls by the inspection order, failures and the worst first.
pub open spec fn is_inspection_list(calls: Seq<CallResult>, picked: Seq<CallResult>) -> bool {
    &&& picked.len() == if calls.len() < 8 { calls.len() } else { 8 }
    &&& exists|order: Seq<usize>| #![trigger order.len()] {
        &&& order.len() == picked.len()
        &&& forall|k: int| 0 <= k < order.len() ==> #[trigger] order[k] < calls.len() && picked[k] == calls[order[k] as int]
        &&& forall|k: int, l: int| 0 <= k < l < order.len() ==> order[k] != order[l]
        &&& forall|k: int, j: int|
            0 <= k < order.len() && 0 <= j < calls.len() && j != order[k] && !order.take(k).contains(j as usize)
                ==> #[trigger] inspect_before(calls, order[k] as int, j)
    }
}

/// The whole page, section by section: head with the style sheet, campaign
/// header, metric cards, outcome chart, latency histogram, longest-gap and
/// all-gap histograms with their totals, quality statistics, the calls to
/// inspect (`inspected`), and the per-call table.
pub open spec fn report_page(s: CampaignSummary, f: ReportFigures, style: Seq<char>, inspected: Seq<CallResult>) -> Seq<char> {
    HEAD_OPEN@ + style + HEAD_CLOSE@ + hero_text(s, f.duration_s@) + cards_text(s, f) + OUTCOME_PANEL@
        + outcome_rows_text(f.outcomes@) + LATENCY_PANEL@ + bar_rows_text(""@, f.latency@) + LONGEST_GAP_PANEL@
        + decimal(bar_total(f.longest_gaps@)) + STAT_CLOSE@ + bar_rows_text(" warn"@, f.longest_gaps@)
        + ALL_GAP_PANEL@ + decimal(bar_total(f.all_gaps@)) + STAT_CLOSE@ + bar_rows_text(" bad"@, f.all_gaps@)
        + QUALITY_PANEL@ + quality_stats_text(s) + INSPECT_PANEL@ + inspect_rows_text(s, inspected) + DETAIL_PANEL@
        + detail_rows_text(s, f.call_shares@, s.call_results@.len() as int) + PAGE_END@
}

proof fn lemma_bar_total_prefix(rs: Seq<BarRow>, i: int)
    requires
        0 <= i <= rs.len(),
    ensures
        bar_total(rs.take(i)) <= bar_total(rs),
    decreases rs.len() - i,
{
    if i < rs.len() {
        lemma_bar_total_prefix(rs, i + 1);
        assert(rs.take(i + 1).drop_last() =~= rs.take(i));
    } else {
        assert(rs.take(i) =~= rs);
    }
}

/// The counts of a histogram added up.
fn bar_total_of(rows: &Vec<BarRow>) -> (t: u64)
    requires
        bar_total(rows@) <= u64::MAX,
    ensures
        t == bar_total(rows@),
{
    let mut t: u64 = 0;
    let mut i: usize = 0;
    while i < rows.len()
        invariant
            i <= rows@.len(),
            t == bar_total(rows@.take(i as int)),
            bar_total(rows@) <= u64::MAX,
        decreases rows@.len() - i,
    {
        proof {
            assert(rows@.take(i + 1).drop_last() =~= rows@.take(i as int));
            lemma_bar_total_prefix(rows@, i + 1);
        }
        t = t + rows[i].count as u64;
        i += 1;
    }
    assert(rows@.take(rows@.len() as int) =~= rows@);
    t
}

fn push_decimal(html: &mut String, n: u64)
    ensures
        final(html)@ == old(html)@ + decimal(n as nat),
{
    let d = decimal_string(n);
    push_str(html, d.as_str());
}

fn push_escaped(html: &mut String, t: &str)
    ensures
        final(html)@ == old(html)@ + html_escaped(t@),
{
    let e = escape_html(t);
    push_str(html, e.as_str());
}

/// `n` in decimal followed by `tail`.
fn decimal_then(n: u64, tail: &str) -> (s: String)
    ensures
        s@ == decimal(n as nat) + tail@,
{
    let mut s = decimal_string(n);
    push_str(&mut s, tail);
    s
}

/// `text` followed by `tail`.
fn text_then(text: &String, tail: &str) -> (s: String)
    ensures
        s@ == text@ + tail@,
{
    let mut s = String::new();
    push_str(&mut s, text.as_str());
    push_str(&mut s, tail);
    assert(s@ =~= text@ + tail@);
    s
}

fn push_hero(html: &mut String, s: &CampaignSummary, duration_s: &str)
    ensures
        final(html)@ == old(html)@ + hero_text(*s, duration_s@),
{
    let ghost before = html@;
    push_str(html, HERO_TITLE);
    push_escaped(html, s.campaign_name.as_str());
    push_str(html, HERO_ID);
    push_escaped(html, s.campaign_id.as_str());
    push_str(html, HERO_BACKEND);
    push_escaped(html, s.backend.as_str());
    push_str(html, HERO_TOTAL);
    push_decimal(html, s.total_calls as u64);
    push_str(html, HERO_DURATION);
    push_str(html, duration_s);
    push_str(html, HERO_END);
    assert(html@ =~= before + hero_text(*s, duration_s@));
}

fn push_card(html: &mut String, label: &str, value: &String, note: &String)
    ensures
        final(html)@ == old(html)@ + metric_card_text(label@, value@, note@),
{
    let ghost before = html@;
    push_metric_card(html, label, value.as_str(), note.as_str());
    assert(html@ =~= before + metric_card_text(label@, value@, note@));
}

fn push_cards(html: &mut String, s: &CampaignSummary, f: &ReportFigures, responses: usize, gap_issues: usize, no_audio: usize)
    requires
        responses == responses_count(s.call_results@),
        gap_issues == gap_issue_count(s.call_results@),
        no_audio == no_audio_count(s.call_results@),
    ensures
        final(html)@ == old(html)@ + cards_text(*s, *f),
{
    let ghost before = html@;
    push_str(html, CARDS_OPEN);
    let v = text_then(&f.success_rate, "%");
    let mut n = decimal_then(s.successful as u64, " successful / ");
    let tail = decimal_then(s.failed as u64, " failed");
    push_str(&mut n, tail.as_str());
    assert(n@ =~= decimal(s.successful as nat) + " successful / "@ + decimal(s.failed as nat) + " failed"@);
    push_card(html, "Success Rate", &v, &n);
    let v = opt_ms(s.p50_first_response_ms);
    let n = decimal_then(responses as u64, " calls detected a response");
    push_card(html, "P50 First Response", &v, &n);
    let v = opt_ms(s.p90_first_response_ms);
    let n = opt_ms_label("P99", s.p99_first_response_ms);
    push_card(html, "P90 First Response", &v, &n);
    let v = decimal_then(s.avg_longest_gap_ms, " ms");
    let n = decimal_then(s.total_stutter_count as u64, " total stutter events");
    push_card(html, "Average Longest Gap", &v, &n);
    let v = decimal_string(gap_issues as u64);
    let n = "Calls with at least one response gap over threshold".to_owned();
    push_card(html, "Gap-Heavy Calls", &v, &n);
    let v = text_then(&f.avg_voiced_share, "%");
    let n = decimal_then(no_audio as u64, " no-audio calls");
    push_card(html, "Average Voiced Share", &v, &n);
    assert(html@ =~= before + cards_text(*s, *f));
}

fn push_outcome_rows(html: &mut String, rows: &Vec<OutcomeBar>)
    ensures
        final(html)@ == old(html)@ + outcome_rows_text(rows@),
{
    let ghost before = html@;
    let mut i: usize = 0;
    while i < rows.len()
        invariant
            i <= rows@.len(),
            html@ == before + outcome_rows_text(rows@.take(i as int)),
        decreases rows@.len() - i,
    {
        let ghost mid = html@;
        let r = &rows[i];
        push_str(html, OUTCOME_ROW_OPEN);
        push_escaped(html, r.label.as_str());
        push_str(html, OUTCOME_ROW_FILL);
        push_str(html, outcome_class(&r.label));
        push_str(html, BAR_WIDTH);
        push_str(html, r.width.as_str());
        push_str(html, BAR_COUNT);
        push_decimal(html, r.count as u64);
        push_str(html, OUTCOME_SHARE);
        push_str(html, r.share.as_str());
        push_str(html, OUTCOME_ROW_CLOSE);
        proof {
            assert(rows@.take(i + 1).drop_last() =~= rows@.take(i as int));
            assert(rows@.take(i + 1).last() == rows@[i as int]);
            assert(html@ =~= mid + outcome_row_text(rows@[i as int]));
            assert(html@ =~= before + outcome_rows_text(rows@.take(i + 1)));
        }
        i += 1;
    }
    assert(rows@.take(rows@.len() as int) =~= rows@);
}

fn push_bar_rows(html: &mut String, fill: &str, rows: &Vec<BarRow>)
    ensures
        final(html)@ == old(html)@ + bar_rows_text(fill@, rows@),
{
    let ghost before = html@;
    let mut i: usize = 0;
    while i < rows.len()
        invariant
            i <= rows@.len(),
            html@ == before + bar_rows_text(fill@, rows@.take(i as int)),
        decreases rows@.len() - i,
    {
        let ghost mid = html@;
        let r = &rows[i];
        push_str(html, BAR_ROW_OPEN);
        push_escaped(html, r.label.as_str());
        push_str(html, BAR_ROW_FILL);
        push_str(html, fill);
        push_str(html, BAR_WIDTH);
        push_str(html, r.width.as_str());
        push_str(html, BAR_COUNT);
        push_decimal(html, r.count as u64);
        push_str(html, BAR_ROW_CLOSE);
        proof {
            assert(rows@.take(i + 1).drop_last() =~= rows@.take(i as int));
            assert(rows@.take(i + 1).last() == rows@[i as int]);
            assert(html@ =~= mid + bar_row_text(fill@, rows@[i as int]));
            assert(html@ =~= before + bar_rows_text(fill@, rows@.take(i + 1)));
        }
        i += 1;
    }
    assert(rows@.take(rows@.len() as int) =~= rows@);
}

fn push_stat(html: &mut String, label: &str, value: &String)
    ensures
        final(html)@ == old(html)@ + stat_item_text(label@, value@),
{
    let ghost before = html@;
    push_stat_item(html, label, value.as_str());
    assert(html@ =~= before + stat_item_text(label@, value@));
}

fn push_quality_stats(html: &mut String, s: &CampaignSummary, responses: usize, stutters: usize, no_audio: usize)
    requires
        responses == responses_count(s.call_results@),
        stutters == stutter_issue_count(s.call_results@),
        no_audio == no_audio_count(s.call_results@),
    ensures
        final(html)@ == old(html)@ + quality_stats_text(*s),
{
    let ghost before = html@;
    let mut v = decimal_then(responses as u64, " / ");
    let tail = decimal_then(s.total_calls as u64, " calls");
    push_str(&mut v, tail.as_str());
    assert(v@ =~= decimal(responses as nat) + " / "@ + decimal(s.total_calls as nat) + " calls"@);
    push_stat(html, "Detected responses", &v);
    let v = decimal_then(stutters as u64, " calls");
    push_stat(html, "Stutter-prone calls", &v);
    let v = decimal_then(no_audio as u64, " calls");
    push_stat(html, "Calls without audio", &v);
    let v = escape_html(s.artifact_dir.as_str());
    push_stat(html, "Artifact directory", &v);
    assert(html@ =~= before + quality_stats_text(*s));
}

fn push_row_head(html: &mut String, c: &CallResult)
    ensures
        final(html)@ == old(html)@ + row_head_text(*c),
{
    let ghost before = html@;
    push_str(html, ROW_OPEN);
    push_decimal(html, c.call_index as u64);
    push_str(html, ROW_PILL);
    push_str(html, pill_class(&c.outcome));
    push_str(html, ROW_OUTCOME);
    push_escaped(html, c.outcome.as_str());
    push_str(html, ROW_AFTER_OUTCOME);
    assert(html@ =~= before + row_head_text(*c));
}

fn push_gap_cell(html: &mut String, c: &CallResult)
    ensures
        final(html)@ == old(html)@ + gap_cell_text(*c),
{
    match &c.analysis {
        Some(a) => {
            let ghost before = html@;
            push_decimal(html, a.longest_gap_ms);
            push_str(html, " ms");
            assert(html@ =~= before + gap_cell_text(*c));
        },
        None => push_str(html, "—"),
    }
}

fn push_stutter_cell(html: &mut String, c: &CallResult)
    ensures
        final(html)@ == old(html)@ + stutter_cell_text(*c),
{
    match &c.analysis {
        Some(a) => push_decimal(html, a.stutter_count as u64),
        None => push_str(html, "—"),
    }
}

fn push_row_link(html: &mut String, s: &CampaignSummary, c: &CallResult)
    ensures
        final(html)@ == old(html)@ + row_link_text(*s, *c),
{
    let ghost before = html@;
    push_str(html, ROW_LINK);
    let path = relative_artifact_path(s, c.rx_wav_path.as_str());
    push_escaped(html, path.as_str());
    push_str(html, ROW_CLOSE);
    assert(html@ =~= before + row_link_text(*s, *c));
}

fn push_inspect_rows(html: &mut String, s: &CampaignSummary, calls: &Vec<&CallResult>, Ghost(picked): Ghost<Seq<CallResult>>)
    requires
        picked.len() == calls@.len(),
        forall|k: int| 0 <= k < picked.len() ==> picked[k] == *calls@[k],
    ensures
        final(html)@ == old(html)@ + inspect_rows_text(*s, picked),
{
    let ghost before = html@;
    let mut i: usize = 0;
    while i < calls.len()
        invariant
            i <= calls@.len(),
            picked.len() == calls@.len(),
            forall|k: int| 0 <= k < picked.len() ==> picked[k] == *calls@[k],
            html@ == before + inspect_rows_text(*s, picked.take(i as int)),
        decreases calls@.len() - i,
    {
        let ghost mid = html@;
        let c: &CallResult = calls[i];
        push_row_head(html, c);
        push_first_cell(html, c);
        push_str(html, CELL);
        push_gap_cell(html, c);
        push_str(html, CELL);
        push_stutter_cell(html, c);
        push_row_link(html, s, c);
        proof {
            assert(picked.take(i + 1).drop_last() =~= picked.take(i as int));
            assert(picked.take(i + 1).last() == picked[i as int]);
            assert(html@ =~= mid + inspect_row_text(*s, picked[i as int]));
            assert(html@ =~= before + inspect_rows_text(*s, picked.take(i + 1)));
        }
        i += 1;
    }
    assert(picked.take(picked.len() as int) =~= picked);
}

fn push_first_cell(html: &mut String, c: &CallResult)
    ensures
        final(html)@ == old(html)@ + opt_ms_text(call_first_response(*c)),
{
    let first = match &c.analysis {
        Some(a) => a.first_response_ms,
        None => None,
    };
    let t = opt_ms(first);
    push_str(html, t.as_str());
}

fn push_share_cell(html: &mut String, share: &Option<String>)
    ensures
        final(html)@ == old(html)@ + share_cell_text(*share),
{
    let ghost before = html@;
    match share {
        Some(t) => {
            push_str(html, t.as_str());
            push_str(html, "%");
        },
        None => push_str(html, "—"),
    }
    assert(html@ =~= before + share_cell_text(*share));
}

fn push_error_cell(html: &mut String, c: &CallResult)
    ensures
        final(html)@ == old(html)@ + error_cell_text(*c),
{
    match &c.error {
        Some(e) => push_escaped(html, e.as_str()),
        None => push_str(html, "—"),
    }
}

fn push_detail_row(html: &mut String, s: &CampaignSummary, c: &CallResult, share: &Option<String>)
    ensures
        final(html)@ == old(html)@ + detail_row_text(*s, *c, *share),
{
    let ghost before = html@;
    push_row_head(html, c);
    push_decimal(html, c.connect_ms);
    push_str(html, " ms");
    push_str(html, CELL);
    push_first_cell(html, c);
    push_str(html, CELL);
    push_gap_cell(html, c);
    push_str(html, CELL);
    push_share_cell(html, share);
    push_str(html, CELL);
    push_decimal(html, c.recorded_samples as u64);
    push_str(html, CELL);
    push_error_cell(html, c);
    push_row_link(html, s, c);
    assert(html@ =~= before + detail_row_text(*s, *c, *share));
}

fn push_detail_rows(html: &mut String, s: &CampaignSummary, shares: &Vec<Option<String>>)
    requires
        shares@.len() == s.call_results@.len(),
    ensures
        final(html)@ == old(html)@ + detail_rows_text(*s, shares@, s.call_results@.len() as int),
{
    let ghost before = html@;
    let mut i: usize = 0;
    while i < s.call_results.len()
        invariant
            i <= s.call_results@.len(),
            shares@.len() == s.call_results@.len(),
            html@ == before + detail_rows_text(*s, shares@, i as int),
        decreases s.call_results@.len() - i,
    {
        push_detail_row(html, s, &s.call_results[i], &shares[i]);
        i += 1;
    }
}

/// The campaign's HTML report page: `style` is the page's style sheet and
/// `figures` the percentages and chart bars; every text taken from the
/// summary is HTML-escaped.
pub fn campaign_report_html(summary: &CampaignSummary, figures: &ReportFigures, style: &str) -> (html: String)
    requires
        figures.call_shares@.len() == summary.call_results@.len(),
        bar_total(figures.longest_gaps@) <= u64::MAX,
        bar_total(figures.all_gaps@) <= u64::MAX,
    ensures
        exists|inspected: Seq<CallResult>| is_inspection_list(summary.call_results@, inspected)
            && html@ == report_page(*summary, *figures, style@, inspected),
{
    let q = quality_counts(summary);
    let analyzed = bar_total_of(&figures.longest_gaps);
    let total_gaps = bar_total_of(&figures.all_gaps);
    let inspected = inspection_calls(summary);
    let ghost picked: Seq<CallResult> = inspected@.map_values(|c: &CallResult| *c);
    let mut html = String::new();
    push_str(&mut html, HEAD_OPEN);
    assert(html@ =~= HEAD_OPEN@);
    push_str(&mut html, style);
    push_str(&mut html, HEAD_CLOSE);
    push_hero(&mut html, summary, figures.duration_s.as_str());
    push_cards(&mut html, summary, figures, q.response_detected, q.gap_issue_calls, q.no_audio_calls);
    push_str(&mut html, OUTCOME_PANEL);
    push_outcome_rows(&mut html, &figures.outcomes);
    push_str(&mut html, LATENCY_PANEL);
    push_bar_rows(&mut html, "", &figures.latency);
    push_str(&mut html, LONGEST_GAP_PANEL);
    push_decimal(&mut html, analyzed);
    push_str(&mut html, STAT_CLOSE);
    push_bar_rows(&mut html, " warn", &figures.longest_gaps);
    push_str(&mut html, ALL_GAP_PANEL);
    push_decimal(&mut html, total_gaps);
    push_str(&mut html, STAT_CLOSE);
    push_bar_rows(&mut html, " bad", &figures.all_gaps);
    push_str(&mut html, QUALITY_PANEL);
    push_quality_stats(&mut html, summary, q.response_detected, q.stutter_issue_calls, q.no_audio_calls);
    push_str(&mut html, INSPECT_PANEL);
    push_inspect_rows(&mut html, summary, &inspected, Ghost(picked));
    push_str(&mut html, DETAIL_PANEL);
    push_detail_rows(&mut html, summary, &figures.call_shares);
    push_str(&mut html, PAGE_END);
    proof {
        let calls = summary.call_results@;
        let order = choose|order: Seq<usize>| #![trigger order.len()] {
            &&& order.len() == inspected@.len()
            &&& forall|k: int| 0 <= k < order.len() ==> #[trigger] order[k] < calls.len()
                && *inspected@[k] == calls[order[k] as int]
            &&& forall|k: int, l: int| 0 <= k < l < order.len() ==> order[k] != order[l]
            &&& forall|k: int, j: int|
                0 <= k < order.len() && 0 <= j < calls.len() && j != order[k]
                    && !order.take(k).contains(j as usize)
                    ==> #[trigger] inspect_before(calls, order[k] as int, j)
        };
        assert(forall|k: int| 0 <= k < order.len() ==> #[trigger] order[k] < calls.len()
            && picked[k] == calls[order[k] as int]);
        assert(is_inspection_list(calls, picked));
    }
    html
}

} // verus!
