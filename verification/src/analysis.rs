//! Analysis of the audio recorded during a load-test call: voiced regions,
//! time to first response, gaps and stutters.

use vstd::prelude::*;

verus! {

/// Sample rate of recorded audio.
pub const ANALYSIS_SAMPLE_RATE: u64 = 16000;

/// A stretch of recorded audio judged voiced.
pub struct VoicedRegion {
    pub start_ms: u64,
    pub end_ms: u64,
}

/// The metrics of one call's recorded audio.
pub struct CallAnalysis {
    pub recorded_duration_ms: u64,
    pub voiced_duration_ms: u64,
    pub silence_duration_ms: u64,
    pub first_response_ms: Option<u64>,
    pub longest_gap_ms: u64,
    pub gap_count_over_threshold: u32,
    /// Short gaps (< stutter_gap_ms) between consecutive voiced regions.
    pub stutter_count: u32,
    pub voiced_regions: Vec<VoicedRegion>,
}

/// The integer thresholds of the analysis (the energy threshold that decides
/// whether a window is voiced is applied before this stage).
pub struct AnalysisTiming {
    pub window_ms: u32,
    pub gap_threshold_ms: u64,
    pub stutter_gap_ms: u64,
}

/// `a - b`, or 0 when `b > a`.
pub open spec fn sat_sub(a: int, b: int) -> int {
    if a >= b { a - b } else { 0 }
}

/// Length in ms of `n` samples at 16 kHz.
pub open spec fn recorded_ms(n: nat) -> int {
    (n * 1000 / 16000) as int
}

/// Samples per analysis window: `16 * window_ms`, at least one.
pub open spec fn window_samples_spec(window_ms: nat) -> int {
    let w = 16000 * window_ms / 1000;
    if w >= 1 { w as int } else { 1 }
}

/// Regions closed so far and the start of the open one, after scanning the
/// window verdicts `flags`. A region opens at the start of the first voiced
/// window and closes at the end of the first silent window after it.
pub open spec fn scan_regions(flags: Seq<bool>, w: int, rec: int) -> (Seq<(int, int)>, Option<int>)
    decreases flags.len(),
{
    if flags.len() == 0 {
        (Seq::empty(), None)
    } else {
        let prev = scan_regions(flags.drop_last(), w, rec);
        let start: int = (flags.len() - 1) * w;
        let end: int = if start + w < rec { start + w } else { rec };
        if flags.last() {
            if prev.1 is None { (prev.0, Some(start)) } else { prev }
        } else {
            match prev.1 {
                Some(s) => (prev.0.push((s, end)), None),
                None => prev,
            }
        }
    }
}

/// The voiced regions of a recording with `rec` ms and the window verdicts
/// `flags`; a region still open at the end closes at the end of the recording.
pub open spec fn voiced_regions_spec(flags: Seq<bool>, w: int, rec: int) -> Seq<(int, int)> {
    let (regs, open) = scan_regions(flags, w, rec);
    match open {
        Some(s) => regs.push((s, rec)),
        None => regs,
    }
}

/// Total length of the regions.
pub open spec fn total_voiced(regs: Seq<(int, int)>) -> int
    decreases regs.len(),
{
    if regs.len() == 0 { 0 } else { total_voiced(regs.drop_last()) + sat_sub(regs.last().1, regs.last().0) }
}

/// Time from the end of transmission to the first region that extends past it
/// (zero when that region began before the end of transmission).
pub open spec fn first_response(regs: Seq<(int, int)>, tx: int) -> Option<int>
    decreases regs.len(),
{
    if regs.len() == 0 {
        None
    } else if regs[0].1 > tx {
        if regs[0].0 <= tx { Some(0) } else { Some(regs[0].0 - tx) }
    } else {
        first_response(regs.drop_first(), tx)
    }
}

/// Silence between region `i - 1` and region `i`.
pub open spec fn gap(regs: Seq<(int, int)>, i: int) -> int {
    sat_sub(regs[i].0, regs[i - 1].1)
}

/// Longest gap between consecutive regions among the first `k`.
pub open spec fn longest_gap(regs: Seq<(int, int)>, k: int) -> int
    decreases k,
{
    if k <= 1 { 0 } else {
        let g = gap(regs, k - 1);
        let m = longest_gap(regs, k - 1);
        if g > m { g } else { m }
    }
}

/// Number of gaps among the first `k` regions that are at least `threshold`.
pub open spec fn gaps_over(regs: Seq<(int, int)>, k: int, threshold: int) -> int
    decreases k,
{
    if k <= 1 { 0 } else { gaps_over(regs, k - 1, threshold) + if gap(regs, k - 1) >= threshold { 1int } else { 0int } }
}

/// Number of gaps among the first `k` regions that are positive and shorter than `limit`.
pub open spec fn stutters(regs: Seq<(int, int)>, k: int, limit: int) -> int
    decreases k,
{
    if k <= 1 { 0 } else {
        stutters(regs, k - 1, limit) + if 0 < gap(regs, k - 1) && gap(regs, k - 1) < limit { 1int } else { 0int }
    }
}

/// The regions of an analysis as pairs of integers.
pub open spec fn region_pairs(rs: Seq<VoicedRegion>) -> Seq<(int, int)> {
    rs.map_values(|r: VoicedRegion| (r.start_ms as int, r.end_ms as int))
}

/// Everything the analysis reports about a recording of `num_samples` samples
/// whose windows were judged voiced as `flags`.
pub open spec fn analysis_matches(
    a: CallAnalysis,
    num_samples: nat,
    flags: Seq<bool>,
    tx: int,
    t: AnalysisTiming,
) -> bool {
    let rec = recorded_ms(num_samples);
    let regs = voiced_regions_spec(flags, t.window_ms as int, rec);
    let total = total_voiced(regs);
    let voiced = if total < rec { total } else { rec };
    &&& a.recorded_duration_ms == rec
    &&& region_pairs(a.voiced_regions@) == regs
    &&& a.voiced_duration_ms == voiced
    &&& a.silence_duration_ms == rec - voiced
    &&& match first_response(regs, tx) {
        Some(v) => a.first_response_ms == Some(v as u64),
        None => a.first_response_ms is None,
    }
    &&& a.longest_gap_ms == longest_gap(regs, regs.len() as int)
    &&& a.gap_count_over_threshold == gaps_over(regs, regs.len() as int, t.gap_threshold_ms as int)
    &&& a.stutter_count == stutters(regs, regs.len() as int, t.stutter_gap_ms as int)
}

/// How many analysis windows a recording of `num_samples` samples has: one
/// per whole or partial window.
pub open spec fn window_count(num_samples: nat, window_ms: nat) -> int {
    let ws = window_samples_spec(window_ms);
    (num_samples + ws - 1) / ws
}

/// Every region is ordered, the next starts no earlier than the previous
/// ends, and all lie within the first `rec` ms.
pub open spec fn regions_in_order(regs: Seq<(int, int)>, rec: int) -> bool {
    &&& forall|k: int| 0 <= k < regs.len() ==> 0 <= #[trigger] regs[k].0 <= regs[k].1 <= rec
    &&& forall|k: int| 0 < k < regs.len() ==> regs[k - 1].1 <= #[trigger] regs[k].0
}

/// The windows of a recording all start within it.
proof fn lemma_windows_start_in_recording(num_samples: nat, window_ms: nat)
    requires
        window_count(num_samples, window_ms) > 0,
    ensures
        (window_count(num_samples, window_ms) - 1) * window_ms <= recorded_ms(num_samples),
{
    let ws = window_samples_spec(window_ms);
    let n = window_count(num_samples, window_ms);
    let big_n = num_samples as int;
    assert(ws >= 1);
    assert((n - 1) * ws < big_n) by (nonlinear_arith)
        requires n == (big_n + ws - 1) / ws, ws >= 1, n > 0;
    if window_ms == 0 {
        assert((n - 1) * window_ms == 0) by (nonlinear_arith) requires window_ms == 0;
    } else {
        assert(ws == 16 * window_ms);
        assert((n - 1) * window_ms * 16 < big_n) by (nonlinear_arith)
            requires (n - 1) * ws < big_n, ws == 16 * window_ms;
        assert((n - 1) * window_ms <= big_n * 1000 / 16000) by (nonlinear_arith)
            requires (n - 1) * window_ms * 16 < big_n, n > 0, window_ms >= 1;
    }
}

/// When every window starts within the recording, the regions scanned so
/// far are each ordered, and an open region starts at a window start.
proof fn lemma_scan_ordered(flags: Seq<bool>, w: int, rec: int)
    requires
        w >= 0,
        rec >= 0,
        flags.len() > 0 ==> (flags.len() - 1) * w <= rec,
    ensures
        ({
            let p = scan_regions(flags, w, rec);
            &&& forall|k: int| 0 <= k < p.0.len() ==> #[trigger] p.0[k].0 <= p.0[k].1
            &&& p.1 matches Some(s) ==> flags.len() > 0 && s <= (flags.len() - 1) * w
        }),
    decreases flags.len(),
{
    if flags.len() > 0 {
        let i = flags.len() - 1;
        if i > 0 {
            assert((i - 1) * w <= i * w) by (nonlinear_arith) requires w >= 0, i >= 1;
        }
        lemma_scan_ordered(flags.drop_last(), w, rec);
        let prev = scan_regions(flags.drop_last(), w, rec);
        assert(i * w >= 0) by (nonlinear_arith) requires i >= 0, w >= 0;
        let p = scan_regions(flags, w, rec);
        assert forall|k: int| 0 <= k < p.0.len() implies #[trigger] p.0[k].0 <= p.0[k].1 by {
            if k < prev.0.len() {
                assert(p.0[k] == prev.0[k]);
            }
        }
    }
}

/// Samples per analysis window for `window_ms`.
pub fn window_samples(window_ms: u32) -> (n: usize)
    requires
        16 * window_ms <= usize::MAX,
    ensures
        n == window_samples_spec(window_ms as nat),
{
    let w: u64 = (ANALYSIS_SAMPLE_RATE * window_ms as u64) / 1000;
    if w >= 1 { w as usize } else { 1 }
}

/// The regions scanned so far are ordered and disjoint, lie before the current
/// window, and bounded by the recording or the windows' extent.
spec fn scan_ok(regs: Seq<(int, int)>, open: Option<int>, i: int, w: int, rec: int) -> bool {
    &&& forall|k: int| 0 <= k < regs.len() ==> 0 <= #[trigger] regs[k].0 <= i * w && 0 <= regs[k].1 <= i * w
        && regs[k].1 <= rec
    &&& forall|k: int| 0 < k < regs.len() ==> #[trigger] regs[k].0 >= regs[k - 1].1 && regs[k].0 >= regs[k - 1].0
    &&& open matches Some(s) ==> 0 <= s <= i * w && (regs.len() > 0 ==> s >= regs.last().1 && s >= regs.last().0)
}

proof fn lemma_scan_step(flags: Seq<bool>, w: int, rec: int)
    requires
        flags.len() > 0,
        w >= 0,
        rec >= 0,
        ({ let p = scan_regions(flags.drop_last(), w, rec); scan_ok(p.0, p.1, flags.len() - 1, w, rec) }),
    ensures
        ({ let p = scan_regions(flags, w, rec); scan_ok(p.0, p.1, flags.len() as int, w, rec) }),
{
    let i = flags.len() - 1;
    assert(i * w + w == (i + 1) * w) by (nonlinear_arith);
    assert(i * w >= 0) by (nonlinear_arith) requires i >= 0, w >= 0;
    let prev = scan_regions(flags.drop_last(), w, rec);
    assert forall|k: int| 0 <= k < prev.0.len() implies #[trigger] prev.0[k].0 <= (i + 1) * w
        && prev.0[k].1 <= (i + 1) * w by {}
}

proof fn lemma_scan_ok(flags: Seq<bool>, w: int, rec: int)
    requires
        w >= 0,
        rec >= 0,
    ensures
        ({ let p = scan_regions(flags, w, rec); scan_ok(p.0, p.1, flags.len() as int, w, rec) }),
    decreases flags.len(),
{
    if flags.len() > 0 {
        lemma_scan_ok(flags.drop_last(), w, rec);
        lemma_scan_step(flags, w, rec);
    }
}

/// Total of the region lengths is at most the largest of the last region's bounds.
proof fn lemma_total_bound(regs: Seq<(int, int)>)
    requires
        forall|k: int| 0 <= k < regs.len() ==> 0 <= #[trigger] regs[k].0 && 0 <= regs[k].1,
        forall|k: int| 0 < k < regs.len() ==> #[trigger] regs[k].0 >= regs[k - 1].1 && regs[k].0 >= regs[k - 1].0,
    ensures
        regs.len() > 0 ==> total_voiced(regs) <= if regs.last().0 > regs.last().1 { regs.last().0 } else { regs.last().1 },
        total_voiced(regs) >= 0,
    decreases regs.len(),
{
    if regs.len() > 0 {
        let r = regs.drop_last();
        assert forall|k: int| 0 < k < r.len() implies #[trigger] r[k].0 >= r[k - 1].1 && r[k].0 >= r[k - 1].0 by {
            assert(r[k] == regs[k] && r[k - 1] == regs[k - 1]);
        }
        lemma_total_bound(r);
        if r.len() > 0 {
            assert(regs[regs.len() - 1].0 >= regs[regs.len() - 2].1);
        }
    }
}

/// Voiced regions from the window verdicts of a recording of `recorded` ms
/// analysed in windows of `w` ms.
fn scan_windows(voiced: &[bool], recorded: u64, w: u64) -> (regions: Vec<VoicedRegion>)
    requires
        voiced@.len() * w <= u64::MAX,
    ensures
        region_pairs(regions@) == voiced_regions_spec(voiced@, w as int, recorded as int),
        forall|k: int| 0 <= k < regions@.len() ==> #[trigger] regions@[k].start_ms <= voiced@.len() * w,
        forall|k: int| 0 < k < regions@.len() ==> #[trigger] regions@[k].start_ms >= regions@[k - 1].end_ms
            && regions@[k].start_ms >= regions@[k - 1].start_ms,
        regions@.len() <= voiced@.len(),
{
    let ghost wi: int = w as int;
    let ghost rec: int = recorded as int;
    let mut regions: Vec<VoicedRegion> = Vec::new();
    let mut open: Option<u64> = None;
    let mut i: usize = 0;
    while i < voiced.len()
        invariant
            i <= voiced@.len(),
            wi == w as int,
            rec == recorded as int,
            voiced@.len() * w <= u64::MAX,
            regions@.len() <= i,
            open is Some ==> regions@.len() < i,
            ({
                let p = scan_regions(voiced@.take(i as int), wi, rec);
                &&& region_pairs(regions@) == p.0
                &&& match p.1 { Some(s) => open == Some(s as u64), None => open is None }
                &&& scan_ok(p.0, p.1, i as int, wi, rec)
            }),
        decreases voiced@.len() - i,
    {
        proof {
            assert(voiced@.take(i + 1).drop_last() =~= voiced@.take(i as int));
            assert(i * w + w <= voiced@.len() * w) by (nonlinear_arith)
                requires i < voiced@.len(), w >= 0;
            lemma_scan_step(voiced@.take(i + 1), wi, rec);
        }
        let start: u64 = i as u64 * w;
        let end: u64 = if start + w < recorded { start + w } else { recorded };
        if voiced[i] {
            if open.is_none() {
                open = Some(start);
            }
        } else {
            match open {
                Some(s) => {
                    let ghost before = region_pairs(regions@);
                    regions.push(VoicedRegion { start_ms: s, end_ms: end });
                    open = None;
                    assert(region_pairs(regions@) =~= before.push((s as int, end as int)));
                }
                None => {}
            }
        }
        proof {
            let p = scan_regions(voiced@.take(i + 1), wi, rec);
            assert(region_pairs(regions@) =~= p.0);
        }
        i += 1;
    }
    assert(voiced@.take(voiced@.len() as int) =~= voiced@);
    match open {
        Some(s) => {
            let ghost before = region_pairs(regions@);
            regions.push(VoicedRegion { start_ms: s, end_ms: recorded });
            assert(region_pairs(regions@) =~= before.push((s as int, rec)));
        }
        None => {}
    }
    proof {
        let regs = voiced_regions_spec(voiced@, wi, rec);
        assert forall|k: int| 0 <= k < regions@.len() implies #[trigger] regions@[k].start_ms <= voiced@.len() * w by {
            assert(regions@[k].start_ms == regs[k].0);
        }
        assert forall|k: int| 0 < k < regions@.len() implies #[trigger] regions@[k].start_ms >= regions@[k - 1].end_ms
            && regions@[k].start_ms >= regions@[k - 1].start_ms by {
            assert(regions@[k].start_ms == regs[k].0 && regions@[k - 1].end_ms == regs[k - 1].1);
            assert(regions@[k - 1].start_ms == regs[k - 1].0);
        }
    }
    regions
}

/// Sum of the region lengths (a region ending before it starts counts zero).
fn sum_voiced(regions: &Vec<VoicedRegion>, bound: u64) -> (total: u64)
    requires
        forall|k: int| 0 <= k < regions@.len() ==> #[trigger] regions@[k].start_ms <= bound,
        forall|k: int| 0 < k < regions@.len() ==> #[trigger] regions@[k].start_ms >= regions@[k - 1].end_ms
            && regions@[k].start_ms >= regions@[k - 1].start_ms,
    ensures
        total == total_voiced(region_pairs(regions@)),
{
    let ghost regs = region_pairs(regions@);
    let mut total: u64 = 0;
    let mut k: usize = 0;
    while k < regions.len()
        invariant
            regs == region_pairs(regions@),
            k <= regions@.len(),
            total == total_voiced(regs.take(k as int)),
            forall|j: int| 0 <= j < regions@.len() ==> #[trigger] regions@[j].start_ms <= bound,
            forall|j: int| 0 < j < regions@.len() ==> #[trigger] regions@[j].start_ms >= regions@[j - 1].end_ms
                && regions@[j].start_ms >= regions@[j - 1].start_ms,
        decreases regions@.len() - k,
    {
        proof {
            let t = regs.take(k + 1);
            assert(t.drop_last() =~= regs.take(k as int));
            assert forall|j: int| 0 < j < t.len() implies #[trigger] t[j].0 >= t[j - 1].1 && t[j].0 >= t[j - 1].0 by {
                assert(t[j] == (regions@[j].start_ms as int, regions@[j].end_ms as int));
                assert(t[j - 1] == (regions@[j - 1].start_ms as int, regions@[j - 1].end_ms as int));
            }
            assert forall|j: int| 0 <= j < t.len() implies 0 <= #[trigger] t[j].0 && 0 <= t[j].1 by {
                assert(t[j] == (regions@[j].start_ms as int, regions@[j].end_ms as int));
            }
            lemma_total_bound(t);
            assert(t.last() == (regions@[k as int].start_ms as int, regions@[k as int].end_ms as int));
        }
        let r = &regions[k];
        let d: u64 = if r.end_ms >= r.start_ms { r.end_ms - r.start_ms } else { 0 };
        total = total + d;
        k += 1;
    }
    assert(regs.take(regs.len() as int) =~= regs);
    total
}

/// Time to the first response after `tx` (see [`first_response`]).
fn find_first_response(regions: &Vec<VoicedRegion>, tx: u64) -> (r: Option<u64>)
    ensures
        match first_response(region_pairs(regions@), tx as int) {
            Some(v) => r == Some(v as u64),
            None => r is None,
        },
{
    let ghost regs = region_pairs(regions@);
    let mut k: usize = 0;
    assert(regs.skip(0) =~= regs);
    while k < regions.len()
        invariant
            regs == region_pairs(regions@),
            k <= regions@.len(),
            first_response(regs, tx as int) == first_response(regs.skip(k as int), tx as int),
        decreases regions@.len() - k,
    {
        let r = &regions[k];
        assert(regs.skip(k as int)[0] == regs[k as int]);
        if r.end_ms > tx {
            if r.start_ms <= tx {
                return Some(0);
            } else {
                return Some(r.start_ms - tx);
            }
        }
        assert(regs.skip(k as int).drop_first() =~= regs.skip(k + 1));
        k += 1;
    }
    None
}

/// Longest gap, gaps at least `threshold`, and positive gaps under `stutter_limit`.
fn gap_metrics(regions: &Vec<VoicedRegion>, threshold: u64, stutter_limit: u64) -> (r: (u64, u32, u32))
    requires
        regions@.len() <= u32::MAX,
    ensures
        r.0 == longest_gap(region_pairs(regions@), regions@.len() as int),
        r.1 == gaps_over(region_pairs(regions@), regions@.len() as int, threshold as int),
        r.2 == stutters(region_pairs(regions@), regions@.len() as int, stutter_limit as int),
{
    let ghost regs = region_pairs(regions@);
    let mut longest: u64 = 0;
    let mut over: u32 = 0;
    let mut stutter: u32 = 0;
    if regions.len() <= 1 {
        return (0, 0, 0);
    }
    let mut g: usize = 1;
    while g < regions.len()
        invariant
            regs == region_pairs(regions@),
            regions@.len() <= u32::MAX,
            1 <= g <= regions@.len(),
            longest == longest_gap(regs, g as int),
            over == gaps_over(regs, g as int, threshold as int),
            stutter == stutters(regs, g as int, stutter_limit as int),
            over < g,
            stutter < g,
        decreases regions@.len() - g,
    {
        let prev_end = regions[g - 1].end_ms;
        let next_start = regions[g].start_ms;
        let gap_ms: u64 = if next_start >= prev_end { next_start - prev_end } else { 0 };
        assert(gap_ms == gap(regs, g as int));
        if gap_ms > longest {
            longest = gap_ms;
        }
        if gap_ms >= threshold {
            over = over + 1;
        }
        if gap_ms > 0 && gap_ms < stutter_limit {
            stutter = stutter + 1;
        }
        g += 1;
    }
    (longest, over, stutter)
}

/// Analyses a recording of `num_samples` samples at 16 kHz given, for each
/// analysis window in order, whether it was voiced, and the time at which
/// transmission finished.
pub fn analyze_voiced_windows(
    num_samples: usize,
    voiced: &[bool],
    tx_finished_at_ms: u64,
    timing: &AnalysisTiming,
) -> (a: CallAnalysis)
    requires
        voiced@.len() == window_count(num_samples as nat, timing.window_ms as nat),
        voiced@.len() * timing.window_ms <= u64::MAX,
        voiced@.len() <= u32::MAX,
        num_samples * 1000 <= u64::MAX,
    ensures
        analysis_matches(a, num_samples as nat, voiced@, tx_finished_at_ms as int, *timing),
        regions_in_order(region_pairs(a.voiced_regions@), a.recorded_duration_ms as int),
{
    let recorded: u64 = (num_samples as u64 * 1000) / ANALYSIS_SAMPLE_RATE;
    let w: u64 = timing.window_ms as u64;
    let regions = scan_windows(voiced, recorded, w);
    let total = sum_voiced(&regions, (voiced.len() as u64) * w);
    let voiced_ms: u64 = if total < recorded { total } else { recorded };
    let first = find_first_response(&regions, tx_finished_at_ms);
    let (longest, over, stutter) = gap_metrics(&regions, timing.gap_threshold_ms, timing.stutter_gap_ms);
    proof {
        let rec = recorded as int;
        if voiced@.len() > 0 {
            lemma_windows_start_in_recording(num_samples as nat, timing.window_ms as nat);
        }
        lemma_scan_ordered(voiced@, w as int, rec);
        lemma_scan_ok(voiced@, w as int, rec);
        let p = scan_regions(voiced@, w as int, rec);
        let regs = voiced_regions_spec(voiced@, w as int, rec);
        assert(regs == region_pairs(regions@));
        assert forall|k: int| 0 <= k < regs.len() implies 0 <= #[trigger] regs[k].0 <= regs[k].1 <= rec by {
            if k < p.0.len() {
                assert(regs[k] == p.0[k]);
            }
        }
        assert forall|k: int| 0 < k < regs.len() implies regs[k - 1].1 <= #[trigger] regs[k].0 by {
            if k < p.0.len() {
                assert(regs[k] == p.0[k] && regs[k - 1] == p.0[k - 1]);
            } else {
                assert(regs[k - 1] == p.0[k - 1]);
            }
        }
    }
    CallAnalysis {
        recorded_duration_ms: recorded,
        voiced_duration_ms: voiced_ms,
        silence_duration_ms: recorded - voiced_ms,
        first_response_ms: first,
        longest_gap_ms: longest,
        gap_count_over_threshold: over,
        stutter_count: stutter,
        voiced_regions: regions,
    }
}

/// The recording splits into voiced and silent time: the two add up to the
/// recorded duration, and neither exceeds it.
pub proof fn lemma_durations_partition(a: CallAnalysis, num_samples: nat, flags: Seq<bool>, tx: int, t: AnalysisTiming)
    requires
        analysis_matches(a, num_samples, flags, tx, t),
    ensures
        a.voiced_duration_ms + a.silence_duration_ms == a.recorded_duration_ms,
        a.voiced_duration_ms <= a.recorded_duration_ms,
{
    let rec = recorded_ms(num_samples);
    let regs = voiced_regions_spec(flags, t.window_ms as int, rec);
    lemma_total_nonneg(regs);
}

proof fn lemma_total_nonneg(regs: Seq<(int, int)>)
    ensures
        total_voiced(regs) >= 0,
    decreases regs.len(),
{
    if regs.len() > 0 {
        lemma_total_nonneg(regs.drop_last());
    }
}

/// A gap reaching the threshold is counted exactly when the longest gap
/// reaches it: the gap count is non-zero if and only if the longest gap is
/// at least the threshold (with two regions or more).
pub proof fn lemma_gap_count_matches_longest(regs: Seq<(int, int)>, k: int, threshold: int)
    ensures
        gaps_over(regs, k, threshold) > 0 <==> (k >= 2 && longest_gap(regs, k) >= threshold),
    decreases k,
{
    if k >= 2 {
        lemma_gap_count_matches_longest(regs, k - 1, threshold);
        lemma_gap_counts_nonneg(regs, k - 1, threshold, threshold);
        lemma_longest_gap_nonneg(regs, k - 1);
        assert(gap(regs, k - 1) >= 0);
    }
}

proof fn lemma_longest_gap_nonneg(regs: Seq<(int, int)>, k: int)
    ensures
        longest_gap(regs, k) >= 0,
    decreases k,
{
    if k > 1 {
        lemma_longest_gap_nonneg(regs, k - 1);
    }
}

proof fn lemma_gap_counts_nonneg(regs: Seq<(int, int)>, k: int, threshold: int, limit: int)
    ensures
        gaps_over(regs, k, threshold) >= 0,
        stutters(regs, k, limit) >= 0,
    decreases k,
{
    if k > 1 {
        lemma_gap_counts_nonneg(regs, k - 1, threshold, limit);
    }
}

/// No gap is both long and a stutter: when stutters are shorter than the
/// gap threshold, long gaps and stutters together number at most the gaps
/// between the first `k` regions.
pub proof fn lemma_gaps_and_stutters_disjoint(regs: Seq<(int, int)>, k: int, threshold: int, limit: int)
    requires
        limit <= threshold,
    ensures
        gaps_over(regs, k, threshold) + stutters(regs, k, limit) <= if k >= 1 { k - 1 } else { 0 },
    decreases k,
{
    if k > 1 {
        lemma_gaps_and_stutters_disjoint(regs, k - 1, threshold, limit);
    }
}

} // verus!

verus! {

/// The silence between two regions: from the end of the first to the start
/// of the second, nothing when they touch or overlap.
pub open spec fn silence_between(earlier: VoicedRegion, later: VoicedRegion) -> int {
    if later.start_ms >= earlier.end_ms { later.start_ms - earlier.end_ms } else { 0 }
}

proof fn lemma_longest_gap_bounds(regs: Seq<(int, int)>, k: int)
    requires
        1 <= k <= regs.len(),
    ensures
        forall|i: int| 1 <= i < k ==> #[trigger] gap(regs, i) <= longest_gap(regs, k),
        k == 1 ==> longest_gap(regs, k) == 0,
        k >= 2 ==> exists|i: int| 1 <= i < k && #[trigger] gap(regs, i) == longest_gap(regs, k),
    decreases k,
{
    if k >= 2 {
        lemma_longest_gap_bounds(regs, k - 1);
        if k == 2 {
            assert(gap(regs, 1) == longest_gap(regs, 2));
        }
    }
}

/// The longest gap an analysis reports is the widest silence between two
/// consecutive voiced regions, measured from the end of one to the start of
/// the next (voiced time never counts as gap); with fewer than two regions it
/// is zero.
pub proof fn lemma_longest_gap_is_widest_silence(a: CallAnalysis, num_samples: nat, flags: Seq<bool>, tx: int, t: AnalysisTiming)
    requires
        analysis_matches(a, num_samples, flags, tx, t),
    ensures
        forall|i: int| 1 <= i < a.voiced_regions@.len() ==> silence_between(
            a.voiced_regions@[i - 1],
            #[trigger] a.voiced_regions@[i],
        ) <= a.longest_gap_ms,
        a.voiced_regions@.len() < 2 ==> a.longest_gap_ms == 0,
        a.voiced_regions@.len() >= 2 ==> exists|i: int| 1 <= i < a.voiced_regions@.len() && silence_between(
            a.voiced_regions@[i - 1],
            #[trigger] a.voiced_regions@[i],
        ) == a.longest_gap_ms,
{
    let rs = a.voiced_regions@;
    let regs = region_pairs(rs);
    assert(forall|i: int| 1 <= i < rs.len() ==> #[trigger] gap(regs, i) == silence_between(rs[i - 1], rs[i]));
    if rs.len() >= 1 {
        lemma_longest_gap_bounds(regs, rs.len() as int);
        assert forall|i: int| 1 <= i < rs.len() implies silence_between(rs[i - 1], #[trigger] rs[i]) <= a.longest_gap_ms by {
            assert(gap(regs, i) == silence_between(rs[i - 1], rs[i]));
        }
        if rs.len() >= 2 {
            let i = choose|i: int| 1 <= i < rs.len() && #[trigger] gap(regs, i) == longest_gap(regs, rs.len() as int);
            assert(silence_between(rs[i - 1], rs[i]) == a.longest_gap_ms);
        }
    }
}

/// Among the silences between the first `k` regions, how many last at least
/// `threshold`.
pub open spec fn silences_at_least(rs: Seq<VoicedRegion>, k: int, threshold: int) -> nat
    decreases k,
{
    if k <= 1 {
        0
    } else {
        silences_at_least(rs, k - 1, threshold) + if silence_between(rs[k - 2], rs[k - 1]) >= threshold { 1nat } else { 0nat }
    }
}

/// Among the silences between the first `k` regions, how many are positive
/// and shorter than `limit`.
pub open spec fn silences_short(rs: Seq<VoicedRegion>, k: int, limit: int) -> nat
    decreases k,
{
    if k <= 1 {
        0
    } else {
        silences_short(rs, k - 1, limit) + if 0 < silence_between(rs[k - 2], rs[k - 1]) < limit { 1nat } else { 0nat }
    }
}

proof fn lemma_counts_are_silences(rs: Seq<VoicedRegion>, k: int, threshold: int, limit: int)
    requires
        0 <= k <= rs.len(),
    ensures
        gaps_over(region_pairs(rs), k, threshold) == silences_at_least(rs, k, threshold),
        stutters(region_pairs(rs), k, limit) == silences_short(rs, k, limit),
    decreases k,
{
    if k > 1 {
        lemma_counts_are_silences(rs, k - 1, threshold, limit);
        assert(gap(region_pairs(rs), k - 1) == silence_between(rs[k - 2], rs[k - 1]));
    }
}

/// The gap count is the number of silences between consecutive voiced
/// regions (end of one to start of the next) that reach the threshold, and
/// the stutter count the number of those that are positive and shorter than
/// the stutter limit.
pub proof fn lemma_gap_counts_are_silences(a: CallAnalysis, num_samples: nat, flags: Seq<bool>, tx: int, t: AnalysisTiming)
    requires
        analysis_matches(a, num_samples, flags, tx, t),
    ensures
        a.gap_count_over_threshold == silences_at_least(a.voiced_regions@, a.voiced_regions@.len() as int, t.gap_threshold_ms as int),
        a.stutter_count == silences_short(a.voiced_regions@, a.voiced_regions@.len() as int, t.stutter_gap_ms as int),
{
    lemma_counts_are_silences(a.voiced_regions@, a.voiced_regions@.len() as int, t.gap_threshold_ms as int, t.stutter_gap_ms as int);
}

proof fn lemma_first_response_spec(regs: Seq<(int, int)>, tx: int)
    ensures
        first_response(regs, tx) is None <==> forall|k: int| 0 <= k < regs.len() ==> #[trigger] regs[k].1 <= tx,
        first_response(regs, tx) matches Some(v) ==> exists|k: int| 0 <= k < regs.len() && #[trigger] regs[k].1 > tx
            && (forall|m: int| 0 <= m < k ==> #[trigger] regs[m].1 <= tx)
            && v == if regs[k].0 <= tx { 0 } else { regs[k].0 - tx },
    decreases regs.len(),
{
    if regs.len() > 0 {
        let rest = regs.drop_first();
        lemma_first_response_spec(rest, tx);
        assert(forall|k: int| 0 <= k < rest.len() ==> rest[k] == regs[k + 1]);
        if regs[0].1 <= tx {
            if first_response(regs, tx) is None {
                assert forall|k: int| 0 <= k < regs.len() implies #[trigger] regs[k].1 <= tx by {
                    if k > 0 {
                        assert(rest[k - 1] == regs[k]);
                    }
                }
            } else {
                let k = choose|k: int| 0 <= k < rest.len() && #[trigger] rest[k].1 > tx
                    && (forall|m: int| 0 <= m < k ==> #[trigger] rest[m].1 <= tx)
                    && first_response(rest, tx)->0 == if rest[k].0 <= tx { 0 } else { rest[k].0 - tx };
                assert(regs[k + 1].1 > tx);
                assert forall|m: int| 0 <= m < k + 1 implies #[trigger] regs[m].1 <= tx by {
                    if m > 0 {
                        assert(rest[m - 1] == regs[m]);
                    }
                }
                if forall|q: int| 0 <= q < regs.len() ==> #[trigger] regs[q].1 <= tx {
                    assert(regs[k + 1].1 <= tx);
                }
            }
        } else {
            assert(regs[0].1 > tx);
        }
    }
}

proof fn lemma_first_response_fields(rs: Seq<VoicedRegion>, fr: Option<u64>, tx: int)
    requires
        tx >= 0,
        match first_response(region_pairs(rs), tx) {
            Some(v) => fr == Some(v as u64),
            None => fr is None,
        },
    ensures
        fr is None <==> forall|k: int| 0 <= k < rs.len() ==> #[trigger] rs[k].end_ms <= tx,
        fr matches Some(v) ==> exists|k: int| 0 <= k < rs.len() && #[trigger] rs[k].end_ms > tx
            && (forall|m: int| 0 <= m < k ==> #[trigger] rs[m].end_ms <= tx)
            && v == if rs[k].start_ms <= tx { 0 } else { rs[k].start_ms - tx },
{
    let regs = region_pairs(rs);
    lemma_first_response_spec(regs, tx);
    assert(forall|k: int| 0 <= k < rs.len() ==> #[trigger] regs[k] == (rs[k].start_ms as int, rs[k].end_ms as int));
    if fr is None {
        assert forall|k: int| 0 <= k < rs.len() implies #[trigger] rs[k].end_ms <= tx by {
            assert(regs[k].1 <= tx);
        }
    } else {
        let k = choose|k: int| 0 <= k < regs.len() && #[trigger] regs[k].1 > tx
            && (forall|m: int| 0 <= m < k ==> #[trigger] regs[m].1 <= tx)
            && first_response(regs, tx)->0 == if regs[k].0 <= tx { 0 } else { regs[k].0 - tx };
        assert(rs[k].end_ms > tx);
        assert forall|m: int| 0 <= m < k implies #[trigger] rs[m].end_ms <= tx by {
            assert(regs[m].1 <= tx);
        }
        if forall|q: int| 0 <= q < rs.len() ==> #[trigger] rs[q].end_ms <= tx {
            assert(rs[k].end_ms <= tx);
        }
        let w: int = if rs[k].start_ms <= tx { 0 } else { rs[k].start_ms - tx };
        assert(0 <= w <= u64::MAX);
        assert(fr == Some(w as u64));
    }
}

/// The first response is measured to the first voiced region that reaches
/// past the end of transmission: none when every region ends by then; zero
/// when that region began before transmission ended; else the time from the
/// end of transmission to its start.
pub proof fn lemma_first_response_is_first_region_after(a: CallAnalysis, num_samples: nat, flags: Seq<bool>, tx: int, t: AnalysisTiming)
    requires
        tx >= 0,
        analysis_matches(a, num_samples, flags, tx, t),
    ensures
        a.first_response_ms is None <==> forall|k: int| 0 <= k < a.voiced_regions@.len()
            ==> #[trigger] a.voiced_regions@[k].end_ms <= tx,
        a.first_response_ms matches Some(v) ==> exists|k: int| 0 <= k < a.voiced_regions@.len()
            && #[trigger] a.voiced_regions@[k].end_ms > tx
            && (forall|m: int| 0 <= m < k ==> #[trigger] a.voiced_regions@[m].end_ms <= tx)
            && v == if a.voiced_regions@[k].start_ms <= tx { 0 } else { a.voiced_regions@[k].start_ms - tx },
{
    lemma_first_response_fields(a.voiced_regions@, a.first_response_ms, tx);
}

/// The voiced time of the first `k` regions: each from its start to its end
/// (nothing for a region that ends before it starts).
pub open spec fn voiced_time(rs: Seq<VoicedRegion>, k: int) -> int
    decreases k,
{
    if k <= 0 {
        0
    } else {
        voiced_time(rs, k - 1) + if rs[k - 1].end_ms >= rs[k - 1].start_ms { rs[k - 1].end_ms - rs[k - 1].start_ms } else { 0 }
    }
}

proof fn lemma_voiced_time(rs: Seq<VoicedRegion>, k: int)
    requires
        0 <= k <= rs.len(),
    ensures
        total_voiced(region_pairs(rs).take(k)) == voiced_time(rs, k),
    decreases k,
{
    if k > 0 {
        lemma_voiced_time(rs, k - 1);
        assert(region_pairs(rs).take(k).drop_last() =~= region_pairs(rs).take(k - 1));
    }
}

/// The durations of an analysis: the recording lasts `num_samples / 16` ms
/// (rounded down); the voiced time is the voiced regions' lengths added up,
/// capped at the recording's length; the silence is the rest.
pub proof fn lemma_durations_are_region_lengths(a: CallAnalysis, num_samples: nat, flags: Seq<bool>, tx: int, t: AnalysisTiming)
    requires
        analysis_matches(a, num_samples, flags, tx, t),
    ensures
        a.recorded_duration_ms == num_samples * 1000 / 16000,
        a.voiced_duration_ms == if voiced_time(a.voiced_regions@, a.voiced_regions@.len() as int) < a.recorded_duration_ms {
            voiced_time(a.voiced_regions@, a.voiced_regions@.len() as int)
        } else {
            a.recorded_duration_ms as int
        },
        a.silence_duration_ms == a.recorded_duration_ms - a.voiced_duration_ms,
{
    let rs = a.voiced_regions@;
    lemma_voiced_time(rs, rs.len() as int);
    assert(region_pairs(rs).take(rs.len() as int) =~= region_pairs(rs));
}

} // verus!
