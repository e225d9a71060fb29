//! The outcome table of a campaign report: how many calls ended each way,
//! the known outcomes first in a fixed order, any other outcome after them
//! in text order.

use vstd::prelude::*;
use crate::report::{CallResult, CampaignSummary};
use crate::text::{chars_of, text_is};

verus! {

/// Text order: the order of `String` comparison (UTF-8 bytes order the same
/// way as the characters' code points).
pub open spec fn text_lt(a: Seq<char>, b: Seq<char>) -> bool
    decreases a.len(),
{
    if a.len() == 0 {
        b.len() > 0
    } else if b.len() == 0 {
        false
    } else if a[0] != b[0] {
        (a[0] as int) < (b[0] as int)
    } else {
        text_lt(a.drop_first(), b.drop_first())
    }
}

/// Place of a known outcome in the table; other outcomes have none.
pub open spec fn known_rank(l: Seq<char>) -> int {
    if l == "success"@ { 0 }
    else if l == "completed_without_response"@ { 1 }
    else if l == "no_audio"@ { 2 }
    else if l == "failed"@ { 3 }
    else { -1 }
}

/// Whether the row of outcome `a` comes before that of outcome `b`: known
/// outcomes in their fixed order, then the others in text order.
pub open spec fn row_before(a: Seq<char>, b: Seq<char>) -> bool {
    let ra = known_rank(a);
    let rb = known_rank(b);
    if ra >= 0 && rb >= 0 {
        ra < rb
    } else if ra >= 0 {
        true
    } else if rb >= 0 {
        false
    } else {
        text_lt(a, b)
    }
}

/// Number of calls that ended with outcome `l`.
pub open spec fn outcome_count(calls: Seq<CallResult>, l: Seq<char>) -> nat
    decreases calls.len(),
{
    if calls.len() == 0 {
        0
    } else {
        outcome_count(calls.drop_last(), l) + if calls.last().outcome@ == l { 1nat } else { 0nat }
    }
}

/// `rows` is the outcome table of `calls`: one row per outcome that occurs,
/// with its number of calls, in table order.
pub open spec fn is_outcome_table(rows: Seq<(Seq<char>, nat)>, calls: Seq<CallResult>) -> bool {
    &&& forall|i: int| 0 <= i < rows.len() ==> #[trigger] rows[i].1 == outcome_count(calls, rows[i].0)
        && rows[i].1 > 0
    &&& forall|i: int, j: int| 0 <= i < j < rows.len() ==> row_before(#[trigger] rows[i].0, #[trigger] rows[j].0)
    &&& forall|c: int| 0 <= c < calls.len() ==> exists|i: int| 0 <= i < rows.len() && #[trigger] rows[i].0 == (
        #[trigger] calls[c]).outcome@
}

proof fn lemma_text_lt_irreflexive(a: Seq<char>)
    ensures
        !text_lt(a, a),
    decreases a.len(),
{
    if a.len() > 0 {
        lemma_text_lt_irreflexive(a.drop_first());
    }
}

proof fn lemma_text_lt_total(a: Seq<char>, b: Seq<char>)
    requires
        a != b,
    ensures
        text_lt(a, b) || text_lt(b, a),
    decreases a.len(),
{
    if a.len() > 0 && b.len() > 0 && a[0] == b[0] {
        if a.drop_first() == b.drop_first() {
            assert(a =~= seq![a[0]] + a.drop_first());
            assert(b =~= seq![b[0]] + b.drop_first());
        }
        lemma_text_lt_total(a.drop_first(), b.drop_first());
    } else if a.len() == 0 && b.len() == 0 {
        assert(a =~= b);
    } else if a.len() > 0 && b.len() > 0 {
        assert(a[0] != b[0]);
        assert((a[0] as int) != (b[0] as int));
    }
}

proof fn lemma_text_lt_transitive(a: Seq<char>, b: Seq<char>, c: Seq<char>)
    requires
        text_lt(a, b),
        text_lt(b, c),
    ensures
        text_lt(a, c),
    decreases a.len(),
{
    if a.len() > 0 && b.len() > 0 && c.len() > 0 && a[0] == b[0] && b[0] == c[0] {
        lemma_text_lt_transitive(a.drop_first(), b.drop_first(), c.drop_first());
    }
}

/// Table order is a strict total order on outcomes.
pub proof fn lemma_row_order(a: Seq<char>, b: Seq<char>, c: Seq<char>)
    ensures
        !row_before(a, a),
        a != b ==> row_before(a, b) || row_before(b, a),
        row_before(a, b) && row_before(b, c) ==> row_before(a, c),
{
    lemma_text_lt_irreflexive(a);
    if a != b {
        if known_rank(a) >= 0 && known_rank(b) >= 0 {
            assert(known_rank(a) != known_rank(b));
        } else {
            lemma_text_lt_total(a, b);
        }
    }
    if row_before(a, b) && row_before(b, c) && known_rank(a) < 0 && known_rank(b) < 0 && known_rank(c) < 0 {
        lemma_text_lt_transitive(a, b, c);
    }
}

/// Whether `a` comes before `b` in text order.
pub fn text_less(a: &str, b: &str) -> (r: bool)
    ensures
        r == text_lt(a@, b@),
{
    let x = chars_of(a);
    let y = chars_of(b);
    let mut i: usize = 0;
    assert(x@.skip(0) =~= x@);
    assert(y@.skip(0) =~= y@);
    while i < x.len() && i < y.len() && x[i] == y[i]
        invariant
            x@ == a@,
            y@ == b@,
            i <= x@.len(),
            i <= y@.len(),
            text_lt(a@, b@) == text_lt(x@.skip(i as int), y@.skip(i as int)),
        decreases x@.len() - i,
    {
        assert(x@.skip(i as int).drop_first() =~= x@.skip(i + 1));
        assert(y@.skip(i as int).drop_first() =~= y@.skip(i + 1));
        i += 1;
    }
    if i == x.len() {
        i < y.len()
    } else if i == y.len() {
        false
    } else {
        assert(x@.skip(i as int)[0] == x@[i as int]);
        assert(y@.skip(i as int)[0] == y@[i as int]);
        x[i] < y[i]
    }
}

/// Place of an outcome in the table's fixed part, or -1.
fn rank_of(l: &String) -> (r: i8)
    ensures
        r == known_rank(l@),
{
    if text_is(l, "success") {
        0
    } else if text_is(l, "completed_without_response") {
        1
    } else if text_is(l, "no_audio") {
        2
    } else if text_is(l, "failed") {
        3
    } else {
        -1
    }
}

fn before(a: &String, b: &String) -> (r: bool)
    ensures
        r == row_before(a@, b@),
{
    let ra = rank_of(a);
    let rb = rank_of(b);
    if ra >= 0 && rb >= 0 {
        ra < rb
    } else if ra >= 0 {
        true
    } else if rb >= 0 {
        false
    } else {
        text_less(a.as_str(), b.as_str())
    }
}

proof fn lemma_count_bound(calls: Seq<CallResult>, l: Seq<char>)
    ensures
        outcome_count(calls, l) <= calls.len(),
    decreases calls.len(),
{
    if calls.len() > 0 {
        lemma_count_bound(calls.drop_last(), l);
    }
}

/// The outcome table of a campaign: each outcome that occurs with its number
/// of calls; `success`, `completed_without_response`, `no_audio` and
/// `failed` first, in that order, then any other outcome in text order.
pub fn outcome_rows(summary: &CampaignSummary) -> (rows: Vec<(String, usize)>)
    ensures
        is_outcome_table(rows@.map_values(|r: (String, usize)| (r.0@, r.1 as nat)), summary.call_results@),
{
    let calls = &summary.call_results;
    let mut labels: Vec<String> = Vec::new();
    let mut counts: Vec<usize> = Vec::new();
    let mut k: usize = 0;
    while k < calls.len()
        invariant
            k <= calls@.len(),
            labels@.len() == counts@.len(),
            forall|i: int| 0 <= i < labels@.len() ==> #[trigger] counts@[i] == outcome_count(calls@.take(k as int), labels@[i]@)
                && counts@[i] > 0,
            forall|i: int, j: int| 0 <= i < j < labels@.len() ==> row_before(#[trigger] labels@[i]@, #[trigger] labels@[j]@),
            forall|c: int| 0 <= c < k ==> exists|i: int| 0 <= i < labels@.len() && #[trigger] labels@[i]@ == (
                #[trigger] calls@[c]).outcome@,
        decreases calls@.len() - k,
    {
        let ghost prev = calls@.take(k as int);
        let ghost next = calls@.take(k + 1);
        proof {
            assert(next.drop_last() =~= prev);
            assert(next.last() == calls@[k as int]);
        }
        let outcome = &calls[k].outcome;
        // Look for the outcome's row, or where it belongs.
        let mut p: usize = 0;
        while p < labels.len() && before(&labels[p], outcome)
            invariant
                p <= labels@.len(),
                forall|i: int| 0 <= i < p ==> row_before(#[trigger] labels@[i]@, outcome@),
            decreases labels@.len() - p,
        {
            p += 1;
        }
        let found = p < labels.len() && labels[p] == *outcome;
        if found {
            proof {
                lemma_count_bound(prev, labels@[p as int]@);
            }
            let c = counts[p] + 1;
            counts.set(p, c);
            proof {
                assert forall|i: int| 0 <= i < labels@.len() implies #[trigger] counts@[i] == outcome_count(next, labels@[i]@)
                    && counts@[i] > 0 by {
                    if i != p && labels@[i]@ == outcome@ {
                        if i < p {
                            lemma_row_order(labels@[i]@, labels@[p as int]@, labels@[p as int]@);
                        } else {
                            lemma_row_order(labels@[p as int]@, labels@[i]@, labels@[i]@);
                        }
                    }
                }
                assert forall|c: int| 0 <= c < k + 1 implies exists|i: int| 0 <= i < labels@.len() && #[trigger] labels@[i]@ == (
                    #[trigger] calls@[c]).outcome@ by {
                    if c == k {
                        assert(labels@[p as int]@ == calls@[c].outcome@);
                    }
                }
            }
        } else {
            proof {
                if p < labels@.len() {
                    lemma_row_order(outcome@, labels@[p as int]@, labels@[p as int]@);
                    assert(row_before(outcome@, labels@[p as int]@));
                }
                assert forall|i: int| 0 <= i < labels@.len() implies labels@[i]@ != outcome@ by {
                    if i < p {
                        lemma_row_order(outcome@, outcome@, outcome@);
                    } else if p < labels@.len() {
                        if i > p {
                            assert(row_before(labels@[p as int]@, labels@[i]@));
                        }
                        lemma_row_order(outcome@, labels@[p as int]@, labels@[i]@);
                        lemma_row_order(outcome@, outcome@, outcome@);
                    }
                }
                assert forall|c: int| 0 <= c < prev.len() implies (#[trigger] prev[c]).outcome@ != outcome@ by {
                    assert(prev[c] == calls@[c]);
                    let i0 = choose|i: int| 0 <= i < labels@.len() && #[trigger] labels@[i]@ == calls@[c].outcome@;
                    assert(labels@[i0]@ != outcome@);
                }
                lemma_absent_count(prev, outcome@);
            }
            let ghost old_labels = labels@;
            let ghost old_counts = counts@;
            labels.insert(p, outcome.clone());
            counts.insert(p, 1);
            proof {
                assert forall|i: int| 0 <= i < labels@.len() implies #[trigger] counts@[i] == outcome_count(next, labels@[i]@)
                    && counts@[i] > 0 by {
                    if i < p {
                        assert(labels@[i] == old_labels[i]);
                    } else if i > p {
                        assert(labels@[i] == old_labels[i - 1]);
                    }
                }
                assert forall|i: int, j: int| 0 <= i < j < labels@.len() implies row_before(
                    #[trigger] labels@[i]@,
                    #[trigger] labels@[j]@,
                ) by {
                    if j < p {
                        assert(labels@[i] == old_labels[i] && labels@[j] == old_labels[j]);
                    } else if i > p {
                        assert(labels@[i] == old_labels[i - 1] && labels@[j] == old_labels[j - 1]);
                    } else if i == p {
                        assert(labels@[j] == old_labels[j - 1]);
                        if j - 1 > p {
                            assert(row_before(old_labels[p as int]@, old_labels[j - 1]@));
                            lemma_row_order(outcome@, old_labels[p as int]@, old_labels[j - 1]@);
                        }
                    } else if j == p {
                        assert(labels@[i] == old_labels[i]);
                    } else {
                        assert(labels@[i] == old_labels[i] && labels@[j] == old_labels[j - 1]);
                        if j - 1 > p {
                            assert(row_before(old_labels[p as int]@, old_labels[j - 1]@));
                            lemma_row_order(outcome@, old_labels[p as int]@, old_labels[j - 1]@);
                        }
                        lemma_row_order(old_labels[i]@, outcome@, old_labels[j - 1]@);
                    }
                }
                assert forall|c: int| 0 <= c < k + 1 implies exists|i: int| 0 <= i < labels@.len() && #[trigger] labels@[i]@ == (
                    #[trigger] calls@[c]).outcome@ by {
                    if c == k {
                        assert(labels@[p as int]@ == calls@[c].outcome@);
                    } else {
                        let i0 = choose|i: int| 0 <= i < old_labels.len() && #[trigger] old_labels[i]@ == calls@[c].outcome@;
                        if i0 < p {
                            assert(labels@[i0] == old_labels[i0]);
                        } else {
                            assert(labels@[i0 + 1] == old_labels[i0]);
                        }
                    }
                }
            }
        }
        k += 1;
    }
    assert(calls@.take(calls@.len() as int) =~= calls@);
    let mut rows: Vec<(String, usize)> = Vec::new();
    let mut i: usize = 0;
    while i < labels.len()
        invariant
            i <= labels@.len(),
            labels@.len() == counts@.len(),
            rows@.len() == i,
            forall|q: int| 0 <= q < i ==> (#[trigger] rows@[q]).0@ == labels@[q]@ && rows@[q].1 == counts@[q],
        decreases labels@.len() - i,
    {
        rows.push((labels[i].clone(), counts[i]));
        i += 1;
    }
    proof {
        let view = rows@.map_values(|r: (String, usize)| (r.0@, r.1 as nat));
        assert forall|c: int| 0 <= c < calls@.len() implies exists|q: int| 0 <= q < view.len() && #[trigger] view[q].0 == (
            #[trigger] calls@[c]).outcome@ by {
            let i0 = choose|q: int| 0 <= q < labels@.len() && #[trigger] labels@[q]@ == calls@[c].outcome@;
            assert(view[i0].0 == labels@[i0]@);
        }
        assert forall|q: int, r: int| 0 <= q < r < view.len() implies row_before(#[trigger] view[q].0, #[trigger] view[r].0) by {
            assert(row_before(labels@[q]@, labels@[r]@));
        }
    }
    rows
}

/// An outcome no call had is counted zero times.
proof fn lemma_absent_count(calls: Seq<CallResult>, l: Seq<char>)
    requires
        forall|c: int| 0 <= c < calls.len() ==> (#[trigger] calls[c]).outcome@ != l,
    ensures
        outcome_count(calls, l) == 0,
    decreases calls.len(),
{
    if calls.len() > 0 {
        assert(calls.last() == calls[calls.len() - 1]);
        assert forall|c: int| 0 <= c < calls.drop_last().len() implies (#[trigger] calls.drop_last()[c]).outcome@ != l by {
            assert(calls.drop_last()[c] == calls[c]);
        }
        lemma_absent_count(calls.drop_last(), l);
    }
}

} // verus!
