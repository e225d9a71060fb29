//! Sorting of millisecond values.

use vstd::prelude::*;
use vstd::relations::{sorted_by, total_ordering};

verus! {

/// The usual order on `u64`.
pub open spec fn leq_u64() -> spec_fn(u64, u64) -> bool {
    |x: u64, y: u64| x <= y
}

pub proof fn lemma_leq_u64_total()
    ensures
        total_ordering(leq_u64()),
{
}

/// `s` in ascending order.
pub open spec fn sorted_u64(s: Seq<u64>) -> Seq<u64> {
    s.sort_by(leq_u64())
}

/// A copy of `v` in ascending order.
pub fn sort_u64(v: &Vec<u64>) -> (out: Vec<u64>)
    ensures
        out@ == sorted_u64(v@),
        out@.len() == v@.len(),
{
    broadcast use vstd::seq_lib::group_to_multiset_ensures;
    let mut out: Vec<u64> = Vec::with_capacity(v.len());
    let mut i: usize = 0;
    while i < v.len()
        invariant
            i <= v@.len(),
            sorted_by(out@, leq_u64()),
            out@.to_multiset() == v@.take(i as int).to_multiset(),
            out@.len() == i,
        decreases v@.len() - i,
    {
        let x = v[i];
        let mut p: usize = 0;
        while p < out.len() && out[p] <= x
            invariant
                p <= out@.len(),
                forall|k: int| 0 <= k < p ==> out@[k] <= x,
            decreases out@.len() - p,
        {
            p += 1;
        }
        let ghost before = out@;
        out.insert(p, x);
        proof {
            assert(out@ == before.insert(p as int, x));
            vstd::seq_lib::to_multiset_insert(before, p as int, x);
            assert(v@.take(i + 1) =~= v@.take(i as int).push(x));
            vstd::seq_lib::to_multiset_build(v@.take(i as int), x);
            assert forall|a: int, b: int| 0 <= a < b < out@.len() implies #[trigger] leq_u64()(out@[a], out@[b]) by {
                if p < before.len() {
                    assert(x < before[p as int]);
                }
                if a < p && b == p {
                } else if a < p && b > p {
                    assert(out@[b] == before[b - 1]);
                    assert(leq_u64()(before[a], before[b - 1]));
                } else if a == p {
                    assert(out@[b] == before[b - 1]);
                    assert(leq_u64()(before[p as int], before[b - 1]) || b - 1 == p);
                } else if a > p {
                    assert(leq_u64()(before[a - 1], before[b - 1]));
                } else {
                    assert(leq_u64()(before[a], before[b]));
                }
            }
        }
        i += 1;
    }
    proof {
        assert(v@.take(v@.len() as int) =~= v@);
        lemma_leq_u64_total();
        v@.lemma_sort_by_ensures(leq_u64());
        vstd::seq_lib::lemma_sorted_unique(out@, v@.sort_by(leq_u64()), leq_u64());
    }
    out
}

} // verus!
