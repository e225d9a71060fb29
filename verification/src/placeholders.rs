//! `${NAME}` placeholders in a configuration text: finding them, reporting
//! the ones without a value, and replacing them by their values.

use vstd::prelude::*;
use crate::config::LoadtestError;
use crate::text::{chars_of, push_char};

verus! {

/// Index of the first `}` in `t` at or after `k`, if any.
pub open spec fn close_from(t: Seq<char>, k: int) -> Option<int>
    decreases t.len() - k,
{
    if k < 0 || k >= t.len() {
        None
    } else if t[k] == '}' {
        Some(k)
    } else {
        close_from(t, k + 1)
    }
}

/// A placeholder starting at `i`: `${`, at least one character other than
/// `}`, then `}`; its closing brace's index.
pub open spec fn placeholder_at(t: Seq<char>, i: int) -> Option<int> {
    if 0 <= i && i + 2 < t.len() && t[i] == '$' && t[i + 1] == '{' && t[i + 2] != '}' {
        close_from(t, i + 2)
    } else {
        None
    }
}

/// The leftmost placeholder at or after `p`, as its start and the index of
/// its closing brace.
pub open spec fn next_placeholder(t: Seq<char>, p: int) -> Option<(int, int)>
    decreases t.len() - p,
{
    if p < 0 || p >= t.len() {
        None
    } else {
        match placeholder_at(t, p) {
            Some(j) => Some((p, j)),
            None => next_placeholder(t, p + 1),
        }
    }
}

proof fn lemma_close_after(t: Seq<char>, k: int)
    ensures
        close_from(t, k) matches Some(j) ==> k <= j < t.len() && t[j] == '}'
            && forall|q: int| k <= q < j ==> t[q] != '}',
    decreases t.len() - k,
{
    if 0 <= k < t.len() && t[k] != '}' {
        lemma_close_after(t, k + 1);
    }
}

proof fn lemma_next_after(t: Seq<char>, p: int)
    ensures
        next_placeholder(t, p) matches Some((i, j)) ==> p <= i && i + 2 < j && j < t.len(),
    decreases t.len() - p,
{
    if 0 <= p < t.len() {
        if placeholder_at(t, p) is Some {
            lemma_close_after(t, p + 2);
        } else {
            lemma_next_after(t, p + 1);
        }
    }
}

/// Names of the placeholders from `p` on, left to right, each search going
/// on after the previous placeholder.
pub open spec fn names_from(t: Seq<char>, p: int) -> Seq<Seq<char>>
    decreases t.len() - p,
{
    if p < 0 {
        Seq::empty()
    } else {
        match next_placeholder(t, p) {
            None => Seq::empty(),
            Some((i, j)) => if p < j + 1 && i + 2 <= j < t.len() {
                seq![t.subrange(i + 2, j)] + names_from(t, j + 1)
            } else {
                Seq::empty()
            },
        }
    }
}

/// The text from `p` on with its placeholders replaced, in order, by `vals`.
pub open spec fn replaced_from(t: Seq<char>, p: int, vals: Seq<Seq<char>>) -> Seq<char>
    decreases t.len() - p,
{
    if p < 0 || p > t.len() {
        Seq::empty()
    } else {
        match next_placeholder(t, p) {
            None => t.subrange(p, t.len() as int),
            Some((i, j)) => if p <= i && i + 2 <= j < t.len() && vals.len() > 0 {
                t.subrange(p, i) + vals[0] + replaced_from(t, j + 1, vals.drop_first())
            } else {
                t.subrange(p, t.len() as int)
            },
        }
    }
}

/// Finds the leftmost placeholder at or after `p`.
fn find_placeholder(t: &Vec<char>, p: usize) -> (r: Option<(usize, usize)>)
    requires
        p <= t@.len(),
    ensures
        match next_placeholder(t@, p as int) {
            None => r is None,
            Some((i, j)) => r == Some((i as usize, j as usize)),
        },
{
    let mut i: usize = p;
    while i < t.len()
        invariant
            p <= i <= t@.len(),
            next_placeholder(t@, p as int) == next_placeholder(t@, i as int),
        decreases t@.len() - i,
    {
        if t.len() - i > 2 && t[i] == '$' && t[i + 1] == '{' && t[i + 2] != '}' {
            let mut k: usize = i + 2;
            while k < t.len() && t[k] != '}'
                invariant
                    i + 2 <= k <= t@.len(),
                    close_from(t@, i + 2) == close_from(t@, k as int),
                decreases t@.len() - k,
            {
                k += 1;
            }
            if k < t.len() {
                return Some((i, k));
            }
        }
        i += 1;
    }
    None
}

/// The names of the `${NAME}` placeholders of a text, in order.
pub fn placeholder_names(text: &str) -> (names: Vec<String>)
    ensures
        names@.map_values(|n: String| n@) == names_from(text@, 0),
{
    let t = chars_of(text);
    let mut names: Vec<String> = Vec::new();
    let mut p: usize = 0;
    while p <= t.len()
        invariant
            t@ == text@,
            p <= t@.len(),
            names@.map_values(|n: String| n@) + names_from(t@, p as int) == names_from(t@, 0),
        decreases t@.len() + 1 - p,
    {
        match find_placeholder(&t, p) {
            None => {
                assert(names_from(t@, p as int) == Seq::<Seq<char>>::empty());
                assert(names@.map_values(|n: String| n@) + Seq::<Seq<char>>::empty() =~= names@.map_values(|n: String| n@));
                return names;
            },
            Some((i, j)) => {
                proof {
                    lemma_next_after(t@, p as int);
                }
                let mut name = String::new();
                let mut q: usize = i + 2;
                while q < j
                    invariant
                        i + 2 <= q <= j,
                        j < t@.len(),
                        name@ == t@.subrange(i + 2, q as int),
                    decreases j - q,
                {
                    push_char(&mut name, t[q]);
                    assert(t@.subrange(i + 2, q + 1) =~= t@.subrange(i + 2, q as int).push(t@[q as int]));
                    q += 1;
                }
                let ghost before = names@.map_values(|n: String| n@);
                names.push(name);
                assert(names@.map_values(|n: String| n@) =~= before.push(t@.subrange(i + 2, j as int)));
                assert(before.push(t@.subrange(i + 2, j as int)) + names_from(t@, j + 1)
                    =~= before + (seq![t@.subrange(i + 2, j as int)] + names_from(t@, j + 1)));
                p = j + 1;
            },
        }
    }
    names
}

/// The names among `names` whose value is absent, in order.
pub open spec fn missing_names(names: Seq<Seq<char>>, values: Seq<Option<String>>) -> Seq<Seq<char>>
    decreases names.len(),
{
    if names.len() == 0 || values.len() < names.len() {
        Seq::empty()
    } else {
        let rest = missing_names(names.drop_last(), values.take(names.len() - 1));
        if values[names.len() - 1] is None { rest.push(names.last()) } else { rest }
    }
}

/// Replaces each placeholder by its value; when any value is absent, the
/// error lists every placeholder without one, in order.
pub fn substitute_env_vars(text: &str, values: &[Option<String>]) -> (r: Result<String, LoadtestError>)
    requires
        values@.len() == names_from(text@, 0).len(),
    ensures
        missing_names(names_from(text@, 0), values@).len() > 0 ==> (r matches Err(LoadtestError::MissingEnvVars(m))
            && m@.map_values(|n: String| n@) == missing_names(names_from(text@, 0), values@)),
        missing_names(names_from(text@, 0), values@).len() == 0 ==> (r matches Ok(s) && s@ == replaced_from(
            text@,
            0,
            values@.map_values(|v: Option<String>| v.unwrap()@),
        )),
{
    let names = placeholder_names(text);
    let ghost ns = names_from(text@, 0);
    assert(names@.map_values(|n: String| n@) == ns);
    // Placeholders without a value.
    let mut missing: Vec<String> = Vec::new();
    let mut k: usize = 0;
    while k < names.len()
        invariant
            k <= names@.len(),
            names@.map_values(|n: String| n@) == ns,
            values@.len() == ns.len(),
            missing@.map_values(|n: String| n@) == missing_names(ns.take(k as int), values@.take(k as int)),
        decreases names@.len() - k,
    {
        proof {
            assert(ns.take(k + 1).drop_last() =~= ns.take(k as int));
            assert(values@.take(k + 1).take(k as int) =~= values@.take(k as int));
            assert(ns[k as int] == names@[k as int]@);
        }
        if values[k].is_none() {
            let ghost before = missing@.map_values(|n: String| n@);
            missing.push(names[k].clone());
            assert(missing@.map_values(|n: String| n@) =~= before.push(ns[k as int]));
        }
        k += 1;
    }
    assert(ns.take(ns.len() as int) =~= ns);
    assert(values@.take(ns.len() as int) =~= values@);
    if missing.len() > 0 {
        return Err(LoadtestError::MissingEnvVars(missing));
    }
    proof {
        assert(missing@.map_values(|n: String| n@).len() == missing@.len());
        lemma_no_missing(ns, values@);
    }
    let t = chars_of(text);
    let ghost vals = values@.map_values(|v: Option<String>| v.unwrap()@);
    let mut out = String::new();
    let mut p: usize = 0;
    let mut v: usize = 0;
    assert(vals.skip(0) =~= vals);
    while p <= t.len()
        invariant
            t@ == text@,
            p <= t@.len(),
            v <= values@.len(),
            vals == values@.map_values(|v: Option<String>| v.unwrap()@),
            values@.len() == names_from(t@, 0).len(),
            missing_names(names_from(text@, 0), values@).len() == 0,
            names_from(t@, p as int).len() == values@.len() - v,
            forall|q: int| 0 <= q < values@.len() ==> (#[trigger] values@[q]) is Some,
            out@ + replaced_from(t@, p as int, vals.skip(v as int)) == replaced_from(t@, 0, vals),
        decreases t@.len() + 1 - p,
    {
        match find_placeholder(&t, p) {
            None => {
                let mut q: usize = p;
                let ghost before = out@;
                while q < t.len()
                    invariant
                        p <= q <= t@.len(),
                        out@ == before + t@.subrange(p as int, q as int),
                    decreases t@.len() - q,
                {
                    push_char(&mut out, t[q]);
                    assert(t@.subrange(p as int, q + 1) =~= t@.subrange(p as int, q as int).push(t@[q as int]));
                    q += 1;
                }
                return Ok(out);
            },
            Some((i, j)) => {
                proof {
                    lemma_next_after(t@, p as int);
                    assert(names_from(t@, p as int) == seq![t@.subrange(i + 2, j as int)] + names_from(t@, j + 1));
                    assert(v < values@.len());
                    assert(vals.skip(v as int).len() > 0);
                    assert(vals.skip(v as int)[0] == vals[v as int]);
                    assert(vals.skip(v as int).drop_first() =~= vals.skip(v + 1));
                }
                let ghost before = out@;
                let mut q: usize = p;
                while q < i
                    invariant
                        p <= q <= i,
                        i < t@.len(),
                        out@ == before + t@.subrange(p as int, q as int),
                    decreases i - q,
                {
                    push_char(&mut out, t[q]);
                    assert(t@.subrange(p as int, q + 1) =~= t@.subrange(p as int, q as int).push(t@[q as int]));
                    q += 1;
                }
                assert(values@[v as int] is Some);
                let value: &String = values[v].as_ref().unwrap();
                assert(value@ == vals[v as int]);
                let vc = chars_of(value.as_str());
                let ghost mid = out@;
                let mut w: usize = 0;
                while w < vc.len()
                    invariant
                        w <= vc@.len(),
                        out@ == mid + vc@.take(w as int),
                    decreases vc@.len() - w,
                {
                    push_char(&mut out, vc[w]);
                    assert(vc@.take(w + 1) =~= vc@.take(w as int).push(vc@[w as int]));
                    w += 1;
                }
                assert(vc@.take(vc@.len() as int) =~= vc@);
                assert(out@ == before + t@.subrange(p as int, i as int) + vals[v as int]);
                p = j + 1;
                v = v + 1;
            },
        }
    }
    Ok(out)
}

proof fn lemma_no_missing(names: Seq<Seq<char>>, values: Seq<Option<String>>)
    requires
        values.len() == names.len(),
        missing_names(names, values).len() == 0,
    ensures
        forall|q: int| 0 <= q < values.len() ==> (#[trigger] values[q]) is Some,
    decreases names.len(),
{
    if names.len() > 0 {
        let n = names.len() - 1;
        assert(values.take(n) =~= values.take(names.len() - 1));
        lemma_missing_len(names.drop_last(), values.take(n));
        lemma_no_missing(names.drop_last(), values.take(n));
        assert forall|q: int| 0 <= q < values.len() implies (#[trigger] values[q]) is Some by {
            if q < n {
                assert(values.take(n)[q] == values[q]);
            }
        }
    }
}

proof fn lemma_missing_len(names: Seq<Seq<char>>, values: Seq<Option<String>>)
    ensures
        missing_names(names, values).len() >= 0,
{
}

} // verus!
