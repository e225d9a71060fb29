//! Re-chunking of a sample stream into frames of an exact size.

use vstd::prelude::*;

verus! {

/// The samples of a list of chunks, in order.
pub open spec fn flat(chunks: Seq<Vec<i16>>) -> Seq<i16> {
    chunks.map_values(|c: Vec<i16>| c@).flatten()
}

/// The complete frames of `n` samples at the start of `x`, in order.
pub open spec fn frames_of(x: Seq<i16>, n: nat) -> Seq<Seq<i16>>
    recommends
        n > 0,
{
    Seq::new(x.len() / n, |k: int| x.subrange(k * n, k * n + n))
}

/// What is left of `x` after its complete frames of `n` samples.
pub open spec fn leftover(x: Seq<i16>, n: nat) -> Seq<i16>
    recommends
        n > 0,
{
    x.skip((n * (x.len() / n)) as int)
}

/// `f`, called on some slice holding `frame`, may return `r`.
pub open spec fn returned_on<R, F: FnMut(&[i16]) -> R>(f: F, frame: Seq<i16>, r: R) -> bool {
    exists|s: &[i16]| #[trigger] call_ensures(f, (s,), r) && s@ == frame
}

/// Buffers incoming samples and cuts them into frames of exactly `chunk_size`.
pub struct FrameChunker {
    buffer: Vec<i16>,
    chunk_size: usize,
}

/// Copies `src[from..from + n]` into a new vector.
fn copy_range(src: &Vec<i16>, from: usize, n: usize) -> (out: Vec<i16>)
    requires
        from + n <= src@.len(),
    ensures
        out@ == src@.subrange(from as int, from + n),
{
    let mut out: Vec<i16> = Vec::with_capacity(n);
    let mut j: usize = 0;
    while j < n
        invariant
            from + n <= src.len(),
            j <= n,
            out@ =~= src@.subrange(from as int, from + j),
        decreases n - j,
    {
        out.push(src[from + j]);
        j += 1;
    }
    out
}

impl FrameChunker {
    /// Samples held back until a whole chunk is available.
    pub closed spec fn buffered(&self) -> Seq<i16> {
        self.buffer@
    }

    /// Size of the chunks handed out.
    pub closed spec fn size(&self) -> nat {
        self.chunk_size as nat
    }

    /// Puts `samples` at the end of the buffer.
    fn append(&mut self, samples: &[i16])
        requires
            old(self).buffer@.len() + samples@.len() <= usize::MAX,
        ensures
            final(self).buffer@ == old(self).buffer@ + samples@,
            final(self).chunk_size == old(self).chunk_size,
    {
        let mut i: usize = 0;
        while i < samples.len()
            invariant
                i <= samples@.len(),
                self.buffer@ =~= old(self).buffer@ + samples@.take(i as int),
                self.chunk_size == old(self).chunk_size,
                old(self).buffer@.len() + samples@.len() <= usize::MAX,
            decreases samples@.len() - i,
        {
            self.buffer.push(samples[i]);
            i += 1;
        }
        assert(samples@.take(samples@.len() as int) =~= samples@);
    }

    /// An empty chunker that hands out chunks of `chunk_size` samples.
    pub fn new(chunk_size: usize) -> (c: FrameChunker)
        ensures
            c.buffered() == Seq::<i16>::empty(),
            c.size() == chunk_size,
    {
        FrameChunker { buffer: Vec::new(), chunk_size }
    }

    /// Appends `samples` and returns every complete chunk, oldest first. The
    /// chunks followed by what stays buffered are exactly the previously buffered
    /// samples followed by `samples`; fewer than `chunk_size` samples stay buffered.
    pub fn push(&mut self, samples: &[i16]) -> (chunks: Vec<Vec<i16>>)
        requires
            old(self).size() > 0,
            old(self).buffered().len() + samples@.len() <= usize::MAX,
        ensures
            final(self).size() == old(self).size(),
            flat(chunks@) + final(self).buffered() == old(self).buffered() + samples@,
            forall|k: int| 0 <= k < chunks@.len() ==> #[trigger] chunks@[k]@.len() == old(self).size(),
            final(self).buffered().len() < old(self).size(),
            chunks@.len() == (old(self).buffered().len() + samples@.len()) / old(self).size(),
            forall|k: int| 0 <= k < chunks@.len() ==> #[trigger] chunks@[k]@
                == frames_of(old(self).buffered() + samples@, old(self).size())[k],
            final(self).buffered() == leftover(old(self).buffered() + samples@, old(self).size()),
    {
        let ghost input = self.buffer@ + samples@;
        self.append(samples);
        let cs = self.chunk_size;
        let total = self.buffer.len();
        let mut chunks: Vec<Vec<i16>> = Vec::new();
        let mut pos: usize = 0;
        assert(chunks@.len() * cs == 0) by (nonlinear_arith)
            requires chunks@.len() == 0;
        while total - pos >= cs
            invariant
                cs > 0,
                total == self.buffer@.len(),
                self.buffer@ == input,
                pos <= total,
                pos == chunks@.len() * cs,
                flat(chunks@) =~= input.take(pos as int),
                forall|k: int| 0 <= k < chunks@.len() ==> #[trigger] chunks@[k]@.len() == cs,
                forall|k: int| 0 <= k < chunks@.len() ==> #[trigger] chunks@[k]@
                    == frames_of(input, cs as nat)[k],
            decreases total - pos,
        {
            let chunk = copy_range(&self.buffer, pos, cs);
            proof {
                chunks@.map_values(|c: Vec<i16>| c@).lemma_flatten_push(chunk@);
                assert(chunks@.push(chunk).map_values(|c: Vec<i16>| c@)
                    =~= chunks@.map_values(|c: Vec<i16>| c@).push(chunk@));
                assert(input.take(pos + cs) =~= input.take(pos as int) + chunk@);
                assert((chunks@.len() + 1) * cs == chunks@.len() * cs + cs) by (nonlinear_arith);
                let q = chunks@.len() as int;
                assert(q < total as int / cs as int) by (nonlinear_arith)
                    requires pos == q * cs, total - pos >= cs, cs > 0;
                assert(chunk@ =~= frames_of(input, cs as nat)[q]);
            }
            chunks.push(chunk);
            pos = pos + cs;
        }
        let rest = copy_range(&self.buffer, pos, total - pos);
        proof {
            assert(input =~= input.take(pos as int) + rest@);
            assert(chunks@.len() == total as nat / cs as nat) by (nonlinear_arith)
                requires pos == chunks@.len() * cs, total - pos < cs, pos <= total, cs > 0;
        }
        assert(pos as int == cs as nat * (total as nat / cs as nat)) by (nonlinear_arith)
            requires pos == chunks@.len() * cs, chunks@.len() == total as nat / cs as nat;
        assert(rest@ =~= leftover(input, cs as nat));
        self.buffer = rest;
        chunks
    }

    /// Appends `samples` and hands every complete chunk, oldest first, to
    /// `callback`, one call per chunk, straight from the buffer (no vector is
    /// made per chunk). The `k`-th result is what `callback` returned on the
    /// `k`-th chunk, and those chunks are exactly the ones [`FrameChunker::push`]
    /// would return; the buffer is left as `push` leaves it.
    pub fn push_with<R, F: FnMut(&[i16]) -> R>(&mut self, samples: &[i16], mut callback: F) -> (out: Vec<R>)
        requires
            old(self).size() > 0,
            old(self).buffered().len() + samples@.len() <= usize::MAX,
            forall|s: &[i16]| #[trigger] call_requires(callback, (s,)),
        ensures
            final(self).size() == old(self).size(),
            final(self).buffered() == leftover(old(self).buffered() + samples@, old(self).size()),
            out@.len() == frames_of(old(self).buffered() + samples@, old(self).size()).len(),
            forall|k: int| 0 <= k < out@.len() ==> returned_on(
                callback,
                frames_of(old(self).buffered() + samples@, old(self).size())[k],
                #[trigger] out@[k],
            ),
    {
        broadcast use vstd::function::group_function_axioms;
        let ghost cb0 = callback;
        let ghost input = self.buffer@ + samples@;
        self.append(samples);
        let cs = self.chunk_size;
        let total = self.buffer.len();
        let ghost n = cs as nat;
        let mut out: Vec<R> = Vec::new();
        let mut pos: usize = 0;
        assert(out@.len() * cs == 0) by (nonlinear_arith)
            requires out@.len() == 0;
        while total - pos >= cs
            invariant
                cs > 0,
                n == cs,
                total == self.buffer@.len(),
                self.buffer@ == input,
                pos <= total,
                pos == out@.len() * cs,
                callback == cb0,
                forall|s: &[i16]| #[trigger] call_requires(callback, (s,)),
                forall|q: int| 0 <= q < out@.len() ==> returned_on(callback, frames_of(input, n)[q], #[trigger] out@[q]),
            decreases total - pos,
        {
            let s = vstd::slice::slice_subrange(self.buffer.as_slice(), pos, pos + cs);
            let r = callback(s);
            proof {
                let q = out@.len() as int;
                assert(q < total as int / cs as int) by (nonlinear_arith)
                    requires pos == q * cs, total - pos >= cs, cs > 0;
                assert(s@ =~= frames_of(input, n)[q]);
                assert((q + 1) * cs == q * cs + cs) by (nonlinear_arith);
            }
            assert(returned_on(callback, frames_of(input, n)[out@.len() as int], r));
            out.push(r);
            pos = pos + cs;
        }
        proof {
            assert(out@.len() == total as int / cs as int) by (nonlinear_arith)
                requires pos == out@.len() * cs, total - pos < cs, pos <= total, cs > 0;
        }
        let rest = copy_range(&self.buffer, pos, total - pos);
        assert(pos as int == n * (total as nat / n)) by (nonlinear_arith)
            requires pos == out@.len() * cs, out@.len() == total as int / cs as int, n == cs;
        assert(rest@ =~= leftover(input, n));
        self.buffer = rest;
        assert(input == old(self).buffered() + samples@);
        out
    }
}

/// A chunker never loses, duplicates or reorders samples. Take any number of
/// pushes into an empty chunker of size `n`: `inputs[j]` was pushed, `outputs[j]`
/// came back and `buffers[j + 1]` stayed buffered, as [`FrameChunker::push`]
/// states of each call. Then every chunk handed out has `n` samples, the chunks
/// in order are the first `n * (L / n)` of the `L` samples pushed, and the rest
/// of them is what stays buffered.
pub proof fn lemma_pushes_preserve_stream(
    n: nat,
    inputs: Seq<Seq<i16>>,
    outputs: Seq<Seq<Vec<i16>>>,
    buffers: Seq<Seq<i16>>,
)
    requires
        n > 0,
        outputs.len() == inputs.len(),
        buffers.len() == inputs.len() + 1,
        buffers[0] == Seq::<i16>::empty(),
        forall|j: int| 0 <= j < inputs.len() ==> flat(#[trigger] outputs[j]) + buffers[j + 1]
            == buffers[j] + inputs[j],
        forall|j: int| 0 <= j < inputs.len() ==> (#[trigger] buffers[j + 1]).len() < n,
        forall|j: int, k: int| 0 <= j < inputs.len() && 0 <= k < outputs[j].len()
            ==> (#[trigger] outputs[j][k])@.len() == n,
    ensures
        forall|c: int| 0 <= c < outputs.flatten().len() ==> (#[trigger] outputs.flatten()[c])@.len() == n,
        flat(outputs.flatten()) == inputs.flatten().take((n * (inputs.flatten().len() / n)) as int),
        buffers[inputs.len() as int] == inputs.flatten().skip((n * (inputs.flatten().len() / n)) as int),
    decreases inputs.len(),
{
    let m = inputs.len() as int;
    let all = inputs.flatten();
    if m == 0 {
        assert(all =~= Seq::<i16>::empty());
        assert(outputs.flatten() =~= Seq::<Vec<i16>>::empty());
        assert(flat(outputs.flatten()) =~= Seq::<i16>::empty());
        assert(all.take(0) =~= Seq::<i16>::empty());
        assert(all.skip(0) =~= Seq::<i16>::empty());
    } else {
        let pi = inputs.drop_last();
        let po = outputs.drop_last();
        let pb = buffers.drop_last();
        lemma_pushes_preserve_stream(n, pi, po, pb);
        assert(inputs =~= pi.push(inputs[m - 1]));
        assert(outputs =~= po.push(outputs[m - 1]));
        pi.lemma_flatten_push(inputs[m - 1]);
        po.lemma_flatten_push(outputs[m - 1]);
        lemma_flat_concat(po.flatten(), outputs[m - 1]);
        let pall = pi.flatten();
        let pf = flat(po.flatten());
        assert(pb[m - 1] == buffers[m - 1]);
        let t = (n * (pall.len() / n)) as int;
        assert(0 <= t <= pall.len()) by (nonlinear_arith)
            requires t == n * (pall.len() / n), n > 0;
        assert(pb[m - 1] == pall.skip(t));
        assert(pall.take(t) + pall.skip(t) =~= pall);
        assert(pf + buffers[m - 1] =~= pall);
        // Everything handed out so far, then what stays, is everything pushed.
        assert(outputs.flatten() == po.flatten() + outputs[m - 1]);
        assert(flat(outputs.flatten()) == pf + flat(outputs[m - 1]));
        assert(flat(outputs[m - 1]) + buffers[m] == buffers[m - 1] + inputs[m - 1]);
        assert(all == pall + inputs[m - 1]);
        let fo = flat(outputs[m - 1]);
        assert(pf + fo + buffers[m] =~= pf + (fo + buffers[m]));
        assert(pf + (buffers[m - 1] + inputs[m - 1]) =~= (pf + buffers[m - 1]) + inputs[m - 1]);
        assert(flat(outputs.flatten()) + buffers[m] == all);
        assert forall|c: int| 0 <= c < outputs.flatten().len() implies (#[trigger] outputs.flatten()[c])@.len() == n by {
            if c < po.flatten().len() {
                assert(outputs.flatten()[c] == po.flatten()[c]);
            } else {
                assert(outputs.flatten()[c] == outputs[m - 1][c - po.flatten().len()]);
            }
        }
        lemma_flat_len(n, outputs.flatten());
        lemma_stream_stable(n, all, flat(outputs.flatten()), buffers[m]);
    }
}

/// A split of `all` into a whole number of chunks of `n` followed by fewer than
/// `n` samples is the split at `n * (all.len() / n)`.
proof fn lemma_stream_stable(n: nat, all: Seq<i16>, front: Seq<i16>, rest: Seq<i16>)
    requires
        n > 0,
        front + rest == all,
        rest.len() < n,
        front.len() % n == 0,
    ensures
        front == all.take((n * (all.len() / n)) as int),
        rest == all.skip((n * (all.len() / n)) as int),
{
    let f = front.len() as int;
    let q = f / n as int;
    assert(f == n * q) by (nonlinear_arith)
        requires f % n as int == 0, q == f / n as int, n > 0;
    assert(all.len() / n == q) by (nonlinear_arith)
        requires all.len() == f + rest.len(), rest.len() < n, f == n * q, n > 0, f >= 0;
    assert(front =~= all.take(f));
    assert(rest =~= all.skip(f));
}

/// Chunks of `n` samples each hold a multiple of `n` samples together.
proof fn lemma_flat_len(n: nat, chunks: Seq<Vec<i16>>)
    requires
        n > 0,
        forall|c: int| 0 <= c < chunks.len() ==> (#[trigger] chunks[c])@.len() == n,
    ensures
        flat(chunks).len() == chunks.len() * n,
        flat(chunks).len() % n == 0,
    decreases chunks.len(),
{
    if chunks.len() == 0 {
        assert(flat(chunks) =~= Seq::<i16>::empty());
    } else {
        let p = chunks.drop_last();
        lemma_flat_len(n, p);
        assert(chunks =~= p.push(chunks.last()));
        lemma_flat_concat(p, seq![chunks.last()]);
        assert(p + seq![chunks.last()] =~= chunks);
        assert(seq![chunks.last()].map_values(|c: Vec<i16>| c@) =~= seq![chunks.last()@]);
        seq![chunks.last()@].lemma_flatten_singleton();
        assert(flat(chunks).len() == p.len() * n + n);
        assert(p.len() * n + n == chunks.len() * n) by (nonlinear_arith)
            requires chunks.len() == p.len() + 1;
        assert((chunks.len() * n) % n == 0) by (nonlinear_arith)
            requires n > 0;
    }
}

/// The samples of two lists of chunks put together are those of the first
/// followed by those of the second.
pub proof fn lemma_flat_concat(x: Seq<Vec<i16>>, y: Seq<Vec<i16>>)
    ensures
        flat(x + y) == flat(x) + flat(y),
{
    assert((x + y).map_values(|c: Vec<i16>| c@) =~= x.map_values(|c: Vec<i16>| c@) + y.map_values(
        |c: Vec<i16>| c@,
    ));
    vstd::seq_lib::lemma_flatten_concat(
        x.map_values(|c: Vec<i16>| c@),
        y.map_values(|c: Vec<i16>| c@),
    );
}

} // verus!
