//! Overlap-windowing of a sample sequence into fixed-size blocks.
//!
//! Given a slice of length `n`, a `chunk_size >= 1` and an
//! `overlap < chunk_size`, the iterator yields sub-slices of
//! `chunk_size` elements whose starts advance by
//! `chunk_size - overlap`; once no more than `chunk_size` elements
//! remain, the whole remainder is the final chunk and iteration ends.
//! `overlap == 0` degenerates to disjoint fixed-size chunking with a
//! short final chunk; `overlap == chunk_size - 1` to a sliding window
//! advancing one element at a time.

use vstd::prelude::*;
use vstd::arithmetic::div_mod::lemma_fundamental_div_mod;
use vstd::arithmetic::div_mod::lemma_fundamental_div_mod_converse;
use vstd::arithmetic::div_mod::lemma_mod_division_less_than_divisor;
use vstd::slice::slice_subrange;

verus! {

/// The chunks that overlap-windowing yields from `s` with the given
/// chunk size and step (`step == chunk_size - overlap`).
pub open spec fn chunks_of<T>(s: Seq<T>, chunk_size: nat, step: nat) -> Seq<Seq<T>>
    decreases s.len(),
        when 1 <= step <= chunk_size
{
    if s.len() == 0 {
        Seq::empty()
    } else if s.len() <= chunk_size {
        seq![s]
    } else {
        seq![s.subrange(0, chunk_size as int)]
            + chunks_of(s.subrange(step as int, s.len() as int), chunk_size, step)
    }
}

/// How many chunks overlap-windowing yields from a sequence of
/// length `n`: none when `n == 0`, and otherwise one for the first
/// `chunk_size` elements plus one per started stride of `step`
/// elements over the remainder.
pub open spec fn chunk_count(n: nat, chunk_size: nat, step: nat) -> nat
    recommends
        1 <= step <= chunk_size,
{
    if n == 0 {
        0
    } else if n <= chunk_size {
        1
    } else {
        let overlapped = (n - chunk_size) as nat;
        if overlapped % step == 0 {
            overlapped / step + 1
        } else {
            overlapped / step + 2
        }
    }
}

/// The number of chunks is `ceil((n - chunk_size) / step) + 1` for a
/// non-empty sequence that is longer than one chunk; `chunk_count`
/// states that ceiling through division and remainder.
pub proof fn lemma_chunks_count<T>(s: Seq<T>, chunk_size: nat, step: nat)
    requires
        1 <= step <= chunk_size,
    ensures
        chunks_of(s, chunk_size, step).len() == chunk_count(s.len(), chunk_size, step),
    decreases s.len(),
{
    let n = s.len();
    if n == 0 {
    } else if n <= chunk_size {
    } else {
        let rest = s.subrange(step as int, n as int);
        lemma_chunks_count(rest, chunk_size, step);
        let overlapped = (n - chunk_size) as nat;
        if n - step <= chunk_size {
            // The recursion bottoms out: the remainder forms one final
            // chunk, so the count is 2. `overlapped` is in `(0, step]`.
            if overlapped == step {
                lemma_fundamental_div_mod_converse(overlapped as int, step as int, 1, 0);
            } else {
                lemma_fundamental_div_mod_converse(overlapped as int, step as int, 0, overlapped as int);
            }
        } else {
            // One stride removed: the remainder loses exactly `step`
            // elements, so its quotient drops by one and the remainder
            // of the division is unchanged.
            let o2 = (overlapped - step) as nat;
            let q = o2 as int / step as int;
            let r = o2 as int % step as int;
            lemma_fundamental_div_mod(o2 as int, step as int);
            lemma_mod_division_less_than_divisor(o2 as int, step as int);
            assert((q + 1) * step as int == step as int * q + step as int) by (nonlinear_arith);
            lemma_fundamental_div_mod_converse(overlapped as int, step as int, q + 1, r);
        }
    }
}

/// Concatenation of the chunks with the first `overlap` elements of
/// every chunk removed.
pub open spec fn concat_deduped<T>(chunks: Seq<Seq<T>>, overlap: nat) -> Seq<T>
    decreases chunks.len(),
{
    if chunks.len() == 0 {
        Seq::empty()
    } else {
        chunks[0].skip(overlap as int) + concat_deduped(chunks.drop_first(), overlap)
    }
}

/// Concatenation-with-deduplication of the chunks: the first chunk
/// whole, then each later chunk with the `overlap` elements it shares
/// with its predecessor removed.
pub open spec fn reconstruct<T>(chunks: Seq<Seq<T>>, overlap: nat) -> Seq<T> {
    if chunks.len() == 0 {
        Seq::empty()
    } else {
        chunks[0] + concat_deduped(chunks.drop_first(), overlap)
    }
}

proof fn lemma_concat_deduped<T>(s: Seq<T>, chunk_size: nat, step: nat)
    requires
        1 <= step <= chunk_size,
        s.len() > chunk_size - step,
    ensures
        concat_deduped(chunks_of(s, chunk_size, step), (chunk_size - step) as nat) == s.skip(
            chunk_size - step,
        ),
    decreases s.len(),
{
    let n = s.len();
    let overlap = (chunk_size - step) as nat;
    let chunks = chunks_of(s, chunk_size, step);
    if n <= chunk_size {
        assert(chunks =~= seq![s]);
        assert(chunks.drop_first().len() == 0);
        assert(concat_deduped(chunks.drop_first(), overlap) =~= Seq::<T>::empty());
        assert(concat_deduped(chunks, overlap) =~= s.skip(overlap as int));
    } else {
        let rest = s.subrange(step as int, n as int);
        lemma_concat_deduped(rest, chunk_size, step);
        assert(chunks.drop_first() =~= chunks_of(rest, chunk_size, step));
        assert(rest.skip(overlap as int) =~= s.skip(chunk_size as int));
        assert(s.subrange(0, chunk_size as int).skip(overlap as int) + s.skip(chunk_size as int)
            =~= s.skip(overlap as int));
    }
}

/// Concatenation-with-deduplication of the chunks reconstructs the
/// original sequence exactly, for every sequence, chunk size and
/// overlap with `overlap < chunk_size`.
pub proof fn lemma_chunks_reconstruct<T>(s: Seq<T>, chunk_size: nat, overlap: nat)
    requires
        overlap < chunk_size,
    ensures
        reconstruct(chunks_of(s, chunk_size, (chunk_size - overlap) as nat), overlap) == s,
{
    let step = (chunk_size - overlap) as nat;
    let chunks = chunks_of(s, chunk_size, step);
    if s.len() == 0 {
        assert(reconstruct(chunks, overlap) =~= s);
    } else if s.len() <= chunk_size {
        assert(chunks.drop_first() =~= Seq::<Seq<T>>::empty());
        assert(reconstruct(chunks, overlap) =~= s);
    } else {
        let rest = s.subrange(step as int, s.len() as int);
        lemma_concat_deduped(rest, chunk_size, step);
        assert(chunks.drop_first() =~= chunks_of(rest, chunk_size, step));
        assert(rest.skip(overlap as int) =~= s.skip(chunk_size as int));
        assert(s.subrange(0, chunk_size as int) + s.skip(chunk_size as int) =~= s);
    }
}

/// An iterator over a slice in chunks of `chunk_size` elements, each
/// overlapping its predecessor by `overlap` elements. When the slice
/// length is not spanned evenly, the last chunk is the remainder.
#[must_use]
#[derive(Clone)]
pub struct OverlapChunks<'a, T> {
    v: &'a [T],
    chunk_size: usize,
    next_chunk_offset: usize,
}

impl<'a, T> OverlapChunks<'a, T> {
    /// The stride and chunk size are in their working range.
    pub closed spec fn wf(self) -> bool {
        1 <= self.next_chunk_offset <= self.chunk_size
    }

    /// The chunks this iterator has still to yield.
    pub closed spec fn remaining(self) -> Seq<Seq<T>> {
        chunks_of(self.v@, self.chunk_size as nat, self.next_chunk_offset as nat)
    }

    /// Build an iterator over `v` in chunks of `chunk_size` elements
    /// overlapping by `overlap` elements.
    pub fn new(v: &'a [T], chunk_size: usize, overlap: usize) -> (it: Self)
        requires
            overlap < chunk_size,
        ensures
            it.wf(),
            it.remaining() == chunks_of(
                v@,
                chunk_size as nat,
                (chunk_size - overlap) as nat,
            ),
    {
        OverlapChunks { v, chunk_size, next_chunk_offset: chunk_size - overlap }
    }

    /// Yield the next chunk: the first `chunk_size` elements of what
    /// remains, or the whole remainder when it is no longer than one
    /// chunk; `None` once nothing remains.
    pub fn next(&mut self) -> (r: Option<&'a [T]>)
        requires
            old(self).wf(),
        ensures
            final(self).wf(),
            match r {
                None => {
                    &&& old(self).remaining().len() == 0
                    &&& final(self).remaining().len() == 0
                },
                Some(chunk) => {
                    &&& old(self).remaining().len() > 0
                    &&& chunk@ == old(self).remaining()[0]
                    &&& final(self).remaining() == old(self).remaining().drop_first()
                },
            },
    {
        if self.v.len() == 0 {
            None
        } else if self.v.len() <= self.chunk_size {
            let chunk = self.v;
            self.v = slice_subrange(self.v, 0, 0);
            proof {
                assert(old(self).remaining() =~= seq![chunk@]);
                assert(self.remaining() =~= old(self).remaining().drop_first());
            }
            Some(chunk)
        } else {
            let chunk = slice_subrange(self.v, 0, self.chunk_size);
            self.v = slice_subrange(self.v, self.next_chunk_offset, self.v.len());
            proof {
                assert(self.remaining() =~= old(self).remaining().drop_first());
            }
            Some(chunk)
        }
    }

    /// The exact number of chunks still to be yielded, as both the
    /// lower and the upper bound.
    pub fn size_hint(&self) -> (r: (usize, Option<usize>))
        requires
            self.wf(),
            self.remaining().len() <= usize::MAX,
        ensures
            r.0 == self.remaining().len(),
            r.1 == Some(r.0),
    {
        proof {
            lemma_chunks_count(self.v@, self.chunk_size as nat, self.next_chunk_offset as nat);
        }
        if self.v.len() == 0 {
            (0, Some(0))
        } else if self.v.len() <= self.chunk_size {
            (1, Some(1))
        } else {
            let overlapped: usize = self.v.len() - self.chunk_size;
            let full_chunks: usize = overlapped / self.next_chunk_offset;
            let remainder: usize = overlapped % self.next_chunk_offset;
            if remainder == 0 {
                (full_chunks + 1, Some(full_chunks + 1))
            } else {
                (full_chunks + 2, Some(full_chunks + 2))
            }
        }
    }
}

/// An iterator over `chunk_size` elements of the slice at a time,
/// starting at the beginning, each subsequent chunk overlapping the
/// previous one by `overlap` elements.
pub fn overlap_chunks<'a, T>(v: &'a [T], chunk_size: usize, overlap: usize) -> (it: OverlapChunks<
    'a,
    T,
>)
    requires
        overlap < chunk_size,
    ensures
        it.wf(),
        it.remaining() == chunks_of(v@, chunk_size as nat, (chunk_size - overlap) as nat),
{
    OverlapChunks::new(v, chunk_size, overlap)
}

} // verus!
