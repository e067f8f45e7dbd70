//! The chunked blob reader: turns one stored value into a finite,
//! non-restartable sequence of bounded-size chunks.
//!
//! The reader probes the total length once, so a response can declare an
//! exact content length before the first chunk is emitted, and then yields
//! `min(chunk_size, remaining)` bytes at a time until the offset reaches the
//! total length. Termination of the sequence is the sole completion signal.

use vstd::prelude::*;
use vstd::arithmetic::div_mod::{lemma_basic_div, lemma_div_plus_one};

verus! {

/// The partition of `v` into successive slices of `c` bytes, the last one
/// possibly shorter. An empty value has no chunks.
pub open spec fn chunks_of(v: Seq<u8>, c: int) -> Seq<Seq<u8>>
    decreases v.len(),
    when c >= 1
{
    if v.len() == 0 {
        Seq::empty()
    } else if v.len() <= c {
        seq![v]
    } else {
        seq![v.take(c)] + chunks_of(v.skip(c), c)
    }
}

/// The concatenation of a sequence of chunks.
pub open spec fn concat_of(cs: Seq<Seq<u8>>) -> Seq<u8>
    decreases cs.len(),
{
    if cs.len() == 0 {
        Seq::empty()
    } else {
        cs.first() + concat_of(cs.drop_first())
    }
}

/// `l / c` rounded up.
pub open spec fn ceil_div(l: int, c: int) -> int
    recommends
        c >= 1,
{
    (l + c - 1) / c
}

/// A value of length `l` split into chunks of at most `c` bytes yields
/// exactly `ceil(l / c)` chunks (none when `l == 0`); every chunk is
/// non-empty and at most `c` bytes, every chunk but the last is exactly
/// `c` bytes, and the concatenation of all chunks is the value itself.
pub proof fn lemma_chunks_of(v: Seq<u8>, c: int)
    requires
        c >= 1,
    ensures
        chunks_of(v, c).len() == ceil_div(v.len() as int, c),
        concat_of(chunks_of(v, c)) == v,
        forall|i: int|
            0 <= i < chunks_of(v, c).len() ==> 0 < (#[trigger] chunks_of(v, c)[i]).len() <= c,
        forall|i: int|
            0 <= i < chunks_of(v, c).len() - 1 ==> (#[trigger] chunks_of(v, c)[i]).len() == c,
    decreases v.len(),
{
    let l = v.len() as int;
    if v.len() == 0 {
        lemma_basic_div(c - 1, c);
        assert(concat_of(chunks_of(v, c)) =~= v);
    } else if v.len() <= c {
        lemma_basic_div(l - 1, c);
        lemma_div_plus_one(l - 1, c);
        let cs = chunks_of(v, c);
        assert(cs == seq![v]);
        assert(cs.first() == v);
        assert(cs.drop_first() =~= Seq::<Seq<u8>>::empty());
        assert(concat_of(cs.drop_first()) == Seq::<u8>::empty());
        assert(concat_of(cs) =~= v);
    } else {
        lemma_chunks_of(v.skip(c), c);
        lemma_div_plus_one(l - 1, c);
        let cs = chunks_of(v, c);
        let rest = chunks_of(v.skip(c), c);
        assert(cs == seq![v.take(c)] + rest);
        assert(cs.len() == 1 + rest.len());
        assert(cs.first() == v.take(c));
        assert(cs.drop_first() =~= rest);
        assert(concat_of(cs) == v.take(c) + concat_of(rest));
        assert(v.take(c) + v.skip(c) =~= v);
        assert forall|i: int| 0 <= i < cs.len() implies 0 < (#[trigger] cs[i]).len() <= c by {
            if i > 0 {
                assert(cs[i] == rest[i - 1]);
            }
        }
        assert forall|i: int| 0 <= i < cs.len() - 1 implies (#[trigger] cs[i]).len() == c by {
            if i > 0 {
                assert(cs[i] == rest[i - 1]);
            }
        }
    }
}

/// A lazy, finite, non-restartable source of chunks over one stored value.
///
/// The value is treated as immutable for the lifetime of one reader; the
/// reader holds one in-memory copy of it and slices that copy in place at
/// the current offset, never re-buffering the whole value a second time
/// while it streams.
pub struct ChunkedReader {
    /// The stored value being streamed.
    pub value: Vec<u8>,
    /// How many bytes have been yielded so far.
    pub offset: usize,
    /// Upper bound on the size of one chunk, in bytes.
    pub chunk_size: usize,
}

impl ChunkedReader {
    /// The reader's internal consistency: the offset never passes the end,
    /// and the chunk bound is positive.
    pub open spec fn wf(&self) -> bool {
        self.offset <= self.value@.len() && self.chunk_size >= 1
    }

    /// The bytes not yet yielded.
    pub open spec fn remaining(&self) -> Seq<u8> {
        self.value@.skip(self.offset as int)
    }

    /// Open a reader over a whole value, positioned at its start.
    pub fn new(value: Vec<u8>, chunk_size: usize) -> (r: ChunkedReader)
        requires
            chunk_size >= 1,
        ensures
            r.wf(),
            r.value == value,
            r.offset == 0,
            r.chunk_size == chunk_size,
    {
        ChunkedReader { value, offset: 0, chunk_size }
    }

    /// The single length probe: the exact byte length the response declares
    /// as its content length.
    pub fn total_len(&self) -> (n: usize)
        ensures
            n == self.value@.len(),
    {
        self.value.len()
    }

    /// Yield the next chunk: `min(chunk_size, remaining)` bytes starting at
    /// the current offset, advancing the offset by the chunk's length.
    /// Returns `None` exactly when the offset has reached the total length.
    pub fn next_chunk(&mut self) -> (c: Option<Vec<u8>>)
        requires
            old(self).wf(),
        ensures
            final(self).wf(),
            final(self).value == old(self).value,
            final(self).chunk_size == old(self).chunk_size,
            c is None <==> old(self).offset == old(self).value@.len(),
            c is None ==> *final(self) == *old(self),
            c matches Some(ch) ==> {
                &&& ch@.len() == if old(self).value@.len() - old(self).offset < old(self).chunk_size {
                    old(self).value@.len() - old(self).offset
                } else {
                    old(self).chunk_size as int
                }
                &&& ch@ == old(self).value@.subrange(
                    old(self).offset as int,
                    old(self).offset + ch@.len(),
                )
                &&& final(self).offset == old(self).offset + ch@.len()
            },
    {
        let len = self.value.len();
        if self.offset == len {
            return None;
        }
        let rest = len - self.offset;
        let take = if rest < self.chunk_size {
            rest
        } else {
            self.chunk_size
        };
        let mut ch: Vec<u8> = Vec::new();
        let start = self.offset;
        let mut j: usize = 0;
        while j < take
            invariant
                start + take <= self.value@.len(),
                self.value@.len() <= usize::MAX,
                j <= take,
                ch@ == self.value@.subrange(start as int, start + j),
            decreases take - j,
        {
            ch.push(self.value[start + j]);
            assert(ch@ =~= self.value@.subrange(start as int, start + j + 1));
            j += 1;
        }
        self.offset = start + take;
        Some(ch)
    }

    /// Drain the reader, collecting every chunk in order. The collected
    /// chunks are exactly the chunk partition of what remained, so their
    /// concatenation reconstructs it byte for byte.
    pub fn read_to_end(&mut self) -> (chunks: Vec<Vec<u8>>)
        requires
            old(self).wf(),
        ensures
            final(self).wf(),
            final(self).value == old(self).value,
            final(self).chunk_size == old(self).chunk_size,
            final(self).offset == final(self).value@.len(),
            chunks.deep_view() == chunks_of(old(self).remaining(), old(self).chunk_size as int),
    {
        let ghost orig = *self;
        let mut chunks: Vec<Vec<u8>> = Vec::new();
        while self.offset < self.value.len()
            invariant
                self.wf(),
                self.value == orig.value,
                self.chunk_size == orig.chunk_size,
                chunks.deep_view() + chunks_of(self.remaining(), self.chunk_size as int)
                    == chunks_of(orig.remaining(), orig.chunk_size as int),
            decreases self.value@.len() - self.offset,
        {
            let ghost pre = *self;
            let ghost pre_chunks = chunks.deep_view();
            match self.next_chunk() {
                Some(ch) => {
                    chunks.push(ch);
                    proof {
                        let c = pre.chunk_size as int;
                        let r = pre.remaining();
                        assert(chunks.deep_view() =~~= pre_chunks.push(ch@));
                        if r.len() <= c {
                            assert(ch@ =~= r);
                            assert(self.remaining() =~= Seq::<u8>::empty());
                            assert(chunks_of(r, c) == seq![r]);
                            assert(pre_chunks.push(ch@) =~~= pre_chunks + seq![r]);
                        } else {
                            assert(ch@ =~= r.take(c));
                            assert(self.remaining() =~= r.skip(c));
                            assert(chunks_of(r, c) == seq![r.take(c)] + chunks_of(r.skip(c), c));
                            assert(pre_chunks.push(ch@) =~~= pre_chunks + seq![r.take(c)]);
                        }
                        assert(chunks.deep_view() + chunks_of(self.remaining(), c)
                            =~~= pre_chunks + chunks_of(r, c));
                    }
                },
                None => {},
            }
        }
        proof {
            assert(self.remaining() =~= Seq::<u8>::empty());
            assert(chunks.deep_view() =~~= chunks.deep_view()
                + chunks_of(self.remaining(), self.chunk_size as int));
        }
        chunks
    }
}

} // verus!
