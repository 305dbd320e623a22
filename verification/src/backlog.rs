//! The output backlog between a session's reader and the window's drain:
//! read chunks wait in a bounded ring, the bytes they hold are counted
//! (evicted chunks are deducted as well as drained ones), and the reader
//! pauses while the count is over the cap.

use vstd::prelude::*;
use std::collections::VecDeque;
use crate::ring::{RingBuffer, lemma_ring_bounded};

verus! {

/// Largest chunk one read hands over.
pub const READ_CHUNK: usize = 16384;

/// Chunks the ring holds before it evicts the oldest.
pub const RING_CHUNKS: usize = 512;

/// Backlog above which the reader pauses.
pub const BACKLOG_CAP: u64 = 8388608;

/// Total bytes of `s`.
pub open spec fn total_len(s: Seq<Vec<u8>>) -> nat
    decreases s.len(),
{
    if s.len() == 0 {
        0
    } else {
        total_len(s.drop_last()) + s.last()@.len()
    }
}

/// The non-empty chunks of `s`, in order.
pub open spec fn nonempty_chunks(s: Seq<Vec<u8>>) -> Seq<Vec<u8>>
    decreases s.len(),
{
    if s.len() == 0 {
        Seq::empty()
    } else if s.last()@.len() == 0 {
        nonempty_chunks(s.drop_last())
    } else {
        nonempty_chunks(s.drop_last()).push(s.last())
    }
}

/// Chunks of at most `READ_CHUNK` bytes total at most that many bytes each.
pub proof fn lemma_total_len_bound(s: Seq<Vec<u8>>)
    requires
        forall|i: int| 0 <= i < s.len() ==> (#[trigger] s[i])@.len() <= READ_CHUNK,
    ensures
        total_len(s) <= s.len() * READ_CHUNK,
    decreases s.len(),
{
    if s.len() > 0 {
        lemma_total_len_bound(s.drop_last());
        assert(s.last() == s[s.len() - 1]);
    }
}

/// The total of `s` is its first chunk plus the total of the rest.
pub proof fn lemma_total_len_first(s: Seq<Vec<u8>>)
    requires
        s.len() > 0,
    ensures
        total_len(s) == s[0]@.len() + total_len(s.drop_first()),
    decreases s.len(),
{
    if s.len() > 1 {
        lemma_total_len_first(s.drop_last());
        assert(s.drop_last().drop_first() =~= s.drop_first().drop_last());
        assert(s.drop_first().last() == s.last());
    } else {
        assert(s.drop_first() =~= Seq::<Vec<u8>>::empty());
        assert(s.drop_last() =~= Seq::<Vec<u8>>::empty());
    }
}

/// Read output waiting for the drain, with its byte count, the number of
/// chunks the ring evicted, and the bytes drained so far.
pub struct Backlog {
    ring: RingBuffer<Vec<u8>>,
    pending: u64,
    overflow: u64,
    fed: u64,
}

impl Backlog {
    /// The waiting chunks, oldest first.
    pub closed spec fn chunks(&self) -> Seq<Vec<u8>> {
        self.ring.items()
    }

    /// Bytes counted as waiting.
    pub closed spec fn pending_count(&self) -> nat {
        self.pending as nat
    }

    /// Chunks the ring evicted.
    pub closed spec fn overflow_count(&self) -> nat {
        self.overflow as nat
    }

    /// Bytes drained so far.
    pub closed spec fn fed_count(&self) -> nat {
        self.fed as nat
    }

    /// At most `RING_CHUNKS` chunks of at most `READ_CHUNK` bytes wait,
    /// the count is exactly the bytes they hold, and the overflow count
    /// is the ring's eviction count.
    pub closed spec fn wf(&self) -> bool {
        &&& self.ring.wf()
        &&& self.ring.cap() == RING_CHUNKS
        &&& self.pending == total_len(self.ring.items())
        &&& forall|i: int| 0 <= i < self.ring.items().len() ==> (#[trigger] self.ring.items()[i])@.len() <= READ_CHUNK
        &&& self.overflow == self.ring.evicted()
    }

    /// Nothing read yet.
    pub fn new() -> (b: Backlog)
        ensures
            b.wf(),
            b.chunks() == Seq::<Vec<u8>>::empty(),
            b.pending_count() == 0,
            b.overflow_count() == 0,
            b.fed_count() == 0,
    {
        Backlog { ring: RingBuffer::new(RING_CHUNKS), pending: 0, overflow: 0, fed: 0 }
    }

    /// Whether the reader should pause: the count is over the cap.
    pub fn should_pause(&self) -> (r: bool)
        ensures
            r == (self.pending_count() > BACKLOG_CAP),
    {
        self.pending > BACKLOG_CAP
    }

    /// A read chunk arrives: it is counted and queued; when the ring was
    /// full its oldest chunk is evicted, counted as overflow, and its
    /// bytes deducted. Returns whether a chunk was evicted.
    pub fn on_chunk(&mut self, chunk: Vec<u8>) -> (evicted: bool)
        requires
            old(self).wf(),
            chunk@.len() <= READ_CHUNK,
            old(self).overflow_count() < u64::MAX,
        ensures
            final(self).wf(),
            evicted == (old(self).chunks().len() >= RING_CHUNKS),
            final(self).chunks() == (if evicted {
                old(self).chunks().drop_first().push(chunk)
            } else {
                old(self).chunks().push(chunk)
            }),
            final(self).overflow_count() == old(self).overflow_count() + (if evicted { 1int } else { 0int }),
            final(self).fed_count() == old(self).fed_count(),
    {
        proof {
            lemma_total_len_bound(self.ring.items());
            lemma_ring_bounded(&self.ring);
            assert(self.ring.items().len() * READ_CHUNK <= RING_CHUNKS * READ_CHUNK) by (nonlinear_arith)
                requires
                    self.ring.items().len() <= RING_CHUNKS,
            ;
        }
        let n: u64 = chunk.len() as u64;
        let ghost before = self.ring.items();
        self.pending = self.pending + n;
        let out = self.ring.push(chunk);
        proof {
            assert(before.push(chunk).drop_last() =~= before);
        }
        match out {
            Some(old_chunk) => {
                proof {
                    lemma_total_len_first(before);
                    let after = self.ring.items();
                    assert(after.drop_last() =~= before.drop_first());
                }
                self.pending = self.pending - old_chunk.len() as u64;
                self.overflow = self.overflow + 1;
                proof {
                    let after = self.ring.items();
                    assert forall|i: int| 0 <= i < after.len() implies (#[trigger] after[i])@.len() <= READ_CHUNK by {
                        if i < after.len() - 1 {
                            assert(after[i] == before[i + 1]);
                        }
                    }
                }
                true
            },
            None => {
                proof {
                    let after = self.ring.items();
                    assert forall|i: int| 0 <= i < after.len() implies (#[trigger] after[i])@.len() <= READ_CHUNK by {
                        if i < after.len() - 1 {
                            assert(after[i] == before[i]);
                        }
                    }
                }
                false
            },
        }
    }

    /// Drain every waiting chunk: the non-empty ones are returned in
    /// order, their bytes deducted and counted as fed.
    pub fn drain(&mut self) -> (out: Vec<Vec<u8>>)
        requires
            old(self).wf(),
            old(self).fed_count() + old(self).pending_count() <= u64::MAX,
        ensures
            final(self).wf(),
            out@ == nonempty_chunks(old(self).chunks()),
            final(self).chunks() == Seq::<Vec<u8>>::empty(),
            final(self).pending_count() == 0,
            final(self).fed_count() == old(self).fed_count() + old(self).pending_count(),
            final(self).overflow_count() == old(self).overflow_count(),
    {
        let mut q: VecDeque<Vec<u8>> = self.ring.take_all();
        let ghost all = q@;
        let mut out: Vec<Vec<u8>> = Vec::new();
        let ghost start_fed = self.fed;
        while q.len() > 0
            invariant
                all == old(self).chunks(),
                self.pending == total_len(q@),
                self.fed == start_fed + total_len(all) - total_len(q@),
                start_fed + total_len(all) <= u64::MAX,
                total_len(all) == old(self).pending_count(),
                q@ == all.skip(all.len() - q@.len()),
                q@.len() <= all.len(),
                out@ == nonempty_chunks(all.take(all.len() - q@.len())),
                self.ring.wf(),
                self.ring.cap() == RING_CHUNKS,
                self.ring.items() == Seq::<Vec<u8>>::empty(),
                self.overflow == self.ring.evicted(),
                self.overflow == old(self).overflow_count(),
            decreases q@.len(),
        {
            let ghost k = all.len() - q@.len();
            proof {
                lemma_total_len_first(q@);
                assert(all[k] == q@[0]);
                assert(all.take(k + 1).drop_last() =~= all.take(k));
                assert(all.take(k + 1).last() == all[k]);
                assert(all.skip(k + 1) =~= q@.drop_first());
            }
            let chunk = q.pop_front().unwrap();
            let n: u64 = chunk.len() as u64;
            self.pending = self.pending - n;
            self.fed = self.fed + n;
            if n > 0 {
                out.push(chunk);
            }
        }
        proof {
            assert(all.take(all.len() as int) =~= all);
            assert(self.ring.items().len() == 0);
            assert(total_len(self.ring.items()) == 0);
        }
        out
    }

    /// Bytes waiting for the drain.
    pub fn pending_bytes(&self) -> (r: u64)
        ensures
            r == self.pending_count(),
    {
        self.pending
    }

    /// Chunks the ring evicted.
    pub fn overflow_dropped(&self) -> (r: u64)
        ensures
            r == self.overflow_count(),
    {
        self.overflow
    }

    /// Bytes drained so far.
    pub fn bytes_fed(&self) -> (r: u64)
        ensures
            r == self.fed_count(),
    {
        self.fed
    }
}

/// The count is the bytes of the waiting chunks, and the ring's bound
/// keeps it within the cap: the reader's pause never has to engage.
pub proof fn lemma_backlog_within_cap(b: &Backlog)
    requires
        b.wf(),
    ensures
        b.pending_count() == total_len(b.chunks()),
        b.pending_count() <= BACKLOG_CAP,
        b.chunks().len() <= RING_CHUNKS,
{
    lemma_total_len_bound(b.ring.items());
    lemma_ring_bounded(&b.ring);
    assert(b.ring.items().len() * READ_CHUNK <= RING_CHUNKS * READ_CHUNK) by (nonlinear_arith)
        requires
            b.ring.items().len() <= RING_CHUNKS,
    ;
}

} // verus!
