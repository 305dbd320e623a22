//! A bounded FIFO buffer: when full, a push evicts the oldest entry and
//! counts it, so memory stays bounded and overflow is visible.

use vstd::prelude::*;
use std::collections::VecDeque;

verus! {

/// Bounded FIFO of `T` that drops its oldest entry when full.
pub struct RingBuffer<T> {
    queue: VecDeque<T>,
    capacity: usize,
    dropped: u64,
}

impl<T> RingBuffer<T> {
    /// The entries, oldest first.
    pub closed spec fn items(&self) -> Seq<T> {
        self.queue@
    }

    /// Most entries held at once.
    pub closed spec fn cap(&self) -> nat {
        self.capacity as nat
    }

    /// Entries evicted so far.
    pub closed spec fn evicted(&self) -> nat {
        self.dropped as nat
    }

    /// The buffer's invariant: a capacity of at least one that the
    /// entries never exceed.
    pub closed spec fn wf(&self) -> bool {
        &&& self.capacity >= 1
        &&& self.queue@.len() <= self.capacity
    }

    /// An empty buffer holding at most `capacity` entries (at least one).
    pub fn new(capacity: usize) -> (r: Self)
        ensures
            r.wf(),
            r.items() == Seq::<T>::empty(),
            r.cap() == (if capacity < 1 { 1 } else { capacity as nat }),
            r.evicted() == 0,
    {
        let pre: usize = if capacity < 1024 { capacity } else { 1024 };
        RingBuffer {
            queue: VecDeque::with_capacity(pre),
            capacity: if capacity < 1 { 1 } else { capacity },
            dropped: 0,
        }
    }

    /// Append `value`; when the buffer is full the oldest entry is evicted,
    /// counted, and returned.
    pub fn push(&mut self, value: T) -> (evicted: Option<T>)
        requires
            old(self).wf(),
            old(self).items().len() >= old(self).cap() ==> old(self).evicted() < u64::MAX,
        ensures
            final(self).wf(),
            final(self).cap() == old(self).cap(),
            old(self).items().len() >= old(self).cap() ==> {
                &&& evicted == Some(old(self).items()[0])
                &&& final(self).items() == old(self).items().drop_first().push(value)
                &&& final(self).evicted() == old(self).evicted() + 1
            },
            final(self).items() == pushed_all(old(self).items(), old(self).cap(), seq![value]),
            old(self).items().len() < old(self).cap() ==> {
                &&& evicted is None
                &&& final(self).items() == old(self).items().push(value)
                &&& final(self).evicted() == old(self).evicted()
            },
    {
        proof {
            reveal_with_fuel(pushed_all, 2);
            assert(seq![value].drop_first() =~= Seq::<T>::empty());
        }
        if self.queue.len() >= self.capacity {
            let out = self.queue.pop_front();
            self.dropped = self.dropped + 1;
            self.queue.push_back(value);
            proof {
                assert(old(self).items().subrange(1, old(self).items().len() as int)
                    =~= old(self).items().drop_first());
            }
            out
        } else {
            self.queue.push_back(value);
            None
        }
    }

    /// Take every entry out (oldest first); the eviction count stays.
    pub fn take_all(&mut self) -> (r: VecDeque<T>)
        requires
            old(self).wf(),
        ensures
            final(self).wf(),
            r@ == old(self).items(),
            final(self).items() == Seq::<T>::empty(),
            final(self).cap() == old(self).cap(),
            final(self).evicted() == old(self).evicted(),
    {
        let mut out: VecDeque<T> = VecDeque::new();
        std::mem::swap(&mut self.queue, &mut out);
        out
    }

    /// Number of entries held.
    pub fn len(&self) -> (r: usize)
        ensures
            r == self.items().len(),
    {
        self.queue.len()
    }

    /// Whether no entry is held.
    pub fn is_empty(&self) -> (r: bool)
        ensures
            r == (self.items().len() == 0),
    {
        self.queue.len() == 0
    }

    /// Entries evicted so far.
    pub fn dropped(&self) -> (r: u64)
        ensures
            r == self.evicted(),
    {
        self.dropped
    }
}

/// The entries of a buffer of capacity `cap` holding `q` after `vs` are
/// pushed in order.
pub open spec fn pushed_all<T>(q: Seq<T>, cap: nat, vs: Seq<T>) -> Seq<T>
    decreases vs.len(),
{
    if vs.len() == 0 {
        q
    } else {
        let q1 = if q.len() >= cap {
            q.drop_first().push(vs[0])
        } else {
            q.push(vs[0])
        };
        pushed_all(q1, cap, vs.drop_first())
    }
}

/// Pushing `a` and then `b` is pushing `a + b`.
pub proof fn lemma_pushed_all_concat<T>(q: Seq<T>, cap: nat, a: Seq<T>, b: Seq<T>)
    ensures
        pushed_all(pushed_all(q, cap, a), cap, b) == pushed_all(q, cap, a + b),
    decreases a.len(),
{
    if a.len() == 0 {
        assert(a + b =~= b);
    } else {
        let q1 = if q.len() >= cap {
            q.drop_first().push(a[0])
        } else {
            q.push(a[0])
        };
        assert((a + b)[0] == a[0]);
        assert((a + b).drop_first() =~= a.drop_first() + b);
        lemma_pushed_all_concat(q1, cap, a.drop_first(), b);
    }
}

/// A buffer keeps exactly the newest `cap` of everything pushed into it:
/// after pushing `vs` into a buffer holding `q`, it holds the last
/// `min(n, cap)` entries of `q + vs`, where `n` is their total count. So a
/// fresh buffer holds `min(k, cap)` entries after `k` pushes.
pub proof fn lemma_ring_keeps_newest<T>(q: Seq<T>, cap: nat, vs: Seq<T>)
    requires
        1 <= cap,
        q.len() <= cap,
    ensures
        ({
            let all = q + vs;
            let n = all.len() as int;
            let kept = if n < cap { n } else { cap as int };
            &&& pushed_all(q, cap, vs) == all.subrange(n - kept, n)
            &&& pushed_all(q, cap, vs).len() == kept
        }),
    decreases vs.len(),
{
    let all = q + vs;
    let n = all.len() as int;
    if vs.len() == 0 {
        assert(all =~= q);
        assert(all.subrange(0, n) =~= all);
    } else {
        let v = vs[0];
        let rest = vs.drop_first();
        if q.len() >= cap {
            let q1 = q.drop_first().push(v);
            lemma_ring_keeps_newest(q1, cap, rest);
            assert(q1 + rest =~= all.drop_first());
            assert(all.drop_first().subrange(n - 1 - cap, n - 1) =~= all.subrange(n - cap, n));
        } else {
            let q1 = q.push(v);
            lemma_ring_keeps_newest(q1, cap, rest);
            assert(q1 + rest =~= all);
        }
    }
}

/// A fresh buffer of capacity `cap` fills up and then stays full: after
/// `k` pushes it holds `min(k, cap)` entries, so the first `cap` pushes
/// evict nothing and every later one evicts the oldest entry.
pub proof fn lemma_fresh_ring_fills<T>(cap: nat, vs: Seq<T>)
    requires
        1 <= cap,
    ensures
        pushed_all(Seq::<T>::empty(), cap, vs).len() == (if vs.len() < cap { vs.len() } else { cap }),
        pushed_all(Seq::<T>::empty(), cap, vs) == vs.subrange(
            vs.len() - (if vs.len() < cap { vs.len() as int } else { cap as int }),
            vs.len() as int,
        ),
{
    lemma_ring_keeps_newest(Seq::<T>::empty(), cap, vs);
    assert(Seq::<T>::empty() + vs =~= vs);
}

/// A buffer never holds more than its capacity, and holds at least one
/// entry's room: what `new` establishes and every operation keeps.
pub proof fn lemma_ring_bounded<T>(r: &RingBuffer<T>)
    requires
        r.wf(),
    ensures
        r.cap() >= 1,
        r.items().len() <= r.cap(),
{
}

} // verus!
