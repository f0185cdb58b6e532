//! Bounded FIFO of sampling points between the receiving side of the
//! acquisition and its consumer. When the buffer is full, new samples are
//! discarded so that queued samples are never overwritten.
use vstd::prelude::*;
use crate::pipeline::sample::{Sample, SampleData};

verus! {

/// Position in the storage of the `i`-th queued sample, counting from the
/// slot `start` and wrapping around at `cap` (for `0 <= i <= cap`).
pub open spec fn ring_slot(start: int, i: int, cap: int) -> int {
    if start + i < cap {
        start + i
    } else {
        start + i - cap
    }
}

/// The queue after offering `s` to a buffer of capacity `cap`: it is
/// appended unless the queue is full.
pub open spec fn queue_after_push(q: Seq<SampleData>, cap: nat, s: SampleData) -> Seq<SampleData> {
    if q.len() < cap {
        q.push(s)
    } else {
        q
    }
}

/// The queue after offering all of `items`, in order.
pub open spec fn queue_after_pushes(q: Seq<SampleData>, cap: nat, items: Seq<SampleData>) -> Seq<
    SampleData,
>
    decreases items.len(),
{
    if items.len() == 0 {
        q
    } else {
        queue_after_push(queue_after_pushes(q, cap, items.drop_last()), cap, items.last())
    }
}

/// The number of samples that a batch read hands out: all queued samples,
/// at most as many as the destination holds.
pub open spec fn batch_count(queued: nat, room: nat) -> nat {
    if queued < room {
        queued
    } else {
        room
    }
}

/// The count of successful writes after one more, wrapping at `usize::MAX`.
pub open spec fn next_count(w: usize) -> usize {
    if w == usize::MAX {
        0
    } else {
        (w + 1) as usize
    }
}

/// Ring buffer of sampling points with a fixed capacity.
pub struct RingBuffer {
    data: Vec<Option<Sample>>,
    capacity: usize,
    start: usize,
    len: usize,
    written: usize,
    queued: Ghost<Seq<SampleData>>,
    calls: Ghost<Seq<RingOp>>,
}

impl RingBuffer {
    /// The samples waiting to be read, oldest first.
    pub closed spec fn queued(&self) -> Seq<SampleData> {
        self.queued@
    }

    /// The number of samples the buffer can hold.
    pub closed spec fn capacity(&self) -> nat {
        self.capacity as nat
    }

    /// The number of samples written so far (wrapping at `usize::MAX`).
    pub closed spec fn written(&self) -> usize {
        self.written
    }

    /// The calls `push` and `pop_batch` made on this buffer since `new`,
    /// in order.
    pub closed spec fn calls(&self) -> Seq<RingOp> {
        self.calls@
    }

    /// Internal consistency of the storage with the queue it represents.
    pub closed spec fn wf(&self) -> bool {
        &&& self.data@.len() == self.capacity
        &&& self.len <= self.capacity
        &&& (self.capacity == 0 ==> self.start == 0)
        &&& (self.capacity > 0 ==> self.start < self.capacity)
        &&& self.queued@.len() == self.len
        &&& self.queued@ == queue_after_ops(self.capacity as nat, self.calls@)
        &&& forall|i: int|
            0 <= i < self.len ==> (#[trigger] self.data@[ring_slot(
                self.start as int,
                i,
                self.capacity as int,
            )] matches Some(s) && s@ == self.queued@[i])
    }

    /// Creates an empty buffer that holds up to `capacity` samples.
    pub fn new(capacity: usize) -> (rb: Self)
        ensures
            rb.wf(),
            rb.queued() == Seq::<SampleData>::empty(),
            rb.capacity() == capacity,
            rb.written() == 0,
            rb.calls() == Seq::<RingOp>::empty(),
    {
        let mut data: Vec<Option<Sample>> = Vec::with_capacity(capacity);
        let mut i: usize = 0;
        while i < capacity
            invariant
                i <= capacity,
                data@.len() == i,
            decreases capacity - i,
        {
            data.push(None);
            i = i + 1;
        }
        Self {
            data,
            capacity,
            start: 0,
            len: 0,
            written: 0,
            queued: Ghost(Seq::empty()),
            calls: Ghost(Seq::empty()),
        }
    }

    fn slot(&self, i: usize) -> (k: usize)
        requires
            self.wf(),
            self.capacity > 0,
            i <= self.capacity,
        ensures
            k == ring_slot(self.start as int, i as int, self.capacity as int),
    {
        let room = self.capacity - self.start;
        if i < room {
            self.start + i
        } else {
            i - room
        }
    }

    /// Offers one sample. It is queued when there is room, and discarded
    /// when the buffer is full; it never overwrites a queued sample.
    pub fn push(&mut self, sample: Sample)
        requires
            old(self).wf(),
        ensures
            final(self).wf(),
            final(self).capacity() == old(self).capacity(),
            final(self).queued() == queue_after_push(
                old(self).queued(),
                old(self).capacity(),
                sample@,
            ),
            final(self).written() == if old(self).queued().len() < old(self).capacity() {
                next_count(old(self).written())
            } else {
                old(self).written()
            },
            final(self).calls() == old(self).calls().push(RingOp::Push(sample@)),
    {
        let ghost old_calls = self.calls@;
        let ghost op = RingOp::Push(sample@);
        proof {
            assert(old_calls.push(op).drop_last() =~= old_calls);
        }
        if self.len >= self.capacity {
            self.calls = Ghost(old_calls.push(op));
            return;
        }
        let idx = self.slot(self.len);
        let ghost s = sample@;
        let ghost old_q = self.queued@;
        self.data.set(idx, Some(sample));
        self.len = self.len + 1;
        self.written = if self.written == usize::MAX {
            0
        } else {
            self.written + 1
        };
        self.queued = Ghost(old_q.push(s));
        self.calls = Ghost(old_calls.push(op));
        assert forall|i: int| 0 <= i < self.len implies (#[trigger] self.data@[ring_slot(
            self.start as int,
            i,
            self.capacity as int,
        )] matches Some(x) && x@ == self.queued@[i]) by {
            if i < self.len - 1 {
                assert(ring_slot(self.start as int, i, self.capacity as int) != idx);
                assert(old_q[i] == self.queued@[i]);
            }
        }
    }

    /// Moves the oldest samples into `buf`, as many as are queued and fit,
    /// and returns how many were moved. The rest of `buf` is left as it was.
    pub fn pop_batch(&mut self, buf: &mut [Sample]) -> (count: usize)
        requires
            old(self).wf(),
        ensures
            final(self).wf(),
            final(self).capacity() == old(self).capacity(),
            final(self).written() == old(self).written(),
            count == batch_count(old(self).queued().len(), old(buf)@.len()),
            final(self).queued() == old(self).queued().skip(count as int),
            final(buf)@.len() == old(buf)@.len(),
            forall|i: int| 0 <= i < count ==> (#[trigger] final(buf)@[i])@ == old(self).queued()[i],
            forall|i: int|
                count <= i < old(buf)@.len() ==> #[trigger] final(buf)@[i] == old(buf)@[i],
            final(self).calls() == old(self).calls().push(RingOp::Pop(old(buf)@.len())),
    {
        let ghost old_calls = self.calls@;
        let ghost op = RingOp::Pop(buf@.len());
        proof {
            assert(old_calls.push(op).drop_last() =~= old_calls);
        }
        let count = if self.len < buf.len() {
            self.len
        } else {
            buf.len()
        };
        let mut i: usize = 0;
        while i < count
            invariant
                self.wf(),
                *self == *old(self),
                count <= self.len,
                count <= buf@.len(),
                i <= count,
                buf@.len() == old(buf)@.len(),
                forall|k: int| 0 <= k < i ==> (#[trigger] buf@[k])@ == self.queued@[k],
                forall|k: int| i <= k < buf@.len() ==> #[trigger] buf@[k] == old(buf)@[k],
            decreases count - i,
        {
            let idx = self.slot(i);
            let copy = match &self.data[idx] {
                Some(s) => s.clone(),
                None => {
                    assert(false);
                    Sample { seq: 0, timestamp_ns: 0, values: Vec::new() }
                },
            };
            buf[i] = copy;
            i = i + 1;
        }
        if count > 0 {
            let new_start = self.slot(count);
            let ghost old_q = self.queued@;
            let ghost old_start = self.start;
            let new_start = if new_start == self.capacity {
                0
            } else {
                new_start
            };
            self.start = new_start;
            self.len = self.len - count;
            self.queued = Ghost(old_q.skip(count as int));
            assert forall|j: int| 0 <= j < self.len implies (#[trigger] self.data@[ring_slot(
                self.start as int,
                j,
                self.capacity as int,
            )] matches Some(x) && x@ == self.queued@[j]) by {
                assert(ring_slot(self.start as int, j, self.capacity as int) == ring_slot(
                    old_start as int,
                    j + count,
                    self.capacity as int,
                ));
                assert(old_q[j + count] == self.queued@[j]);
            }
        } else {
            assert(self.queued@.skip(0) =~= self.queued@);
        }
        self.calls = Ghost(old_calls.push(op));
        count
    }

    /// The number of samples waiting to be read: the samples accepted by
    /// `push` less those handed out by `pop_batch`, over all the calls made
    /// since `new`, and never more than the capacity.
    pub fn available(&self) -> (n: usize)
        requires
            self.wf(),
        ensures
            n == self.queued().len(),
            n == accepted_pushes(self.capacity(), self.calls()) - handed_out(
                self.capacity(),
                self.calls(),
            ),
            n <= self.capacity(),
    {
        proof {
            lemma_available_counts(self.capacity as nat, self.calls@);
        }
        self.len
    }

    /// The number of samples written so far (each accepted push counts
    /// once; discarded samples do not count).
    pub fn total_written(&self) -> (n: usize)
        ensures
            n == self.written(),
    {
        self.written
    }
}

/// Offering samples one after another keeps the first ones that fit, in
/// the order they came, and discards the rest: a buffer holding `q`
/// ends up holding `q` followed by as many of `items` as there is room for.
pub proof fn lemma_pushes_keep_earliest(q: Seq<SampleData>, cap: nat, items: Seq<SampleData>)
    requires
        q.len() <= cap,
    ensures
        queue_after_pushes(q, cap, items) == q + items.take(
            if q.len() + items.len() <= cap {
                items.len() as int
            } else {
                cap - q.len()
            },
        ),
    decreases items.len(),
{
    if items.len() == 0 {
        assert(q + items.take(0) =~= q);
    } else {
        let init = items.drop_last();
        lemma_pushes_keep_earliest(q, cap, init);
        let prev = queue_after_pushes(q, cap, init);
        if q.len() + items.len() <= cap {
            assert(prev =~= q + init);
            assert(q + items.take(items.len() as int) =~= (q + init).push(items.last()));
        } else if q.len() + init.len() <= cap {
            assert(prev =~= q + init);
            assert(init.take(init.len() as int) =~= items.take(cap - q.len()));
            assert(q + items.take(cap - q.len()) =~= prev);
        } else {
            assert(init.take(cap - q.len()) =~= items.take(cap - q.len()));
        }
    }
}

/// Reading a batch after offering samples to an empty buffer hands them
/// out in the order they were offered.
pub proof fn lemma_fifo_order(cap: nat, items: Seq<SampleData>, room: nat)
    requires
        items.len() <= cap,
    ensures
        queue_after_pushes(Seq::empty(), cap, items) == items,
        queue_after_pushes(Seq::empty(), cap, items).take(batch_count(items.len(), room) as int)
            == items.take(batch_count(items.len(), room) as int),
{
    lemma_pushes_keep_earliest(Seq::empty(), cap, items);
    assert(Seq::<SampleData>::empty() + items.take(items.len() as int) =~= items);
}

/// One call on a ring buffer: offering a sample, or a batch read into a
/// destination with `room` places.
pub enum RingOp {
    Push(SampleData),
    Pop(nat),
}

/// The queue of a buffer of capacity `cap`, made by `RingBuffer::new`,
/// after the calls `ops` in order (as `push` and `pop_batch` state them).
pub open spec fn queue_after_ops(cap: nat, ops: Seq<RingOp>) -> Seq<SampleData>
    decreases ops.len(),
{
    if ops.len() == 0 {
        Seq::empty()
    } else {
        let q = queue_after_ops(cap, ops.drop_last());
        match ops.last() {
            RingOp::Push(s) => queue_after_push(q, cap, s),
            RingOp::Pop(room) => q.skip(batch_count(q.len(), room) as int),
        }
    }
}

/// How many of the offered samples among `ops` were accepted.
pub open spec fn accepted_pushes(cap: nat, ops: Seq<RingOp>) -> nat
    decreases ops.len(),
{
    if ops.len() == 0 {
        0
    } else {
        let q = queue_after_ops(cap, ops.drop_last());
        let prev = accepted_pushes(cap, ops.drop_last());
        match ops.last() {
            RingOp::Push(_) => if q.len() < cap {
                prev + 1
            } else {
                prev
            },
            RingOp::Pop(_) => prev,
        }
    }
}

/// How many samples the batch reads among `ops` handed out in all.
pub open spec fn handed_out(cap: nat, ops: Seq<RingOp>) -> nat
    decreases ops.len(),
{
    if ops.len() == 0 {
        0
    } else {
        let q = queue_after_ops(cap, ops.drop_last());
        let prev = handed_out(cap, ops.drop_last());
        match ops.last() {
            RingOp::Push(_) => prev,
            RingOp::Pop(room) => prev + batch_count(q.len(), room),
        }
    }
}

/// Over any sequence of `push` and `pop_batch` calls on a buffer made by
/// `RingBuffer::new(cap)`, the samples available are the accepted pushes
/// less the samples handed out, and never more than the capacity.
pub proof fn lemma_available_counts(cap: nat, ops: Seq<RingOp>)
    ensures
        handed_out(cap, ops) <= accepted_pushes(cap, ops),
        queue_after_ops(cap, ops).len() == accepted_pushes(cap, ops) - handed_out(cap, ops),
        queue_after_ops(cap, ops).len() <= cap,
    decreases ops.len(),
{
    if ops.len() > 0 {
        lemma_available_counts(cap, ops.drop_last());
    }
}

/// Whatever calls were made on a buffer since `new`, it never holds more
/// samples than its capacity, and what it holds is what those calls leave.
pub proof fn lemma_available_within_capacity(rb: &RingBuffer)
    requires
        rb.wf(),
    ensures
        rb.queued() == queue_after_ops(rb.capacity(), rb.calls()),
        rb.queued().len() <= rb.capacity(),
        rb.queued().len() == accepted_pushes(rb.capacity(), rb.calls()) - handed_out(
            rb.capacity(),
            rb.calls(),
        ),
{
    lemma_available_counts(rb.capacity(), rb.calls());
}

} // verus!
