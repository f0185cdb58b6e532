//! Linear buffer of the samples shown on screen, numbered globally so that
//! the waveform can look back over history.
use vstd::prelude::*;
use vstd::slice::*;
use crate::pipeline::sample::{Sample, SampleData};

verus! {

/// What a list of samples holds.
pub open spec fn sample_views(s: Seq<Sample>) -> Seq<SampleData> {
    s.map_values(|x: Sample| x@)
}

/// How many of `n` samples are dropped from the front to keep at most `max`.
pub open spec fn excess(n: nat, max: nat) -> nat {
    if n > max {
        (n - max) as nat
    } else {
        0
    }
}

/// Local bounds in a buffer holding the samples numbered
/// `offset .. offset + len` of the part of the range `start .. end` that it
/// holds; `(0, 0)` when that part is empty.
pub open spec fn window(offset: int, len: int, start: int, end: int) -> (int, int) {
    let lo = if start > offset {
        start
    } else {
        offset
    };
    let hi = if end < offset + len {
        end
    } else {
        offset + len
    };
    if lo < hi {
        (lo - offset, hi - offset)
    } else {
        (0, 0)
    }
}

/// Display buffer: keeps the most recent `max_samples` samples, dropping
/// the oldest, and counts every sample ever pushed.
pub struct DisplayBuffer {
    samples: Vec<Sample>,
    max_samples: usize,
    /// Number of samples pushed, dropped ones included.
    total_pushed: u64,
    /// Global number of the oldest sample held.
    offset: u64,
}

impl DisplayBuffer {
    /// The samples held, oldest first.
    pub closed spec fn contents(&self) -> Seq<SampleData> {
        sample_views(self.samples@)
    }

    /// The most samples held at once.
    pub closed spec fn max_samples(&self) -> nat {
        self.max_samples as nat
    }

    /// Global number of the oldest sample held.
    pub closed spec fn offset(&self) -> u64 {
        self.offset
    }

    /// Number of samples pushed so far, dropped ones included.
    pub closed spec fn total_pushed(&self) -> u64 {
        self.total_pushed
    }

    /// The held samples are the most recent ones: their numbers end where
    /// the count of pushed samples is, and there are at most `max_samples`.
    pub closed spec fn wf(&self) -> bool {
        &&& self.samples@.len() <= self.max_samples
        &&& self.offset + self.samples@.len() == self.total_pushed
    }

    /// Creates an empty buffer that keeps at most `max_samples` samples.
    pub fn new(max_samples: usize) -> (b: Self)
        ensures
            b.wf(),
            b.contents() == Seq::<SampleData>::empty(),
            b.max_samples() == max_samples,
            b.offset() == 0,
            b.total_pushed() == 0,
    {
        let b = Self { samples: Vec::with_capacity(max_samples), max_samples, total_pushed: 0, offset: 0 };
        assert(b.contents() =~= Seq::<SampleData>::empty());
        b
    }

    /// Appends a batch; when more than `max_samples` are then held, the
    /// oldest are dropped and the global number of the oldest moves on.
    pub fn push_batch(&mut self, batch: &[Sample])
        requires
            old(self).wf(),
            old(self).total_pushed() + batch@.len() <= u64::MAX,
            old(self).contents().len() + batch@.len() <= usize::MAX,
        ensures
            final(self).wf(),
            final(self).max_samples() == old(self).max_samples(),
            ({
                let all = old(self).contents() + sample_views(batch@);
                let drop = excess(all.len(), old(self).max_samples());
                &&& final(self).contents() == all.skip(drop as int)
                &&& final(self).offset() == old(self).offset() + drop
                &&& final(self).total_pushed() == old(self).total_pushed() + batch@.len()
            }),
    {
        let old_len = self.samples.len();
        let total = old_len + batch.len();
        let drop: usize = if total > self.max_samples {
            total - self.max_samples
        } else {
            0
        };
        let ghost all = self.contents() + sample_views(batch@);
        let mut kept: Vec<Sample> = Vec::with_capacity(total - drop);
        let mut i: usize = drop;
        while i < total
            invariant
                old_len == self.samples@.len(),
                total == old_len + batch@.len(),
                all == sample_views(self.samples@) + sample_views(batch@),
                drop <= i <= total,
                kept@.len() == i - drop,
                forall|k: int| 0 <= k < kept@.len() ==> (#[trigger] kept@[k])@ == all[k + drop],
            decreases total - i,
        {
            let s = if i < old_len {
                self.samples[i].clone()
            } else {
                batch[i - old_len].clone()
            };
            kept.push(s);
            i = i + 1;
        }
        assert(sample_views(kept@) =~= all.skip(drop as int));
        self.samples = kept;
        self.total_pushed = self.total_pushed + batch.len() as u64;
        self.offset = self.offset + drop as u64;
    }

    /// The samples whose global numbers lie in `start .. end` and are held.
    pub fn slice(&self, start: u64, end: u64) -> (r: &[Sample])
        requires
            self.wf(),
        ensures
            ({
                let w = window(self.offset() as int, self.contents().len() as int, start as int, end as int);
                sample_views(r@) == self.contents().subrange(w.0, w.1)
            }),
    {
        let len = self.samples.len() as u64;
        let all = self.samples.as_slice();
        if start >= self.offset + len || end <= self.offset {
            return slice_subrange(all, 0, 0);
        }
        let local_start: u64 = if start > self.offset {
            start - self.offset
        } else {
            0
        };
        let local_end: u64 = if end - self.offset < len {
            end - self.offset
        } else {
            len
        };
        if local_start >= local_end {
            return slice_subrange(all, 0, 0);
        }
        let r = slice_subrange(all, local_start as usize, local_end as usize);
        assert(sample_views(r@) =~= self.contents().subrange(local_start as int, local_end as int));
        r
    }

    /// All samples held, oldest first.
    pub fn all(&self) -> (r: &[Sample])
        ensures
            sample_views(r@) == self.contents(),
    {
        self.samples.as_slice()
    }

    /// Number of samples held.
    pub fn len(&self) -> (n: usize)
        ensures
            n == self.contents().len(),
    {
        self.samples.len()
    }

    /// Whether no sample is held.
    pub fn is_empty(&self) -> (b: bool)
        ensures
            b == (self.contents().len() == 0),
    {
        self.samples.is_empty()
    }

    /// Global number that the next pushed sample will get: one past the
    /// newest sample held.
    pub fn next_seq(&self) -> (n: u64)
        requires
            self.wf(),
        ensures
            n == self.offset() + self.contents().len(),
            n == self.total_pushed(),
    {
        self.offset + self.samples.len() as u64
    }

    /// Global number of the oldest sample held.
    pub fn oldest_seq(&self) -> (n: u64)
        ensures
            n == self.offset(),
    {
        self.offset
    }
}

} // verus!
