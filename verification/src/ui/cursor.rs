//! Measurement cursors placed on the waveform.
use vstd::prelude::*;

verus! {

/// Up to two cursors, each at a global sample number.
#[derive(Debug, Clone, Copy, Default)]
pub struct CursorState {
    /// First cursor (`None` while not placed).
    pub cursor1: Option<u64>,
    /// Second cursor (`None` while not placed).
    pub cursor2: Option<u64>,
}

/// Local index of the sample numbered `seq` in a buffer holding the samples
/// numbered `offset .. offset + len`, if it holds it.
pub open spec fn local_index(seq: u64, offset: u64, len: nat) -> Option<usize> {
    if seq >= offset && seq - offset < len {
        Some((seq - offset) as usize)
    } else {
        None
    }
}

fn locate(seq: u64, buffer_offset: u64, buffer_len: usize) -> (r: Option<usize>)
    ensures
        r == local_index(seq, buffer_offset, buffer_len as nat),
{
    if seq >= buffer_offset && seq - buffer_offset < buffer_len as u64 {
        Some((seq - buffer_offset) as usize)
    } else {
        None
    }
}

impl CursorState {
    pub fn new() -> (c: Self)
        ensures
            c.cursor1 is None,
            c.cursor2 is None,
    {
        Self { cursor1: None, cursor2: None }
    }

    /// Places a cursor: the first click places cursor 1, the second places
    /// cursor 2, and a third starts over with cursor 1 alone.
    pub fn click(&mut self, seq: u64)
        ensures
            old(self).cursor1 is None ==> final(self).cursor1 == Some(seq) && final(self).cursor2
                is None,
            old(self).cursor1 is Some && old(self).cursor2 is None ==> final(self).cursor1 == old(
                self,
            ).cursor1 && final(self).cursor2 == Some(seq),
            old(self).cursor1 is Some && old(self).cursor2 is Some ==> final(self).cursor1 == Some(
                seq,
            ) && final(self).cursor2 is None,
    {
        if self.cursor1.is_none() {
            self.cursor1 = Some(seq);
            self.cursor2 = None;
        } else if self.cursor2.is_none() {
            self.cursor2 = Some(seq);
        } else {
            self.cursor1 = Some(seq);
            self.cursor2 = None;
        }
    }

    /// Removes both cursors.
    pub fn clear(&mut self)
        ensures
            final(self).cursor1 is None,
            final(self).cursor2 is None,
    {
        self.cursor1 = None;
        self.cursor2 = None;
    }

    /// Index, in a buffer whose oldest sample is numbered `buffer_offset`
    /// and which holds `buffer_len` samples, of the sample under cursor 1.
    pub fn cursor1_index(&self, buffer_len: usize, buffer_offset: u64) -> (r: Option<usize>)
        ensures
            r == match self.cursor1 {
                Some(seq) => local_index(seq, buffer_offset, buffer_len as nat),
                None => None,
            },
    {
        match self.cursor1 {
            Some(seq) => locate(seq, buffer_offset, buffer_len),
            None => None,
        }
    }

    /// Index of the sample under cursor 2, as for cursor 1.
    pub fn cursor2_index(&self, buffer_len: usize, buffer_offset: u64) -> (r: Option<usize>)
        ensures
            r == match self.cursor2 {
                Some(seq) => local_index(seq, buffer_offset, buffer_len as nat),
                None => None,
            },
    {
        match self.cursor2 {
            Some(seq) => locate(seq, buffer_offset, buffer_len),
            None => None,
        }
    }
}

} // verus!
