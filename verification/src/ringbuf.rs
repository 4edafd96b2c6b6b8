//! A bounded ring buffer for captured process output: once full, pushing
//! drops the oldest entry.

use vstd::prelude::*;

verus! {

/// Which stream of a child process a line came from.
#[derive(Debug, Clone, Copy, PartialEq, Eq, Structural)]
pub enum OutputStream {
    Stdout,
    Stderr,
}

/// One captured line with its source stream and a millisecond timestamp.
#[derive(Debug, Clone, PartialEq, Eq)]
pub struct ProcessOutputLine {
    pub timestamp_ms: u64,
    pub stream: OutputStream,
    pub line: String,
}

/// Ring buffer for storing process output lines.
pub struct RingBuffer<T> {
    pub buffer: Vec<T>,
    pub capacity: usize,
}

impl<T> RingBuffer<T> {
    /// No more entries than the buffer's capacity (or one entry for a
    /// zero-capacity buffer, which always holds the latest push).
    pub open spec fn wf(self) -> bool {
        if self.capacity == 0 {
            self.buffer@.len() <= 1
        } else {
            self.buffer@.len() <= self.capacity
        }
    }

    pub fn new(capacity: usize) -> (r: RingBuffer<T>)
        ensures
            r.wf(),
            r.capacity == capacity,
            r.buffer@.len() == 0,
    {
        RingBuffer { buffer: Vec::new(), capacity }
    }

    /// Append an item, dropping the oldest one first when the buffer is
    /// at capacity.
    pub fn push(&mut self, item: T)
        requires
            old(self).wf(),
        ensures
            final(self).wf(),
            final(self).capacity == old(self).capacity,
            old(self).buffer@.len() < old(self).capacity ==> final(self).buffer@
                == old(self).buffer@.push(item),
            old(self).buffer@.len() >= old(self).capacity && old(self).buffer@.len() > 0
                ==> final(self).buffer@ == old(self).buffer@.skip(1).push(item),
            old(self).buffer@.len() == 0 && old(self).capacity == 0
                ==> final(self).buffer@ == old(self).buffer@.push(item),
    {
        if self.buffer.len() >= self.capacity {
            if self.buffer.len() > 0 {
                self.buffer.remove(0);
                proof {
                    assert(self.buffer@ =~= old(self).buffer@.skip(1));
                }
            }
        }
        self.buffer.push(item);
    }

    /// Every stored item, oldest first, each a clone of the stored value.
    pub fn get_lines(&self) -> (r: Vec<T>) where T: Clone
        ensures
            r@.len() == self.buffer@.len(),
            forall|i: int| 0 <= i < r@.len()
                ==> vstd::pervasive::cloned::<T>(self.buffer@[i], #[trigger] r@[i]),
    {
        let mut out: Vec<T> = Vec::new();
        let mut i: usize = 0;
        while i < self.buffer.len()
            invariant
                i <= self.buffer@.len(),
                out@.len() == i,
                forall|k: int| 0 <= k < i
                    ==> vstd::pervasive::cloned::<T>(self.buffer@[k], #[trigger] out@[k]),
            decreases self.buffer@.len() - i,
        {
            out.push(self.buffer[i].clone());
            i = i + 1;
        }
        out
    }

    pub fn len(&self) -> (r: usize)
        ensures
            r == self.buffer@.len(),
    {
        self.buffer.len()
    }

    pub fn is_empty(&self) -> (r: bool)
        ensures
            r == (self.buffer@.len() == 0),
    {
        self.buffer.len() == 0
    }

    pub fn clear(&mut self)
        ensures
            final(self).wf(),
            final(self).capacity == old(self).capacity,
            final(self).buffer@.len() == 0,
    {
        self.buffer.clear();
    }
}

} // verus!
