//! Tells when enough of a part has been sent for the caller to hear of it.

use vstd::prelude::*;

verus! {

/// Counts the bytes of a part on their way out.
#[derive(Debug)]
pub struct ProgressMeter {
    /// How many bytes pass between two notes.
    pub every: u64,
    pub bytes_read: u64,
    pub last_notified: u64,
}

impl ProgressMeter {
    /// No more is noted than was sent.
    pub open spec fn wf(self) -> bool {
        self.last_notified <= self.bytes_read
    }

    pub fn new(every: u64) -> (r: Self)
        ensures
            r.wf(),
            r == (ProgressMeter { every, bytes_read: 0, last_notified: 0 }),
    {
        ProgressMeter { every, bytes_read: 0, last_notified: 0 }
    }

    /// `n` more bytes were sent. Returns their sum where it is time for a note.
    pub fn sent(&mut self, n: usize) -> (r: Option<u64>)
        requires
            old(self).wf(),
            old(self).bytes_read + n <= u64::MAX,
        ensures
            final(self).wf(),
            final(self).every == old(self).every,
            final(self).bytes_read == old(self).bytes_read + n,
            if n > 0 && old(self).bytes_read + n - old(self).last_notified >= old(self).every {
                r == Some(final(self).bytes_read) && final(self).last_notified == final(self).bytes_read
            } else {
                r is None && final(self).last_notified == old(self).last_notified
            },
    {
        if n == 0 {
            return None;
        }
        self.bytes_read = self.bytes_read + n as u64;
        if self.bytes_read - self.last_notified >= self.every {
            self.last_notified = self.bytes_read;
            Some(self.bytes_read)
        } else {
            None
        }
    }

    /// The source was moved to another position.
    pub fn moved_to(&mut self, pos: u64)
        ensures
            final(self).wf(),
            *final(self) == (ProgressMeter { every: old(self).every, bytes_read: pos, last_notified: pos }),
    {
        self.bytes_read = pos;
        self.last_notified = pos;
    }
}

} // verus!
