use vstd::prelude::*;

verus! {

/// What a reading loop does after one attempt to read.
#[derive(Debug, PartialEq, Eq, Structural, Clone, Copy)]
pub enum ReadStep {
    /// The buffer is not full yet: read again into the rest of it.
    Again,
    /// The buffer is full.
    Done,
    /// Too many attempts failed: the link is given up.
    Broken,
}

/// The state of a loop that fills a buffer of `len` bytes from a link that
/// delivers a few bytes per attempt and sometimes fails, and that gives up
/// once more than `max_failures` attempts have failed.
#[derive(Debug, PartialEq, Eq, Structural, Clone, Copy)]
pub struct ReadProgress {
    pub len: usize,
    pub readen: usize,
    pub failed: usize,
    pub max_failures: usize,
}

impl ReadProgress {
    /// The loop is still running: the buffer is not overfilled and the link
    /// has not been given up.
    pub open spec fn running(self) -> bool {
        self.readen <= self.len && self.failed <= self.max_failures
    }

    /// A loop that has read nothing and seen no failure yet.
    pub fn new(len: usize, max_failures: usize) -> (r: ReadProgress)
        ensures
            r == (ReadProgress { len, readen: 0, failed: 0, max_failures }),
    {
        ReadProgress { len, readen: 0, failed: 0, max_failures }
    }

    /// Takes in the outcome of one attempt: `Some(n)` when `n` more bytes
    /// arrived, `None` when the attempt failed. The link is given up once
    /// more than `max_failures` attempts failed; otherwise the loop is done
    /// once the buffer is full.
    pub fn on_read(&mut self, got: Option<usize>) -> (r: ReadStep)
        requires
            old(self).running(),
            old(self).max_failures < usize::MAX,
            got matches Some(n) ==> n <= old(self).len - old(self).readen,
        ensures
            final(self).len == old(self).len,
            final(self).max_failures == old(self).max_failures,
            final(self).readen == old(self).readen + match got {
                Some(n) => n,
                None => 0,
            },
            final(self).failed == old(self).failed + if got is None {
                1int
            } else {
                0
            },
            r == if final(self).failed > final(self).max_failures {
                ReadStep::Broken
            } else if final(self).readen >= final(self).len {
                ReadStep::Done
            } else {
                ReadStep::Again
            },
            r == ReadStep::Again ==> final(self).running() && final(self).readen < final(self).len,
    {
        match got {
            Some(n) => {
                self.readen += n;
            },
            None => {
                self.failed += 1;
            },
        }
        if self.failed > self.max_failures {
            return ReadStep::Broken;
        }
        if self.readen >= self.len {
            return ReadStep::Done;
        }
        ReadStep::Again
    }
}

} // verus!
