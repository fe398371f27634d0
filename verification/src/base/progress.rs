//! Counting the files of a batch as they are handled.

use vstd::prelude::*;

verus! {

/// How far a batch of `total` files has come.
#[derive(Debug, PartialEq, Eq)]
pub struct Progress {
    pub total: usize,
    pub cur: usize,
}

impl Progress {
    /// A batch of `total` files of which none has been handled yet.
    pub fn new(total: usize) -> (p: Progress)
        ensures
            p.total == total,
            p.cur == 0,
    {
        Progress { total, cur: 0 }
    }

    /// Counts one more file as handled.
    pub fn inc(&mut self)
        requires
            old(self).cur < usize::MAX,
        ensures
            final(self).total == old(self).total,
            final(self).cur == old(self).cur + 1,
    {
        self.cur = self.cur + 1;
    }
}

} // verus!
