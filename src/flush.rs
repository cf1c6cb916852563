use vstd::prelude::*;

verus! {

/// Counts samples written to a file since its last flush, and says when
/// the next flush is due.
pub struct FlushSchedule {
    unflushed: usize,
    flush_every: usize,
}

impl FlushSchedule {
    pub closed spec fn unflushed(&self) -> nat {
        self.unflushed as nat
    }

    pub closed spec fn every(&self) -> nat {
        self.flush_every as nat
    }

    pub closed spec fn wf(&self) -> bool {
        self.unflushed <= self.flush_every
    }

    /// Flush once more than `flush_every` samples are pending.
    pub fn new(flush_every: usize) -> (r: Self)
        ensures
            r.wf(),
            r.every() == flush_every,
            r.unflushed() == 0,
    {
        FlushSchedule { unflushed: 0, flush_every }
    }

    /// Records `n` more written samples; true when a flush is due now, the
    /// count then starting over.
    pub fn record(&mut self, n: usize) -> (r: bool)
        requires
            old(self).wf(),
        ensures
            final(self).wf(),
            final(self).every() == old(self).every(),
            r == (old(self).unflushed() + n > old(self).every()),
            final(self).unflushed() == if r { 0 } else { old(self).unflushed() + n },
    {
        if n > self.flush_every - self.unflushed {
            self.unflushed = 0;
            true
        } else {
            self.unflushed = self.unflushed + n;
            false
        }
    }
}

} // verus!
