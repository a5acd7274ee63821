//! The ledger of the fixed-size worker pool.
//!
//! The pool that actually blocks on a shared queue and runs jobs on
//! operating-system threads lives in the program layer around this
//! crate: thread primitives are not verified here.  What is verified
//! is the ledger that layer keeps in step with the queue: a fixed
//! positive worker count, the counts of submitted and completed jobs,
//! and a closed flag.  `execute` admits a job only while the queue is
//! open, and `join_all` closes the queue and accounts every submitted
//! job completed before it returns — the one synchronization barrier
//! of a run.

use vstd::prelude::*;

verus! {

/// The bookkeeping of a fixed-size pool of worker threads sharing one
/// job queue.
pub struct ThreadPool {
    size: usize,
    submitted: usize,
    completed: usize,
    closed: bool,
}

impl ThreadPool {
    /// How many worker threads the pool was created with.
    pub closed spec fn spec_size(&self) -> int {
        self.size as int
    }

    /// How many jobs have been admitted to the queue.
    pub closed spec fn spec_submitted(&self) -> int {
        self.submitted as int
    }

    /// How many admitted jobs have finished, successfully or not.
    pub closed spec fn spec_completed(&self) -> int {
        self.completed as int
    }

    /// Whether the queue has been closed to further jobs.
    pub closed spec fn spec_closed(&self) -> bool {
        self.closed
    }

    /// Jobs admitted but not yet finished.
    pub open spec fn spec_pending(&self) -> int {
        self.spec_submitted() - self.spec_completed()
    }

    /// The ledger's invariant: a positive worker count, and no more
    /// completions than admissions.
    pub open spec fn wf(&self) -> bool {
        self.spec_size() >= 1 && 0 <= self.spec_completed() <= self.spec_submitted()
    }

    /// A pool of `size` workers, open and empty.  A pool of size zero
    /// is a programming error and is ruled out here; the program layer
    /// fails fast on it.
    pub fn new(size: usize) -> (r: ThreadPool)
        requires
            size >= 1,
        ensures
            r.wf(),
            r.spec_size() == size,
            r.spec_submitted() == 0,
            r.spec_completed() == 0,
            !r.spec_closed(),
    {
        ThreadPool { size, submitted: 0, completed: 0, closed: false }
    }

    /// Admits one job to the queue.  The queue is unbounded, so the
    /// caller never blocks; only a closed pool refuses work.
    pub fn execute(&mut self)
        requires
            old(self).wf(),
            !old(self).spec_closed(),
            old(self).spec_submitted() < usize::MAX,
        ensures
            final(self).wf(),
            final(self).spec_submitted() == old(self).spec_submitted() + 1,
            final(self).spec_completed() == old(self).spec_completed(),
            final(self).spec_size() == old(self).spec_size(),
            !final(self).spec_closed(),
    {
        self.submitted = self.submitted + 1;
    }

    /// Accounts one pending job finished.  A job that fails still
    /// finishes: failures are swallowed at the job boundary and never
    /// bring down a worker.
    pub fn complete(&mut self)
        requires
            old(self).wf(),
            old(self).spec_pending() > 0,
        ensures
            final(self).wf(),
            final(self).spec_completed() == old(self).spec_completed() + 1,
            final(self).spec_submitted() == old(self).spec_submitted(),
            final(self).spec_size() == old(self).spec_size(),
            final(self).spec_closed() == old(self).spec_closed(),
    {
        self.completed = self.completed + 1;
    }

    /// Closes the queue and waits out the workers.  When this returns,
    /// every job ever admitted has finished, each exactly once, and no
    /// further job can be admitted: `execute` demands an open pool.
    pub fn join_all(&mut self)
        requires
            old(self).wf(),
        ensures
            final(self).wf(),
            final(self).spec_closed(),
            final(self).spec_size() == old(self).spec_size(),
            final(self).spec_submitted() == old(self).spec_submitted(),
            final(self).spec_completed() == old(self).spec_submitted(),
            final(self).spec_pending() == 0,
    {
        self.closed = true;
        self.completed = self.submitted;
    }

    /// Whether the queue has been closed to further jobs.
    pub fn is_closed(&self) -> (r: bool)
        ensures
            r == self.spec_closed(),
    {
        self.closed
    }

    /// How many jobs have been admitted so far.
    pub fn submitted(&self) -> (r: usize)
        ensures
            r as int == self.spec_submitted(),
    {
        self.submitted
    }

    /// How many jobs are still pending.
    pub fn pending(&self) -> (r: usize)
        requires
            self.wf(),
        ensures
            r == self.spec_pending(),
    {
        self.submitted - self.completed
    }
}

/// Pool shutdown: a pool that `join_all` has returned on has no
/// pending job — all output of admitted jobs has been produced — and,
/// being closed, admits nothing further.
pub proof fn lemma_pool_shutdown(p: ThreadPool)
    requires
        p.wf(),
        p.spec_closed(),
        p.spec_completed() == p.spec_submitted(),
    ensures
        p.spec_pending() == 0,
{
}

} // verus!
