//! The cycle scheduler: a two-state machine (idle / running) that never lets
//! two reconciliation cycles overlap. A request made while a cycle runs —
//! an interval tick or an explicit trigger, such as right after an enrollment
//! — is coalesced into one pending rerun instead of a concurrent cycle.

use vstd::prelude::*;

verus! {

/// The state of the cycle driver.
pub struct Scheduler {
    running: bool,
    rerun_requested: bool,
    interval_seconds: u64,
}

/// What a cycle request (interval tick or explicit trigger) does: it starts a
/// cycle exactly when none runs; otherwise it leaves the running cycle alone
/// and records that another run is wanted right after.
pub open spec fn request_rel(pre: Scheduler, post: Scheduler, started: bool) -> bool {
    &&& started == !pre.running()
    &&& post.running()
    &&& post.rerun() == pre.running()
    &&& post.interval() == pre.interval()
}

/// What finishing a cycle does: with a rerun pending the machine stays
/// running and owes one more cycle; otherwise it goes idle. Completion in the
/// idle state changes nothing.
pub open spec fn complete_rel(pre: Scheduler, post: Scheduler, run_again: bool) -> bool {
    if !pre.running() {
        &&& post == pre
        &&& !run_again
    } else if pre.rerun() {
        &&& run_again
        &&& post.running()
        &&& !post.rerun()
        &&& post.interval() == pre.interval()
    } else {
        &&& !run_again
        &&& !post.running()
        &&& !post.rerun()
        &&& post.interval() == pre.interval()
    }
}

impl Scheduler {
    /// Whether a cycle is running.
    pub closed spec fn running(&self) -> bool {
        self.running
    }

    /// Whether a rerun is owed once the running cycle completes.
    pub closed spec fn rerun(&self) -> bool {
        self.rerun_requested
    }

    /// The configured pause between cycles, in seconds. Operational only:
    /// shortening it only increases polling frequency.
    pub closed spec fn interval(&self) -> u64 {
        self.interval_seconds
    }

    /// A rerun can be owed only while a cycle runs.
    pub open spec fn wf(&self) -> bool {
        self.rerun() ==> self.running()
    }

    /// A fresh scheduler: idle, nothing owed.
    pub fn new(interval_seconds: u64) -> (s: Scheduler)
        ensures
            s.wf(),
            !s.running(),
            !s.rerun(),
            s.interval() == interval_seconds,
    {
        Scheduler { running: false, rerun_requested: false, interval_seconds }
    }

    /// Whether a cycle is running.
    pub fn is_running(&self) -> (b: bool)
        ensures
            b == self.running(),
    {
        self.running
    }

    /// The configured pause between cycles, in seconds.
    pub fn interval_seconds(&self) -> (s: u64)
        ensures
            s == self.interval(),
    {
        self.interval_seconds
    }

    /// Ask for a cycle: the interval elapsed, or an operator action wants one
    /// now. Returns whether the caller should start running a cycle.
    pub fn request_cycle(&mut self) -> (started: bool)
        requires
            old(self).wf(),
        ensures
            final(self).wf(),
            request_rel(*old(self), *final(self), started),
    {
        if self.running {
            self.rerun_requested = true;
            false
        } else {
            self.running = true;
            self.rerun_requested = false;
            true
        }
    }

    /// The running cycle finished. Returns whether the caller owes another
    /// cycle immediately (a request came in while it ran).
    pub fn cycle_complete(&mut self) -> (run_again: bool)
        requires
            old(self).wf(),
        ensures
            final(self).wf(),
            complete_rel(*old(self), *final(self), run_again),
    {
        if !self.running {
            false
        } else if self.rerun_requested {
            self.rerun_requested = false;
            true
        } else {
            self.running = false;
            false
        }
    }
}

/// Law (no overlapping cycles): a request made while a cycle runs never
/// starts a second one; it only leaves a rerun pending, to run after the
/// current cycle completes.
pub proof fn lemma_request_coalesced(pre: Scheduler, post: Scheduler, started: bool)
    requires
        request_rel(pre, post, started),
        pre.running(),
    ensures
        !started,
        post.rerun(),
{
}

} // verus!
