//! The round-robin ready queue.

use vstd::prelude::*;
use crate::process::MAX_PROCS;

verus! {

/// Failures of the scheduling paths. `NoSpace` and `Empty` are capacity and
/// emptiness conditions of the queues; `NoCurrent` means no process has been
/// designated as running yet; `ProcessNotFound` stands for a missing table
/// slot, a defensive condition that the kernel's contracts rule out under
/// its invariant.
#[derive(Clone, Copy, Debug, PartialEq, Eq, Structural)]
pub enum SchedulerError {
    NoSpace,
    Empty,
    NoCurrent,
    ProcessNotFound,
}

/// A bounded FIFO of process ids. `dequeue` always yields the oldest
/// enqueued pid, so as long as every runnable process is re-enqueued exactly
/// once per scheduling decision, no process starves.
pub trait Scheduler: Sized {
    /// The queued pids, oldest first.
    spec fn pids(&self) -> Seq<u8>;

    /// The fixed capacity of the queue.
    spec fn capacity(&self) -> int;

    /// Appends `pid` at the back; fails with `NoSpace`, changing nothing,
    /// exactly when the queue is full.
    fn enqueue(&mut self, pid: u8) -> (r: Result<(), SchedulerError>)
        ensures
            final(self).capacity() == old(self).capacity(),
            old(self).pids().len() < old(self).capacity() ==> r == Ok::<(), SchedulerError>(())
                && final(self).pids() == old(self).pids().push(pid),
            old(self).pids().len() >= old(self).capacity() ==> r == Err::<(), SchedulerError>(
                SchedulerError::NoSpace,
            ) && final(self).pids() == old(self).pids(),
    ;

    /// Removes and returns the oldest pid; fails with `Empty`, changing
    /// nothing, exactly when the queue is empty.
    fn dequeue(&mut self) -> (r: Result<u8, SchedulerError>)
        ensures
            final(self).capacity() == old(self).capacity(),
            old(self).pids().len() == 0 ==> r == Err::<u8, SchedulerError>(SchedulerError::Empty)
                && final(self).pids() == old(self).pids(),
            old(self).pids().len() > 0 ==> r == Ok::<u8, SchedulerError>(old(self).pids()[0])
                && final(self).pids() == old(self).pids().drop_first(),
    ;
}

/// The kernel's ready queue: a FIFO of runnable-but-not-running pids with
/// capacity [`MAX_PROCS`].
pub struct ReadyQueue {
    items: Vec<u8>,
}

impl ReadyQueue {
    /// An empty ready queue.
    pub fn new() -> (q: ReadyQueue)
        ensures
            q.pids() == Seq::<u8>::empty(),
            q.capacity() == MAX_PROCS,
    {
        let q = ReadyQueue { items: Vec::new() };
        proof {
            assert(q.pids() =~= Seq::<u8>::empty());
        }
        q
    }

    /// How many pids are queued.
    pub fn len(&self) -> (n: usize)
        ensures
            n == self.pids().len(),
    {
        self.items.len()
    }
}

impl Scheduler for ReadyQueue {
    closed spec fn pids(&self) -> Seq<u8> {
        self.items@
    }

    open spec fn capacity(&self) -> int {
        MAX_PROCS as int
    }

    fn enqueue(&mut self, pid: u8) -> (r: Result<(), SchedulerError>) {
        if self.items.len() >= MAX_PROCS {
            Err(SchedulerError::NoSpace)
        } else {
            self.items.push(pid);
            Ok(())
        }
    }

    fn dequeue(&mut self) -> (r: Result<u8, SchedulerError>) {
        if self.items.len() == 0 {
            Err(SchedulerError::Empty)
        } else {
            let pid = self.items.remove(0);
            proof {
                assert(self.items@ =~= old(self).items@.drop_first());
            }
            Ok(pid)
        }
    }
}

} // verus!
