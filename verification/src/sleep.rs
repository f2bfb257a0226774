//! The sleep queue: outstanding (pid, wake-time) pairs.

use vstd::prelude::*;
use crate::process::MAX_PROCS;
use crate::scheduler::SchedulerError;

verus! {

/// One outstanding sleep: `pid` becomes runnable once the monotonic clock
/// reaches `wake_time` (absolute microseconds).
#[derive(Clone, Copy, Debug, PartialEq, Eq, Structural)]
pub struct SleepEntry {
    pub pid: u8,
    pub wake_time: u64,
}

/// Whether `e` is due at time `now_us`: its wake time has passed.
pub open spec fn due(e: SleepEntry, now_us: u64) -> bool {
    e.wake_time <= now_us
}

/// The entries due at `now_us`, as a predicate for filtering.
pub open spec fn due_at(now_us: u64) -> spec_fn(SleepEntry) -> bool {
    |e: SleepEntry| due(e, now_us)
}

/// The entries not yet due at `now_us`, as a predicate for filtering.
pub open spec fn not_due_at(now_us: u64) -> spec_fn(SleepEntry) -> bool {
    |e: SleepEntry| !due(e, now_us)
}

/// The kernel's sleep queue, scanned on every timer tick. Insertion order is
/// kept, though nothing depends on it: wake times alone decide who leaves.
pub struct SleepQueue {
    entries: Vec<SleepEntry>,
}

impl View for SleepQueue {
    type V = Seq<SleepEntry>;

    closed spec fn view(&self) -> Seq<SleepEntry> {
        self.entries@
    }
}

impl SleepQueue {
    /// An empty sleep queue.
    pub fn new() -> (q: SleepQueue)
        ensures
            q@ == Seq::<SleepEntry>::empty(),
    {
        let q = SleepQueue { entries: Vec::new() };
        proof {
            assert(q@ =~= Seq::<SleepEntry>::empty());
        }
        q
    }

    /// How many sleeps are outstanding.
    pub fn len(&self) -> (n: usize)
        ensures
            n == self@.len(),
    {
        self.entries.len()
    }

    /// Adds one outstanding sleep at the back; fails with `NoSpace`,
    /// changing nothing, exactly when the queue is full.
    pub fn enqueue(&mut self, e: SleepEntry) -> (r: Result<(), SchedulerError>)
        ensures
            old(self)@.len() < MAX_PROCS ==> r == Ok::<(), SchedulerError>(())
                && final(self)@ == old(self)@.push(e),
            old(self)@.len() >= MAX_PROCS ==> r == Err::<(), SchedulerError>(
                SchedulerError::NoSpace,
            ) && final(self)@ == old(self)@,
    {
        if self.entries.len() >= MAX_PROCS {
            Err(SchedulerError::NoSpace)
        } else {
            self.entries.push(e);
            Ok(())
        }
    }

    /// Removes and returns every entry due at `now_us`; the others stay, in
    /// order. The caller makes the owning processes ready again.
    pub fn drain_due(&mut self, now_us: u64) -> (woken: Vec<SleepEntry>)
        ensures
            final(self)@ == old(self)@.filter(not_due_at(now_us)),
            woken@ == old(self)@.filter(due_at(now_us)),
    {
        let ghost all = self.entries@;
        let mut kept: Vec<SleepEntry> = Vec::new();
        let mut woken: Vec<SleepEntry> = Vec::new();
        let n = self.entries.len();
        let mut j: usize = 0;
        proof {
            reveal(Seq::filter);
            assert(all.subrange(0, 0) =~= Seq::<SleepEntry>::empty());
        }
        while j < n
            invariant
                j <= n,
                n == self.entries@.len(),
                self.entries@ == all,
                kept@ == all.subrange(0, j as int).filter(not_due_at(now_us)),
                woken@ == all.subrange(0, j as int).filter(due_at(now_us)),
            decreases n - j,
        {
            let e = self.entries[j];
            if e.wake_time <= now_us {
                woken.push(e);
            } else {
                kept.push(e);
            }
            proof {
                broadcast use Seq::lemma_filter_push;

                assert(all.subrange(0, j + 1) =~= all.subrange(0, j as int).push(e));
                assert((due_at(now_us))(e) == due(e, now_us));
                assert((not_due_at(now_us))(e) == !due(e, now_us));
            }
            j = j + 1;
        }
        proof {
            assert(all.subrange(0, n as int) =~= all);
        }
        self.entries = kept;
        woken
    }
}

} // verus!
