//! The kernel aggregate: process table, active pid, ready queue and sleep
//! queue, with the scheduling decisions made over them.
//!
//! Every way the composite state can change is a narrow method on
//! [`Kernel`]; on hardware each such call runs inside a critical section
//! that excludes the timer interrupt, so the methods see and leave a
//! consistent state, captured by the invariant [`wf`]. The methods decide;
//! the caller performs the returned [`SwitchAction`] on the hardware (the
//! register save and restore itself cannot live here).

use vstd::prelude::*;
use crate::frame::{FRAME_BYTES, initial_sp};
use crate::layout::{MemoryLayout, MemoryRegion};
use crate::process::{BlockReason, MAX_PROCS, Pcb, ProcessError, ProcessState, StackAllocator};
use crate::scheduler::{ReadyQueue, Scheduler, SchedulerError};
use crate::sleep::{due_at, not_due_at, SleepEntry, SleepQueue};

verus! {

/// What the caller must perform on the hardware after a scheduling
/// decision.
#[derive(Clone, Copy, Debug, PartialEq, Eq, Structural)]
pub enum SwitchAction {
    /// Keep running the current process; no register state moves.
    NoSwitch,
    /// Park `prev` and resume `next`, whose saved frame lives at `next_sp`.
    /// The kernel state already reflects the switch; the hardware routine
    /// saves `prev`'s registers on its own stack and consumes the frame at
    /// `next_sp`.
    Switch { prev: u8, next: u8, next_sp: usize },
}

/// The whole kernel state as mathematical values; every contract speaks of
/// this view.
#[verifier::ext_equal]
pub struct KernelView {
    /// The process table: one slot per pid.
    pub procs: Seq<Option<Pcb>>,
    /// The pid whose registers are live in the CPU, once started.
    pub current: Option<u8>,
    /// The ready queue, oldest first.
    pub ready: Seq<u8>,
    /// The outstanding sleeps.
    pub sleepers: Seq<SleepEntry>,
    /// The next pid to hand out; pids are never reused.
    pub next_pid: u8,
    /// The region process stacks are carved out of.
    pub stack_region: MemoryRegion,
    /// Offset of the first stack byte not yet handed out.
    pub stack_next: int,
}

/// `p` with its state replaced.
pub open spec fn with_state(p: Pcb, s: ProcessState) -> Pcb {
    Pcb { state: s, ..p }
}

/// `pid` has a table slot.
pub open spec fn pid_live(v: KernelView, pid: u8) -> bool {
    pid < MAX_PROCS && v.procs[pid as int] is Some
}

/// The PCB of `pid`.
pub open spec fn pcb_of(v: KernelView, pid: u8) -> Pcb {
    v.procs[pid as int]->0
}

/// The state of `pid`'s PCB.
pub open spec fn state_of(v: KernelView, pid: u8) -> ProcessState {
    pcb_of(v, pid).state
}

/// 1 for an occupied slot, 0 for an empty one.
pub open spec fn live_count(slot: Option<Pcb>) -> int {
    if slot is Some {
        1
    } else {
        0
    }
}

/// How many slots of the table are occupied.
pub open spec fn n_live(procs: Seq<Option<Pcb>>) -> int
    decreases procs.len(),
{
    if procs.len() == 0 {
        0
    } else {
        n_live(procs.drop_last()) + live_count(procs.last())
    }
}

/// The occupied-slot count is between 0 and the table length.
pub proof fn lemma_n_live_le_len(procs: Seq<Option<Pcb>>)
    ensures
        0 <= n_live(procs) <= procs.len(),
    decreases procs.len(),
{
    if procs.len() > 0 {
        lemma_n_live_le_len(procs.drop_last());
    }
}

/// Updating one slot changes the occupied-slot count by the difference of
/// the two slots.
pub proof fn lemma_n_live_update(procs: Seq<Option<Pcb>>, i: int, slot: Option<Pcb>)
    requires
        0 <= i < procs.len(),
    ensures
        n_live(procs.update(i, slot)) == n_live(procs) - live_count(procs[i]) + live_count(slot),
    decreases procs.len(),
{
    let upd = procs.update(i, slot);
    if i == procs.len() - 1 {
        assert(upd.drop_last() =~= procs.drop_last());
    } else {
        assert(upd.drop_last() =~= procs.drop_last().update(i, slot));
        lemma_n_live_update(procs.drop_last(), i, slot);
    }
}

/// Table well-formedness: a slot holds the PCB of its own pid, PCBs own a
/// frame-capable stack, and slots at and above `next_pid` are still empty.
pub open spec fn procs_wf(v: KernelView) -> bool {
    &&& v.procs.len() == MAX_PROCS
    &&& forall|i: int|
        0 <= i < v.procs.len() ==> ((#[trigger] v.procs[i]) matches Some(p) ==> p.pid == i
            && p.wf())
    &&& v.next_pid <= MAX_PROCS
    &&& forall|i: int| v.next_pid <= i < v.procs.len() ==> (#[trigger] v.procs[i]) is None
}

/// Ready-queue well-formedness: queued pids are live, `Ready`, and no pid
/// is queued twice.
pub open spec fn ready_wf(v: KernelView) -> bool {
    &&& v.ready.len() <= MAX_PROCS
    &&& v.ready.no_duplicates()
    &&& forall|k: int|
        0 <= k < v.ready.len() ==> pid_live(v, #[trigger] v.ready[k]) && state_of(v, v.ready[k])
            is Ready
}

/// Sleep-queue well-formedness: each entry's pid is live and `Blocked`
/// with that entry's wake time, a pid has at most one outstanding entry,
/// and every `Blocked` process has an entry.
pub open spec fn sleepers_wf(v: KernelView) -> bool {
    &&& v.sleepers.len() <= MAX_PROCS
    &&& forall|k: int|
        0 <= k < v.sleepers.len() ==> pid_live(v, (#[trigger] v.sleepers[k]).pid) && state_of(
            v,
            v.sleepers[k].pid,
        ) == ProcessState::Blocked(BlockReason::Sleeping(v.sleepers[k].wake_time))
    &&& forall|k1: int, k2: int|
        0 <= k1 < k2 < v.sleepers.len() ==> (#[trigger] v.sleepers[k1]).pid != (
        #[trigger] v.sleepers[k2]).pid
    &&& forall|i: int|
        0 <= i < v.procs.len() && ((#[trigger] v.procs[i]) matches Some(p) && p.state is Blocked)
            ==> exists|k: int| 0 <= k < v.sleepers.len() && (#[trigger] v.sleepers[k]).pid == i
}

/// Active-pid well-formedness: the current pid, if any, is live and the
/// one and only `Running` process.
pub open spec fn current_wf(v: KernelView) -> bool {
    &&& (v.current matches Some(c) ==> pid_live(v, c) && state_of(v, c) is Running)
    &&& forall|i: int|
        0 <= i < v.procs.len() && ((#[trigger] v.procs[i]) matches Some(p) && p.state is Running)
            ==> v.current == Some(i as u8)
}

/// 1 once a process has been designated as running.
pub open spec fn cur_count(v: KernelView) -> int {
    if v.current is Some {
        1
    } else {
        0
    }
}

/// Every queued, sleeping or running process occupies a table slot, so the
/// queues can never outgrow the table.
pub open spec fn counts_wf(v: KernelView) -> bool {
    v.ready.len() + v.sleepers.len() + cur_count(v) <= n_live(v.procs)
}

/// Allocator well-formedness.
pub open spec fn alloc_wf(v: KernelView) -> bool {
    &&& v.stack_region.wf()
    &&& 0 <= v.stack_next <= v.stack_region.size
}

/// The kernel invariant: established at boot, preserved by every method.
pub open spec fn wf(v: KernelView) -> bool {
    &&& procs_wf(v)
    &&& ready_wf(v)
    &&& sleepers_wf(v)
    &&& current_wf(v)
    &&& counts_wf(v)
    &&& alloc_wf(v)
}

/// `v` after the running process `cur` hands the CPU to `next`: `cur`'s
/// PCB becomes `Ready`, `next`'s becomes `Running`, and `next` is the new
/// active pid. The queues are left to the callers of this helper.
pub open spec fn switch_to(v: KernelView, cur: u8, next: u8) -> KernelView {
    KernelView {
        current: Some(next),
        procs: v.procs.update(
            cur as int,
            Some(with_state(pcb_of(v, cur), ProcessState::Ready)),
        ).update(next as int, Some(with_state(pcb_of(v, next), ProcessState::Running))),
        ..v
    }
}

/// The voluntary-yield decision as a function of the kernel state. With no
/// active process the call is refused. With an empty ready queue there is
/// nobody to switch to: the running process keeps the CPU and the call is
/// a no-op. Otherwise the oldest ready pid is dispatched and the yielding
/// process, still runnable, goes to the back of the queue.
pub open spec fn yield_step(v: KernelView) -> (KernelView, Result<SwitchAction, SchedulerError>) {
    if v.current is None {
        (v, Err(SchedulerError::NoCurrent))
    } else if v.ready.len() == 0 {
        (v, Ok(SwitchAction::NoSwitch))
    } else {
        let cur = v.current->0;
        let next = v.ready[0];
        let v2 = KernelView { ready: v.ready.drop_first().push(cur), ..switch_to(v, cur, next) };
        (v2, Ok(SwitchAction::Switch { prev: cur, next, next_sp: pcb_of(v, next).sp }))
    }
}

/// The sleep decision as a function of the kernel state, the requested
/// duration and the sampled clock. The call is refused with `NoCurrent`
/// before the first dispatch, with `NoSpace` when the sleep queue is full,
/// and with `Empty` when no other process is ready (there would be nothing
/// left to run); a refused sleep changes nothing. Otherwise the running
/// process blocks until `now_us + duration_ms * 1000`, its sleep is
/// queued, and the oldest ready pid takes the CPU; the sleeper is not
/// re-queued as ready.
pub open spec fn sleep_step(v: KernelView, duration_ms: u32, now_us: u64) -> (
    KernelView,
    Result<SwitchAction, SchedulerError>,
) {
    if v.current is None {
        (v, Err(SchedulerError::NoCurrent))
    } else if v.sleepers.len() >= MAX_PROCS {
        (v, Err(SchedulerError::NoSpace))
    } else if v.ready.len() == 0 {
        (v, Err(SchedulerError::Empty))
    } else {
        let cur = v.current->0;
        let next = v.ready[0];
        let wake = (now_us + duration_ms * 1000) as u64;
        let blocked = ProcessState::Blocked(BlockReason::Sleeping(wake));
        let v2 = KernelView {
            ready: v.ready.drop_first(),
            sleepers: v.sleepers.push(SleepEntry { pid: cur, wake_time: wake }),
            procs: v.procs.update(cur as int, Some(with_state(pcb_of(v, cur), blocked))).update(
                next as int,
                Some(with_state(pcb_of(v, next), ProcessState::Running)),
            ),
            current: Some(next),
            ..v
        };
        (v2, Ok(SwitchAction::Switch { prev: cur, next, next_sp: pcb_of(v, next).sp }))
    }
}

/// The pids of a run of sleep entries, in order.
pub open spec fn pids_of(entries: Seq<SleepEntry>) -> Seq<u8> {
    entries.map_values(|e: SleepEntry| e.pid)
}

/// No pid owns two of the entries.
pub open spec fn distinct_pids(s: Seq<SleepEntry>) -> bool {
    forall|i: int, j: int| 0 <= i < j < s.len() ==> s[i].pid != s[j].pid
}

/// Among entries with distinct pids, a pid determines its entry.
pub proof fn lemma_entry_unique(s: Seq<SleepEntry>, a: SleepEntry, b: SleepEntry)
    requires
        distinct_pids(s),
        s.contains(a),
        s.contains(b),
        a.pid == b.pid,
    ensures
        a == b,
{
    let i = choose|i: int| 0 <= i < s.len() && s[i] == a;
    let j = choose|j: int| 0 <= j < s.len() && s[j] == b;
    if i != j {
        assert(s[i].pid != s[j].pid);
    }
}

/// Filtering keeps pids distinct.
pub proof fn lemma_filter_distinct(s: Seq<SleepEntry>, p: spec_fn(SleepEntry) -> bool)
    requires
        distinct_pids(s),
    ensures
        distinct_pids(s.filter(p)),
    decreases s.len(),
{
    reveal(Seq::filter);
    if s.len() > 0 {
        let rest = s.drop_last();
        assert(distinct_pids(rest)) by {
            assert(forall|i: int, j: int|
                0 <= i < j < rest.len() ==> s[i].pid != s[j].pid && rest[i] == s[i] && rest[j]
                    == s[j]);
        }
        lemma_filter_distinct(rest, p);
        if p(s.last()) {
            let f = rest.filter(p);
            assert forall|i: int| 0 <= i < f.len() implies f[i].pid != s.last().pid by {
                broadcast use Seq::lemma_filter_contains_rev;

                assert(f.contains(f[i]));
                assert(rest.contains(f[i]));
                let idx = choose|idx: int| 0 <= idx < rest.len() && rest[idx] == f[i];
                assert(s[idx] == f[i] && s[idx].pid != s[s.len() - 1].pid);
            }
        }
    }
}

/// Due and not-yet-due entries partition the queue.
pub proof fn lemma_due_partition(s: Seq<SleepEntry>, now_us: u64)
    ensures
        s.filter(due_at(now_us)).len() + s.filter(not_due_at(now_us)).len() == s.len(),
    decreases s.len(),
{
    reveal(Seq::filter);
    if s.len() > 0 {
        lemma_due_partition(s.drop_last(), now_us);
    }
}

/// `procs` with the pid of every entry made `Ready`, in order (a pid
/// outside the table is left alone; the kernel invariant rules that out).
pub open spec fn wake_procs(procs: Seq<Option<Pcb>>, entries: Seq<SleepEntry>) -> Seq<
    Option<Pcb>,
>
    decreases entries.len(),
{
    if entries.len() == 0 {
        procs
    } else {
        let rest = wake_procs(procs, entries.drop_last());
        let e = entries.last();
        if (e.pid as int) < rest.len() && rest[e.pid as int] is Some {
            rest.update(
                e.pid as int,
                Some(with_state(rest[e.pid as int]->0, ProcessState::Ready)),
            )
        } else {
            rest
        }
    }
}

/// The wake phase only flips states to `Ready`: it never adds, removes or
/// otherwise edits a table slot, and a slot whose pid owns no entry is
/// left exactly as it was.
pub proof fn lemma_wake_procs_props(procs: Seq<Option<Pcb>>, entries: Seq<SleepEntry>)
    ensures
        wake_procs(procs, entries).len() == procs.len(),
        forall|i: int|
            0 <= i < procs.len() ==> ((#[trigger] wake_procs(procs, entries)[i]) is Some
                <==> procs[i] is Some),
        forall|i: int|
            0 <= i < procs.len() && procs[i] is Some ==> ((#[trigger] wake_procs(
                procs,
                entries,
            )[i])->0 == procs[i]->0 || wake_procs(procs, entries)[i]->0 == with_state(
                procs[i]->0,
                ProcessState::Ready,
            )),
        forall|i: int|
            0 <= i < procs.len() && !pids_of(entries).contains(i as u8) ==> (#[trigger] wake_procs(
                procs,
                entries,
            )[i]) == procs[i],
        forall|j: int|
            0 <= j < entries.len() && ((#[trigger] entries[j]).pid as int) < procs.len()
                && procs[entries[j].pid as int] is Some ==> wake_procs(
                procs,
                entries,
            )[entries[j].pid as int]->0.state is Ready,
    decreases entries.len(),
{
    if entries.len() > 0 {
        let rest = entries.drop_last();
        let e = entries.last();
        lemma_wake_procs_props(procs, rest);
        assert(pids_of(entries) =~= pids_of(rest).push(e.pid));
        assert forall|i: int|
            0 <= i < procs.len() && !(#[trigger] pids_of(entries).contains(i as u8))
            implies !pids_of(rest).contains(i as u8) && i != e.pid as int by {
            if pids_of(rest).contains(i as u8) {
                let x = choose|x: int| 0 <= x < pids_of(rest).len() && pids_of(rest)[x] == i as u8;
                assert(pids_of(entries)[x] == i as u8);
            }
            assert(pids_of(entries)[pids_of(entries).len() - 1] == e.pid);
        }
        assert forall|j: int|
            0 <= j < entries.len() && ((#[trigger] entries[j]).pid as int) < procs.len()
                && procs[entries[j].pid as int] is Some implies wake_procs(
            procs,
            entries,
        )[entries[j].pid as int]->0.state is Ready by {
            let pid = entries[j].pid as int;
            let rw = wake_procs(procs, rest);
            if j < entries.len() - 1 {
                assert(rest[j] == entries[j]);
                assert(rw[pid]->0.state is Ready);
            } else {
                assert(rw[pid] is Some);
            }
        }
    }
}

/// The wake phase of a tick at `now_us`, stopped after the first `k` due
/// entries: those processes are `Ready` again and queued, in sleep-queue
/// order, behind the already-ready ones; the not-yet-due entries stay.
pub open spec fn wake_partial(v: KernelView, now_us: u64, k: int) -> KernelView {
    let woken = v.sleepers.filter(due_at(now_us));
    KernelView {
        procs: wake_procs(v.procs, woken.subrange(0, k)),
        ready: v.ready + pids_of(woken.subrange(0, k)),
        sleepers: v.sleepers.filter(not_due_at(now_us)),
        ..v
    }
}

/// The completed wake phase of a tick at `now_us`: every due sleep entry
/// leaves the queue and its process becomes `Ready` and runnable; wake is
/// never early, because only entries with `wake_time <= now_us` are due.
pub open spec fn wake_view(v: KernelView, now_us: u64) -> KernelView {
    wake_partial(v, now_us, v.sleepers.filter(due_at(now_us)).len() as int)
}

/// The timer-tick decision as a function of the kernel state and the
/// sampled clock: refuse before the first dispatch; otherwise wake the due
/// sleepers, then make exactly the decision a voluntary yield would make
/// on the woken state. A tick and a yield thus induce the same transition,
/// which is what lets a process suspended by one mechanism be resumed by
/// the other.
pub open spec fn tick_step(v: KernelView, now_us: u64) -> (
    KernelView,
    Result<SwitchAction, SchedulerError>,
) {
    if v.current is None {
        (v, Err(SchedulerError::NoCurrent))
    } else {
        yield_step(wake_view(v, now_us))
    }
}

/// Through the wake phase the kernel state stays consistent: the table and
/// active pid keep their invariants, the ready queue grows by exactly the
/// woken pids, pending due entries still belong to blocked processes, and
/// table occupancy never changes.
pub proof fn lemma_wake_phase(v: KernelView, now_us: u64, k: int)
    requires
        wf(v),
        v.current is Some,
        0 <= k <= v.sleepers.filter(due_at(now_us)).len(),
    ensures
        ({
            let woken = v.sleepers.filter(due_at(now_us));
            let w = wake_partial(v, now_us, k);
            &&& procs_wf(w)
            &&& current_wf(w)
            &&& w.ready.no_duplicates()
            &&& forall|j: int|
                0 <= j < w.ready.len() ==> pid_live(w, #[trigger] w.ready[j]) && state_of(
                    w,
                    w.ready[j],
                ) is Ready
            &&& w.ready.len() == v.ready.len() + k
            &&& w.ready.len() + (woken.len() - k) + w.sleepers.len() + 1 <= n_live(w.procs)
            &&& n_live(w.procs) == n_live(v.procs)
            &&& forall|j: int|
                k <= j < woken.len() ==> pid_live(w, (#[trigger] woken[j]).pid) && state_of(
                    w,
                    woken[j].pid,
                ) == ProcessState::Blocked(BlockReason::Sleeping(woken[j].wake_time))
            &&& forall|j: int|
                0 <= j < k ==> pid_live(w, (#[trigger] woken[j]).pid) && state_of(
                    w,
                    woken[j].pid,
                ) is Ready
            &&& forall|j: int|
                0 <= j < w.sleepers.len() ==> pid_live(w, (#[trigger] w.sleepers[j]).pid)
                    && state_of(w, w.sleepers[j].pid) == ProcessState::Blocked(
                    BlockReason::Sleeping(w.sleepers[j].wake_time),
                )
            &&& k == woken.len() ==> wf(w)
        }),
    decreases k,
{
    let woken = v.sleepers.filter(due_at(now_us));
    let keep = v.sleepers.filter(not_due_at(now_us));
    let w = wake_partial(v, now_us, k);
    broadcast use Seq::lemma_filter_contains_rev;
    broadcast use Seq::lemma_filter_len;
    broadcast use Seq::lemma_index_contains;

    lemma_filter_distinct(v.sleepers, due_at(now_us));
    lemma_filter_distinct(v.sleepers, not_due_at(now_us));
    lemma_due_partition(v.sleepers, now_us);
    lemma_n_live_le_len(v.procs);
    // every entry of a filtered run keeps the facts the sleep queue gives it
    assert forall|e: SleepEntry| v.sleepers.contains(e) implies pid_live(v, e.pid) && state_of(
        v,
        e.pid,
    ) == ProcessState::Blocked(BlockReason::Sleeping(e.wake_time)) by {
        let idx = choose|idx: int| 0 <= idx < v.sleepers.len() && v.sleepers[idx] == e;
        assert(pid_live(v, v.sleepers[idx].pid));
    }
    if k == 0 {
        assert(woken.subrange(0, 0) =~= Seq::<SleepEntry>::empty());
        assert(w.procs == v.procs);
        assert(pids_of(woken.subrange(0, 0)) =~= Seq::<u8>::empty());
        assert(w.ready =~= v.ready);
    } else {
        lemma_wake_phase(v, now_us, k - 1);
        let wp = wake_partial(v, now_us, k - 1);
        let e = woken[k - 1];
        assert(woken.subrange(0, k).drop_last() =~= woken.subrange(0, k - 1));
        assert(woken.subrange(0, k).last() == e);
        assert(pid_live(wp, e.pid) && state_of(wp, e.pid) is Blocked);
        assert(w.procs == wp.procs.update(
            e.pid as int,
            Some(with_state(pcb_of(wp, e.pid), ProcessState::Ready)),
        ));
        assert(pids_of(woken.subrange(0, k)) =~= pids_of(woken.subrange(0, k - 1)).push(e.pid));
        assert(w.ready =~= wp.ready.push(e.pid));
        lemma_n_live_update(
            wp.procs,
            e.pid as int,
            Some(with_state(pcb_of(wp, e.pid), ProcessState::Ready)),
        );
        // the woken pid was blocked, so it was in no queue position yet
        assert forall|j: int| 0 <= j < wp.ready.len() implies wp.ready[j] != e.pid by {
            assert(state_of(wp, wp.ready[j]) is Ready);
        }
        // distinct pids keep every other tracked entry untouched
        assert forall|j: int| k <= j < woken.len() implies (#[trigger] woken[j]).pid != e.pid by {
            assert(distinct_pids(woken));
        }
        assert forall|j: int| 0 <= j < keep.len() implies (#[trigger] keep[j]).pid != e.pid by {
            assert(v.sleepers.contains(keep[j]));
            assert(v.sleepers.contains(e));
            if keep[j].pid == e.pid {
                lemma_entry_unique(v.sleepers, keep[j], e);
                assert((due_at(now_us))(e));
                assert((not_due_at(now_us))(keep[j]));
            }
        }
    }
    if k == woken.len() {
        assert(woken.subrange(0, k) =~= woken);
        lemma_wake_procs_props(v.procs, woken);
        // a process still blocked after the wake phase kept its not-yet-due
        // entry
        assert forall|i: int|
            0 <= i < w.procs.len() && ((#[trigger] w.procs[i]) matches Some(p)
                && p.state is Blocked) implies exists|x: int|
            0 <= x < w.sleepers.len() && (#[trigger] w.sleepers[x]).pid == i by {
            assert(v.procs[i] is Some);
            // the wake phase only flips states to ready, so `i` was already
            // blocked before it
            assert(state_of(v, i as u8) is Blocked);
            let x0 = choose|x0: int|
                0 <= x0 < v.sleepers.len() && (#[trigger] v.sleepers[x0]).pid == i;
            let e0 = v.sleepers[x0];
            if (due_at(now_us))(e0) {
                // the entry was due, so the wake phase made `i` ready
                v.sleepers.lemma_filter_contains(due_at(now_us), x0);
                let jw = choose|jw: int| 0 <= jw < woken.len() && woken[jw] == e0;
                assert(woken[jw].pid as int == i && v.procs[i] is Some);
                assert(state_of(w, e0.pid) is Ready);
                assert(false);
            } else {
                v.sleepers.lemma_filter_contains(not_due_at(now_us), x0);
                let x = choose|x: int| 0 <= x < keep.len() && keep[x] == e0;
                assert(w.sleepers[x].pid == i);
            }
        }
    }
}

/// The composite kernel state. It is built once at boot and never torn
/// down; all mutation goes through the methods below.
pub struct Kernel {
    procs: Vec<Option<Pcb>>,
    current: Option<u8>,
    ready: ReadyQueue,
    sleepers: SleepQueue,
    allocator: StackAllocator,
    next_pid: u8,
}

impl View for Kernel {
    type V = KernelView;

    closed spec fn view(&self) -> KernelView {
        KernelView {
            procs: self.procs@,
            current: self.current,
            ready: self.ready.pids(),
            sleepers: self.sleepers@,
            next_pid: self.next_pid,
            stack_region: self.allocator.region_spec(),
            stack_next: self.allocator.next_free_spec(),
        }
    }
}

impl Kernel {
    /// A fresh kernel over the given memory layout: empty table, empty
    /// queues, no active process, stacks to be carved out of
    /// `layout.processes`.
    pub fn new(layout: MemoryLayout) -> (k: Kernel)
        requires
            layout.processes.wf(),
        ensures
            wf(k@),
            k@.procs.len() == MAX_PROCS,
            forall|i: int| 0 <= i < k@.procs.len() ==> k@.procs[i] is None,
            k@.current is None,
            k@.ready == Seq::<u8>::empty(),
            k@.sleepers == Seq::<SleepEntry>::empty(),
            k@.next_pid == 0,
            k@.stack_region == layout.processes,
            k@.stack_next == 0,
    {
        let mut procs: Vec<Option<Pcb>> = Vec::new();
        let mut i: usize = 0;
        while i < MAX_PROCS
            invariant
                i <= MAX_PROCS,
                procs@.len() == i,
                forall|k: int| 0 <= k < i ==> procs@[k] is None,
            decreases MAX_PROCS - i,
        {
            procs.push(None);
            i = i + 1;
        }
        let k = Kernel {
            procs,
            current: None,
            ready: ReadyQueue::new(),
            sleepers: SleepQueue::new(),
            allocator: StackAllocator::new(layout.processes),
            next_pid: 0,
        };
        proof {
            lemma_n_live_le_len(k@.procs);
        }
        k
    }

    /// The active pid, or `None` before the first dispatch.
    pub fn current(&self) -> (r: Option<u8>)
        ensures
            r == self@.current,
    {
        self.current
    }

    /// The PCB in `pid`'s table slot, if any.
    pub fn process(&self, pid: u8) -> (r: Option<Pcb>)
        ensures
            (pid as int) < self@.procs.len() ==> r == self@.procs[pid as int],
            (pid as int) >= self@.procs.len() ==> r is None,
    {
        if (pid as usize) < self.procs.len() {
            self.procs[pid as usize]
        } else {
            None
        }
    }

    /// Builds a new process: carves its stack out of the process region,
    /// assigns the next pid, and describes the synthesized first-run frame
    /// through the returned PCB, whose saved stack pointer sits one frame
    /// below the stack end (the caller materializes the frame words there;
    /// see [`crate::frame::build_initial_frame`]). The caller then inserts
    /// the PCB with [`Kernel::insert_process`].
    ///
    /// Fails with `InvalidSize` when the request cannot hold even one
    /// saved frame, and with `NoMemory` when the process region or the
    /// process table is exhausted; on failure nothing changes.
    pub fn create_process(&mut self, entry: u32, stack_size: usize, arg: u32) -> (r: Result<
        Pcb,
        ProcessError,
    >)
        requires
            wf(old(self)@),
        ensures
            wf(final(self)@),
            r is Err ==> final(self)@ == old(self)@,
            stack_size < FRAME_BYTES ==> r == Err::<Pcb, ProcessError>(ProcessError::InvalidSize),
            stack_size >= FRAME_BYTES && (old(self)@.next_pid >= MAX_PROCS || stack_size > old(self)@.stack_region.size - old(self)@.stack_next) ==> r == Err::<Pcb, ProcessError>(
                ProcessError::NoMemory,
            ),
            stack_size >= FRAME_BYTES && old(self)@.next_pid < MAX_PROCS && stack_size <= old(self)@.stack_region.size - old(self)@.stack_next ==> ({
                let base = (old(self)@.stack_region.start + old(self)@.stack_next) as usize;
                &&& r == Ok::<Pcb, ProcessError>(
                    (Pcb {
                        pid: old(self)@.next_pid,
                        state: ProcessState::Ready,
                        sp: initial_sp(base as int, stack_size as int) as usize,
                        stack_base: base,
                        stack_size: stack_size,
                    }),
                )
                &&& final(self)@ == (KernelView {
                    next_pid: (old(self)@.next_pid + 1) as u8,
                    stack_next: old(self)@.stack_next + stack_size,
                    ..old(self)@
                })
            }),
    {
        if stack_size < FRAME_BYTES {
            return Err(ProcessError::InvalidSize);
        }
        if (self.next_pid as usize) >= MAX_PROCS {
            return Err(ProcessError::NoMemory);
        }
        let base = match self.allocator.allocate(stack_size) {
            Ok(b) => b,
            Err(e) => {
                return Err(e);
            },
        };
        let sp = base + stack_size - FRAME_BYTES;
        let pid = self.next_pid;
        self.next_pid = self.next_pid + 1;
        let pcb = Pcb { pid, state: ProcessState::Ready, sp, stack_base: base, stack_size };
        proof {
            assert(self@ =~= (KernelView {
                next_pid: (old(self)@.next_pid + 1) as u8,
                stack_next: old(self)@.stack_next + stack_size,
                ..old(self)@
            }));
        }
        Ok(pcb)
    }

    /// Puts a freshly created PCB into its table slot and queues it as
    /// ready. Returns `false`, changing nothing, unless the PCB is one this
    /// kernel handed out and not yet inserted: its pid below `next_pid`
    /// with an empty slot, its state `Ready`, its stack able to hold a
    /// frame where its saved stack pointer says.
    pub fn insert_process(&mut self, pcb: Pcb) -> (r: bool)
        requires
            wf(old(self)@),
        ensures
            wf(final(self)@),
            r == (pcb.pid < old(self)@.next_pid && old(self)@.procs[pcb.pid as int] is None
                && pcb.state is Ready && pcb.wf()),
            r ==> final(self)@ == (KernelView {
                procs: old(self)@.procs.update(pcb.pid as int, Some(pcb)),
                ready: old(self)@.ready.push(pcb.pid),
                ..old(self)@
            }),
            !r ==> final(self)@ == old(self)@,
    {
        if !(pcb.pid < self.next_pid) {
            return false;
        }
        proof {
            assert((pcb.pid as usize) < MAX_PROCS);
        }
        if self.procs[pcb.pid as usize].is_some() {
            return false;
        }
        if !(pcb.state == ProcessState::Ready) {
            return false;
        }
        if !(pcb.stack_size <= usize::MAX - pcb.stack_base && pcb.stack_base <= pcb.sp && pcb.sp
            <= usize::MAX - FRAME_BYTES && pcb.sp + FRAME_BYTES <= pcb.stack_base
            + pcb.stack_size) {
            return false;
        }
        proof {
            lemma_n_live_le_len(old(self)@.procs.update(pcb.pid as int, Some(pcb)));
            lemma_n_live_update(old(self)@.procs, pcb.pid as int, Some(pcb));
        }
        self.procs[pcb.pid as usize] = Some(pcb);
        let res = self.ready.enqueue(pcb.pid);
        proof {
            assert(res is Ok);
            assert(self@ =~= (KernelView {
                procs: old(self)@.procs.update(pcb.pid as int, Some(pcb)),
                ready: old(self)@.ready.push(pcb.pid),
                ..old(self)@
            }));
        }
        true
    }

    /// First dispatch: takes the oldest ready pid and designates it as the
    /// running process. Returns the pid and its saved stack pointer, where
    /// the hardware's first-run restore routine finds the synthesized
    /// frame. Fails with `Empty`, changing nothing, exactly when no process
    /// is ready.
    pub fn start(&mut self) -> (r: Result<(u8, usize), SchedulerError>)
        requires
            wf(old(self)@),
            old(self)@.current is None,
        ensures
            wf(final(self)@),
            old(self)@.ready.len() == 0 ==> r == Err::<(u8, usize), SchedulerError>(
                SchedulerError::Empty,
            ) && final(self)@ == old(self)@,
            old(self)@.ready.len() > 0 ==> ({
                let pid = old(self)@.ready[0];
                &&& r == Ok::<(u8, usize), SchedulerError>((pid, pcb_of(old(self)@, pid).sp))
                &&& final(self)@ == (KernelView {
                    current: Some(pid),
                    ready: old(self)@.ready.drop_first(),
                    procs: old(self)@.procs.update(
                        pid as int,
                        Some(with_state(pcb_of(old(self)@, pid), ProcessState::Running)),
                    ),
                    ..old(self)@
                })
            }),
    {
        if self.ready.len() == 0 {
            return Err(SchedulerError::Empty);
        }
        let pid = self.ready.dequeue().unwrap();
        proof {
            assert(pid_live(old(self)@, pid));
            lemma_n_live_update(
                old(self)@.procs,
                pid as int,
                Some(with_state(pcb_of(old(self)@, pid), ProcessState::Running)),
            );
        }
        let mut pcb = self.procs[pid as usize].unwrap();
        let sp = pcb.sp;
        pcb.state = ProcessState::Running;
        self.procs[pid as usize] = Some(pcb);
        self.current = Some(pid);
        proof {
            assert(self@ =~= (KernelView {
                current: Some(pid),
                ready: old(self)@.ready.drop_first(),
                procs: old(self)@.procs.update(
                    pid as int,
                    Some(with_state(pcb_of(old(self)@, pid), ProcessState::Running)),
                ),
                ..old(self)@
            }));
        }
        Ok((pid, sp))
    }

    /// After the hardware has parked a process, records where its saved
    /// frame now lives. Returns `false`, changing nothing, unless `pid` is
    /// live and `sp` addresses a full frame inside `pid`'s own stack.
    pub fn record_saved_sp(&mut self, pid: u8, sp: usize) -> (r: bool)
        requires
            wf(old(self)@),
        ensures
            wf(final(self)@),
            r == (pid_live(old(self)@, pid) && ({
                let p = pcb_of(old(self)@, pid);
                p.stack_base <= sp && sp + FRAME_BYTES <= p.stack_base + p.stack_size
            })),
            r ==> final(self)@ == (KernelView {
                procs: old(self)@.procs.update(
                    pid as int,
                    Some((Pcb { sp, ..pcb_of(old(self)@, pid) })),
                ),
                ..old(self)@
            }),
            !r ==> final(self)@ == old(self)@,
    {
        if (pid as usize) >= MAX_PROCS {
            return false;
        }
        let slot = self.procs[pid as usize];
        let p = match slot {
            None => {
                return false;
            },
            Some(p) => p,
        };
        if !(p.stack_base <= sp && sp <= usize::MAX - FRAME_BYTES && sp + FRAME_BYTES
            <= p.stack_base + p.stack_size) {
            proof {
                assert(p.wf());
            }
            return false;
        }
        proof {
            lemma_n_live_update(old(self)@.procs, pid as int, Some((Pcb { sp, ..p })));
        }
        self.procs[pid as usize] = Some(Pcb { sp, ..p });
        proof {
            assert(self@ =~= (KernelView {
                procs: old(self)@.procs.update(
                    pid as int,
                    Some((Pcb { sp, ..pcb_of(old(self)@, pid) })),
                ),
                ..old(self)@
            }));
        }
        true
    }

    /// Voluntary yield: gives the CPU to the oldest ready process, queueing
    /// the yielding one at the back, per [`yield_step`]. The returned
    /// action tells the caller which register switch, if any, to perform.
    pub fn yield_now(&mut self) -> (r: Result<SwitchAction, SchedulerError>)
        requires
            wf(old(self)@),
        ensures
            wf(final(self)@),
            (final(self)@, r) == yield_step(old(self)@),
    {
        let cur = match self.current {
            None => {
                return Err(SchedulerError::NoCurrent);
            },
            Some(c) => c,
        };
        if self.ready.len() == 0 {
            return Ok(SwitchAction::NoSwitch);
        }
        let next = self.ready.dequeue().unwrap();
        let res = self.ready.enqueue(cur);
        proof {
            assert(res is Ok);
            assert(pid_live(old(self)@, cur));
            assert(pid_live(old(self)@, next));
            lemma_n_live_update(
                old(self)@.procs,
                cur as int,
                Some(with_state(pcb_of(old(self)@, cur), ProcessState::Ready)),
            );
            lemma_n_live_update(
                old(self)@.procs.update(
                    cur as int,
                    Some(with_state(pcb_of(old(self)@, cur), ProcessState::Ready)),
                ),
                next as int,
                Some(with_state(pcb_of(old(self)@, next), ProcessState::Running)),
            );
        }
        let mut cur_pcb = self.procs[cur as usize].unwrap();
        cur_pcb.state = ProcessState::Ready;
        self.procs[cur as usize] = Some(cur_pcb);
        let mut next_pcb = self.procs[next as usize].unwrap();
        let next_sp = next_pcb.sp;
        next_pcb.state = ProcessState::Running;
        self.procs[next as usize] = Some(next_pcb);
        self.current = Some(next);
        proof {
            assert(self@ =~= yield_step(old(self)@).0);
        }
        Ok(SwitchAction::Switch { prev: cur, next, next_sp })
    }

    /// Puts the running process to sleep for `duration_ms` milliseconds
    /// from `now_us`, the sampled monotonic microsecond clock, per
    /// [`sleep_step`]. The sleeper becomes runnable again only once a tick
    /// observes its wake time to have passed — never earlier.
    pub fn sleep_ms(&mut self, duration_ms: u32, now_us: u64) -> (r: Result<
        SwitchAction,
        SchedulerError,
    >)
        requires
            wf(old(self)@),
            now_us + duration_ms * 1000 <= u64::MAX,
        ensures
            wf(final(self)@),
            (final(self)@, r) == sleep_step(old(self)@, duration_ms, now_us),
    {
        let cur = match self.current {
            None => {
                return Err(SchedulerError::NoCurrent);
            },
            Some(c) => c,
        };
        if self.sleepers.len() >= MAX_PROCS {
            return Err(SchedulerError::NoSpace);
        }
        if self.ready.len() == 0 {
            return Err(SchedulerError::Empty);
        }
        let wake = now_us + (duration_ms as u64) * 1000;
        let next = self.ready.dequeue().unwrap();
        let res = self.sleepers.enqueue(SleepEntry { pid: cur, wake_time: wake });
        let ghost blocked = ProcessState::Blocked(BlockReason::Sleeping(wake));
        proof {
            assert(res is Ok);
            assert(pid_live(old(self)@, cur));
            assert(pid_live(old(self)@, next));
            lemma_n_live_update(
                old(self)@.procs,
                cur as int,
                Some(with_state(pcb_of(old(self)@, cur), blocked)),
            );
            lemma_n_live_update(
                old(self)@.procs.update(
                    cur as int,
                    Some(with_state(pcb_of(old(self)@, cur), blocked)),
                ),
                next as int,
                Some(with_state(pcb_of(old(self)@, next), ProcessState::Running)),
            );
        }
        let mut cur_pcb = self.procs[cur as usize].unwrap();
        cur_pcb.state = ProcessState::Blocked(BlockReason::Sleeping(wake));
        self.procs[cur as usize] = Some(cur_pcb);
        let mut next_pcb = self.procs[next as usize].unwrap();
        let next_sp = next_pcb.sp;
        next_pcb.state = ProcessState::Running;
        self.procs[next as usize] = Some(next_pcb);
        self.current = Some(next);
        proof {
            assert(self@ =~= sleep_step(old(self)@, duration_ms, now_us).0);
            let v0 = old(self)@;
            let v2 = self@;
            assert forall|i: int|
                0 <= i < v2.procs.len() && ((#[trigger] v2.procs[i]) matches Some(p)
                    && p.state is Blocked) implies exists|k: int|
                0 <= k < v2.sleepers.len() && (#[trigger] v2.sleepers[k]).pid == i by {
                if i == cur as int {
                    assert(v2.sleepers[v2.sleepers.len() - 1].pid == i);
                } else {
                    assert(v0.procs[i] is Some && v0.procs[i]->0.state is Blocked);
                    let k = choose|k: int|
                        0 <= k < v0.sleepers.len() && (#[trigger] v0.sleepers[k]).pid == i;
                    assert(v2.sleepers[k].pid == i);
                }
            }
        }
        Ok(SwitchAction::Switch { prev: cur, next, next_sp })
    }

    /// Timer tick: wakes every sleeper whose wake time has passed — never
    /// one whose has not — then hands the CPU on exactly as a voluntary
    /// yield would, per [`tick_step`]. The caller re-arms the hardware
    /// timer before calling and performs the returned action after; when
    /// only the running process is runnable the action is `NoSwitch` and
    /// the tick is not observable to it.
    pub fn tick(&mut self, now_us: u64) -> (r: Result<SwitchAction, SchedulerError>)
        requires
            wf(old(self)@),
        ensures
            wf(final(self)@),
            (final(self)@, r) == tick_step(old(self)@, now_us),
    {
        if self.current.is_none() {
            return Err(SchedulerError::NoCurrent);
        }
        let ghost v0 = old(self)@;
        let woken = self.sleepers.drain_due(now_us);
        let ghost wseq = v0.sleepers.filter(due_at(now_us));
        proof {
            lemma_wake_phase(v0, now_us, 0);
            lemma_n_live_le_len(v0.procs);
            assert(wseq.subrange(0, 0) =~= Seq::<SleepEntry>::empty());
            assert(pids_of(wseq.subrange(0, 0)) =~= Seq::<u8>::empty());
            assert(self@.ready =~= v0.ready + pids_of(wseq.subrange(0, 0)));
            assert(self@ =~= wake_partial(v0, now_us, 0));
        }
        let mut k: usize = 0;
        while k < woken.len()
            invariant
                wf(v0),
                v0.current is Some,
                woken@ == v0.sleepers.filter(due_at(now_us)),
                wseq == v0.sleepers.filter(due_at(now_us)),
                k <= woken@.len(),
                self@ == wake_partial(v0, now_us, k as int),
            decreases woken@.len() - k,
        {
            proof {
                lemma_wake_phase(v0, now_us, k as int);
                lemma_n_live_le_len(v0.procs);
                assert(wseq[k as int] == woken@[k as int]);
                assert(pid_live(self@, wseq[k as int].pid));
            }
            let e = woken[k];
            let mut pcb = self.procs[e.pid as usize].unwrap();
            pcb.state = ProcessState::Ready;
            self.procs[e.pid as usize] = Some(pcb);
            let res = self.ready.enqueue(e.pid);
            proof {
                assert(res is Ok);
                assert(wseq.subrange(0, k + 1).drop_last() =~= wseq.subrange(0, k as int));
                assert(wseq.subrange(0, k + 1).last() == e);
                assert(pids_of(wseq.subrange(0, k + 1)) =~= pids_of(
                    wseq.subrange(0, k as int),
                ).push(e.pid));
                assert(self@ =~= wake_partial(v0, now_us, k as int + 1));
            }
            k = k + 1;
        }
        proof {
            lemma_wake_phase(v0, now_us, wseq.len() as int);
            assert(self@ =~= wake_view(v0, now_us));
            assert(wf(self@));
        }
        self.yield_now()
    }
}

} // verus!
