//! The scheduling laws, proved over the kernel's decision functions.

use vstd::prelude::*;
use crate::kernel::{
    lemma_n_live_update, lemma_wake_phase, lemma_wake_procs_props, pcb_of, pid_live, pids_of,
    state_of, tick_step, wake_view, wf, with_state, yield_step, KernelView, SwitchAction,
};
use crate::process::{BlockReason, ProcessState, MAX_PROCS};
use crate::scheduler::SchedulerError;
use crate::sleep::{due, due_at, not_due_at, SleepEntry};

verus! {

/// The order in which the runnable processes will receive the CPU: the
/// running process now, then the ready queue, oldest first.
pub open spec fn run_order(v: KernelView) -> Seq<u8> {
    seq![v.current->0] + v.ready
}

/// One round-robin step of a pid sequence: the front moves to the back.
pub open spec fn rotate(s: Seq<u8>) -> Seq<u8> {
    if s.len() == 0 {
        s
    } else {
        s.drop_first().push(s[0])
    }
}

/// `n` round-robin steps.
pub open spec fn rotate_n(s: Seq<u8>, n: nat) -> Seq<u8>
    decreases n,
{
    if n == 0 {
        s
    } else {
        rotate_n(rotate(s), (n - 1) as nat)
    }
}

/// `k` rotations of a sequence cut it at `k`: the first `k` elements have
/// moved, in order, to the back.
pub proof fn lemma_rotate_n_cut(s: Seq<u8>, k: nat)
    requires
        k <= s.len(),
    ensures
        rotate_n(s, k) == s.subrange(k as int, s.len() as int) + s.subrange(0, k as int),
    decreases k,
{
    if k == 0 {
        assert(rotate_n(s, 0) =~= s.subrange(0, s.len() as int) + s.subrange(0, 0));
    } else {
        lemma_rotate_n_cut(s, (k - 1) as nat);
        assert(rotate_n(s, k) == rotate(rotate_n(s, (k - 1) as nat))) by {
            lemma_rotate_n_shift(s, (k - 1) as nat);
        }
        assert(rotate(s.subrange(k - 1, s.len() as int) + s.subrange(0, k - 1)) =~= s.subrange(
            k as int,
            s.len() as int,
        ) + s.subrange(0, k as int));
    }
}

/// Rotating `n + 1` times is rotating `n` times, then once more.
pub proof fn lemma_rotate_n_shift(s: Seq<u8>, n: nat)
    ensures
        rotate_n(s, n + 1) == rotate(rotate_n(s, n)),
    decreases n,
{
    assert(rotate_n(s, n + 1) == rotate_n(rotate(s), n));
    if n == 0 {
        assert(rotate_n(rotate(s), 0) == rotate(s));
        assert(rotate_n(s, 0) == s);
    } else {
        lemma_rotate_n_shift(rotate(s), (n - 1) as nat);
        assert(rotate_n(s, n) == rotate_n(rotate(s), (n - 1) as nat));
    }
}

/// A full round-robin cycle restores the original order: after as many
/// scheduling steps as there are runnable processes, the queue holds them
/// again in the original order.
pub proof fn lemma_rotate_cycle(s: Seq<u8>)
    ensures
        rotate_n(s, s.len()) == s,
{
    lemma_rotate_n_cut(s, s.len());
    assert(s.subrange(s.len() as int, s.len() as int) + s.subrange(0, s.len() as int) =~= s);
}

/// A voluntary yield rotates the run order by exactly one position and
/// succeeds: the yielding process goes to the back, everyone else moves up
/// one place, nobody is dropped and nobody is added. With an empty ready
/// queue the rotation is the identity and the yield is a visible no-op.
pub proof fn lemma_yield_rotates(v: KernelView)
    requires
        wf(v),
        v.current is Some,
    ensures
        run_order(yield_step(v).0) == rotate(run_order(v)),
        yield_step(v).1 is Ok,
{
    let (v2, r) = yield_step(v);
    if v.ready.len() == 0 {
        assert(run_order(v2) =~= rotate(run_order(v)));
    } else {
        let cur = v.current->0;
        assert(run_order(v2) =~= seq![v.ready[0]] + (v.ready.drop_first().push(cur)));
        assert(rotate(run_order(v)) =~= seq![v.ready[0]] + (v.ready.drop_first().push(cur)));
    }
}

/// The kernel state after `n` consecutive voluntary yields.
pub open spec fn yield_n(v: KernelView, n: nat) -> KernelView
    decreases n,
{
    if n == 0 {
        v
    } else {
        yield_n(yield_step(v).0, (n - 1) as nat)
    }
}

/// A yield decision preserves the kernel invariant and keeps a process
/// running.
pub proof fn lemma_yield_step_wf(v: KernelView)
    requires
        wf(v),
        v.current is Some,
    ensures
        wf(yield_step(v).0),
        yield_step(v).0.current is Some,
{
    if v.ready.len() > 0 {
        let cur = v.current->0;
        let next = v.ready[0];
        let v2 = yield_step(v).0;
        lemma_n_live_update(
            v.procs,
            cur as int,
            Some(with_state(pcb_of(v, cur), ProcessState::Ready)),
        );
        lemma_n_live_update(
            v.procs.update(cur as int, Some(with_state(pcb_of(v, cur), ProcessState::Ready))),
            next as int,
            Some(with_state(pcb_of(v, next), ProcessState::Running)),
        );
    }
}

/// Round-robin fairness: starting from any consistent state, `n` yields
/// rotate the run order `n` times, so after one yield per runnable process
/// the original order stands again and every process has been at the front
/// exactly once in between.
pub proof fn lemma_round_robin_fairness(v: KernelView, n: nat)
    requires
        wf(v),
        v.current is Some,
    ensures
        wf(yield_n(v, n)),
        yield_n(v, n).current is Some,
        run_order(yield_n(v, n)) == rotate_n(run_order(v), n),
        n == run_order(v).len() ==> run_order(yield_n(v, n)) == run_order(v),
    decreases n,
{
    if n == 0 {
    } else {
        lemma_yield_rotates(v);
        lemma_yield_step_wf(v);
        lemma_round_robin_fairness(yield_step(v).0, (n - 1) as nat);
        lemma_rotate_n_shift_front(run_order(v), (n - 1) as nat);
    }
    if n == run_order(v).len() {
        lemma_rotate_cycle(run_order(v));
    }
}

/// Rotating `n + 1` times is rotating once, then `n` times.
pub proof fn lemma_rotate_n_shift_front(s: Seq<u8>, n: nat)
    ensures
        rotate_n(s, n + 1) == rotate_n(rotate(s), n),
{
}

/// Self-switch no-op: when the running process is the only runnable one,
/// a yield succeeds without switching and changes nothing at all, so any
/// number of repeated yields leaves the active pid where it was.
pub proof fn lemma_self_switch_noop(v: KernelView)
    requires
        wf(v),
        v.current is Some,
        v.ready.len() == 0,
    ensures
        yield_step(v) == (v, Ok::<SwitchAction, SchedulerError>(SwitchAction::NoSwitch)),
        yield_n(v, 1) == v,
{
    assert(yield_n(v, 1) == yield_n(yield_step(v).0, 0));
    assert(yield_n(yield_step(v).0, 0) == yield_step(v).0);
}

/// The state transitions a single process may legally make, at clock
/// `now_us`: keep its state; be scheduled out (`Running` to `Ready`) or in
/// (`Ready` to `Running`); block itself until a wake time not in the past;
/// or wake, only once its wake time has passed.
pub open spec fn legal_transition(pre: ProcessState, post: ProcessState, now_us: u64) -> bool {
    ||| pre == post
    ||| (pre is Running && post is Ready)
    ||| (pre is Ready && post is Running)
    ||| (pre is Running && (post matches ProcessState::Blocked(BlockReason::Sleeping(w)) && w
        >= now_us))
    ||| (pre matches ProcessState::Blocked(BlockReason::Sleeping(w)) && post is Ready && now_us
        >= w)
}

/// State-machine legality of the voluntary yield: every process either
/// keeps its state or moves between `Running` and `Ready` by this
/// scheduling decision; nobody blocks or wakes.
pub proof fn lemma_yield_legal(v: KernelView, pid: u8, now_us: u64)
    requires
        wf(v),
        pid_live(v, pid),
    ensures
        legal_transition(state_of(v, pid), state_of(yield_step(v).0, pid), now_us),
{
}

/// State-machine legality of sleep: the running process blocks until a
/// wake time in the future, the dispatched process moves `Ready` to
/// `Running`, and every other process keeps its state.
pub proof fn lemma_sleep_legal(v: KernelView, duration_ms: u32, now_us: u64, pid: u8)
    requires
        wf(v),
        pid_live(v, pid),
        now_us + duration_ms * 1000 <= u64::MAX,
    ensures
        legal_transition(
            state_of(v, pid),
            state_of(crate::kernel::sleep_step(v, duration_ms, now_us).0, pid),
            now_us,
        ),
{
}

/// State-machine legality of the timer tick, phase by phase: the wake
/// phase moves a process only from `Blocked` to `Ready`, and only once its
/// wake time has passed; the dispatch phase then acts exactly as a
/// voluntary yield on the woken state.
pub proof fn lemma_tick_legal(v: KernelView, now_us: u64, pid: u8)
    requires
        wf(v),
        pid_live(v, pid),
        v.current is Some,
    ensures
        legal_transition(state_of(v, pid), state_of(wake_view(v, now_us), pid), now_us),
        legal_transition(
            state_of(wake_view(v, now_us), pid),
            state_of(tick_step(v, now_us).0, pid),
            now_us,
        ),
{
    let woken = v.sleepers.filter(due_at(now_us));
    let w = wake_view(v, now_us);
    lemma_wake_phase(v, now_us, woken.len() as int);
    lemma_wake_procs_props(v.procs, woken);
    assert(woken.subrange(0, woken.len() as int) =~= woken);
    if w.procs[pid as int] != v.procs[pid as int] {
        {
            // only a woken pid was touched, so it had a due entry: it was
            // blocked exactly until that entry's wake time, now passed
            assert(pids_of(woken).contains(pid));
            let j = choose|j: int| 0 <= j < pids_of(woken).len() && pids_of(woken)[j] == pid;
            let e = woken[j];
            broadcast use Seq::lemma_filter_contains_rev;
            broadcast use Seq::lemma_filter_pred;
            broadcast use Seq::lemma_index_contains;

            let x = choose|x: int| 0 <= x < v.sleepers.len() && v.sleepers[x] == e;
            assert(state_of(v, pid) == ProcessState::Blocked(BlockReason::Sleeping(e.wake_time)));
            assert(due(e, now_us));
            assert(w.procs[pid as int]->0.state is Ready);
        }
    }
    // the dispatch phase is a yield on the woken state
    assert(pid_live(w, pid));
    lemma_yield_legal(w, pid, now_us);
}

/// Sleep monotonicity, first half: a sleeping process is never woken
/// early. A tick at any time before the wake time leaves the process
/// blocked, with the same wake time.
pub proof fn lemma_no_early_wake(v: KernelView, now_us: u64, pid: u8, w: u64)
    requires
        wf(v),
        v.current is Some,
        state_of(v, pid) == ProcessState::Blocked(BlockReason::Sleeping(w)),
        pid_live(v, pid),
        now_us < w,
    ensures
        state_of(tick_step(v, now_us).0, pid) == ProcessState::Blocked(BlockReason::Sleeping(w)),
{
    lemma_tick_legal(v, now_us, pid);
}

/// Sleep monotonicity, second half: a tick at or after the wake time makes
/// the sleeping process runnable again — ready, or already dispatched.
pub proof fn lemma_due_wake(v: KernelView, now_us: u64, pid: u8, w: u64)
    requires
        wf(v),
        v.current is Some,
        state_of(v, pid) == ProcessState::Blocked(BlockReason::Sleeping(w)),
        pid_live(v, pid),
        now_us >= w,
    ensures
        state_of(tick_step(v, now_us).0, pid) is Ready || state_of(
            tick_step(v, now_us).0,
            pid,
        ) is Running,
{
    let woken = v.sleepers.filter(due_at(now_us));
    let wv = wake_view(v, now_us);
    lemma_wake_phase(v, now_us, woken.len() as int);
    lemma_wake_procs_props(v.procs, woken);
    assert(woken.subrange(0, woken.len() as int) =~= woken);
    // the blocked process has an entry, the entry is due, so the wake
    // phase makes it ready
    let x = choose|x: int| 0 <= x < v.sleepers.len() && (#[trigger] v.sleepers[x]).pid == pid;
    let e = v.sleepers[x];
    assert(e.wake_time == w);
    v.sleepers.lemma_filter_contains(due_at(now_us), x);
    let j = choose|j: int| 0 <= j < woken.len() && woken[j] == e;
    assert(woken[j].pid == pid && (woken[j].pid as int) < v.procs.len());
    assert(state_of(wv, pid) is Ready);
    assert(pid_live(wv, pid));
    lemma_yield_legal(wv, pid, now_us);
    assert(legal_transition(state_of(wv, pid), state_of(tick_step(v, now_us).0, pid), now_us));
}

/// Sleep sets the wake time to exactly the sampled clock plus the
/// requested duration, so together with [`lemma_no_early_wake`] and
/// [`lemma_due_wake`] a process that sleeps for `d` milliseconds at time
/// `t` is runnable again only at a time at or after `t + d * 1000`
/// microseconds.
pub proof fn lemma_sleep_blocks_until(v: KernelView, duration_ms: u32, now_us: u64)
    requires
        wf(v),
        v.current is Some,
        v.sleepers.len() < MAX_PROCS,
        v.ready.len() > 0,
        now_us + duration_ms * 1000 <= u64::MAX,
    ensures
        ({
            let cur = v.current->0;
            let v2 = crate::kernel::sleep_step(v, duration_ms, now_us).0;
            &&& state_of(v2, cur) == ProcessState::Blocked(
                BlockReason::Sleeping((now_us + duration_ms * 1000) as u64),
            )
            &&& now_us + duration_ms * 1000 >= now_us
        }),
{
}

/// Frame interchangeability at the scheduling level: when no sleeper is
/// due, a timer tick makes exactly the decision a voluntary yield makes —
/// same new state, same action. A process parked by preemption is thus
/// resumed through the same path as one parked voluntarily, which is what
/// the shared frame layout of [`crate::frame`] provides at the register
/// level.
pub proof fn lemma_tick_is_yield(v: KernelView, now_us: u64)
    requires
        forall|k: int| 0 <= k < v.sleepers.len() ==> !due(#[trigger] v.sleepers[k], now_us),
    ensures
        tick_step(v, now_us) == yield_step(v),
{
    if v.current is Some {
        let woken = v.sleepers.filter(due_at(now_us));
        v.sleepers.lemma_all_neg_filter_empty(due_at(now_us));
        assert(woken.len() == 0);
        assert(woken.subrange(0, 0) =~= Seq::<SleepEntry>::empty());
        assert(pids_of(woken.subrange(0, 0)) =~= Seq::<u8>::empty());
        lemma_filter_all_keep(v.sleepers, not_due_at(now_us));
        assert(wake_view(v, now_us).ready =~= v.ready);
        assert(wake_view(v, now_us) =~= v);
    }
}

/// Filtering by a predicate every element satisfies keeps the sequence.
pub proof fn lemma_filter_all_keep(s: Seq<SleepEntry>, p: spec_fn(SleepEntry) -> bool)
    requires
        forall|i: int| 0 <= i < s.len() ==> p(#[trigger] s[i]),
    ensures
        s.filter(p) == s,
    decreases s.len(),
{
    reveal(Seq::filter);
    if s.len() > 0 {
        lemma_filter_all_keep(s.drop_last(), p);
        assert(s.drop_last().filter(p).push(s.last()) =~= s);
    }
}

} // verus!
