use rp2040_scheduler::frame::FRAME_BYTES;
use rp2040_scheduler::kernel::{Kernel, SwitchAction};
use rp2040_scheduler::layout::{MemoryLayout, MemoryRegion};
use rp2040_scheduler::process::{BlockReason, ProcessError, ProcessState, MAX_PROCS};
use rp2040_scheduler::scheduler::SchedulerError;

const STACK_BASE: usize = 0x2003_0000;

fn layout_with(process_bytes: usize) -> MemoryLayout {
    MemoryLayout::new(
        MemoryRegion { start: 0x2000_0000, size: 0x8000 },
        MemoryRegion { start: 0x2001_0000, size: 0x8000 },
        MemoryRegion { start: STACK_BASE, size: process_bytes },
    )
}

/// A kernel with `n` freshly created and inserted processes, not yet
/// started.
fn boot(n: usize) -> Kernel {
    let mut k = Kernel::new(layout_with(64 * 1024));
    for i in 0..n {
        let pcb = k
            .create_process(0x1000_0000 + (i as u32) * 0x100, 1024, i as u32)
            .expect("create failed");
        assert_eq!(pcb.pid as usize, i);
        assert!(k.insert_process(pcb));
    }
    k
}

#[test]
fn create_zero_stack_is_invalid_size() {
    let mut k = Kernel::new(layout_with(4096));
    assert_eq!(k.create_process(0x1000, 0, 0), Err(ProcessError::InvalidSize));
}

#[test]
fn create_stack_below_one_frame_is_invalid_size() {
    let mut k = Kernel::new(layout_with(4096));
    assert_eq!(k.create_process(0x1000, FRAME_BYTES - 1, 0), Err(ProcessError::InvalidSize));
    assert!(k.create_process(0x1000, FRAME_BYTES, 0).is_ok());
}

#[test]
fn create_exhausts_process_region() {
    // room for four full stacks, plus a little slack
    let mut k = Kernel::new(layout_with(4096 + 100));
    for i in 0..4 {
        let pcb = k.create_process(0x1000, 1024, 0).expect("create failed");
        assert_eq!(pcb.stack_base, STACK_BASE + i * 1024);
        assert_eq!(pcb.stack_size, 1024);
        assert_eq!(pcb.sp, pcb.stack_base + 1024 - FRAME_BYTES);
        assert_eq!(pcb.state, ProcessState::Ready);
    }
    // the fifth request would overflow the region
    assert_eq!(k.create_process(0x1000, 1024, 0), Err(ProcessError::NoMemory));
    // a smaller one that still fits is fine
    assert!(k.create_process(0x1000, FRAME_BYTES, 0).is_ok());
}

#[test]
fn create_exhausts_process_table() {
    let mut k = Kernel::new(layout_with(64 * 1024));
    for _ in 0..MAX_PROCS {
        assert!(k.create_process(0x1000, 64, 0).is_ok());
    }
    assert_eq!(k.create_process(0x1000, 64, 0), Err(ProcessError::NoMemory));
}

#[test]
fn insert_rejects_foreign_or_repeated_pcbs() {
    let mut k = boot(1);
    let pcb = k.create_process(0x2000, 256, 7).unwrap();
    let mut forged = pcb;
    forged.pid = 5;  // never handed out
    assert!(!k.insert_process(forged));
    assert!(k.insert_process(pcb));
    // the slot is taken now
    assert!(!k.insert_process(pcb));
}

#[test]
fn start_dispatches_oldest_ready() {
    let mut k = boot(2);
    assert_eq!(k.current(), None);
    let (pid, sp) = k.start().expect("start failed");
    assert_eq!(pid, 0);
    assert_eq!(sp, k.process(0).unwrap().sp);
    assert_eq!(k.current(), Some(0));
    assert_eq!(k.process(0).unwrap().state, ProcessState::Running);
    assert_eq!(k.process(1).unwrap().state, ProcessState::Ready);
}

#[test]
fn start_with_nothing_ready_is_empty() {
    let mut k = Kernel::new(layout_with(4096));
    assert_eq!(k.start(), Err(SchedulerError::Empty));
}

#[test]
fn yield_before_start_is_no_current() {
    let mut k = boot(2);
    assert_eq!(k.yield_now(), Err(SchedulerError::NoCurrent));
}

#[test]
fn yield_rotates_round_robin() {
    let mut k = boot(3);
    k.start().unwrap();
    // 0 -> 1 -> 2 -> 0: a full cycle restores the original order
    match k.yield_now().unwrap() {
        SwitchAction::Switch { prev, next, next_sp } => {
            assert_eq!((prev, next), (0, 1));
            assert_eq!(next_sp, k.process(1).unwrap().sp);
        },
        a => panic!("expected a switch, got {:?}", a),
    }
    assert_eq!(k.current(), Some(1));
    assert_eq!(k.process(0).unwrap().state, ProcessState::Ready);
    assert_eq!(k.process(1).unwrap().state, ProcessState::Running);
    match k.yield_now().unwrap() {
        SwitchAction::Switch { prev, next, .. } => assert_eq!((prev, next), (1, 2)),
        a => panic!("expected a switch, got {:?}", a),
    }
    match k.yield_now().unwrap() {
        SwitchAction::Switch { prev, next, .. } => assert_eq!((prev, next), (2, 0)),
        a => panic!("expected a switch, got {:?}", a),
    }
    assert_eq!(k.current(), Some(0));
    assert_eq!(k.process(0).unwrap().state, ProcessState::Running);
    assert_eq!(k.process(1).unwrap().state, ProcessState::Ready);
    assert_eq!(k.process(2).unwrap().state, ProcessState::Ready);
}

#[test]
fn self_switch_is_noop() {
    let mut k = boot(1);
    k.start().unwrap();
    for _ in 0..5 {
        assert_eq!(k.yield_now(), Ok(SwitchAction::NoSwitch));
        assert_eq!(k.current(), Some(0));
        assert_eq!(k.process(0).unwrap().state, ProcessState::Running);
    }
}

#[test]
fn sleep_scenario_wakes_only_when_due() {
    let mut k = boot(2);
    k.start().unwrap();
    // sleep 50 ms at 1000 us: due at 51_000 us
    match k.sleep_ms(50, 1_000).unwrap() {
        SwitchAction::Switch { prev, next, .. } => assert_eq!((prev, next), (0, 1)),
        a => panic!("expected a switch, got {:?}", a),
    }
    assert_eq!(
        k.process(0).unwrap().state,
        ProcessState::Blocked(BlockReason::Sleeping(51_000)),
    );
    assert_eq!(k.current(), Some(1));
    // ticks before the wake time leave the sleeper blocked; with nobody
    // else ready they are pure no-ops
    for now in [2_000u64, 10_000, 50_999] {
        assert_eq!(k.tick(now), Ok(SwitchAction::NoSwitch));
        assert_eq!(
            k.process(0).unwrap().state,
            ProcessState::Blocked(BlockReason::Sleeping(51_000)),
        );
        assert_eq!(k.current(), Some(1));
    }
    // the first tick at or past the wake time makes the sleeper runnable,
    // and — as the only ready process — it is dequeued at once
    match k.tick(51_000).unwrap() {
        SwitchAction::Switch { prev, next, .. } => assert_eq!((prev, next), (1, 0)),
        a => panic!("expected a switch, got {:?}", a),
    }
    assert_eq!(k.current(), Some(0));
    assert_eq!(k.process(0).unwrap().state, ProcessState::Running);
    assert_eq!(k.process(1).unwrap().state, ProcessState::Ready);
}

#[test]
fn sleep_with_no_other_ready_is_refused() {
    let mut k = boot(1);
    k.start().unwrap();
    assert_eq!(k.sleep_ms(10, 0), Err(SchedulerError::Empty));
    // the refused sleep changed nothing
    assert_eq!(k.current(), Some(0));
    assert_eq!(k.process(0).unwrap().state, ProcessState::Running);
}

#[test]
fn sleep_before_start_is_no_current() {
    let mut k = boot(2);
    assert_eq!(k.sleep_ms(10, 0), Err(SchedulerError::NoCurrent));
}

#[test]
fn tick_round_robin_keeps_counters_close() {
    let mut k = boot(2);
    k.start().unwrap();
    let mut counters = [0u64; 2];
    let mut now: u64 = 0;
    for _ in 0..100 {
        counters[k.current().unwrap() as usize] += 1;
        now += 100_000;
        assert!(k.tick(now).is_ok());
    }
    let diff = counters[0].abs_diff(counters[1]);
    assert!(diff <= 1, "counters {:?} drifted apart", counters);
}

#[test]
fn tick_without_sleepers_equals_yield() {
    let mut a = boot(3);
    let mut b = boot(3);
    a.start().unwrap();
    b.start().unwrap();
    let ya = a.yield_now().unwrap();
    let yb = b.tick(123_456).unwrap();
    assert_eq!(ya, yb);
    assert_eq!(a.current(), b.current());
    for pid in 0..3u8 {
        assert_eq!(a.process(pid), b.process(pid));
    }
}

#[test]
fn tick_before_start_is_no_current() {
    let mut k = boot(2);
    assert_eq!(k.tick(0), Err(SchedulerError::NoCurrent));
}

#[test]
fn record_saved_sp_keeps_frame_in_stack() {
    let mut k = boot(2);
    k.start().unwrap();
    let p1 = k.process(1).unwrap();
    let inside = p1.stack_base + 128;
    assert!(k.record_saved_sp(1, inside));
    assert_eq!(k.process(1).unwrap().sp, inside);
    // below the stack, or too high for a full frame: refused, unchanged
    assert!(!k.record_saved_sp(1, p1.stack_base - 4));
    assert!(!k.record_saved_sp(1, p1.stack_base + p1.stack_size - FRAME_BYTES + 4));
    assert!(!k.record_saved_sp(7, inside));
    assert_eq!(k.process(1).unwrap().sp, inside);
}

#[test]
fn process_lookup_out_of_table() {
    let k = boot(1);
    assert!(k.process(0).is_some());
    assert!(k.process(1).is_none());
    assert!(k.process(255).is_none());
}
