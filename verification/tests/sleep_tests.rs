use rp2040_scheduler::scheduler::SchedulerError;
use rp2040_scheduler::sleep::{SleepEntry, SleepQueue};

#[test]
fn sleep_queue_overflows_with_no_space() {
    let mut q = SleepQueue::new();
    for i in 0..8u8 {
        assert!(q.enqueue(SleepEntry { pid: i, wake_time: 100 + i as u64 }).is_ok());
    }
    assert_eq!(
        q.enqueue(SleepEntry { pid: 8, wake_time: 1 }),
        Err(SchedulerError::NoSpace),
    );
    assert_eq!(q.len(), 8);
}

#[test]
fn drain_due_takes_exactly_the_due_entries_in_order() {
    let mut q = SleepQueue::new();
    for (pid, wake) in [(0u8, 50u64), (1, 200), (2, 100), (3, 150)] {
        q.enqueue(SleepEntry { pid, wake_time: wake }).unwrap();
    }
    // at time 100, the entries due at 50 and 100 leave, in queue order
    let woken = q.drain_due(100);
    let pids: Vec<u8> = woken.iter().map(|e| e.pid).collect();
    assert_eq!(pids, vec![0, 2]);
    assert_eq!(q.len(), 2);
    // the rest stay, in order, until their times pass
    let rest = q.drain_due(u64::MAX);
    let pids: Vec<u8> = rest.iter().map(|e| e.pid).collect();
    assert_eq!(pids, vec![1, 3]);
    assert_eq!(q.len(), 0);
}

#[test]
fn drain_due_on_empty_queue_is_empty() {
    let mut q = SleepQueue::new();
    assert!(q.drain_due(12345).is_empty());
    assert_eq!(q.len(), 0);
}
