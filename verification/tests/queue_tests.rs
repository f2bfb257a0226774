use rp2040_scheduler::layout::MemoryRegion;
use rp2040_scheduler::scheduler::{ReadyQueue, Scheduler, SchedulerError};

#[test]
fn region_end_and_contains() {
    let r = MemoryRegion { start: 0x2000_0000, size: 0x1000 };
    assert_eq!(r.end(), 0x2000_1000);
    assert!(r.contains(0x2000_0000));
    assert!(r.contains(0x2000_0fff));
    assert!(!r.contains(0x2000_1000));
    assert!(!r.contains(0x1fff_ffff));
}

#[test]
fn ready_queue_is_fifo() {
    let mut q = ReadyQueue::new();
    for pid in 0..5u8 {
        assert!(q.enqueue(pid).is_ok());
    }
    for pid in 0..5u8 {
        assert_eq!(q.dequeue(), Ok(pid));
    }
    assert_eq!(q.dequeue(), Err(SchedulerError::Empty));
}

#[test]
fn ready_queue_full_cycle_restores_contents() {
    let mut q = ReadyQueue::new();
    for pid in 0..8u8 {
        assert!(q.enqueue(pid).is_ok());
    }
    // one dequeue+enqueue per element: a full round-robin cycle
    for _ in 0..8 {
        let p = q.dequeue().unwrap();
        assert!(q.enqueue(p).is_ok());
    }
    for pid in 0..8u8 {
        assert_eq!(q.dequeue(), Ok(pid));
    }
}

#[test]
fn ready_queue_overflows_with_no_space() {
    let mut q = ReadyQueue::new();
    for pid in 0..8u8 {
        assert!(q.enqueue(pid).is_ok());
    }
    assert_eq!(q.enqueue(8), Err(SchedulerError::NoSpace));
    // the failed enqueue changed nothing
    assert_eq!(q.dequeue(), Ok(0));
}

#[test]
fn ready_queue_empty_dequeue() {
    let mut q = ReadyQueue::new();
    assert_eq!(q.dequeue(), Err(SchedulerError::Empty));
}
