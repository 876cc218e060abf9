use mem_trace::tracer::{recorded_address, ProcessSet, RealResult, Tracer};
use mem_trace::usage::{select_heaviest, UsageMap};

#[test]
fn usage_sums_per_stack() {
    let mut usage = UsageMap::new();
    let stack = vec![1u64, 2, 3];
    for size in [10u64, 20, 30] {
        usage.add(&stack, size);
    }
    usage.add(&vec![1, 2], 5);
    assert_eq!(usage.usage(&stack), 60);
    assert_eq!(usage.usage(&vec![1, 2]), 5);
    assert_eq!(usage.usage(&vec![3, 2, 1]), 0);
}

#[test]
fn usage_saturates() {
    let mut usage = UsageMap::new();
    let stack = vec![7u64];
    usage.add(&stack, u64::MAX - 1);
    usage.add(&stack, 5);
    assert_eq!(usage.usage(&stack), u64::MAX);
}

#[test]
fn heaviest_first() {
    let mut usage = UsageMap::new();
    usage.add(&vec![1], 5);
    usage.add(&vec![2], 50);
    usage.add(&vec![3], 20);
    usage.add(&vec![1], 40);
    let top = usage.heaviest(2);
    assert_eq!(top, vec![(vec![2], 50), (vec![1], 45)]);
    assert_eq!(usage.heaviest(10).len(), 3);
    assert_eq!(usage.heaviest(0).len(), 0);
}

#[test]
fn select_heaviest_indices() {
    let entries = vec![(vec![1u64], 3u64), (vec![2], 9), (vec![3], 1), (vec![4], 7)];
    assert_eq!(select_heaviest(&entries, 3), vec![1, 3, 0]);
    assert_eq!(select_heaviest(&vec![], 3), Vec::<usize>::new());
}

#[test]
fn process_registered_once() {
    let mut set = ProcessSet::new();
    assert!(set.register(42));
    assert!(!set.register(42));
    assert!(set.register(43));
}

#[test]
fn failed_calls_not_recorded() {
    assert_eq!(recorded_address(RealResult::Pointer(0x10)), Some(0x10));
    assert_eq!(recorded_address(RealResult::Pointer(0)), None);
    assert_eq!(recorded_address(RealResult::Status { status: 0, address: 0x20 }), Some(0x20));
    assert_eq!(recorded_address(RealResult::Status { status: 12, address: 0x20 }), None);
}

#[test]
fn tracer_records_allocations() {
    let mut tracer = Tracer::new(true);
    assert!(tracer.on_allocation(7, 16, RealResult::Pointer(0x1000), vec![0xA, 0xB]));
    assert!(!tracer.on_allocation(7, 32, RealResult::Pointer(0), vec![0xA, 0xB]));
    assert!(!tracer.on_allocation(7, 8, RealResult::Status { status: 22, address: 0x3000 }, vec![0xC]));
    assert!(tracer.on_allocation(8, 8, RealResult::Pointer(0x1000), vec![0xD]));
    assert_eq!(tracer.recorded(), 1);
    assert_eq!(tracer.lookup(0x1000), Some(vec![0xD]));
    assert_eq!(tracer.lookup(0x3000), None);
    assert_eq!(tracer.heaviest(1), vec![(vec![0xA, 0xB], 48)]);
}

#[test]
fn tracer_without_profiling_keeps_no_usage() {
    let mut tracer = Tracer::new(false);
    tracer.on_allocation(1, 100, RealResult::Pointer(0x10), vec![1]);
    assert_eq!(tracer.heaviest(5).len(), 0);
    assert_eq!(tracer.lookup(0x10), Some(vec![1]));
}
