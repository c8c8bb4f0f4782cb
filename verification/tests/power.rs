use whatsapp_lite::power::{
    known_process, memory_target, power_targets, throttling, MemoryTarget, ProcessEntry,
};

#[test]
fn browser_and_its_children_change_their_mode() {
    let entries = [
        ProcessEntry { pid: 10, parent: 7 },
        ProcessEntry { pid: 11, parent: 8 },
        ProcessEntry { pid: 12, parent: 7 },
        ProcessEntry { pid: 13, parent: 10 },
    ];
    assert_eq!(power_targets(7, &entries), vec![7, 10, 12]);
    assert_eq!(power_targets(7, &[]), vec![7]);
    assert_eq!(power_targets(99, &entries), vec![99]);
}

#[test]
fn browser_must_be_known() {
    assert_eq!(known_process(true, 5), Some(5));
    assert_eq!(known_process(true, 0), None);
    assert_eq!(known_process(false, 5), None);
}

#[test]
fn speed_is_always_under_control() {
    let eco = throttling(true, 1);
    assert_eq!((eco.control_mask, eco.state_mask), (1, 1));
    let fast = throttling(false, 1);
    assert_eq!((fast.control_mask, fast.state_mask), (1, 0));
}

#[test]
fn low_power_aims_at_little_memory() {
    assert_eq!(memory_target(true), MemoryTarget::Low);
    assert_eq!(memory_target(false), MemoryTarget::Normal);
}
