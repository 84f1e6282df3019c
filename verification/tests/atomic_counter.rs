use libzmq::atomic_counter::AtomicCounter;

#[test]
fn atomic_counter_matches_public_utility_semantics() {
    let mut counter = AtomicCounter::new(0);
    assert_eq!(counter.value(), 0);
    assert_eq!(counter.inc(), 0);
    assert_eq!(counter.inc(), 1);
    assert_eq!(counter.inc(), 2);
    assert_eq!(counter.value(), 3);
    assert!(counter.dec());
    assert!(counter.dec());
    assert!(!counter.dec());
    counter.set(2);
    assert!(counter.dec());
    assert!(!counter.dec());
}

#[test]
fn counter_increment_then_decrement_restores_value() {
    let mut counter = AtomicCounter::new(41);
    assert_eq!(counter.inc(), 41);
    assert!(counter.dec());
    assert_eq!(counter.value(), 41);
}

#[test]
fn counter_wraps_at_both_ends() {
    let mut counter = AtomicCounter::new(u32::MAX);
    assert_eq!(counter.inc(), u32::MAX);
    assert_eq!(counter.value(), 0);
    assert!(counter.dec());
    assert_eq!(counter.value(), u32::MAX);
}

#[test]
fn counter_new_and_set_store_the_value() {
    let mut counter = AtomicCounter::new(7);
    assert_eq!(counter.value(), 7);
    counter.set(1);
    assert_eq!(counter.value(), 1);
    assert!(!counter.dec());
    assert_eq!(counter.value(), 0);
}
