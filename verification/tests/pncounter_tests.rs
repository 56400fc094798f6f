use crdt_core::pncounter::PNCounter;

#[test]
fn pncounter_test_initial_value() {
    let c = PNCounter::new();
    assert_eq!(c.value(), 0);
}

#[test]
fn pncounter_test_increment() {
    let mut c = PNCounter::new();
    c.increment(1);
    c.increment(1);
    assert_eq!(c.value(), 2);
}

#[test]
fn test_decrement() {
    let mut c = PNCounter::new();
    c.decrement(1);
    assert_eq!(c.value(), -1);
}

#[test]
fn test_increment_decrement() {
    let mut c = PNCounter::new();
    c.increment(1);
    c.increment(1);
    c.decrement(1);
    assert_eq!(c.value(), 1);
}

#[test]
fn pncounter_test_merge() {
    let mut c1 = PNCounter::new();
    c1.increment(1);
    let mut c2 = PNCounter::new();
    c2.decrement(2);
    let merged = c1.merged(&c2);
    assert_eq!(merged.value(), 0);
}

#[test]
fn pncounter_test_merge_commutative() {
    let mut c1 = PNCounter::new();
    c1.increment(1);
    c1.decrement(1);
    let mut c2 = PNCounter::new();
    c2.increment(2);
    let m1 = c1.merged(&c2);
    let m2 = c2.merged(&c1);
    assert_eq!(m1, m2);
}

#[test]
fn pncounter_test_merge_idempotent() {
    let mut c = PNCounter::new();
    c.increment(1);
    c.decrement(1);
    let merged = c.merged(&c);
    assert_eq!(merged, c);
}

#[test]
fn test_concurrent_increments() {
    let mut c1 = PNCounter::new();
    c1.increment(1);
    let mut c2 = PNCounter::new();
    c2.increment(2);
    let merged = c1.merged(&c2);
    assert_eq!(merged.value(), 2);
}

#[test]
fn pncounter_merge_associative() {
    let mut c1 = PNCounter::new();
    c1.increment(1);
    c1.decrement(2);
    let mut c2 = PNCounter::new();
    c2.decrement(2);
    c2.decrement(2);
    let mut c3 = PNCounter::new();
    c3.increment(3);
    let left = c1.merged(&c2).merged(&c3);
    let right = c1.merged(&c2.merged(&c3));
    assert_eq!(left, right);
    assert_eq!(left.value(), 1 - 2 + 1);
}

#[test]
fn pncounter_merge_in_place_matches_merged() {
    let mut c1 = PNCounter::new();
    c1.increment(1);
    c1.increment(1);
    let mut c2 = PNCounter::new();
    c2.decrement(1);
    c2.decrement(3);
    let copy = c1.merged(&c2);
    c1.merge(&c2);
    assert_eq!(c1, copy);
    assert_eq!(c1.value(), 0);
}

#[test]
fn pncounter_negative_value_below_zero() {
    let mut c = PNCounter::new();
    for node in 0..10u64 {
        c.decrement(node);
    }
    c.increment(4);
    assert_eq!(c.value(), -9);
    assert_ne!(c, PNCounter::default());
}

#[test]
fn pncounter_disjoint_replicas_add_values() {
    let mut c1 = PNCounter::new();
    c1.increment(1);
    c1.increment(1);
    c1.decrement(1);
    let mut c2 = PNCounter::new();
    c2.increment(2);
    c2.decrement(2);
    c2.decrement(2);
    c2.decrement(2);
    let mut merged = c1.clone();
    merged.merge(&c2);
    assert_eq!(merged.value(), c1.value() + c2.value());
    assert_eq!(merged.value(), -1);
    assert_eq!(merged.merged(&c2), merged);
    assert_eq!(merged.merged(&c1), merged);
}
