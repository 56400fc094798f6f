use crdt_core::gcounter::GCounter;

#[test]
fn gcounter_test_initial_value() {
    let c = GCounter::new();
    assert_eq!(c.value(), 0);
}

#[test]
fn gcounter_test_increment() {
    let mut c = GCounter::new();
    c.increment(1);
    c.increment(1);
    assert_eq!(c.value(), 2);
    assert_eq!(c.get(1), 2);
}

#[test]
fn test_increment_different_nodes() {
    let mut c = GCounter::new();
    c.increment(1);
    c.increment(2);
    c.increment(3);
    assert_eq!(c.value(), 3);
}

#[test]
fn gcounter_test_merge() {
    let mut c1 = GCounter::new();
    c1.increment(1);
    c1.increment(1);
    let mut c2 = GCounter::new();
    c2.increment(2);
    c2.increment(2);
    c2.increment(2);
    let merged = c1.merged(&c2);
    assert_eq!(merged.value(), 5);
}

#[test]
fn gcounter_test_merge_idempotent() {
    let mut c = GCounter::new();
    c.increment(1);
    c.increment(1);
    let merged = c.merged(&c);
    assert_eq!(merged.value(), 2);
}

#[test]
fn gcounter_test_merge_commutative() {
    let mut c1 = GCounter::new();
    c1.increment(1);
    let mut c2 = GCounter::new();
    c2.increment(2);
    let m1 = c1.merged(&c2);
    let m2 = c2.merged(&c1);
    assert_eq!(m1, m2);
}

#[test]
fn test_merge_associative() {
    let mut c1 = GCounter::new();
    c1.increment(1);
    let mut c2 = GCounter::new();
    c2.increment(2);
    let mut c3 = GCounter::new();
    c3.increment(3);
    let m12 = c1.merged(&c2);
    let m12_3 = m12.merged(&c3);
    let m23 = c2.merged(&c3);
    let m1_23 = c1.merged(&m23);
    assert_eq!(m12_3, m1_23);
}

#[test]
fn gcounter_increment_returns_new_count() {
    let mut c = GCounter::new();
    assert_eq!(c.increment(7), 1);
    assert_eq!(c.increment(7), 2);
    assert_eq!(c.increment(8), 1);
    assert_eq!(c.get(7), 2);
    assert_eq!(c.get(8), 1);
    assert_eq!(c.get(9), 0);
}

#[test]
fn gcounter_merge_takes_max_per_node() {
    let mut c1 = GCounter::new();
    c1.increment(1);
    c1.increment(1);
    c1.increment(1);
    c1.increment(2);
    let mut c2 = GCounter::new();
    c2.increment(1);
    c2.increment(2);
    c2.increment(2);
    c2.increment(3);
    c1.merge(&c2);
    assert_eq!(c1.get(1), 3);
    assert_eq!(c1.get(2), 2);
    assert_eq!(c1.get(3), 1);
    assert_eq!(c1.value(), 6);
    assert_eq!(c2.value(), 4);
}

#[test]
fn gcounter_merge_value_not_below_either_side() {
    let mut c1 = GCounter::new();
    for _ in 0..5 {
        c1.increment(1);
    }
    let mut c2 = GCounter::new();
    for _ in 0..3 {
        c2.increment(2);
    }
    let merged = c1.merged(&c2);
    assert!(merged.value() >= c1.value());
    assert!(merged.value() >= c2.value());
    assert_eq!(merged.value(), 8);
}

#[test]
fn gcounter_equality_compares_counts() {
    let mut c1 = GCounter::new();
    c1.increment(1);
    let mut c2 = GCounter::new();
    c2.increment(2);
    assert_ne!(c1, c2);
    let mut c3 = GCounter::new();
    c3.increment(1);
    assert_eq!(c1, c3);
    c3.increment(1);
    assert_ne!(c1, c3);
    assert_eq!(GCounter::default(), GCounter::new());
}

#[test]
fn gcounter_merged_leaves_inputs_alone() {
    let mut c1 = GCounter::new();
    c1.increment(1);
    let mut c2 = GCounter::new();
    c2.increment(2);
    let _ = c1.merged(&c2);
    assert_eq!(c1.value(), 1);
    assert_eq!(c1.get(2), 0);
}

#[test]
fn gcounter_disjoint_replicas_add_values() {
    let mut c1 = GCounter::new();
    c1.increment(1);
    c1.increment(3);
    let mut c2 = GCounter::new();
    c2.increment(2);
    c2.increment(2);
    let merged = c1.merged(&c2);
    assert_eq!(merged.value(), c1.value() + c2.value());
    assert_eq!(merged.merged(&c1), merged);
    assert_eq!(merged.merged(&c2), merged);
}
