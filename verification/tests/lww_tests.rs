use crdt_core::lww::LWWRegister;

#[test]
fn test_new_register() {
    let r = LWWRegister::new(42, 100, 1);
    assert_eq!(*r.value(), 42);
    assert_eq!(r.timestamp(), 100);
}

#[test]
fn test_write_newer() {
    let mut r = LWWRegister::new(1, 100, 1);
    r.write(2, 200);
    assert_eq!(*r.value(), 2);
}

#[test]
fn test_write_older_ignored() {
    let mut r = LWWRegister::new(2, 200, 1);
    r.write(1, 100);
    assert_eq!(*r.value(), 2);
}

#[test]
fn test_write_same_timestamp() {
    let mut r = LWWRegister::new(1, 100, 1);
    r.write(2, 100);
    assert_eq!(*r.value(), 2);
}

#[test]
fn test_merge_higher_wins() {
    let mut r1 = LWWRegister::new("a", 100, 1);
    let r2 = LWWRegister::new("b", 200, 2);
    r1.merge(&r2);
    assert_eq!(*r1.value(), "b");
}

#[test]
fn test_merge_tiebreaker() {
    let mut r1 = LWWRegister::new("a", 100, 1);
    let r2 = LWWRegister::new("b", 100, 2);
    r1.merge(&r2);
    assert_eq!(*r1.value(), "b");
}

#[test]
fn lww_test_merge_commutative() {
    let r1 = LWWRegister::new("a", 100, 1);
    let r2 = LWWRegister::new("b", 200, 2);
    let m1 = r1.merged(&r2);
    let m2 = r2.merged(&r1);
    assert_eq!(m1, m2);
}

#[test]
fn test_write_with_node_tiebreaker() {
    let mut r = LWWRegister::new(1, 100, 1);
    r.write_with_node(2, 100, 5);
    assert_eq!(*r.value(), 2);
}

#[test]
fn lww_write_with_node_lower_node_ignored() {
    let mut r = LWWRegister::new(1, 100, 5);
    r.write_with_node(2, 100, 4);
    assert_eq!(*r.value(), 1);
    r.write_with_node(3, 100, 5);
    assert_eq!(*r.value(), 1);
    r.write_with_node(4, 99, 9);
    assert_eq!(*r.value(), 1);
    r.write_with_node(5, 101, 0);
    assert_eq!(*r.value(), 5);
    assert_eq!(r.timestamp(), 101);
}

#[test]
fn lww_write_keeps_node_id() {
    let mut r = LWWRegister::new(1, 100, 7);
    r.write(2, 150);
    let other = LWWRegister::new(3, 150, 6);
    r.merge(&other);
    assert_eq!(*r.value(), 2);
    let other = LWWRegister::new(4, 150, 8);
    r.merge(&other);
    assert_eq!(*r.value(), 4);
}

#[test]
fn lww_merge_older_ignored_and_ties_keep_self() {
    let mut r1 = LWWRegister::new("a", 200, 1);
    let r2 = LWWRegister::new("b", 100, 9);
    r1.merge(&r2);
    assert_eq!(*r1.value(), "a");
    assert_eq!(r1.timestamp(), 200);
    let r3 = LWWRegister::new("c", 200, 1);
    r1.merge(&r3);
    assert_eq!(*r1.value(), "a");
    let m = r3.merged(&r1);
    assert_eq!(*m.value(), "c");
}

#[test]
fn lww_merge_associative_and_idempotent() {
    let a = LWWRegister::new(1, 10, 3);
    let b = LWWRegister::new(2, 20, 1);
    let c = LWWRegister::new(3, 20, 2);
    assert_eq!(a.merged(&b).merged(&c), a.merged(&b.merged(&c)));
    assert_eq!(*a.merged(&b).merged(&c).value(), 3);
    assert_eq!(a.merged(&a), a);
}

#[test]
fn lww_equality_uses_all_fields() {
    let a = LWWRegister::new(1, 10, 3);
    assert_ne!(a, LWWRegister::new(1, 10, 4));
    assert_ne!(a, LWWRegister::new(1, 11, 3));
    assert_ne!(a, LWWRegister::new(2, 10, 3));
    assert_eq!(a, a.clone());
}
