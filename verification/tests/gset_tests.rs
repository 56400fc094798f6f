use crdt_core::gset::GSet;

#[test]
fn gset_test_add_and_contains() {
    let mut s = GSet::new();
    s.add(42);
    assert!(s.contains(&42));
    assert!(!s.contains(&99));
}

#[test]
fn test_add_idempotent() {
    let mut s = GSet::new();
    assert!(s.add(1));
    assert!(!s.add(1));
    assert_eq!(s.len(), 1);
}

#[test]
fn gset_test_merge_union() {
    let mut s1 = GSet::new();
    s1.add(1);
    s1.add(2);
    let mut s2 = GSet::new();
    s2.add(2);
    s2.add(3);
    let merged = s1.merged(&s2);
    assert_eq!(merged.len(), 3);
    assert!(merged.contains(&1));
    assert!(merged.contains(&2));
    assert!(merged.contains(&3));
}

#[test]
fn gset_test_merge_idempotent() {
    let mut s = GSet::new();
    s.add(1);
    let merged = s.merged(&s);
    assert_eq!(merged, s);
}

#[test]
fn gset_test_merge_commutative() {
    let mut s1 = GSet::new();
    s1.add(1);
    let mut s2 = GSet::new();
    s2.add(2);
    let m1 = s1.merged(&s2);
    let m2 = s2.merged(&s1);
    assert_eq!(m1, m2);
}

#[test]
fn test_string_elements() {
    let mut s = GSet::new();
    s.add("hello".to_string());
    s.add("world".to_string());
    assert_eq!(s.len(), 2);
}

#[test]
fn gset_empty_and_elements() {
    let mut s: GSet<u64> = GSet::default();
    assert!(s.is_empty());
    assert_eq!(s.len(), 0);
    s.add(5);
    assert!(!s.is_empty());
    let elements = s.elements();
    assert_eq!(elements.len(), 1);
    assert!(elements.contains(&5));
}

#[test]
fn gset_merge_in_place_is_union() {
    let mut s1 = GSet::new();
    s1.add(1u64);
    let mut s2 = GSet::new();
    s2.add(2u64);
    s2.add(3u64);
    s1.merge(&s2);
    assert_eq!(s1.len(), 3);
    assert!(s1.contains(&3));
    assert_eq!(s2.len(), 2);
    assert!(!s2.contains(&1));
}

#[test]
fn gset_merge_associative() {
    let mut a = GSet::new();
    a.add(1u64);
    let mut b = GSet::new();
    b.add(2u64);
    let mut c = GSet::new();
    c.add(3u64);
    c.add(1u64);
    assert_eq!(a.merged(&b).merged(&c), a.merged(&b.merged(&c)));
}

#[test]
fn gset_clone_is_independent_copy() {
    let mut s = GSet::new();
    s.add(1u64);
    let copy = s.clone();
    s.add(2u64);
    assert_eq!(copy.len(), 1);
    assert!(copy.contains(&1));
    assert!(!copy.contains(&2));
    assert_ne!(copy, s);
}

#[test]
fn gset_merged_keeps_self_elements() {
    let mut s1 = GSet::new();
    s1.add(10u64);
    s1.add(20u64);
    let s2: GSet<u64> = GSet::new();
    let merged = s1.merged(&s2);
    assert_eq!(merged, s1);
    assert_eq!(merged.len(), 2);
}

#[test]
fn gset_len_after_add_grows_by_one_only_when_new() {
    let mut s = GSet::new();
    s.add(1u64);
    let before = s.len();
    assert!(s.add(2u64));
    assert_eq!(s.len(), before + 1);
    assert!(!s.add(2u64));
    assert_eq!(s.len(), before + 1);
}
