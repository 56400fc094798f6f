use crdt_core::orset::ORSet;

#[test]
fn orset_test_add_and_contains() {
    let mut s = ORSet::new();
    s.add(42);
    assert!(s.contains(&42));
}

#[test]
fn test_remove() {
    let mut s = ORSet::new();
    s.add(1);
    s.remove(&1);
    assert!(!s.contains(&1));
}

#[test]
fn test_remove_nonexistent() {
    let mut s: ORSet<i32> = ORSet::new();
    assert!(!s.remove(&99));
}

#[test]
fn test_add_back_after_remove() {
    let mut s = ORSet::new();
    s.add(1);
    s.remove(&1);
    s.add(1);
    assert!(s.contains(&1));
}

#[test]
fn test_concurrent_add_remove() {
    let mut r1 = ORSet::new();
    r1.add("A");
    r1.remove(&"A");
    let mut r2 = ORSet::new();
    r2.add_with_tag("A", 100);
    r1.merge(&r2);
    assert!(r1.contains(&"A"));
}

#[test]
fn orset_test_merge_union() {
    let mut s1 = ORSet::new();
    s1.add(1);
    let mut s2 = ORSet::new();
    s2.add(2);
    s1.merge(&s2);
    assert!(s1.contains(&1));
    assert!(s1.contains(&2));
}

#[test]
fn test_elements_list() {
    let mut s = ORSet::new();
    s.add(1);
    s.add(2);
    s.add(3);
    let elems = s.elements();
    assert_eq!(elems.len(), 3);
}

#[test]
fn test_merge_with_tombstones() {
    let mut s1 = ORSet::new();
    let tag = s1.add(1);
    let mut s2 = ORSet::new();
    s2.add_with_tag(1, tag);
    s2.remove(&1);
    s1.merge(&s2);
    assert!(!s1.contains(&1));
}

#[test]
fn orset_add_hands_out_consecutive_tags() {
    let mut s = ORSet::new();
    assert_eq!(s.add(10u64), 0);
    assert_eq!(s.add(10u64), 1);
    assert_eq!(s.add(11u64), 2);
    s.add_with_tag(12u64, 40);
    assert_eq!(s.add(13u64), 41);
    s.add_with_tag(14u64, 5);
    assert_eq!(s.add(15u64), 42);
}

#[test]
fn orset_add_with_removed_tag_is_ignored() {
    let mut s = ORSet::new();
    let tag = s.add(7u64);
    assert!(s.remove(&7u64));
    s.add_with_tag(7u64, tag);
    assert!(!s.contains(&7u64));
    assert!(s.is_empty());
    assert!(!s.remove(&7u64));
}

#[test]
fn orset_elements_len_and_is_empty() {
    let mut s = ORSet::new();
    assert!(s.is_empty());
    assert_eq!(s.len(), 0);
    s.add(1u64);
    s.add(1u64);
    s.add(2u64);
    assert_eq!(s.len(), 2);
    let mut elems = s.elements();
    elems.sort();
    assert_eq!(elems, vec![1, 2]);
    s.remove(&1u64);
    assert_eq!(s.elements(), vec![2]);
    assert!(!s.is_empty());
}

#[test]
fn orset_merge_commutative_in_contents() {
    let mut a = ORSet::new();
    a.add_with_tag(1u64, 0);
    a.add_with_tag(2u64, 1);
    a.remove(&2u64);
    let mut b = ORSet::new();
    b.add_with_tag(2u64, 1);
    b.add_with_tag(3u64, 7);
    let mut ab = a.clone();
    ab.merge(&b);
    let mut ba = b.clone();
    ba.merge(&a);
    let mut x = ab.elements();
    x.sort();
    let mut y = ba.elements();
    y.sort();
    assert_eq!(x, y);
    assert_eq!(x, vec![1, 3]);
}

#[test]
fn orset_merge_idempotent_in_contents() {
    let mut a = ORSet::new();
    a.add(1u64);
    a.add(2u64);
    a.remove(&1u64);
    let copy = a.clone();
    a.merge(&copy);
    assert_eq!(a.elements(), vec![2]);
    assert_eq!(a.add(9u64), 2);
}

#[test]
fn orset_merge_drops_fully_removed_entries() {
    let mut a = ORSet::new();
    let t = a.add(5u64);
    let mut b = ORSet::new();
    b.add_with_tag(5u64, t);
    b.remove(&5u64);
    a.merge(&b);
    assert!(!a.contains(&5u64));
    assert!(!a.remove(&5u64));
    assert_eq!(a.len(), 0);
}

#[test]
fn orset_shared_tag_removal_hides_other_element() {
    let mut s = ORSet::new();
    s.add_with_tag(1u64, 5);
    s.add_with_tag(2u64, 5);
    assert!(s.remove(&1u64));
    assert!(!s.contains(&2u64));
    assert!(s.remove(&2u64));
}
