//! Last-Writer-Wins (LWW) Register: resolves concurrent writes by timestamp.
use crate::lawful::clone_is_identity;
use vstd::prelude::*;
use vstd::std_specs::cmp::PartialEqSpec;

verus! {

/// Whether state `b` is newer than state `a`: a later timestamp, or the same
/// timestamp from a higher node. States are `(value, timestamp, node_id)`.
pub open spec fn newer<T>(a: (T, u64, u64), b: (T, u64, u64)) -> bool {
    b.1 > a.1 || (b.1 == a.1 && b.2 > a.2)
}

/// The state a merge of `a` with `b` produces: the newer of the two, and `a`
/// when neither is newer.
pub open spec fn lww_join<T>(a: (T, u64, u64), b: (T, u64, u64)) -> (T, u64, u64) {
    if newer(a, b) {
        b
    } else {
        a
    }
}

/// Law: merge is commutative, unless the two states carry the same timestamp
/// and node but different values (then each side keeps its own value).
pub proof fn lemma_lww_join_commutative<T>(a: (T, u64, u64), b: (T, u64, u64))
    requires
        a.1 != b.1 || a.2 != b.2 || a.0 == b.0,
    ensures
        lww_join(a, b) == lww_join(b, a),
{
}

/// Law: merge is associative.
pub proof fn lemma_lww_join_associative<T>(
    a: (T, u64, u64),
    b: (T, u64, u64),
    c: (T, u64, u64),
)
    ensures
        lww_join(lww_join(a, b), c) == lww_join(a, lww_join(b, c)),
{
}

/// Law: merging a state with itself changes nothing.
pub proof fn lemma_lww_join_idempotent<T>(a: (T, u64, u64))
    ensures
        lww_join(a, a) == a,
{
}

/// Law: the merged state is at least as new as both sides.
pub proof fn lemma_lww_join_newest<T>(a: (T, u64, u64), b: (T, u64, u64))
    ensures
        !newer(lww_join(a, b), a),
        !newer(lww_join(a, b), b),
{
}

/// Law: a merge keeps one of its two sides, namely the one ordered highest by
/// timestamp first and node id second: the result's timestamp is the larger
/// one, and on a timestamp tie its node id is the larger one. The left side is
/// kept only when the right side is not later on either count.
pub proof fn lemma_lww_join_lexicographic_max<T>(a: (T, u64, u64), b: (T, u64, u64))
    ensures
        lww_join(a, b) == a || lww_join(a, b) == b,
        lww_join(a, b).1 >= a.1,
        lww_join(a, b).1 >= b.1,
        lww_join(a, b).1 == a.1 ==> lww_join(a, b).2 >= a.2,
        lww_join(a, b).1 == b.1 ==> lww_join(a, b).2 >= b.2,
        (b.1 < a.1 || (b.1 == a.1 && b.2 <= a.2)) ==> lww_join(a, b) == a,
{
}

/// A LWW Register CRDT. The value with the latest timestamp wins.
#[derive(Debug)]
pub struct LWWRegister<T: Clone> {
    value: T,
    timestamp: u64,
    node_id: u64,
}

impl<T: Clone> View for LWWRegister<T> {
    /// `(value, timestamp, node_id)`, the node id breaking timestamp ties.
    type V = (T, u64, u64);

    closed spec fn view(&self) -> (T, u64, u64) {
        (self.value, self.timestamp, self.node_id)
    }
}

impl<T: Clone> LWWRegister<T> {
    pub fn new(value: T, timestamp: u64, node_id: u64) -> (register: Self)
        ensures
            register@ == (value, timestamp, node_id),
    {
        LWWRegister { value, timestamp, node_id }
    }

    /// Get the current value.
    pub fn value(&self) -> (value: &T)
        ensures
            *value == self@.0,
    {
        &self.value
    }

    /// Get the timestamp.
    pub fn timestamp(&self) -> (timestamp: u64)
        ensures
            timestamp == self@.1,
    {
        self.timestamp
    }

    /// Write a new value with a timestamp.
    pub fn write(&mut self, value: T, timestamp: u64)
        ensures
            final(self)@ == if timestamp >= old(self)@.1 {
                (value, timestamp, old(self)@.2)
            } else {
                old(self)@
            },
    {
        if timestamp >= self.timestamp {
            self.value = value;
            self.timestamp = timestamp;
        }
    }

    /// Write with tiebreaker (node_id breaks ties).
    pub fn write_with_node(&mut self, value: T, timestamp: u64, node_id: u64)
        ensures
            final(self)@ == lww_join(old(self)@, (value, timestamp, node_id)),
            final(self)@ == if timestamp > old(self)@.1 || (timestamp == old(self)@.1 && node_id
                > old(self)@.2) {
                (value, timestamp, node_id)
            } else {
                old(self)@
            },
    {
        let should_update = timestamp > self.timestamp || (timestamp == self.timestamp && node_id
            > self.node_id);
        if should_update {
            self.value = value;
            self.timestamp = timestamp;
            self.node_id = node_id;
        }
    }

    /// Merge with another LWW register (higher timestamp wins).
    pub fn merge(&mut self, other: &LWWRegister<T>)
        ensures
            final(self)@.1 == lww_join(old(self)@, other@).1,
            final(self)@.2 == lww_join(old(self)@, other@).2,
            final(self)@.1 == if other@.1 > old(self)@.1 {
                other@.1
            } else {
                old(self)@.1
            },
            final(self)@.2 == if other@.1 > old(self)@.1 || (other@.1 == old(self)@.1 && other@.2
                > old(self)@.2) {
                other@.2
            } else {
                old(self)@.2
            },
            if newer(old(self)@, other@) {
                cloned(other@.0, final(self)@.0)
            } else {
                final(self)@.0 == old(self)@.0
            },
            clone_is_identity::<T>() ==> final(self)@ == lww_join(old(self)@, other@),
    {
        if other.timestamp > self.timestamp {
            self.value = other.value.clone();
            self.timestamp = other.timestamp;
            self.node_id = other.node_id;
        } else if other.timestamp == self.timestamp && other.node_id > self.node_id {
            self.value = other.value.clone();
            self.node_id = other.node_id;
        }
    }

    /// Create a merged copy.
    pub fn merged(&self, other: &LWWRegister<T>) -> (result: LWWRegister<T>)
        ensures
            result@.1 == lww_join(self@, other@).1,
            result@.2 == lww_join(self@, other@).2,
            result@.1 == if other@.1 > self@.1 {
                other@.1
            } else {
                self@.1
            },
            result@.2 == if other@.1 > self@.1 || (other@.1 == self@.1 && other@.2 > self@.2) {
                other@.2
            } else {
                self@.2
            },
            if newer(self@, other@) {
                cloned(other@.0, result@.0)
            } else {
                cloned(self@.0, result@.0)
            },
            clone_is_identity::<T>() ==> result@ == lww_join(self@, other@),
    {
        let mut result = LWWRegister {
            value: self.value.clone(),
            timestamp: self.timestamp,
            node_id: self.node_id,
        };
        result.merge(other);
        result
    }
}

impl<T: Clone> Clone for LWWRegister<T> {
    fn clone(&self) -> (copy: Self)
        ensures
            copy@.1 == self@.1,
            copy@.2 == self@.2,
            cloned(self@.0, copy@.0),
    {
        LWWRegister { value: self.value.clone(), timestamp: self.timestamp, node_id: self.node_id }
    }
}

impl<T: Clone + PartialEq> PartialEq for LWWRegister<T> {
    fn eq(&self, other: &Self) -> (same: bool) {
        self.timestamp == other.timestamp && self.value == other.value && self.node_id
            == other.node_id
    }
}

impl<T: Clone + PartialEq> vstd::std_specs::cmp::PartialEqSpecImpl for LWWRegister<T> {
    open spec fn obeys_eq_spec() -> bool {
        <T as PartialEqSpec>::obeys_eq_spec()
    }

    open spec fn eq_spec(&self, other: &Self) -> bool {
        &&& self@.1 == other@.1
        &&& self@.0.eq_spec(&other@.0)
        &&& self@.2 == other@.2
    }
}

} // verus!
