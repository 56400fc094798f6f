//! Positive-Negative Counter (PN-Counter): supports both increment and decrement.
use crate::gcounter::{count_of, join, total, GCounter};
use vstd::prelude::*;

verus! {

/// A total read as an `i64` the way an `as` cast reads a `u64`: totals past
/// `i64::MAX` wrap around to negative numbers.
pub open spec fn as_i64(x: nat) -> int {
    if x <= i64::MAX {
        x as int
    } else {
        x - 0x1_0000_0000_0000_0000
    }
}

/// The value of a PN-Counter state: increments minus decrements.
pub open spec fn pn_value(state: (Map<u64, u64>, Map<u64, u64>)) -> int {
    as_i64(total(state.0)) - as_i64(total(state.1))
}

/// The state a PN-Counter merge produces: each half merged on its own.
pub open spec fn pn_join(
    a: (Map<u64, u64>, Map<u64, u64>),
    b: (Map<u64, u64>, Map<u64, u64>),
) -> (Map<u64, u64>, Map<u64, u64>) {
    (join(a.0, b.0), join(a.1, b.1))
}

proof fn lemma_as_i64(x: u64)
    ensures
        (x as i64) as int == as_i64(x as nat),
{
    if x <= 0x7fff_ffff_ffff_ffff {
        assert((x as i64) as int == x as int) by (bit_vector)
            requires
                x <= 0x7fff_ffff_ffff_ffff,
        ;
    } else {
        assert((x as i64) as int == x as int - 0x1_0000_0000_0000_0000) by (bit_vector)
            requires
                x > 0x7fff_ffff_ffff_ffff,
        ;
    }
}

/// Law: PN-Counter merge is commutative.
pub proof fn lemma_pn_join_commutative(
    a: (Map<u64, u64>, Map<u64, u64>),
    b: (Map<u64, u64>, Map<u64, u64>),
)
    ensures
        pn_join(a, b) == pn_join(b, a),
{
    crate::gcounter::lemma_join_commutative(a.0, b.0);
    crate::gcounter::lemma_join_commutative(a.1, b.1);
}

/// Law: PN-Counter merge is associative.
pub proof fn lemma_pn_join_associative(
    a: (Map<u64, u64>, Map<u64, u64>),
    b: (Map<u64, u64>, Map<u64, u64>),
    c: (Map<u64, u64>, Map<u64, u64>),
)
    ensures
        pn_join(pn_join(a, b), c) == pn_join(a, pn_join(b, c)),
{
    crate::gcounter::lemma_join_associative(a.0, b.0, c.0);
    crate::gcounter::lemma_join_associative(a.1, b.1, c.1);
}

/// Law: merging a PN-Counter state with itself changes nothing.
pub proof fn lemma_pn_join_idempotent(a: (Map<u64, u64>, Map<u64, u64>))
    ensures
        pn_join(a, a) == a,
{
    crate::gcounter::lemma_join_idempotent(a.0);
    crate::gcounter::lemma_join_idempotent(a.1);
}

/// Law: merging PN-Counters whose increments touched disjoint node sets, and
/// whose decrements did too, adds their values (while the totals stay within
/// `i64`).
pub proof fn lemma_pn_join_disjoint_value(
    a: (Map<u64, u64>, Map<u64, u64>),
    b: (Map<u64, u64>, Map<u64, u64>),
)
    requires
        a.0.dom().finite(),
        a.1.dom().finite(),
        b.0.dom().finite(),
        b.1.dom().finite(),
        a.0.dom().disjoint(b.0.dom()),
        a.1.dom().disjoint(b.1.dom()),
        total(pn_join(a, b).0) <= i64::MAX,
        total(pn_join(a, b).1) <= i64::MAX,
    ensures
        pn_value(pn_join(a, b)) == pn_value(a) + pn_value(b),
{
    crate::gcounter::lemma_join_disjoint_total(a.0, b.0);
    crate::gcounter::lemma_join_disjoint_total(a.1, b.1);
}

/// Law: once merged, merging either side in again changes nothing.
pub proof fn lemma_pn_join_absorbs(
    a: (Map<u64, u64>, Map<u64, u64>),
    b: (Map<u64, u64>, Map<u64, u64>),
)
    ensures
        pn_join(pn_join(a, b), a) == pn_join(a, b),
        pn_join(pn_join(a, b), b) == pn_join(a, b),
{
    crate::gcounter::lemma_join_absorbs(a.0, b.0);
    crate::gcounter::lemma_join_absorbs(a.1, b.1);
}

/// Law: the value of a state is its number of increments minus its number of
/// decrements, counted over every node, while both counts fit in an `i64`.
pub proof fn lemma_pn_value_counts(state: (Map<u64, u64>, Map<u64, u64>))
    requires
        total(state.0) <= i64::MAX,
        total(state.1) <= i64::MAX,
    ensures
        pn_value(state) == total(state.0) - total(state.1),
{
}

/// Law: a fresh PN-Counter has value zero.
pub proof fn lemma_pn_value_new()
    ensures
        pn_value((Map::<u64, u64>::empty(), Map::<u64, u64>::empty())) == 0,
{
    assert(Map::<u64, u64>::empty().dom() =~= Set::<u64>::empty());
}

/// Law: incrementing any node raises the value by exactly one (while the
/// counts stay within `i64`).
pub proof fn lemma_pn_increment_value(state: (Map<u64, u64>, Map<u64, u64>), node: u64)
    requires
        state.0.dom().finite(),
        count_of(state.0, node) < u64::MAX,
        total(state.0) < i64::MAX,
        total(state.1) <= i64::MAX,
    ensures
        pn_value((state.0.insert(node, (count_of(state.0, node) + 1) as u64), state.1))
            == pn_value(state) + 1,
{
    crate::gcounter::lemma_total_insert(state.0, node, (count_of(state.0, node) + 1) as u64);
}

/// Law: decrementing any node lowers the value by exactly one (while the
/// counts stay within `i64`).
pub proof fn lemma_pn_decrement_value(state: (Map<u64, u64>, Map<u64, u64>), node: u64)
    requires
        state.1.dom().finite(),
        count_of(state.1, node) < u64::MAX,
        total(state.0) <= i64::MAX,
        total(state.1) < i64::MAX,
    ensures
        pn_value((state.0, state.1.insert(node, (count_of(state.1, node) + 1) as u64)))
            == pn_value(state) - 1,
{
    crate::gcounter::lemma_total_insert(state.1, node, (count_of(state.1, node) + 1) as u64);
}

/// A PN-Counter CRDT built from two G-Counters (positive and negative).
#[derive(Debug, Clone)]
pub struct PNCounter {
    positive: GCounter,
    negative: GCounter,
}

impl View for PNCounter {
    type V = (Map<u64, u64>, Map<u64, u64>);

    closed spec fn view(&self) -> (Map<u64, u64>, Map<u64, u64>) {
        (self.positive@, self.negative@)
    }
}

impl PNCounter {
    /// Both halves of the state have finitely many nodes.
    pub proof fn lemma_finite(&self)
        ensures
            self@.0.dom().finite(),
            self@.1.dom().finite(),
    {
        self.positive.lemma_finite();
        self.negative.lemma_finite();
    }

    pub fn new() -> (counter: Self)
        ensures
            counter@ == (Map::<u64, u64>::empty(), Map::<u64, u64>::empty()),
    {
        PNCounter { positive: GCounter::new(), negative: GCounter::new() }
    }

    /// Increment the counter for a node.
    pub fn increment(&mut self, node_id: u64)
        requires
            count_of(old(self)@.0, node_id) < u64::MAX,
        ensures
            final(self)@ == (
                old(self)@.0.insert(node_id, (count_of(old(self)@.0, node_id) + 1) as u64),
                old(self)@.1,
            ),
            total(final(self)@.0) == total(old(self)@.0) + 1,
            total(old(self)@.0) < i64::MAX && total(old(self)@.1) <= i64::MAX ==> pn_value(
                final(self)@,
            ) == pn_value(old(self)@) + 1,
    {
        proof {
            self.lemma_finite();
            if total(old(self)@.0) < i64::MAX && total(old(self)@.1) <= i64::MAX {
                lemma_pn_increment_value(self@, node_id);
            }
        }
        self.positive.increment(node_id);
    }

    /// Decrement the counter for a node.
    pub fn decrement(&mut self, node_id: u64)
        requires
            count_of(old(self)@.1, node_id) < u64::MAX,
        ensures
            final(self)@ == (
                old(self)@.0,
                old(self)@.1.insert(node_id, (count_of(old(self)@.1, node_id) + 1) as u64),
            ),
            total(final(self)@.1) == total(old(self)@.1) + 1,
            total(old(self)@.0) <= i64::MAX && total(old(self)@.1) < i64::MAX ==> pn_value(
                final(self)@,
            ) == pn_value(old(self)@) - 1,
    {
        proof {
            self.lemma_finite();
            if total(old(self)@.0) <= i64::MAX && total(old(self)@.1) < i64::MAX {
                lemma_pn_decrement_value(self@, node_id);
            }
        }
        self.negative.increment(node_id);
    }

    /// Get the current value (positive - negative).
    pub fn value(&self) -> (value: i64)
        requires
            total(self@.0) <= u64::MAX,
            total(self@.1) <= u64::MAX,
            i64::MIN <= pn_value(self@) <= i64::MAX,
        ensures
            value == pn_value(self@),
    {
        let p = self.positive.value();
        let n = self.negative.value();
        proof {
            lemma_as_i64(p);
            lemma_as_i64(n);
        }
        p as i64 - n as i64
    }

    /// Merge with another PN-Counter.
    pub fn merge(&mut self, other: &PNCounter)
        ensures
            final(self)@ == pn_join(old(self)@, other@),
    {
        self.positive.merge(&other.positive);
        self.negative.merge(&other.negative);
    }

    /// Create a merged copy.
    pub fn merged(&self, other: &PNCounter) -> (result: PNCounter)
        ensures
            result@ == pn_join(self@, other@),
    {
        let mut result = PNCounter {
            positive: self.positive.merged(&other.positive),
            negative: self.negative.merged(&other.negative),
        };
        result
    }
}

impl Default for PNCounter {
    fn default() -> (counter: Self)
        ensures
            counter@ == (Map::<u64, u64>::empty(), Map::<u64, u64>::empty()),
    {
        Self::new()
    }
}

impl PartialEq for PNCounter {
    fn eq(&self, other: &Self) -> (same: bool) {
        self.positive == other.positive && self.negative == other.negative
    }
}

impl vstd::std_specs::cmp::PartialEqSpecImpl for PNCounter {
    open spec fn obeys_eq_spec() -> bool {
        true
    }

    open spec fn eq_spec(&self, other: &Self) -> bool {
        self@ == other@
    }
}

impl Eq for PNCounter {

}

} // verus!
