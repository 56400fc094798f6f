//! Grow-only set (G-Set): add-only set where merge is union.
use crate::lawful::{lawful_element, lemma_set_iter_members};
use std::collections::HashSet;
use vstd::prelude::*;
use vstd::std_specs::cmp::PartialEqSpecImpl;
use vstd::std_specs::hash::obeys_key_model;

verus! {

/// Law: merge (union) is commutative.
pub proof fn lemma_union_commutative<T>(a: Set<T>, b: Set<T>)
    ensures
        a.union(b) == b.union(a),
{
    assert(a.union(b) =~= b.union(a));
}

/// Law: merge (union) is associative.
pub proof fn lemma_union_associative<T>(a: Set<T>, b: Set<T>, c: Set<T>)
    ensures
        a.union(b).union(c) == a.union(b.union(c)),
{
    assert(a.union(b).union(c) =~= a.union(b.union(c)));
}

/// Law: merging a set with itself changes nothing.
pub proof fn lemma_union_idempotent<T>(a: Set<T>)
    ensures
        a.union(a) == a,
{
    assert(a.union(a) =~= a);
}

/// Law: nothing is ever lost by a merge.
pub proof fn lemma_union_keeps<T>(a: Set<T>, b: Set<T>)
    ensures
        a.subset_of(a.union(b)),
        b.subset_of(a.union(b)),
{
}

/// Compares two hash sets with std's `==`.
///
/// Trusted: `PartialEq::eq` of `std::collections::HashSet`, which std
/// documents as true exactly when both sets hold the same elements. The
/// contract claims this only for element types whose `Hash` and `Eq` behave as
/// std's hash collections assume (`obeys_key_model`); of other element types
/// nothing is stated.
#[verifier::external_body]
fn hash_set_eq<T: Eq + std::hash::Hash>(a: &HashSet<T>, b: &HashSet<T>) -> (same: bool)
    ensures
        obeys_key_model::<T>() ==> same == (a@ == b@),
{
    a == b
}

/// Copies a hash set with std's `clone`.
///
/// Trusted: `Clone::clone` of `std::collections::HashSet`, which std documents
/// as a set holding a clone of every element. The contract claims the copy
/// holds the same elements only for element types that behave as std's hash
/// collections assume (`obeys_key_model`, whose `clone` copies); of other
/// element types nothing is stated.
#[verifier::external_body]
pub(crate) fn hash_set_clone<T: Clone>(set: &HashSet<T>) -> (copy: HashSet<T>)
    ensures
        obeys_key_model::<T>() ==> copy@ == set@,
{
    set.clone()
}

/// A G-Set CRDT. Elements can only be added, never removed.
/// Merge is set union.
#[derive(Debug)]
pub struct GSet<T: Clone + Eq + std::hash::Hash> {
    elements: HashSet<T>,
}

impl<T: Clone + Eq + std::hash::Hash> View for GSet<T> {
    type V = Set<T>;

    closed spec fn view(&self) -> Set<T> {
        self.elements@
    }
}

impl<T: Clone + Eq + std::hash::Hash> GSet<T> {
    /// For element types that hash lawfully the set holds finitely many
    /// elements.
    #[verifier::type_invariant]
    closed spec fn finite_when_lawful(self) -> bool {
        obeys_key_model::<T>() ==> self.elements@.finite()
    }

    pub fn new() -> (set: Self)
        ensures
            set@ == Set::<T>::empty(),
    {
        GSet { elements: HashSet::new() }
    }

    /// Add an element.
    pub fn add(&mut self, element: T) -> (added: bool)
        requires
            obeys_key_model::<T>(),
        ensures
            final(self)@ == old(self)@.insert(element),
            added == !old(self)@.contains(element),
            old(self)@.finite(),
            final(self)@.finite(),
            final(self)@.len() == old(self)@.len() + if added {
                1int
            } else {
                0int
            },
    {
        proof {
            use_type_invariant(&*self);
        }
        let mut elements = HashSet::new();
        std::mem::swap(&mut elements, &mut self.elements);
        let added = elements.insert(element);
        self.elements = elements;
        added
    }

    /// Check if element is present.
    pub fn contains(&self, element: &T) -> (present: bool)
        requires
            obeys_key_model::<T>(),
        ensures
            present == self@.contains(*element),
            self@.finite(),
    {
        proof {
            use_type_invariant(self);
        }
        self.elements.contains(element)
    }

    /// Get all elements.
    pub fn elements(&self) -> (elements: &HashSet<T>)
        ensures
            elements@ == self@,
            obeys_key_model::<T>() ==> self@.finite(),
    {
        proof {
            use_type_invariant(self);
        }
        &self.elements
    }

    /// Number of elements.
    pub fn len(&self) -> (len: usize)
        requires
            obeys_key_model::<T>(),
        ensures
            len == self@.len(),
            self@.finite(),
    {
        proof {
            use_type_invariant(self);
        }
        self.elements.len()
    }

    /// Is the set empty?
    pub fn is_empty(&self) -> (empty: bool)
        ensures
            empty == (self@ == Set::<T>::empty()),
    {
        let empty = self.elements.is_empty();
        proof {
            if self@ == Set::<T>::empty() {
                assert(self@.is_empty());
            }
        }
        empty
    }

    /// Merge with another G-Set (union).
    pub fn merge(&mut self, other: &GSet<T>)
        requires
            lawful_element::<T>(),
        ensures
            final(self)@ == old(self)@.union(other@),
            final(self)@.finite(),
    {
        proof {
            use_type_invariant(&*self);
        }
        let ghost start = self@;
        let mut elements = HashSet::new();
        std::mem::swap(&mut elements, &mut self.elements);
        proof {
            lemma_set_iter_members(&other.elements);
        }
        for element in it: other.elements.iter()
            invariant
                lawful_element::<T>(),
                start.finite(),
                elements@.finite(),
                start.subset_of(elements@),
                elements@.subset_of(start.union(other@)),
                forall|i: int| 0 <= i < it.seq().len() ==> other@.contains(*#[trigger] it.seq()[i]),
                forall|x: T|
                    #[trigger] other@.contains(x) && !elements@.contains(x) ==> exists|i: int|
                        it.index() <= i < it.seq().len() && *it.seq()[i] == x,
        {
            let copy = T::clone(element);
            elements.insert(copy);
        }
        assert(elements@ =~= start.union(other@));
        self.elements = elements;
    }

    /// Create a merged copy.
    pub fn merged(&self, other: &GSet<T>) -> (result: GSet<T>)
        requires
            lawful_element::<T>(),
        ensures
            result@ == self@.union(other@),
            result@.finite(),
    {
        let mut result = self.clone();
        result.merge(other);
        result
    }
}

impl<T: Clone + Eq + std::hash::Hash> Clone for GSet<T> {
    fn clone(&self) -> (copy: Self)
        ensures
            obeys_key_model::<T>() ==> copy@ == self@,
    {
        proof {
            use_type_invariant(self);
        }
        GSet { elements: hash_set_clone(&self.elements) }
    }
}

impl<T: Clone + Eq + std::hash::Hash> Default for GSet<T> {
    fn default() -> (set: Self)
        ensures
            set@ == Set::<T>::empty(),
    {
        Self::new()
    }
}

impl<T: Clone + Eq + std::hash::Hash> PartialEq for GSet<T> {
    fn eq(&self, other: &Self) -> (same: bool) {
        hash_set_eq(&self.elements, &other.elements)
    }
}

impl<T: Clone + Eq + std::hash::Hash> PartialEqSpecImpl for GSet<T> {
    open spec fn obeys_eq_spec() -> bool {
        obeys_key_model::<T>()
    }

    open spec fn eq_spec(&self, other: &Self) -> bool {
        self@ == other@
    }
}

impl<T: Clone + Eq + std::hash::Hash> Eq for GSet<T> {

}

} // verus!
