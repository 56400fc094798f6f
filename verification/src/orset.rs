//! Observed-Remove Set (OR-Set): supports both add and remove with causal semantics.
use crate::gset::hash_set_clone;
use crate::lawful::{lawful_element, lemma_set_iter_members};
use std::collections::{HashMap, HashSet};
use vstd::prelude::*;
use vstd::std_specs::hash::obeys_key_model;

verus! {

/// Unique tag for an add operation.
pub type Tag = u64;

/// The abstract state of an OR-Set: the add tags of each element, the removed
/// tags (tombstones), and the next tag an `add` hands out.
pub type ORSetState<T> = (Map<T, Set<Tag>>, Set<Tag>, Tag);

/// The add tags recorded for `element`; none if it has no entry.
pub open spec fn tags_of<T>(adds: Map<T, Set<Tag>>, element: T) -> Set<Tag> {
    if adds.contains_key(element) {
        adds[element]
    } else {
        Set::empty()
    }
}

/// Some tag of `tags` has not been removed.
pub open spec fn has_live_tag(tags: Set<Tag>, tombstones: Set<Tag>) -> bool {
    exists|t: Tag| #[trigger] tags.contains(t) && !tombstones.contains(t)
}

/// `element` is in the set: one of its add tags has not been removed.
pub open spec fn is_live<T>(state: ORSetState<T>, element: T) -> bool {
    has_live_tag(tags_of(state.0, element), state.1)
}

/// The elements that are in the set.
pub open spec fn live_elements<T>(state: ORSetState<T>) -> Set<T> {
    Set::new(|element: T| is_live(state, element))
}

/// Every tag recorded, as an add or as a tombstone, is below the next tag to
/// be handed out, so a fresh tag has never been removed.
pub open spec fn tags_issued<T>(state: ORSetState<T>) -> bool {
    &&& forall|t: Tag| #[trigger] state.1.contains(t) ==> t < state.2
    &&& forall|e: T, t: Tag|
        state.0.contains_key(e) && #[trigger] state.0[e].contains(t) ==> t < state.2
}

/// The larger of two tags.
pub open spec fn max_tag(a: Tag, b: Tag) -> Tag {
    if a >= b {
        a
    } else {
        b
    }
}

/// The add tags `element` holds after merging `b` into `a`: those of `a`, and
/// those of `b` that neither side removed.
pub open spec fn joined_tags<T>(a: ORSetState<T>, b: ORSetState<T>, element: T) -> Set<Tag> {
    tags_of(a.0, element).union(tags_of(b.0, element).difference(a.1.union(b.1)))
}

/// The state a merge of `b` into `a` produces: tombstones united, the add tags
/// of each element united without the removed ones, and only the elements
/// that are still in the set kept.
pub open spec fn or_join<T>(a: ORSetState<T>, b: ORSetState<T>) -> ORSetState<T> {
    (
        Map::new(
            |e: T|
                (a.0.contains_key(e) || b.0.contains_key(e)) && has_live_tag(
                    joined_tags(a, b, e),
                    a.1.union(b.1),
                ),
            |e: T| joined_tags(a, b, e),
        ),
        a.1.union(b.1),
        max_tag(a.2, b.2),
    )
}

/// The add tags of each element, as united by a merge before the elements
/// whose tags were all removed are dropped.
pub open spec fn united_adds<T>(
    a: Map<T, Set<Tag>>,
    b: Map<T, Set<Tag>>,
    tombstones: Set<Tag>,
) -> Map<T, Set<Tag>> {
    Map::new(
        |e: T| a.contains_key(e) || b.contains_key(e),
        |e: T| tags_of(a, e).union(tags_of(b, e).difference(tombstones)),
    )
}

/// The tag sets that a map of hash sets holds.
pub open spec fn tag_view<T>(adds: Map<T, HashSet<Tag>>) -> Map<T, Set<Tag>> {
    Map::new(|e: T| adds.contains_key(e), |e: T| adds[e]@)
}

/// Law: after a merge an element is in the set exactly when one of its add
/// tags, on either side, was removed on neither side.
pub proof fn lemma_join_live<T>(a: ORSetState<T>, b: ORSetState<T>, element: T)
    ensures
        is_live(or_join(a, b), element) == has_live_tag(
            tags_of(a.0, element).union(tags_of(b.0, element)),
            a.1.union(b.1),
        ),
{
    let removed = a.1.union(b.1);
    let both = tags_of(a.0, element).union(tags_of(b.0, element));
    let joined = joined_tags(a, b, element);
    if has_live_tag(both, removed) {
        let t = choose|t: Tag| #[trigger] both.contains(t) && !removed.contains(t);
        assert(joined.contains(t));
        assert(a.0.contains_key(element) || b.0.contains_key(element));
        assert(tags_of(or_join(a, b).0, element) == joined);
    }
    if is_live(or_join(a, b), element) {
        let tags = tags_of(or_join(a, b).0, element);
        let t = choose|t: Tag| #[trigger] tags.contains(t) && !removed.contains(t);
        assert(both.contains(t));
    }
}

/// Law: a merge keeps an entry for an element exactly when one of the
/// element's add tags, from either side, is a tombstone on neither side; every
/// element that keeps an entry is in the set, so removing it afterwards reports
/// a removal exactly when it was in the set.
pub proof fn lemma_join_entries_are_live<T>(a: ORSetState<T>, b: ORSetState<T>, element: T)
    ensures
        or_join(a, b).0.contains_key(element) <==> exists|t: Tag|
            (#[trigger] tags_of(a.0, element).contains(t) || tags_of(b.0, element).contains(t))
                && !a.1.contains(t) && !b.1.contains(t),
        or_join(a, b).0.contains_key(element) ==> exists|t: Tag|
            #[trigger] or_join(a, b).0[element].contains(t) && !or_join(a, b).1.contains(t),
{
    lemma_join_live(a, b, element);
    let both = tags_of(a.0, element).union(tags_of(b.0, element));
    let removed = a.1.union(b.1);
    if exists|t: Tag|
        (#[trigger] tags_of(a.0, element).contains(t) || tags_of(b.0, element).contains(t))
            && !a.1.contains(t) && !b.1.contains(t) {
        let t = choose|t: Tag|
            (#[trigger] tags_of(a.0, element).contains(t) || tags_of(b.0, element).contains(t))
                && !a.1.contains(t) && !b.1.contains(t);
        assert(both.contains(t) && !removed.contains(t));
    }
    if has_live_tag(both, removed) {
        let t = choose|t: Tag| #[trigger] both.contains(t) && !removed.contains(t);
        assert(tags_of(a.0, element).contains(t) || tags_of(b.0, element).contains(t));
    }
    if or_join(a, b).0.contains_key(element) {
        assert(is_live(or_join(a, b), element));
        let t = choose|t: Tag|
            #[trigger] tags_of(or_join(a, b).0, element).contains(t) && !removed.contains(t);
        assert(or_join(a, b).0[element].contains(t));
    }
}

/// Law: merge is commutative in what it makes observable: the same elements
/// are in the set, with the same tombstones and next tag, whichever side
/// merges into the other.
pub proof fn lemma_join_commutative<T>(a: ORSetState<T>, b: ORSetState<T>)
    ensures
        live_elements(or_join(a, b)) == live_elements(or_join(b, a)),
        or_join(a, b).1 == or_join(b, a).1,
        or_join(a, b).2 == or_join(b, a).2,
{
    assert forall|e: T| is_live(or_join(a, b), e) == is_live(or_join(b, a), e) by {
        lemma_join_live(a, b, e);
        lemma_join_live(b, a, e);
        assert(tags_of(a.0, e).union(tags_of(b.0, e)) =~= tags_of(b.0, e).union(tags_of(a.0, e)));
        assert(a.1.union(b.1) =~= b.1.union(a.1));
    }
    assert(live_elements(or_join(a, b)) =~= live_elements(or_join(b, a)));
    assert(or_join(a, b).1 =~= or_join(b, a).1);
}

/// The add tags an element keeps through a merge are, up to removed ones,
/// those of both sides.
proof fn lemma_join_tags<T>(a: ORSetState<T>, b: ORSetState<T>, element: T)
    ensures
        tags_of(or_join(a, b).0, element).subset_of(
            tags_of(a.0, element).union(tags_of(b.0, element)),
        ),
        forall|t: Tag|
            #[trigger] tags_of(a.0, element).union(tags_of(b.0, element)).contains(t)
                && !a.1.union(b.1).contains(t) ==> tags_of(or_join(a, b).0, element).contains(t),
{
    lemma_join_live(a, b, element);
    let removed = a.1.union(b.1);
    assert forall|t: Tag|
        #[trigger] tags_of(a.0, element).union(tags_of(b.0, element)).contains(t)
            && !removed.contains(t) implies tags_of(or_join(a, b).0, element).contains(t) by {
        assert(has_live_tag(tags_of(a.0, element).union(tags_of(b.0, element)), removed));
    }
}

/// Law: merge is associative in what it makes observable.
pub proof fn lemma_join_associative<T>(a: ORSetState<T>, b: ORSetState<T>, c: ORSetState<T>)
    ensures
        live_elements(or_join(or_join(a, b), c)) == live_elements(or_join(a, or_join(b, c))),
        or_join(or_join(a, b), c).1 == or_join(a, or_join(b, c)).1,
        or_join(or_join(a, b), c).2 == or_join(a, or_join(b, c)).2,
{
    let removed = a.1.union(b.1).union(c.1);
    assert(a.1.union(b.1).union(c.1) =~= a.1.union(b.1.union(c.1)));
    assert forall|e: T| is_live(or_join(or_join(a, b), c), e) == is_live(
        or_join(a, or_join(b, c)),
        e,
    ) by {
        let all = tags_of(a.0, e).union(tags_of(b.0, e)).union(tags_of(c.0, e));
        lemma_join_live(or_join(a, b), c, e);
        lemma_join_live(a, or_join(b, c), e);
        lemma_join_tags(a, b, e);
        lemma_join_tags(b, c, e);
        let left = tags_of(or_join(a, b).0, e).union(tags_of(c.0, e));
        let right = tags_of(a.0, e).union(tags_of(or_join(b, c).0, e));
        if has_live_tag(all, removed) {
            let t = choose|t: Tag| #[trigger] all.contains(t) && !removed.contains(t);
            if tags_of(a.0, e).contains(t) || tags_of(b.0, e).contains(t) {
                assert(tags_of(a.0, e).union(tags_of(b.0, e)).contains(t));
                assert(!a.1.union(b.1).contains(t));
            }
            assert(left.contains(t));
            if !tags_of(a.0, e).contains(t) {
                assert(tags_of(b.0, e).union(tags_of(c.0, e)).contains(t));
                assert(!b.1.union(c.1).contains(t));
            }
            assert(right.contains(t));
        }
        if has_live_tag(left, removed) {
            let t = choose|t: Tag| #[trigger] left.contains(t) && !removed.contains(t);
            assert(all.contains(t));
        }
        if has_live_tag(right, removed) {
            let t = choose|t: Tag| #[trigger] right.contains(t) && !removed.contains(t);
            assert(all.contains(t));
        }
    }
    assert(live_elements(or_join(or_join(a, b), c)) =~= live_elements(
        or_join(a, or_join(b, c)),
    ));
}

/// Law: merging a state with itself leaves the same elements in the set and
/// the same tombstones and next tag.
pub proof fn lemma_join_idempotent<T>(a: ORSetState<T>)
    ensures
        live_elements(or_join(a, a)) == live_elements(a),
        or_join(a, a).1 == a.1,
        or_join(a, a).2 == a.2,
{
    assert forall|e: T| is_live(or_join(a, a), e) == is_live(a, e) by {
        lemma_join_live(a, a, e);
        assert(tags_of(a.0, e).union(tags_of(a.0, e)) =~= tags_of(a.0, e));
        assert(a.1.union(a.1) =~= a.1);
    }
    assert(live_elements(or_join(a, a)) =~= live_elements(a));
    assert(a.1.union(a.1) =~= a.1);
}

/// Law: an add that one replica has not observed survives that replica's
/// remove: after the merge the element is in the set.
pub proof fn lemma_unobserved_add_wins<T>(a: ORSetState<T>, b: ORSetState<T>, element: T, tag: Tag)
    requires
        tags_of(b.0, element).contains(tag),
        !a.1.contains(tag),
        !b.1.contains(tag),
    ensures
        is_live(or_join(a, b), element),
{
    lemma_join_live(a, b, element);
    assert(tags_of(a.0, element).union(tags_of(b.0, element)).contains(tag));
}

/// Law: a remove wins over every add it observed: when each add tag of the
/// element is a tombstone on one side, the element is not in the merged set.
pub proof fn lemma_observed_remove_wins<T>(a: ORSetState<T>, b: ORSetState<T>, element: T)
    requires
        tags_of(a.0, element).union(tags_of(b.0, element)).subset_of(a.1.union(b.1)),
    ensures
        !is_live(or_join(a, b), element),
{
    lemma_join_live(a, b, element);
}

/// Whether a hash set of tags holds one that is not a tombstone.
fn any_live_tag(tags: &HashSet<Tag>, tombstones: &HashSet<Tag>) -> (live: bool)
    ensures
        live == has_live_tag(tags@, tombstones@),
{
    proof {
        lemma_set_iter_members(tags);
    }
    for t in it: tags.iter()
        invariant
            forall|i: int| 0 <= i < it.seq().len() ==> tags@.contains(*#[trigger] it.seq()[i]),
            forall|x: Tag|
                #[trigger] tags@.contains(x) && !tombstones@.contains(x) ==> exists|i: int|
                    it.index() <= i < it.seq().len() && *it.seq()[i] == x,
    {
        if !tombstones.contains(t) {
            return true;
        }
    }
    false
}

/// An OR-Set CRDT. Each add gets a tag that this replica has not used before
/// (tags are unique per replica, not across replicas: two replicas both start
/// at tag 0, and a tag shared by two elements is removed for both); remove
/// only removes observed tags.
#[derive(Debug)]
pub struct ORSet<T: Clone + Eq + std::hash::Hash> {
    /// element -> set of unique add tags
    adds: HashMap<T, HashSet<Tag>>,
    /// Set of removed tags (tombstones)
    tombstones: HashSet<Tag>,
    next_tag: Tag,
}

impl<T: Clone + Eq + std::hash::Hash> View for ORSet<T> {
    type V = ORSetState<T>;

    closed spec fn view(&self) -> ORSetState<T> {
        (
            tag_view(self.adds@),
            self.tombstones@,
            self.next_tag,
        )
    }
}

impl<T: Clone + Eq + std::hash::Hash> ORSet<T> {
    #[verifier::type_invariant]
    closed spec fn issued(self) -> bool {
        &&& forall|t: Tag| #[trigger] self.tombstones@.contains(t) ==> t < self.next_tag
        &&& forall|e: T, t: Tag|
            self.adds@.contains_key(e) && #[trigger] self.adds@[e]@.contains(t) ==> t
                < self.next_tag
    }

    pub fn new() -> (set: Self)
        ensures
            set@ == (Map::<T, Set<Tag>>::empty(), Set::<Tag>::empty(), 0u64),
    {
        let set = ORSet { adds: HashMap::new(), tombstones: HashSet::new(), next_tag: 0 };
        assert(set@.0 =~= Map::<T, Set<Tag>>::empty());
        set
    }

    /// Add an element. Returns the unique tag used.
    pub fn add(&mut self, element: T) -> (tag: Tag)
        requires
            obeys_key_model::<T>(),
            old(self)@.2 < u64::MAX,
        ensures
            tag == old(self)@.2,
            !old(self)@.1.contains(tag),
            forall|e: T| !#[trigger] tags_of(old(self)@.0, e).contains(tag),
            final(self)@ == (
                old(self)@.0.insert(element, tags_of(old(self)@.0, element).insert(tag)),
                old(self)@.1,
                (tag + 1) as Tag,
            ),
            is_live(final(self)@, element),
            tags_issued(old(self)@),
            tags_issued(final(self)@),
    {
        proof {
            use_type_invariant(&*self);
        }
        let tag = self.next_tag;
        self.next_tag = tag + 1;
        let mut adds = HashMap::new();
        std::mem::swap(&mut adds, &mut self.adds);
        let mut tags = match adds.remove(&element) {
            Some(existing) => existing,
            None => HashSet::new(),
        };
        tags.insert(tag);
        adds.insert(element, tags);
        self.adds = adds;
        proof {
            assert(self@.0 =~= old(self)@.0.insert(element, tags_of(old(self)@.0, element).insert(tag)));
            assert(tags_of(self@.0, element).contains(tag));
        }
        tag
    }

    /// Add with a specific tag (for merging).
    pub fn add_with_tag(&mut self, element: T, tag: Tag)
        requires
            obeys_key_model::<T>(),
            tag < u64::MAX,
        ensures
            final(self)@.0 == if old(self)@.1.contains(tag) {
                old(self)@.0
            } else {
                old(self)@.0.insert(element, tags_of(old(self)@.0, element).insert(tag))
            },
            final(self)@.1 == old(self)@.1,
            final(self)@.2 == max_tag(old(self)@.2, (tag + 1) as Tag),
            tags_issued(old(self)@),
            tags_issued(final(self)@),
    {
        proof {
            use_type_invariant(&*self);
        }
        if tag + 1 > self.next_tag {
            self.next_tag = tag + 1;
        }
        if !self.tombstones.contains(&tag) {
            let mut adds = HashMap::new();
            std::mem::swap(&mut adds, &mut self.adds);
            let mut tags = match adds.remove(&element) {
                Some(existing) => existing,
                None => HashSet::new(),
            };
            tags.insert(tag);
            adds.insert(element, tags);
            self.adds = adds;
            proof {
                assert(self@.0 =~= old(self)@.0.insert(
                    element,
                    tags_of(old(self)@.0, element).insert(tag),
                ));
            }
        }
        proof {
            assert(old(self)@.1.contains(tag) ==> self@.0 =~= old(self)@.0);
        }
    }

    /// Remove an element (only removes currently observed tags).
    pub fn remove(&mut self, element: &T) -> (removed: bool)
        requires
            obeys_key_model::<T>(),
        ensures
            removed == old(self)@.0.contains_key(*element),
            final(self)@ == (
                old(self)@.0.remove(*element),
                old(self)@.1.union(tags_of(old(self)@.0, *element)),
                old(self)@.2,
            ),
            !is_live(final(self)@, *element),
            tags_issued(old(self)@),
            tags_issued(final(self)@),
    {
        proof {
            use_type_invariant(&*self);
        }
        let mut adds = HashMap::new();
        std::mem::swap(&mut adds, &mut self.adds);
        let observed = adds.remove(element);
        self.adds = adds;
        proof {
            assert(self@.0 =~= old(self)@.0.remove(*element));
        }
        if let Some(tags) = observed {
            let mut tombstones = HashSet::new();
            std::mem::swap(&mut tombstones, &mut self.tombstones);
            proof {
                lemma_set_iter_members(&tags);
            }
            for t in it: tags.iter()
                invariant
                    tombstones@.subset_of(old(self)@.1.union(tags@)),
                    old(self)@.1.subset_of(tombstones@),
                    forall|i: int| 0 <= i < it.seq().len() ==> tags@.contains(*#[trigger] it.seq()[i]),
                    forall|x: Tag|
                        #[trigger] tags@.contains(x) && !tombstones@.contains(x) ==> exists|i: int|
                            it.index() <= i < it.seq().len() && *it.seq()[i] == x,
            {
                tombstones.insert(*t);
            }
            proof {
                assert(tombstones@ =~= old(self)@.1.union(tags@));
            }
            self.tombstones = tombstones;
            return true;
        }
        proof {
            assert(old(self)@.1.union(Set::<Tag>::empty()) =~= old(self)@.1);
        }
        false
    }

    /// Check if element is present (has non-tombstoned tags).
    pub fn contains(&self, element: &T) -> (present: bool)
        requires
            obeys_key_model::<T>(),
        ensures
            present == is_live(self@, *element),
            tags_issued(self@),
    {
        proof {
            use_type_invariant(self);
        }
        match self.adds.get(element) {
            Some(tags) => any_live_tag(tags, &self.tombstones),
            None => false,
        }
    }
}

impl<T: Clone + Eq + std::hash::Hash> ORSet<T> {
    /// Get all live elements.
    pub fn elements(&self) -> (elements: Vec<T>)
        requires
            lawful_element::<T>(),
        ensures
            elements@.to_set() == live_elements(self@),
            elements@.no_duplicates(),
            tags_issued(self@),
    {
        proof {
            use_type_invariant(self);
        }
        let mut out: Vec<T> = Vec::new();
        for (element, tags) in it: self.adds.iter()
            invariant
                lawful_element::<T>(),
                forall|i: int|
                    0 <= i < it.seq().len() ==> self.adds@.contains_key(*#[trigger] it.seq()[i].0)
                        && self.adds@[*it.seq()[i].0] == *it.seq()[i].1,
                it.seq().no_duplicates(),
                forall|j: int|
                    0 <= j < out.len() ==> is_live(self@, #[trigger] out@[j]) && exists|i: int|
                        0 <= i < it.index() && *it.seq()[i].0 == out@[j],
                out@.no_duplicates(),
                forall|e: T|
                    #[trigger] is_live(self@, e) && !out@.contains(e) ==> exists|i: int|
                        it.index() <= i < it.seq().len() && *it.seq()[i].0 == e,
        {
            let ghost idx = it.index();
            let ghost before = out@;
            if any_live_tag(tags, &self.tombstones) {
                let copy = T::clone(element);
                proof {
                    assert(copy == *element);
                    assert(tags_of(self@.0, *element) == tags@);
                    if out@.contains(copy) {
                        let j = choose|j: int| 0 <= j < out.len() && out@[j] == copy;
                        assert(is_live(self@, out@[j]));
                        let i = choose|i: int| 0 <= i < idx && *it.seq()[i].0 == out@[j];
                        assert(it.seq()[i] == it.seq()[idx]);
                    }
                }
                out.push(copy);
            }
            proof {
                assert(tags_of(self@.0, *element) == tags@);
                assert forall|e: T| #[trigger] is_live(self@, e) && !out@.contains(e) implies exists|
                    i: int,
                | idx + 1 <= i < it.seq().len() && *it.seq()[i].0 == e by {
                    assert(!before.contains(e)) by {
                        if before.contains(e) {
                            let j = choose|j: int| 0 <= j < before.len() && before[j] == e;
                            assert(out@[j] == e);
                        }
                    }
                    let i = choose|i: int| idx <= i < it.seq().len() && *it.seq()[i].0 == e;
                    if i == idx {
                        assert(out@.contains(e)) by {
                            assert(out@[out.len() - 1] == e);
                        }
                    }
                }
            }
        }
        proof {
            assert(out@.to_set() =~= live_elements(self@));
        }
        out
    }

    /// Number of live elements.
    pub fn len(&self) -> (len: usize)
        requires
            lawful_element::<T>(),
        ensures
            len == live_elements(self@).len(),
            tags_issued(self@),
            live_elements(self@).finite(),
    {
        let elements = self.elements();
        proof {
            elements@.unique_seq_to_set();
        }
        elements.len()
    }

    /// Is the set empty?
    pub fn is_empty(&self) -> (empty: bool)
        requires
            lawful_element::<T>(),
        ensures
            empty == (live_elements(self@) == Set::<T>::empty()),
            tags_issued(self@),
    {
        let len = self.len();
        proof {
            if len == 0 {
                live_elements(self@).lemma_len0_is_empty();
            }
        }
        len == 0
    }
}

impl<T: Clone + Eq + std::hash::Hash> ORSet<T> {
    /// Merge with another OR-Set.
    pub fn merge(&mut self, other: &ORSet<T>)
        requires
            lawful_element::<T>(),
        ensures
            final(self)@ == or_join(old(self)@, other@),
            forall|e: T|
                #[trigger] final(self)@.0.contains_key(e) ==> exists|t: Tag|
                    #[trigger] final(self)@.0[e].contains(t) && !final(self)@.1.contains(t),
            tags_issued(old(self)@),
            tags_issued(other@),
            tags_issued(final(self)@),
    {
        proof {
            use_type_invariant(&*self);
            use_type_invariant(other);
        }
        if other.next_tag > self.next_tag {
            self.next_tag = other.next_tag;
        }
        let mut tombstones = HashSet::new();
        std::mem::swap(&mut tombstones, &mut self.tombstones);
        proof {
            lemma_set_iter_members(&other.tombstones);
        }
        for t in it: other.tombstones.iter()
            invariant
                tombstones@.subset_of(old(self)@.1.union(other@.1)),
                old(self)@.1.subset_of(tombstones@),
                forall|i: int|
                    0 <= i < it.seq().len() ==> other@.1.contains(*#[trigger] it.seq()[i]),
                forall|x: Tag|
                    #[trigger] other@.1.contains(x) && !tombstones@.contains(x) ==> exists|i: int|
                        it.index() <= i < it.seq().len() && *it.seq()[i] == x,
        {
            tombstones.insert(*t);
        }
        proof {
            assert(tombstones@ =~= old(self)@.1.union(other@.1));
        }
        self.tombstones = tombstones;
        let ghost all_tombstones = self.tombstones@;
        let mut adds = HashMap::new();
        std::mem::swap(&mut adds, &mut self.adds);
        let ghost mut done: Set<T> = Set::empty();
        proof {
            assert(tag_view(adds@) =~~= united_adds(old(self)@.0, other@.0.restrict(done), all_tombstones));
        }
        for (element, tags) in it: other.adds.iter()
            invariant
                lawful_element::<T>(),
                self.tombstones@ == all_tombstones,
                all_tombstones == old(self)@.1.union(other@.1),
                other@.0 == tag_view(other.adds@),
                tag_view(adds@) == united_adds(old(self)@.0, other@.0.restrict(done), all_tombstones),
                done.subset_of(other@.0.dom()),
                forall|e: T, t: Tag|
                    adds@.contains_key(e) && #[trigger] adds@[e]@.contains(t) ==> t < self.next_tag,
                forall|e: T, t: Tag|
                    other.adds@.contains_key(e) && #[trigger] other.adds@[e]@.contains(t) ==> t
                        < self.next_tag,
                forall|i: int|
                    0 <= i < it.seq().len() ==> other.adds@.contains_key(*#[trigger] it.seq()[i].0)
                        && other.adds@[*it.seq()[i].0] == *it.seq()[i].1,
                forall|e: T|
                    #[trigger] other@.0.contains_key(e) && !done.contains(e) ==> exists|i: int|
                        it.index() <= i < it.seq().len() && *it.seq()[i].0 == e,
        {
            let ghost prev = tag_view(adds@);
            let mut entry = match adds.remove(element) {
                Some(existing) => existing,
                None => HashSet::new(),
            };
            let ghost initial = entry@;
            proof {
                assert(initial =~= tags_of(prev, *element));
                assert(tag_view(adds@) =~~= prev.remove(*element));
                assert(tags@ == other@.0[*element]);
                lemma_set_iter_members(tags);
            }
            for t in it2: tags.iter()
                invariant
                    self.tombstones@ == all_tombstones,
                    initial.subset_of(entry@),
                    entry@.subset_of(initial.union(tags@.difference(all_tombstones))),
                    forall|i: int| 0 <= i < it2.seq().len() ==> tags@.contains(*#[trigger] it2.seq()[i]),
                    forall|x: Tag|
                        #[trigger] tags@.contains(x) && !all_tombstones.contains(x) && !entry@.contains(x)
                            ==> exists|i: int| it2.index() <= i < it2.seq().len() && *it2.seq()[i] == x,
            {
                if !self.tombstones.contains(t) {
                    entry.insert(*t);
                }
            }
            let key = T::clone(element);
            proof {
                assert(key == *element);
                assert(entry@ =~= initial.union(tags@.difference(all_tombstones)));
            }
            adds.insert(key, entry);
            proof {
                let next = united_adds(old(self)@.0, other@.0.restrict(done.insert(*element)), all_tombstones);
                assert(next[*element] =~= entry@);
                assert(next.remove(*element) =~~= prev.remove(*element));
                assert(tag_view(adds@) =~~= prev.remove(*element).insert(*element, entry@));
                done = done.insert(*element);
                assert(tag_view(adds@) =~~= united_adds(old(self)@.0, other@.0.restrict(done), all_tombstones));
            }
        }
        proof {
            assert(other@.0.restrict(done) =~= other@.0);
        }
        let ghost united = tag_view(adds@);
        let mut dead: Vec<T> = Vec::new();
        for (element, tags) in it: adds.iter()
            invariant
                lawful_element::<T>(),
                self.tombstones@ == all_tombstones,
                united == tag_view(adds@),
                forall|i: int|
                    0 <= i < it.seq().len() ==> adds@.contains_key(*#[trigger] it.seq()[i].0)
                        && adds@[*it.seq()[i].0] == *it.seq()[i].1,
                forall|j: int|
                    0 <= j < dead.len() ==> united.contains_key(#[trigger] dead@[j]) && !has_live_tag(
                        united[dead@[j]],
                        all_tombstones,
                    ),
                forall|e: T|
                    #[trigger] united.contains_key(e) && !has_live_tag(united[e], all_tombstones)
                        && !dead@.contains(e) ==> exists|i: int|
                        it.index() <= i < it.seq().len() && *it.seq()[i].0 == e,
        {
            let ghost idx = it.index();
            let ghost before = dead@;
            let live = any_live_tag(tags, &self.tombstones);
            if !live {
                let key = T::clone(element);
                dead.push(key);
            }
            proof {
                assert(united[*element] == tags@);
                assert forall|e: T|
                    #[trigger] united.contains_key(e) && !has_live_tag(united[e], all_tombstones)
                        && !dead@.contains(e) implies exists|i: int|
                    idx + 1 <= i < it.seq().len() && *it.seq()[i].0 == e by {
                    assert(!before.contains(e)) by {
                        if before.contains(e) {
                            let j = choose|j: int| 0 <= j < before.len() && before[j] == e;
                            assert(dead@[j] == e);
                        }
                    }
                    let i = choose|i: int| idx <= i < it.seq().len() && *it.seq()[i].0 == e;
                    if i == idx {
                        assert(dead@[dead.len() - 1] == e);
                    }
                }
            }
        }
        let mut i: usize = 0;
        while i < dead.len()
            invariant
                lawful_element::<T>(),
                i <= dead.len(),
                tag_view(adds@) == Map::new(
                    |e: T| united.contains_key(e) && !dead@.take(i as int).contains(e),
                    |e: T| united[e],
                ),
                forall|e: T, t: Tag|
                    adds@.contains_key(e) && #[trigger] adds@[e]@.contains(t) ==> t < self.next_tag,
            decreases dead.len() - i,
        {
            let ghost before = adds@;
            adds.remove(&dead[i]);
            proof {
                let d = dead@[i as int];
                assert(adds@ == before.remove(d));
                assert(dead@.take(i + 1) =~= dead@.take(i as int).push(d));
                assert forall|e: T| #[trigger] dead@.take(i + 1).contains(e) <==> (dead@.take(
                    i as int,
                ).contains(e) || e == d) by {
                    if dead@.take(i + 1).contains(e) && e != d {
                        let k = choose|k: int| 0 <= k < i + 1 && #[trigger] dead@.take(i + 1)[k] == e;
                        assert(dead@.take(i as int)[k] == e);
                    }
                    if e == d {
                        assert(dead@.take(i + 1)[i as int] == d);
                    }
                }
                assert(tag_view(adds@) =~~= tag_view(before).remove(d));
                assert(tag_view(adds@) =~~= Map::new(
                    |e: T| united.contains_key(e) && !dead@.take(i + 1).contains(e),
                    |e: T| united[e],
                ));
            }
            i = i + 1;
        }
        proof {
            assert(dead@.take(dead.len() as int) =~= dead@);
            assert forall|e: T| #[trigger] dead@.contains(e) <==> (united.contains_key(e) && !has_live_tag(
                united[e],
                all_tombstones,
            )) by {
                if dead@.contains(e) {
                    let j = choose|j: int| 0 <= j < dead.len() && dead@[j] == e;
                }
            }
            assert(tag_view(adds@) =~~= or_join(old(self)@, other@).0);
        }
        self.adds = adds;
        proof {
            assert forall|e: T| #[trigger] self@.0.contains_key(e) implies exists|t: Tag|
                #[trigger] self@.0[e].contains(t) && !self@.1.contains(t) by {
                lemma_join_entries_are_live(old(self)@, other@, e);
            }
        }
    }
}

impl<T: Clone + Eq + std::hash::Hash> Clone for ORSet<T> {
    fn clone(&self) -> (copy: Self)
        ensures
            copy@ == self@,
            tags_issued(self@),
    {
        proof {
            use_type_invariant(self);
        }
        ORSet {
            adds: self.adds.clone(),
            tombstones: hash_set_clone(&self.tombstones),
            next_tag: self.next_tag,
        }
    }
}

impl<T: Clone + Eq + std::hash::Hash> Default for ORSet<T> {
    fn default() -> (set: Self)
        ensures
            set@ == (Map::<T, Set<Tag>>::empty(), Set::<Tag>::empty(), 0u64),
    {
        Self::new()
    }
}

} // verus!
