//! Grow-only counter (G-Counter): each replica increments its own slot, merge takes max.
use std::collections::HashMap;
use vstd::prelude::*;

verus! {

/// The count recorded for `node` in a counter state; a node that never
/// incremented counts as zero.
pub open spec fn count_of(counts: Map<u64, u64>, node: u64) -> u64 {
    if counts.contains_key(node) {
        counts[node]
    } else {
        0
    }
}

/// The sum of the counts of the nodes in `nodes`.
pub open spec fn sum_over(counts: Map<u64, u64>, nodes: Set<u64>) -> nat
    decreases nodes.len(),
    when nodes.finite()
{
    if nodes.len() == 0 {
        0
    } else {
        let n = nodes.choose();
        count_of(counts, n) as nat + sum_over(counts, nodes.remove(n))
    }
}

/// The value of a counter state: the sum of all per-node counts.
pub open spec fn total(counts: Map<u64, u64>) -> nat {
    sum_over(counts, counts.dom())
}

/// The larger of two counts.
pub open spec fn max_count(a: u64, b: u64) -> u64 {
    if a >= b {
        a
    } else {
        b
    }
}

/// Component-wise maximum of two counter states: the state a merge produces.
pub open spec fn join(a: Map<u64, u64>, b: Map<u64, u64>) -> Map<u64, u64> {
    Map::new(
        |n: u64| a.contains_key(n) || b.contains_key(n),
        |n: u64| max_count(count_of(a, n), count_of(b, n)),
    )
}

/// Removing any one node from a finite set splits its sum, whichever node the
/// definition happened to choose first.
pub proof fn lemma_sum_over_remove(counts: Map<u64, u64>, nodes: Set<u64>, n: u64)
    requires
        nodes.finite(),
        nodes.contains(n),
    ensures
        sum_over(counts, nodes) == count_of(counts, n) + sum_over(counts, nodes.remove(n)),
    decreases nodes.len(),
{
    let c = nodes.choose();
    if c != n {
        lemma_sum_over_remove(counts, nodes.remove(c), n);
        lemma_sum_over_remove(counts, nodes.remove(n), c);
        assert(nodes.remove(c).remove(n) =~= nodes.remove(n).remove(c));
    }
}

/// Two states that agree on every node of `nodes` have the same sum over it.
pub proof fn lemma_sum_over_agree(a: Map<u64, u64>, b: Map<u64, u64>, nodes: Set<u64>)
    requires
        nodes.finite(),
        forall|n: u64| #[trigger] nodes.contains(n) ==> count_of(a, n) == count_of(b, n),
    ensures
        sum_over(a, nodes) == sum_over(b, nodes),
    decreases nodes.len(),
{
    if nodes.len() != 0 {
        let c = nodes.choose();
        lemma_sum_over_agree(a, b, nodes.remove(c));
    }
}

/// Setting the count of `n` to `v` changes the total by exactly the difference.
pub proof fn lemma_total_insert(counts: Map<u64, u64>, n: u64, v: u64)
    requires
        counts.dom().finite(),
    ensures
        total(counts.insert(n, v)) + count_of(counts, n) == total(counts) + v,
{
    let after = counts.insert(n, v);
    let rest = counts.dom().remove(n);
    assert(after.dom() =~= counts.dom().insert(n));
    lemma_sum_over_remove(after, after.dom(), n);
    assert(after.dom().remove(n) =~= rest);
    lemma_sum_over_agree(after, counts, rest);
    if counts.contains_key(n) {
        lemma_sum_over_remove(counts, counts.dom(), n);
    } else {
        assert(rest =~= counts.dom());
    }
}

/// Only the nodes a state actually holds contribute to a sum.
pub proof fn lemma_sum_over_dom(counts: Map<u64, u64>, nodes: Set<u64>)
    requires
        nodes.finite(),
    ensures
        sum_over(counts, nodes) == sum_over(counts, nodes.intersect(counts.dom())),
    decreases nodes.len(),
{
    if nodes.len() != 0 {
        let c = nodes.choose();
        let held = nodes.intersect(counts.dom());
        lemma_sum_over_dom(counts, nodes.remove(c));
        vstd::set_lib::lemma_len_subset(held, nodes);
        if counts.contains_key(c) {
            lemma_sum_over_remove(counts, held, c);
            assert(held.remove(c) =~= nodes.remove(c).intersect(counts.dom()));
        } else {
            assert(held =~= nodes.remove(c).intersect(counts.dom()));
        }
    }
}

/// A sum over a fixed set of nodes grows with the counts.
pub proof fn lemma_sum_over_monotone(a: Map<u64, u64>, b: Map<u64, u64>, nodes: Set<u64>)
    requires
        nodes.finite(),
        forall|n: u64| #[trigger] nodes.contains(n) ==> count_of(a, n) <= count_of(b, n),
    ensures
        sum_over(a, nodes) <= sum_over(b, nodes),
    decreases nodes.len(),
{
    if nodes.len() != 0 {
        let c = nodes.choose();
        lemma_sum_over_monotone(a, b, nodes.remove(c));
    }
}

/// Law: a state that counts at least as much as another on every node has at
/// least its value.
pub proof fn lemma_total_monotone(a: Map<u64, u64>, b: Map<u64, u64>)
    requires
        a.dom().finite(),
        b.dom().finite(),
        forall|n: u64| count_of(a, n) <= #[trigger] count_of(b, n),
    ensures
        total(a) <= total(b),
{
    let all = a.dom().union(b.dom());
    lemma_sum_over_dom(a, all);
    lemma_sum_over_dom(b, all);
    assert(all.intersect(a.dom()) =~= a.dom());
    assert(all.intersect(b.dom()) =~= b.dom());
    lemma_sum_over_monotone(a, b, all);
}

/// Law: merging is commutative.
pub proof fn lemma_join_commutative(a: Map<u64, u64>, b: Map<u64, u64>)
    ensures
        join(a, b) == join(b, a),
{
    assert(join(a, b) =~= join(b, a));
}

/// Law: merging is associative.
pub proof fn lemma_join_associative(a: Map<u64, u64>, b: Map<u64, u64>, c: Map<u64, u64>)
    ensures
        join(join(a, b), c) == join(a, join(b, c)),
{
    assert(join(join(a, b), c) =~= join(a, join(b, c)));
}

/// Law: merging a state with itself changes nothing.
pub proof fn lemma_join_idempotent(a: Map<u64, u64>)
    ensures
        join(a, a) == a,
{
    assert(join(a, a) =~= a);
}

/// Law: the merge of two states is their least upper bound: it counts at least
/// as much as each on every node, and no more than any state that does.
pub proof fn lemma_join_least_upper_bound(a: Map<u64, u64>, b: Map<u64, u64>, c: Map<u64, u64>)
    ensures
        forall|n: u64|
            count_of(a, n) <= #[trigger] count_of(join(a, b), n) && count_of(b, n) <= count_of(
                join(a, b),
                n,
            ),
        (forall|n: u64| count_of(a, n) <= #[trigger] count_of(c, n) && count_of(b, n) <= count_of(c, n))
            ==> (forall|n: u64| #[trigger] count_of(join(a, b), n) <= count_of(c, n)),
{
}

/// Law: merging never decreases the value of either side.
pub proof fn lemma_join_value(a: Map<u64, u64>, b: Map<u64, u64>)
    requires
        a.dom().finite(),
        b.dom().finite(),
    ensures
        join(a, b).dom().finite(),
        total(a) <= total(join(a, b)),
        total(b) <= total(join(a, b)),
{
    assert(join(a, b).dom() =~= a.dom().union(b.dom()));
    lemma_total_monotone(a, join(a, b));
    lemma_total_monotone(b, join(a, b));
}

/// The sum over two disjoint sets of nodes is the sum of the two sums.
pub proof fn lemma_sum_over_disjoint_union(counts: Map<u64, u64>, a: Set<u64>, b: Set<u64>)
    requires
        a.finite(),
        b.finite(),
        a.disjoint(b),
    ensures
        sum_over(counts, a.union(b)) == sum_over(counts, a) + sum_over(counts, b),
    decreases a.len(),
{
    if a.len() == 0 {
        assert(a =~= Set::<u64>::empty());
        assert(a.union(b) =~= b);
    } else {
        let c = a.choose();
        lemma_sum_over_disjoint_union(counts, a.remove(c), b);
        lemma_sum_over_remove(counts, a.union(b), c);
        assert(a.union(b).remove(c) =~= a.remove(c).union(b));
    }
}

/// Law: merging counters whose node sets are disjoint adds their values.
pub proof fn lemma_join_disjoint_total(a: Map<u64, u64>, b: Map<u64, u64>)
    requires
        a.dom().finite(),
        b.dom().finite(),
        a.dom().disjoint(b.dom()),
    ensures
        total(join(a, b)) == total(a) + total(b),
{
    let j = join(a, b);
    assert(j.dom() =~= a.dom().union(b.dom()));
    lemma_sum_over_disjoint_union(j, a.dom(), b.dom());
    lemma_sum_over_agree(j, a, a.dom());
    lemma_sum_over_agree(j, b, b.dom());
}

/// Law: once merged, merging either side in again changes nothing.
pub proof fn lemma_join_absorbs(a: Map<u64, u64>, b: Map<u64, u64>)
    ensures
        join(join(a, b), a) == join(a, b),
        join(join(a, b), b) == join(a, b),
{
    assert(join(join(a, b), a) =~= join(a, b));
    assert(join(join(a, b), b) =~= join(a, b));
}

/// Law: the value counts every node: it is at least the count of any one
/// node, and with no nodes it is zero.
pub proof fn lemma_total_covers_each_node(counts: Map<u64, u64>, node: u64)
    requires
        counts.dom().finite(),
    ensures
        total(counts) >= count_of(counts, node),
        counts.dom().len() == 0 ==> total(counts) == 0,
{
    if counts.contains_key(node) {
        lemma_sum_over_remove(counts, counts.dom(), node);
    }
}

/// Sum of the counts carried by a sequence of (node, count) pairs.
pub open spec fn pairs_sum(pairs: Seq<(&u64, &u64)>) -> nat
    decreases pairs.len(),
{
    if pairs.len() == 0 {
        0
    } else {
        pairs_sum(pairs.drop_last()) + *pairs.last().1 as nat
    }
}

/// The nodes named by a sequence of (node, count) pairs.
pub open spec fn pairs_nodes(pairs: Seq<(&u64, &u64)>) -> Set<u64>
    decreases pairs.len(),
{
    if pairs.len() == 0 {
        Set::empty()
    } else {
        pairs_nodes(pairs.drop_last()).insert(*pairs.last().0)
    }
}

/// Every pair of the sequence agrees with the state.
pub open spec fn pairs_agree(counts: Map<u64, u64>, pairs: Seq<(&u64, &u64)>) -> bool {
    forall|i: int|
        0 <= i < pairs.len() ==> counts.contains_key(*#[trigger] pairs[i].0) && counts[*pairs[i].0]
            == *pairs[i].1
}

/// A prefix of a sequence of pairs never sums to more than the whole.
pub proof fn lemma_pairs_sum_prefix(pairs: Seq<(&u64, &u64)>, k: int)
    requires
        0 <= k <= pairs.len(),
    ensures
        pairs_sum(pairs.take(k)) <= pairs_sum(pairs),
    decreases pairs.len(),
{
    if k < pairs.len() {
        lemma_pairs_sum_prefix(pairs.drop_last(), k);
        assert(pairs.drop_last().take(k) =~= pairs.take(k));
    } else {
        assert(pairs.take(k) =~= pairs);
    }
}

/// The nodes of a duplicate-free sequence of pairs taken from a state are
/// distinct, and the pairs sum to the state's sum over those nodes.
pub proof fn lemma_pairs_sum_nodes(counts: Map<u64, u64>, pairs: Seq<(&u64, &u64)>)
    requires
        pairs_agree(counts, pairs),
        pairs.no_duplicates(),
    ensures
        pairs_nodes(pairs).finite(),
        pairs_nodes(pairs).len() == pairs.len(),
        pairs_nodes(pairs).subset_of(counts.dom()),
        pairs_sum(pairs) == sum_over(counts, pairs_nodes(pairs)),
        forall|n: u64|
            #[trigger] pairs_nodes(pairs).contains(n) ==> exists|i: int|
                0 <= i < pairs.len() && *pairs[i].0 == n,
    decreases pairs.len(),
{
    if pairs.len() > 0 {
        let init = pairs.drop_last();
        let last = pairs.last();
        assert(pairs_agree(counts, init)) by {
            assert forall|i: int| 0 <= i < init.len() implies counts.contains_key(
                *#[trigger] init[i].0,
            ) && counts[*init[i].0] == *init[i].1 by {
                assert(init[i] == pairs[i]);
            }
        }
        assert(init.no_duplicates()) by {
            assert forall|i: int, j: int|
                0 <= i < init.len() && 0 <= j < init.len() && i != j implies init[i]
                != init[j] by {
                assert(init[i] == pairs[i] && init[j] == pairs[j]);
            }
        }
        lemma_pairs_sum_nodes(counts, init);
        let nodes = pairs_nodes(init);
        assert(pairs[pairs.len() - 1] == last);
        if nodes.contains(*last.0) {
            let i = choose|i: int| 0 <= i < init.len() && *init[i].0 == *last.0;
            assert(init[i] == pairs[i]);
            assert(pairs[i] == last);
        }
        assert(pairs_nodes(pairs) == nodes.insert(*last.0));
        lemma_sum_over_remove(counts, nodes.insert(*last.0), *last.0);
        assert(nodes.insert(*last.0).remove(*last.0) =~= nodes);
        assert forall|n: u64| #[trigger] pairs_nodes(pairs).contains(n) implies exists|i: int|
            0 <= i < pairs.len() && *pairs[i].0 == n by {
            if n == *last.0 {
                assert(*pairs[pairs.len() - 1].0 == n);
            } else {
                let i = choose|i: int| 0 <= i < init.len() && *init[i].0 == n;
                assert(init[i] == pairs[i]);
            }
        }
    }
}

/// A duplicate-free listing of all of a state's pairs sums to its total.
pub proof fn lemma_pairs_sum_total(counts: Map<u64, u64>, pairs: Seq<(&u64, &u64)>)
    requires
        counts.dom().finite(),
        pairs_agree(counts, pairs),
        pairs.no_duplicates(),
        pairs.len() == counts.dom().len(),
    ensures
        pairs_sum(pairs) == total(counts),
{
    lemma_pairs_sum_nodes(counts, pairs);
    vstd::set_lib::lemma_subset_equality(pairs_nodes(pairs), counts.dom());
}

/// A G-Counter CRDT. Each node increments only its own entry.
/// Merge takes the component-wise maximum.
#[derive(Debug, Clone)]
pub struct GCounter {
    counts: HashMap<u64, u64>,
}

impl View for GCounter {
    type V = Map<u64, u64>;

    closed spec fn view(&self) -> Map<u64, u64> {
        self.counts@
    }
}

impl GCounter {
    /// The state's node set is finite.
    pub proof fn lemma_finite(&self)
        ensures
            self@.dom().finite(),
    {
    }

    pub fn new() -> (counter: Self)
        ensures
            counter@ == Map::<u64, u64>::empty(),
    {
        GCounter { counts: HashMap::new() }
    }

    /// Increment the counter for a given node.
    pub fn increment(&mut self, node_id: u64) -> (count: u64)
        requires
            count_of(old(self)@, node_id) < u64::MAX,
        ensures
            count == count_of(old(self)@, node_id) + 1,
            final(self)@ == old(self)@.insert(node_id, count),
            total(final(self)@) == total(old(self)@) + 1,
    {
        let current = match self.counts.get(&node_id) {
            Some(c) => *c,
            None => 0,
        };
        let next = current + 1;
        self.counts.insert(node_id, next);
        proof {
            lemma_total_insert(old(self)@, node_id, next);
        }
        next
    }

    /// Get the total count across all nodes.
    pub fn value(&self) -> (sum: u64)
        requires
            total(self@) <= u64::MAX,
        ensures
            sum == total(self@),
    {
        let mut sum: u64 = 0;
        for (node, count) in it: self.counts.iter()
            invariant
                sum == pairs_sum(it.seq().take(it.index())),
                total(self@) <= u64::MAX,
                self@.dom().finite(),
                pairs_agree(self@, it.seq()),
                it.seq().no_duplicates(),
                it.seq().len() == self@.dom().len(),
                it.index() == it.seq().len() ==> sum == total(self@),
        {
            proof {
                let i = it.index();
                lemma_pairs_sum_total(self@, it.seq());
                lemma_pairs_sum_prefix(it.seq(), i + 1);
                assert(it.seq().take(i + 1).drop_last() =~= it.seq().take(i));
            }
            sum = sum + *count;
            assert(it.index() == it.seq().len() ==> it.seq().take(it.index()) =~= it.seq());
        }
        sum
    }

    /// Merge with another G-Counter (component-wise max).
    pub fn merge(&mut self, other: &GCounter)
        ensures
            final(self)@ == join(old(self)@, other@),
    {
        let ghost start = self@;
        let ghost mut done: Set<u64> = Set::empty();
        for (node, count) in it: other.counts.iter()
            invariant
                self@ == join(start, other@.restrict(done)),
                done.subset_of(other@.dom()),
                pairs_agree(other@, it.seq()),
                forall|n: u64|
                    #[trigger] other@.contains_key(n) && !done.contains(n) ==> exists|i: int|
                        it.index() <= i < it.seq().len() && *it.seq()[i].0 == n,
        {
            let current = match self.counts.get(node) {
                Some(c) => *c,
                None => 0,
            };
            let updated = if current >= *count {
                current
            } else {
                *count
            };
            self.counts.insert(*node, updated);
            proof {
                done = done.insert(*node);
                assert(self@ =~= join(start, other@.restrict(done)));
            }
        }
        assert(other@.restrict(done) =~= other@);
    }

    /// Create a merged copy.
    pub fn merged(&self, other: &GCounter) -> (result: GCounter)
        ensures
            result@ == join(self@, other@),
    {
        let mut result = GCounter { counts: self.counts.clone() };
        result.merge(other);
        result
    }

    /// Get the count for a specific node.
    pub fn get(&self, node_id: u64) -> (count: u64)
        ensures
            count == count_of(self@, node_id),
    {
        match self.counts.get(&node_id) {
            Some(c) => *c,
            None => 0,
        }
    }
}

impl Default for GCounter {
    fn default() -> (counter: Self)
        ensures
            counter@ == Map::<u64, u64>::empty(),
    {
        Self::new()
    }
}

impl PartialEq for GCounter {
    fn eq(&self, other: &Self) -> (same: bool) {
        if self.counts.len() != other.counts.len() {
            return false;
        }
        for (node, count) in it: self.counts.iter()
            invariant
                self@.dom().len() == other@.dom().len(),
                pairs_agree(self@, it.seq()),
                forall|n: u64|
                    #[trigger] self@.contains_key(n) && !(other@.contains_key(n) && other@[n]
                        == self@[n]) ==> exists|i: int|
                        it.index() <= i < it.seq().len() && *it.seq()[i].0 == n,
        {
            match other.counts.get(node) {
                Some(c) => {
                    if *c != *count {
                        return false;
                    }
                },
                None => {
                    return false;
                },
            }
        }
        proof {
            assert(self@.dom().subset_of(other@.dom()));
            vstd::set_lib::lemma_subset_equality(self@.dom(), other@.dom());
            assert(self@ =~= other@);
        }
        true
    }
}

impl vstd::std_specs::cmp::PartialEqSpecImpl for GCounter {
    open spec fn obeys_eq_spec() -> bool {
        true
    }

    open spec fn eq_spec(&self, other: &Self) -> bool {
        self@ == other@
    }
}

impl Eq for GCounter {

}

} // verus!
