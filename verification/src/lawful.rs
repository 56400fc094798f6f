//! What the replicated sets and the register assume of their element types,
//! and facts about iterating std hash sets that the set types share.
use std::collections::HashSet;
use vstd::prelude::*;
use vstd::std_specs::hash::{obeys_key_model, spec_hash_keys_iter};
use vstd::std_specs::iter::IteratorSpec;

verus! {

/// `clone` hands back a value equal to the one it was called on.
pub open spec fn clone_is_identity<T: Clone>() -> bool {
    forall|a: T, b: T| #[trigger] call_ensures(T::clone, (&a,), b) ==> a == b
}

/// The element type behaves as std's hash collections assume: hashing is
/// deterministic, `==` is identity, and `clone` copies.
pub open spec fn lawful_element<T: Clone>() -> bool {
    &&& obeys_key_model::<T>()
    &&& clone_is_identity::<T>()
}

/// Unsigned 64-bit integers are lawful elements.
pub proof fn lemma_u64_lawful()
    ensures
        lawful_element::<u64>(),
{
}

/// Every item that iterating a hash set yields is a member of the set.
pub proof fn lemma_set_iter_members<K>(set: &HashSet<K>)
    ensures
        forall|i: int|
            0 <= i < spec_hash_keys_iter(set).remaining().len() ==> set@.contains(
                *#[trigger] spec_hash_keys_iter(set).remaining()[i],
            ),
{
    let keys = spec_hash_keys_iter(set).remaining();
    assert forall|i: int| 0 <= i < keys.len() implies set@.contains(*#[trigger] keys[i]) by {
        assert(keys.unref()[i] == *keys[i]);
        assert(keys.unref().to_set().contains(keys.unref()[i]));
    }
}

} // verus!
