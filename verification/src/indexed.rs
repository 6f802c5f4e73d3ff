//! The insertion-ordered collections of the `indexmap` crate, as far as the
//! storage uses them. Verus does not read that crate: what each function here
//! states of it is taken from its documentation and believed without proof.

use vstd::prelude::*;
use indexmap::{IndexMap, IndexSet};
use crate::archetype::{ComponentId, TableIndex};

verus! {
/// `indexmap::IndexMap`, as a type whose inside Verus does not see.
#[verifier::external_type_specification]
#[verifier::external_body]
#[verifier::reject_recursive_types(K)]
#[verifier::reject_recursive_types(V)]
#[verifier::reject_recursive_types(S)]
pub struct ExIndexMap<K, V, S>(IndexMap<K, V, S>);

/// `indexmap::IndexSet`, as a type whose inside Verus does not see.
#[verifier::external_type_specification]
#[verifier::external_body]
#[verifier::reject_recursive_types(T)]
#[verifier::reject_recursive_types(S)]
pub struct ExIndexSet<T, S>(IndexSet<T, S>);

/// The entries of a map from component ids to column slots, in insertion
/// order: what `IndexMap` documents as the order of its entries.
pub uninterp spec fn slots_of(map: IndexMap<ComponentId, usize>) -> Seq<(ComponentId, usize)>;

/// The items of a set of table indices, in insertion order: what `IndexSet`
/// documents as the order of its items.
pub uninterp spec fn indices_of(set: IndexSet<TableIndex>) -> Seq<TableIndex>;

/// `IndexMap::new`: a map without entries.
#[verifier::external_body]
pub(crate) fn slots_new() -> (map: IndexMap<ComponentId, usize>)
    ensures
        slots_of(map) == Seq::<(ComponentId, usize)>::empty(),
{
    IndexMap::new()
}

/// `IndexMap::insert`: where the key is present, its value is replaced in
/// place and the old value is returned; where it is absent, the entry is added
/// behind all others and `None` is returned.
#[verifier::external_body]
pub(crate) fn slots_insert(
    map: &mut IndexMap<ComponentId, usize>,
    key: ComponentId,
    value: usize,
) -> (previous: Option<usize>)
    ensures
        match previous {
            Some(was) => exists|i: int|
                0 <= i < slots_of(*old(map)).len() && #[trigger] slots_of(*old(map))[i] == (key, was)
                    && slots_of(*final(map)) == slots_of(*old(map)).update(i, (key, value)),
            None => {
                &&& forall|i: int|
                    0 <= i < slots_of(*old(map)).len() ==> (#[trigger] slots_of(*old(map))[i]).0
                        != key
                &&& slots_of(*final(map)) == slots_of(*old(map)).push((key, value))
            },
        },
{
    map.insert(key, value)
}

/// `IndexMap::get`: the value stored for the key, if the key is present.
#[verifier::external_body]
pub(crate) fn slots_get(map: &IndexMap<ComponentId, usize>, key: ComponentId) -> (value: Option<usize>)
    ensures
        match value {
            Some(found) => exists|i: int|
                0 <= i < slots_of(*map).len() && #[trigger] slots_of(*map)[i] == (key, found),
            None => forall|i: int|
                0 <= i < slots_of(*map).len() ==> (#[trigger] slots_of(*map)[i]).0 != key,
        },
{
    map.get(&key).copied()
}

/// `IndexSet::new`: a set without items.
#[verifier::external_body]
pub(crate) fn indices_new() -> (set: IndexSet<TableIndex>)
    ensures
        indices_of(set) == Seq::<TableIndex>::empty(),
{
    IndexSet::new()
}

/// `IndexSet::insert`: an item that is present is left where it is, and
/// `false` is returned; one that is absent is added behind all others, and
/// `true` is returned.
#[verifier::external_body]
pub(crate) fn indices_insert(set: &mut IndexSet<TableIndex>, index: TableIndex) -> (added: bool)
    ensures
        added == !indices_of(*old(set)).contains(index),
        indices_of(*final(set)) == (if added {
            indices_of(*old(set)).push(index)
        } else {
            indices_of(*old(set))
        }),
{
    set.insert(index)
}

/// `IndexSet::len`: the number of items.
#[verifier::external_body]
pub(crate) fn indices_len(set: &IndexSet<TableIndex>) -> (len: usize)
    ensures
        len == indices_of(*set).len(),
{
    set.len()
}

/// `IndexSet::get_index`: the item at a position of the insertion order.
#[verifier::external_body]
pub(crate) fn indices_get(set: &IndexSet<TableIndex>, at: usize) -> (index: Option<TableIndex>)
    ensures
        index == (if at < indices_of(*set).len() {
            Some(indices_of(*set)[at as int])
        } else {
            None
        }),
{
    set.get_index(at).copied()
}
} // verus!
