//! Lists of keyed entries in ascending key order, with at most one entry for
//! each key: the order in which queued commands are carried out.

use vstd::prelude::*;
use crate::archetype::Archetype;
use crate::package::PackageIndex;

verus! {
/// A key with a total order, given by its rank.
pub trait Key: Copy + Sized {
    /// The place of the key in the order: a key comes before another exactly
    /// when its rank is smaller.
    spec fn rank(self) -> int;

    /// Different keys have different ranks.
    proof fn lemma_rank_injective(a: Self, b: Self)
        requires
            a.rank() == b.rank(),
        ensures
            a == b,
    ;

    /// Whether this key comes before the other.
    fn precedes(&self, other: &Self) -> (less: bool)
        ensures
            less == (self.rank() < other.rank()),
    ;
}

impl Key for usize {
    open spec fn rank(self) -> int {
        self as int
    }

    proof fn lemma_rank_injective(a: Self, b: Self) {
    }

    fn precedes(&self, other: &Self) -> (less: bool) {
        *self < *other
    }
}

impl Key for Archetype {
    open spec fn rank(self) -> int {
        self.0 as int
    }

    proof fn lemma_rank_injective(a: Self, b: Self) {
    }

    fn precedes(&self, other: &Self) -> (less: bool) {
        self.0 < other.0
    }
}

impl Key for PackageIndex {
    open spec fn rank(self) -> int {
        self.table * 0x1_0000_0000_0000_0000 + self.col
    }

    proof fn lemma_rank_injective(a: Self, b: Self) {
    }

    fn precedes(&self, other: &Self) -> (less: bool) {
        self.table < other.table || (self.table == other.table && self.col < other.col)
    }
}

/// The keys of a list of entries, in order.
pub open spec fn keys_of<K, W>(entries: Seq<(K, W)>) -> Seq<K> {
    Seq::new(entries.len(), |i: int| entries[i].0)
}

/// The keys stand in strictly ascending order.
pub open spec fn ascending_keys<K: Key>(keys: Seq<K>) -> bool {
    forall|i: int, j: int|
        0 <= i < j < keys.len() ==> (#[trigger] keys[i]).rank() < (#[trigger] keys[j]).rank()
}

/// The first position at or after `from` whose key does not come before `key`.
pub open spec fn slot_from<K: Key>(keys: Seq<K>, key: K, from: int) -> int
    decreases keys.len() - from,
{
    if from < 0 || from >= keys.len() {
        keys.len() as int
    } else if keys[from].rank() >= key.rank() {
        from
    } else {
        slot_from(keys, key, from + 1)
    }
}

/// The position at which `key` stands or belongs.
pub open spec fn slot_of<K: Key>(keys: Seq<K>, key: K) -> int {
    slot_from(keys, key, 0)
}

/// Whether the list has an entry for the key.
pub open spec fn has_key<K: Key>(keys: Seq<K>, key: K) -> bool {
    slot_of(keys, key) < keys.len() && keys[slot_of(keys, key)] == key
}

/// The entries with `fresh` filed under `key`: merged into the entry of that
/// key where there is one, and otherwise as a new entry in key order.
pub open spec fn upsert<K: Key, W>(
    entries: Seq<(K, W)>,
    key: K,
    fresh: W,
    merge: spec_fn(W, W) -> W,
) -> Seq<(K, W)> {
    let at = slot_of(keys_of(entries), key);
    if has_key(keys_of(entries), key) {
        entries.update(at, (key, merge(entries[at].1, fresh)))
    } else {
        entries.insert(at, (key, fresh))
    }
}

/// Where a key stands or belongs: every key before the position comes before
/// it, and the key at the position does not.
pub proof fn lemma_slot_from<K: Key>(keys: Seq<K>, key: K, from: int)
    requires
        0 <= from <= keys.len(),
    ensures
        from <= slot_from(keys, key, from) <= keys.len(),
        slot_from(keys, key, from) < keys.len() ==> keys[slot_from(keys, key, from)].rank()
            >= key.rank(),
        forall|k: int|
            from <= k < slot_from(keys, key, from) ==> (#[trigger] keys[k]).rank() < key.rank(),
    decreases keys.len() - from,
{
    if from < keys.len() && keys[from].rank() < key.rank() {
        lemma_slot_from(keys, key, from + 1);
    }
}

/// Filing under a key keeps the keys in ascending order.
pub proof fn lemma_upsert_keeps_order<K: Key, W>(
    entries: Seq<(K, W)>,
    key: K,
    fresh: W,
    merge: spec_fn(W, W) -> W,
)
    requires
        ascending_keys(keys_of(entries)),
    ensures
        ascending_keys(keys_of(upsert(entries, key, fresh, merge))),
{
    let keys = keys_of(entries);
    lemma_slot_from(keys, key, 0);
    let at = slot_of(keys, key);
    let after = keys_of(upsert(entries, key, fresh, merge));
    if has_key(keys, key) {
        assert(after =~= keys);
    } else {
        assert(after =~= keys.insert(at, key));
        if at < keys.len() && keys[at].rank() == key.rank() {
            K::lemma_rank_injective(keys[at], key);
        }
    }
}

/// The position at which `key` stands or belongs in a list of entries.
pub fn find_slot<K: Key, V>(entries: &Vec<(K, V)>, key: &K) -> (at: usize)
    ensures
        at == slot_of(keys_of(entries@), *key),
        at <= entries@.len(),
{
    let mut at: usize = 0;
    while at < entries.len()
        invariant
            at <= entries@.len(),
            slot_of(keys_of(entries@), *key) == slot_from(keys_of(entries@), *key, at as int),
        decreases entries@.len() - at,
    {
        if !entries[at].0.precedes(key) {
            return at;
        }
        at += 1;
    }
    at
}

/// Whether two keys are the same key.
pub fn same_key<K: Key>(a: &K, b: &K) -> (same: bool)
    ensures
        same == (*a == *b),
{
    let same = !a.precedes(b) && !b.precedes(a);
    proof {
        if same {
            K::lemma_rank_injective(*a, *b);
        }
    }
    same
}

/// Whether the entry at the position is the entry of the key.
pub fn at_key<K: Key, V>(entries: &Vec<(K, V)>, at: usize, key: &K) -> (found: bool)
    requires
        at == slot_of(keys_of(entries@), *key),
    ensures
        found == has_key(keys_of(entries@), *key),
{
    at < entries.len() && same_key(&entries[at].0, key)
}

/// An ascending list without its first key is ascending.
pub proof fn lemma_rest_ascending<K: Key, W>(entries: Seq<(K, W)>)
    requires
        ascending_keys(keys_of(entries)),
        entries.len() > 0,
    ensures
        ascending_keys(keys_of(entries.drop_first())),
{
    let rest = entries.drop_first();
    assert forall|i: int, j: int| 0 <= i < j < keys_of(rest).len() implies (#[trigger] keys_of(
        rest,
    )[i]).rank() < (#[trigger] keys_of(rest)[j]).rank() by {
        assert(keys_of(entries)[i + 1].rank() < keys_of(entries)[j + 1].rank());
    }
}
} // verus!
