//! The query cache: for every registered query, the components it asks for
//! and the tables that have them all.

use vstd::prelude::*;
use vstd::string::*;
use indexmap::IndexSet;
use crate::archetype::{Archetype, ComponentId, TableIndex};
use crate::error::Trace;
use crate::indexed::{indices_insert, indices_new, indices_of};
use crate::ordered::{
    ascending_keys,
    at_key,
    find_slot,
    has_key,
    keys_of,
    lemma_upsert_keeps_order,
    slot_of,
};
use crate::parallel::update_each;
use crate::table::{Table, column_ids};

verus! {
/// Whether a table with the given components has every listed component.
pub open spec fn covers(table_ids: Seq<ComponentId>, ids: Seq<ComponentId>) -> bool {
    forall|k: int| 0 <= k < ids.len() ==> table_ids.contains(#[trigger] ids[k])
}

/// The ids stand in ascending order.
pub open spec fn ascending_ids(ids: Seq<ComponentId>) -> bool {
    forall|i: int, j: int| 0 <= i < j < ids.len() ==> ids[i] <= ids[j]
}

/// The first position at or after `from` whose id is not below `id`.
pub open spec fn id_slot_from(sorted: Seq<ComponentId>, id: ComponentId, from: int) -> int
    decreases sorted.len() - from,
{
    if from < 0 || from >= sorted.len() {
        sorted.len() as int
    } else if sorted[from] >= id {
        from
    } else {
        id_slot_from(sorted, id, from + 1)
    }
}

/// The ids in ascending order.
pub open spec fn sorted_ids(ids: Seq<ComponentId>) -> Seq<ComponentId>
    decreases ids.len(),
{
    if ids.len() == 0 {
        Seq::empty()
    } else {
        let sorted = sorted_ids(ids.drop_last());
        sorted.insert(id_slot_from(sorted, ids.last(), 0), ids.last())
    }
}

/// Where an id is inserted: behind the smaller ids, before the others.
pub proof fn lemma_id_slot_from(sorted: Seq<ComponentId>, id: ComponentId, from: int)
    requires
        0 <= from <= sorted.len(),
    ensures
        from <= id_slot_from(sorted, id, from) <= sorted.len(),
        id_slot_from(sorted, id, from) < sorted.len() ==> sorted[id_slot_from(sorted, id, from)]
            >= id,
        forall|k: int| from <= k < id_slot_from(sorted, id, from) ==> sorted[k] < id,
    decreases sorted.len() - from,
{
    if from < sorted.len() && sorted[from] < id {
        lemma_id_slot_from(sorted, id, from + 1);
    }
}

/// The sorted ids are the same ids, as often as before, in ascending order.
pub proof fn lemma_sorted_ids(ids: Seq<ComponentId>)
    ensures
        sorted_ids(ids).len() == ids.len(),
        sorted_ids(ids).to_multiset() == ids.to_multiset(),
        ascending_ids(sorted_ids(ids)),
    decreases ids.len(),
{
    broadcast use vstd::seq_lib::group_to_multiset_ensures;

    if ids.len() > 0 {
        let sorted = sorted_ids(ids.drop_last());
        lemma_sorted_ids(ids.drop_last());
        lemma_id_slot_from(sorted, ids.last(), 0);
        let at = id_slot_from(sorted, ids.last(), 0);
        vstd::seq_lib::to_multiset_insert(sorted, at, ids.last());
        assert(ids =~= ids.drop_last().push(ids.last()));
        let after = sorted.insert(at, ids.last());
        assert forall|i: int, j: int| 0 <= i < j < after.len() implies after[i] <= after[j] by {}
    }
}

/// A table has the sorted components exactly when it has the components.
pub proof fn lemma_covers_sorted(table_ids: Seq<ComponentId>, ids: Seq<ComponentId>)
    ensures
        covers(table_ids, sorted_ids(ids)) == covers(table_ids, ids),
{
    broadcast use vstd::seq_lib::group_to_multiset_ensures;

    lemma_sorted_ids(ids);
    let sorted = sorted_ids(ids);
    if covers(table_ids, sorted) {
        assert forall|k: int| 0 <= k < ids.len() implies table_ids.contains(#[trigger] ids[k]) by {
            assert(ids.to_multiset().count(ids[k]) > 0);
        }
    }
    if covers(table_ids, ids) {
        assert forall|k: int| 0 <= k < sorted.len() implies table_ids.contains(
            #[trigger] sorted[k],
        ) by {
            assert(sorted.to_multiset().count(sorted[k]) > 0);
        }
    }
}

/// Puts ids in ascending order.
pub fn sort_ids(ids: Vec<ComponentId>) -> (sorted: Vec<ComponentId>)
    ensures
        sorted@ == sorted_ids(ids@),
{
    let mut sorted: Vec<ComponentId> = Vec::new();
    let mut done: usize = 0;
    while done < ids.len()
        invariant
            done <= ids@.len(),
            sorted@ == sorted_ids(ids@.subrange(0, done as int)),
        decreases ids@.len() - done,
    {
        let id = ids[done];
        let ghost placed = sorted@;
        let mut at: usize = 0;
        while at < sorted.len() && sorted[at] < id
            invariant
                at <= sorted@.len(),
                sorted@ == placed,
                id_slot_from(placed, id, 0) == id_slot_from(placed, id, at as int),
            decreases sorted@.len() - at,
        {
            at += 1;
        }
        sorted.insert(at, id);
        proof {
            let next = ids@.subrange(0, done as int + 1);
            assert(next.drop_last() =~= ids@.subrange(0, done as int));
        }
        done += 1;
    }
    assert(ids@.subrange(0, done as int) =~= ids@);
    sorted
}

/// A registered query: the components it asks for, in ascending order, and the
/// tables that have them all.
pub struct CachedQuery {
    pub(crate) ids: Vec<ComponentId>,
    pub(crate) indices: IndexSet<TableIndex>,
}

/// What a registered query holds, as plain values.
pub struct QueryView {
    pub ids: Seq<ComponentId>,
    pub indices: Seq<TableIndex>,
}

impl View for CachedQuery {
    type V = QueryView;

    closed spec fn view(&self) -> QueryView {
        QueryView { ids: self.ids@, indices: indices_of(self.indices) }
    }
}

/// The query after a table is announced: the table's index joins the query's
/// tables if the table has every component of the query and is not yet listed.
pub open spec fn announced(
    query: QueryView,
    index: TableIndex,
    table_ids: Seq<ComponentId>,
) -> QueryView {
    if covers(table_ids, query.ids) && !query.indices.contains(index) {
        QueryView { indices: query.indices.push(index), ..query }
    } else {
        query
    }
}

impl CachedQuery {
    /// The components the query asks for, in ascending order.
    pub fn ids(&self) -> (ids: &Vec<ComponentId>)
        ensures
            ids@ == self@.ids,
    {
        &self.ids
    }

    /// The tables the query lists, in the order in which they were listed.
    pub fn indices(&self) -> (indices: &IndexSet<TableIndex>)
        ensures
            indices_of(*indices) == self@.indices,
    {
        &self.indices
    }

    /// Takes note of a table: lists it if it has every component of the query.
    pub fn accept(&mut self, index: TableIndex, table: &Table)
        requires
            table.wf(),
        ensures
            final(self)@ == announced(old(self)@, index, column_ids(table@.columns)),
    {
        if table.contains(&self.ids) {
            indices_insert(&mut self.indices, index);
        }
    }
}

/// The registered queries, as plain values, in ascending order of their
/// fingerprints.
pub type CacheView = Seq<(Archetype, QueryView)>;

/// The cache after a table is announced to every query.
pub open spec fn cache_announced(
    cache: CacheView,
    index: TableIndex,
    table_ids: Seq<ComponentId>,
) -> CacheView {
    Seq::new(cache.len(), |q: int| (cache[q].0, announced(cache[q].1, index, table_ids)))
}

/// The message of a search for a query that was never registered.
pub open spec fn unknown_query_message() -> Seq<char> {
    "Tried to search the Query Cache for a Query that does not exist!"@
}

/// The message of a registration whose components differ from those that
/// are registered under the same fingerprint.
pub open spec fn collision_message() -> Seq<char> {
    "Same Archetype but different components! Indicates hashing algorithm is bad. (internal error, contact maintainer)"@
}

/// The cache of registered queries.
pub struct QueryCache {
    cache: Vec<(Archetype, CachedQuery)>,
}

impl View for QueryCache {
    type V = CacheView;

    closed spec fn view(&self) -> CacheView {
        Seq::new(self.cache@.len(), |q: int| (self.cache@[q].0, self.cache@[q].1@))
    }
}

impl QueryCache {
    /// The cache's invariant: the fingerprints ascend.
    pub open spec fn wf(&self) -> bool {
        ascending_keys(keys_of(self@))
    }

    /// A cache without queries.
    pub fn new() -> (cache: QueryCache)
        ensures
            cache.wf(),
            cache@ == Seq::<(Archetype, QueryView)>::empty(),
    {
        let cache = QueryCache { cache: Vec::new() };
        cache
    }

    /// Announces a new table to every registered query: each query whose
    /// components the table has lists the table's index.
    pub fn update(&mut self, index: TableIndex, table: &Table)
        requires
            old(self).wf(),
            table.wf(),
        ensures
            final(self).wf(),
            final(self)@ == cache_announced(old(self)@, index, column_ids(table@.columns)),
    {
        update_each(&mut self.cache, index, table);
        assert(keys_of(self@) =~= keys_of(old(self)@));
    }

    /// The tables of a registered query. Fails for a fingerprint under which
    /// no query is registered.
    pub fn search(&self, key: Archetype) -> (found: Trace<&IndexSet<TableIndex>>)
        ensures
            match found {
                Trace::Pass(indices) => {
                    &&& has_key(keys_of(self@), key)
                    &&& indices_of(*indices) == self@[slot_of(keys_of(self@), key)].1.indices
                },
                Trace::Fail(message) => {
                    &&& !has_key(keys_of(self@), key)
                    &&& message@ == unknown_query_message()
                },
            },
    {
        assert(keys_of(self@) =~= keys_of(self.cache@));
        let at = find_slot(&self.cache, &key);
        if at_key(&self.cache, at, &key) {
            Trace::Pass(&self.cache[at].1.indices)
        } else {
            Trace::Fail(
                String::from_str("Tried to search the Query Cache for a Query that does not exist!"),
            )
        }
    }

    /// The registered query of a fingerprint, if there is one.
    pub fn entry(&self, key: Archetype) -> (found: Option<&CachedQuery>)
        ensures
            match found {
                Some(query) => has_key(keys_of(self@), key) && query@ == self@[slot_of(
                    keys_of(self@),
                    key,
                )].1,
                None => !has_key(keys_of(self@), key),
            },
    {
        assert(keys_of(self@) =~= keys_of(self.cache@));
        let at = find_slot(&self.cache, &key);
        if at_key(&self.cache, at, &key) {
            Some(&self.cache[at].1)
        } else {
            None
        }
    }

    /// Registers a query under its fingerprint. A new query is stored with its
    /// components in ascending order and without tables. A query that is
    /// registered already must ask for the same components: if it does not,
    /// two sets of components share the fingerprint, and the registration
    /// fails.
    pub fn load(&mut self, key: Archetype, ids: Vec<ComponentId>) -> (outcome: Trace<()>)
        requires
            old(self).wf(),
        ensures
            final(self).wf(),
            ({
                let at = slot_of(keys_of(old(self)@), key);
                if !has_key(keys_of(old(self)@), key) {
                    &&& outcome is Pass
                    &&& final(self)@ == old(self)@.insert(
                        at,
                        (key, QueryView { ids: sorted_ids(ids@), indices: Seq::empty() }),
                    )
                } else if old(self)@[at].1.ids == sorted_ids(ids@) {
                    &&& outcome is Pass
                    &&& final(self)@ == old(self)@
                } else {
                    &&& outcome matches Trace::Fail(message)
                    &&& message@ == collision_message()
                    &&& final(self)@ == old(self)@
                }
            }),
    {
        assert(keys_of(self@) =~= keys_of(self.cache@));
        let sorted = sort_ids(ids);
        let at = find_slot(&self.cache, &key);
        if at_key(&self.cache, at, &key) {
            if same_ids(&self.cache[at].1.ids, &sorted) {
                Trace::Pass(())
            } else {
                Trace::Fail(
                    String::from_str(
                        "Same Archetype but different components! Indicates hashing algorithm is bad. (internal error, contact maintainer)",
                    ),
                )
            }
        } else {
            let query = CachedQuery { ids: sorted, indices: indices_new() };
            self.cache.insert(at, (key, query));
            proof {
                let entry = (key, QueryView { ids: sorted_ids(ids@), indices: Seq::empty() });
                assert(self@ =~= old(self)@.insert(at as int, entry));
                lemma_upsert_keeps_order(
                    old(self)@,
                    key,
                    entry.1,
                    |a: QueryView, b: QueryView| a,
                );
            }
            Trace::Pass(())
        }
    }
}

/// Whether two lists hold the same ids in the same order.
pub fn same_ids(a: &Vec<ComponentId>, b: &Vec<ComponentId>) -> (same: bool)
    ensures
        same == (a@ == b@),
{
    if a.len() != b.len() {
        return false;
    }
    let mut k: usize = 0;
    while k < a.len()
        invariant
            a@.len() == b@.len(),
            k <= a@.len(),
            forall|q: int| 0 <= q < k ==> a@[q] == b@[q],
        decreases a@.len() - k,
    {
        if a[k] != b[k] {
            return false;
        }
        k += 1;
    }
    assert(a@ =~= b@);
    true
}
} // verus!
