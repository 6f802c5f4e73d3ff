//! The archetype registry: it owns the tables, finds the table of each
//! archetype by its fingerprint, carries out the queued commands between
//! stages, and announces new tables to the registered queries.

use vstd::prelude::*;
use vstd::string::*;
use indexmap::IndexSet;
use crate::anon::{Anon, AnonIterChain, AnonView, column_items};
use crate::archetype::{
    Archetype,
    Column,
    ComponentId,
    TableIndex,
    fingerprint,
    lemma_fingerprint_order_independent,
};
use crate::cache::{
    CacheView,
    QueryCache,
    QueryView,
    announced,
    cache_announced,
    collision_message,
    covers,
    same_ids,
    sort_ids,
    sorted_ids,
    unknown_query_message,
};
use crate::commands::{
    Commands,
    CommandsView,
    DestroyQueue,
    commands_sound,
    doomed,
    lemma_rest_sound,
    merged,
    edited,
    filed,
    requested,
};
use crate::error::Trace;
use crate::indexed::{indices_get, indices_len, indices_of};
use crate::ordered::{
    ascending_keys,
    at_key,
    find_slot,
    has_key,
    keys_of,
    lemma_slot_from,
    lemma_rest_ascending,
    lemma_upsert_keeps_order,
    slot_of,
};
use crate::package::{Package, PackageIndex, PackageIndexChain, ids_of};
use crate::table::{
    NO_DROP,
    Table,
    TableView,
    alike,
    cell_exists,
    column_from,
    column_ids,
    destroyed,
    fits,
    fresh,
    package_views,
    plan_upto,
    row_values,
    skeleton,
    spawned,
    stored,
    table_sound,
};

verus! {
/// Every listed table exists and has every listed component.
pub open spec fn listed_tables_cover(
    tables: Seq<TableView>,
    ids: Seq<ComponentId>,
    indices: Seq<TableIndex>,
) -> bool {
    forall|k: int|
        0 <= k < indices.len() ==> (#[trigger] indices[k]) < tables.len() && covers(
            column_ids(tables[indices[k] as int].columns),
            ids,
        )
}

/// The fingerprint of the listed components.
pub fn query_key(ids: &Vec<ComponentId>) -> (key: Archetype)
    ensures
        key == fingerprint(ids@),
{
    let mut key = Archetype::new();
    let mut k: usize = 0;
    while k < ids.len()
        invariant
            k <= ids@.len(),
            key == fingerprint(ids@.subrange(0, k as int)),
        decreases ids@.len() - k,
    {
        proof {
            let next = ids@.subrange(0, k as int + 1);
            assert(next.drop_last() =~= ids@.subrange(0, k as int));
        }
        key = key.add(ids[k] as u64);
        k += 1;
    }
    assert(ids@.subrange(0, k as int) =~= ids@);
    key
}

/// The message of a write to a cell that does not exist.
pub open spec fn missing_cell_message() -> Seq<char> {
    "Tried to write a component to a row that does not exist!"@
}

/// What the registry holds, as plain values: the table index of each
/// archetype in ascending order of the fingerprints, the queued commands, the
/// tables, and the registered queries.
pub struct ArchetypesView {
    pub index: Seq<(Archetype, TableIndex)>,
    pub queue: CommandsView,
    pub tables: Seq<TableView>,
    pub cache: CacheView,
}

/// What holds of the contents of every registry: each fingerprint leads to a
/// table, and the fingerprint of that table's components is that fingerprint;
/// every table is sound; the queued commands are sound; every table that a
/// registered query lists exists and has all components of the query.
#[verifier::opaque]
pub open spec fn archetypes_sound(view: ArchetypesView) -> bool {
    &&& ascending_keys(keys_of(view.index))
    &&& forall|e: int|
        0 <= e < view.index.len() ==> {
            &&& (#[trigger] view.index[e]).1 < view.tables.len()
            &&& fingerprint(column_ids(view.tables[view.index[e].1 as int].columns))
                == view.index[e].0
        }
    &&& forall|t: int| 0 <= t < view.tables.len() ==> table_sound(#[trigger] view.tables[t])
    &&& commands_sound(view.queue)
    &&& ascending_keys(keys_of(view.cache))
    &&& forall|q: int|
        0 <= q < view.cache.len() ==> listed_tables_cover(
            view.tables,
            (#[trigger] view.cache[q]).1.ids,
            view.cache[q].1.indices,
        )
}

/// Every registered query lists exactly the tables that have all its
/// components, each once.
#[verifier::opaque]
pub open spec fn cache_consistent(view: ArchetypesView) -> bool {
    forall|q: int|
        0 <= q < view.cache.len() ==> {
            &&& (#[trigger] view.cache[q]).1.indices.no_duplicates()
            &&& forall|t: TableIndex|
                view.cache[q].1.indices.contains(t) <==> (t < view.tables.len() && covers(
                    column_ids(view.tables[t as int].columns),
                    view.cache[q].1.ids,
                ))
        }
}

/// The queue after the first edit is carried out: unless its row is to be
/// destroyed with its values, the edited row is queued for spawning and the
/// row is queued to be freed.
pub open spec fn relocate_one(tables: Seq<TableView>, queue: CommandsView) -> CommandsView {
    let (index, edit) = queue.modify[0];
    if doomed(queue.destroy, index) {
        CommandsView { modify: queue.modify.drop_first(), ..queue }
    } else {
        let package = edited(row_values(tables[index.table as int], index.col as int), edit);
        CommandsView {
            spawn: filed(queue.spawn, fingerprint(ids_of(package)), seq![package]),
            destroy: requested(queue.destroy, index.table, seq![(index.col, NO_DROP)]),
            modify: queue.modify.drop_first(),
        }
    }
}

/// The queue after every edit is carried out, the lowest row first.
pub open spec fn relocated(tables: Seq<TableView>, queue: CommandsView) -> CommandsView
    decreases queue.modify.len(),
{
    if queue.modify.len() == 0 {
        queue
    } else {
        relocated(tables, relocate_one(tables, queue))
    }
}

/// Every edit that is carried out names a row of a table.
pub open spec fn can_relocate(tables: Seq<TableView>, queue: CommandsView) -> bool
    decreases queue.modify.len(),
{
    if queue.modify.len() == 0 {
        true
    } else {
        let index = queue.modify[0].0;
        &&& doomed(queue.destroy, index) || (index.table < tables.len() && index.col
            < tables[index.table as int].len)
        &&& can_relocate(tables, relocate_one(tables, queue))
    }
}

/// The registry after the first entry of the spawn queue is carried out: the
/// packages join the table of their archetype; where the archetype has no
/// table, they make a new one, which is announced to every registered query.
pub open spec fn settle_one(view: ArchetypesView) -> ArchetypesView {
    let (key, packages) = view.queue.spawn[0];
    let queue = CommandsView { spawn: view.queue.spawn.drop_first(), ..view.queue };
    let at = slot_of(keys_of(view.index), key);
    if has_key(keys_of(view.index), key) {
        let t = view.index[at].1 as int;
        ArchetypesView { queue, tables: view.tables.update(t, spawned(view.tables[t], packages)), ..view }
    } else {
        let table = fresh(packages);
        ArchetypesView {
            index: view.index.insert(at, (key, view.tables.len() as usize)),
            queue,
            tables: view.tables.push(table),
            cache: cache_announced(
                view.cache,
                view.tables.len() as usize,
                column_ids(table.columns),
            ),
        }
    }
}

/// The first entry of the spawn queue can be carried out: its packages hold
/// exactly the components of their table, and the table has room for them.
pub open spec fn can_settle_one(view: ArchetypesView) -> bool {
    let (key, packages) = view.queue.spawn[0];
    let at = slot_of(keys_of(view.index), key);
    if has_key(keys_of(view.index), key) {
        let table = view.tables[view.index[at].1 as int];
        &&& forall|p: int| 0 <= p < packages.len() ==> fits(#[trigger] packages[p], table.columns)
        &&& table.len + packages.len() <= usize::MAX
    } else {
        forall|p: int|
            0 <= p < packages.len() ==> fits(#[trigger] packages[p], skeleton(packages.last()).columns)
    }
}

/// The registry after every entry of the spawn queue is carried out, the
/// lowest archetype first.
pub open spec fn settled(view: ArchetypesView) -> ArchetypesView
    decreases view.queue.spawn.len(),
{
    if view.queue.spawn.len() == 0 {
        view
    } else {
        settled(settle_one(view))
    }
}

/// Every entry of the spawn queue can be carried out in its turn.
pub open spec fn can_settle(view: ArchetypesView) -> bool
    decreases view.queue.spawn.len(),
{
    if view.queue.spawn.len() == 0 {
        true
    } else {
        can_settle_one(view) && can_settle(settle_one(view))
    }
}

/// The tables after the first entry of the destroy queue is carried out.
pub open spec fn raze_one(tables: Seq<TableView>, destroy: DestroyQueue) -> Seq<TableView> {
    let (t, entries) = destroy[0];
    tables.update(
        t as int,
        destroyed(tables[t as int], plan_upto(entries, tables[t as int].len as int)),
    )
}

/// The tables after every entry of the destroy queue is carried out, the
/// lowest table first.
pub open spec fn razed(tables: Seq<TableView>, destroy: DestroyQueue) -> Seq<TableView>
    decreases destroy.len(),
{
    if destroy.len() == 0 {
        tables
    } else {
        razed(raze_one(tables, destroy), destroy.drop_first())
    }
}

/// Every destroy request names a row of a table.
pub open spec fn can_raze(tables: Seq<TableView>, destroy: DestroyQueue) -> bool
    decreases destroy.len(),
{
    if destroy.len() == 0 {
        true
    } else {
        let (t, entries) = destroy[0];
        &&& t < tables.len()
        &&& forall|k: int| 0 <= k < entries.len() ==> (#[trigger] entries[k]).0 < tables[t as int].len
        &&& can_raze(raze_one(tables, destroy), destroy.drop_first())
    }
}

/// The registry with the edits carried out.
pub open spec fn after_modifies(view: ArchetypesView) -> ArchetypesView {
    ArchetypesView { queue: relocated(view.tables, view.queue), ..view }
}

/// The registry after a flush: first the edits are carried out, then the
/// spawns, then the destroys. The queue is empty afterwards.
pub open spec fn flushed(view: ArchetypesView) -> ArchetypesView {
    let spawned = settled(after_modifies(view));
    ArchetypesView {
        queue: CommandsView { destroy: Seq::empty(), ..spawned.queue },
        tables: razed(spawned.tables, spawned.queue.destroy),
        ..spawned
    }
}

/// The queued commands can be carried out: every edit and every destroy
/// request names a row that exists when its turn comes, and every package
/// holds exactly the components of the table it goes to.
pub open spec fn can_flush(view: ArchetypesView) -> bool {
    let spawned = settled(after_modifies(view));
    &&& can_relocate(view.tables, view.queue)
    &&& can_settle(after_modifies(view))
    &&& can_raze(spawned.tables, spawned.queue.destroy)
}

/// Whether the queue is empty.
pub open spec fn idle(view: ArchetypesView) -> bool {
    view.queue.modify.len() == 0 && view.queue.spawn.len() == 0 && view.queue.destroy.len() == 0
}

/// Whether the first queued edit can be carried out: its row exists, or it is
/// to be destroyed with its values, and the edit is dropped.
pub open spec fn relocate_ready(view: ArchetypesView) -> bool {
    let index = view.queue.modify[0].0;
    doomed(view.queue.destroy, index) || (index.table < view.tables.len() && index.col
        < view.tables[index.table as int].len)
}

/// Whether the first entry of the destroy queue can be carried out: its table
/// exists and has every row that is named.
pub open spec fn raze_ready(view: ArchetypesView) -> bool {
    let (t, entries) = view.queue.destroy[0];
    &&& t < view.tables.len()
    &&& forall|k: int| 0 <= k < entries.len() ==> (#[trigger] entries[k]).0 < view.tables[t as int].len
}

/// Whether the next step of a flush can be carried out.
pub open spec fn ready(view: ArchetypesView) -> bool {
    if view.queue.modify.len() > 0 {
        relocate_ready(view)
    } else if view.queue.spawn.len() > 0 {
        can_settle_one(view)
    } else {
        raze_ready(view)
    }
}

/// The registry after the next step of a flush: the first edit, or without
/// edits the first entry of the spawn queue, or without both the first entry
/// of the destroy queue.
pub open spec fn step(view: ArchetypesView) -> ArchetypesView {
    if view.queue.modify.len() > 0 {
        ArchetypesView { queue: relocate_one(view.tables, view.queue), ..view }
    } else if view.queue.spawn.len() > 0 {
        settle_one(view)
    } else {
        ArchetypesView {
            queue: CommandsView { destroy: view.queue.destroy.drop_first(), ..view.queue },
            tables: raze_one(view.tables, view.queue.destroy),
            ..view
        }
    }
}

/// The registry after a flush that stops before the first step that cannot
/// be carried out.
pub open spec fn halted(view: ArchetypesView) -> ArchetypesView
    decreases view.queue.modify.len(), view.queue.spawn.len(), view.queue.destroy.len(),
{
    if idle(view) || !ready(view) {
        view
    } else {
        halted(step(view))
    }
}

/// The message of a flush that has stopped.
pub open spec fn halt_message(view: ArchetypesView) -> Seq<char> {
    if view.queue.modify.len() > 0 {
        "Tried to modify a row that does not exist!"@
    } else if view.queue.spawn.len() > 0 {
        "Attempted to spawn invalid component!"@
    } else {
        "Tried to destroy a row that does not exist!"@
    }
}

/// A flush that can be carried out is not stopped: it ends with an empty
/// queue, as the flush that is carried out whole. One that cannot be carried
/// out is stopped with commands left.
pub proof fn lemma_halted(view: ArchetypesView)
    ensures
        can_flush(view) ==> halted(view) == flushed(view) && idle(halted(view)),
        !can_flush(view) ==> !idle(halted(view)),
    decreases view.queue.modify.len(), view.queue.spawn.len(), view.queue.destroy.len(),
{
    let next = step(view);
    if view.queue.modify.len() > 0 {
        if relocate_ready(view) {
            lemma_halted(next);
        }
    } else if view.queue.spawn.len() > 0 {
        if can_settle_one(view) {
            lemma_halted(next);
        }
    } else if view.queue.destroy.len() > 0 {
        if raze_ready(view) {
            lemma_halted(next);
        }
    } else {
        assert(view.queue.destroy =~= Seq::empty());
    }
}

/// Appending packages leaves the components of a table as they are.
pub proof fn lemma_spawned_keeps_ids(view: TableView, packages: Seq<Seq<AnonView>>)
    ensures
        column_ids(spawned(view, packages).columns) == column_ids(view.columns),
{
}

/// Removing rows leaves the components of a table as they are.
pub proof fn lemma_destroyed_keeps_ids(view: TableView, plan: Seq<(Column, bool)>)
    ensures
        column_ids(destroyed(view, plan).columns) == column_ids(view.columns),
    decreases plan.len(),
{
    if plan.len() > 0 {
        let next = crate::table::row_removed(view, plan.last().0 as int, plan.last().1);
        lemma_destroyed_keeps_ids(next, plan.drop_last());
    }
}

/// A table made of packages has the fingerprint of the last package.
pub proof fn lemma_fresh_fingerprint(packages: Seq<Seq<AnonView>>)
    requires
        packages.len() > 0,
    ensures
        fingerprint(column_ids(fresh(packages).columns)) == fingerprint(ids_of(packages.last())),
{
    let last = ids_of(packages.last());
    assert(column_ids(fresh(packages).columns) =~= last.reverse());
    last.lemma_reverse_to_multiset();
    lemma_fingerprint_order_independent(last.reverse(), last);
}

/// Announcing a new table, the next in line, keeps the queries' lists exact.
pub proof fn lemma_announce_keeps_consistent(view: ArchetypesView, table: TableView)
    requires
        cache_consistent(view),
        view.tables.len() < usize::MAX,
    ensures
        cache_consistent(
            ArchetypesView {
                tables: view.tables.push(table),
                cache: cache_announced(
                    view.cache,
                    view.tables.len() as usize,
                    column_ids(table.columns),
                ),
                ..view
            },
        ),
{
    reveal(archetypes_sound);
    reveal(cache_consistent);
    let len = view.tables.len() as usize;
    let ids = column_ids(table.columns);
    let after = ArchetypesView {
        tables: view.tables.push(table),
        cache: cache_announced(view.cache, len, ids),
        ..view
    };
    assert forall|q: int| 0 <= q < after.cache.len() implies {
        &&& (#[trigger] after.cache[q]).1.indices.no_duplicates()
        &&& forall|t: TableIndex|
            after.cache[q].1.indices.contains(t) <==> (t < after.tables.len() && covers(
                column_ids(after.tables[t as int].columns),
                after.cache[q].1.ids,
            ))
    } by {
        let before = view.cache[q].1;
        let now = after.cache[q].1;
        assert forall|t: TableIndex|
            now.indices.contains(t) <==> (t < after.tables.len() && covers(
                column_ids(after.tables[t as int].columns),
                now.ids,
            )) by {
            if covers(ids, before.ids) {
                if before.indices.contains(t) {
                    let w = choose|w: int| 0 <= w < before.indices.len() && before.indices[w] == t;
                    assert(now.indices[w] == t);
                }
                if t == len {
                    assert(now.indices[before.indices.len() as int] == t);
                }
            }
        }
    }
}

/// A registry whose tables keep their components, and whose index and
/// queries stay as they are, stays sound, and its queries stay exact.
pub proof fn lemma_same_ids_keep_sound(before: ArchetypesView, after: ArchetypesView)
    requires
        archetypes_sound(before),
        after.index == before.index,
        after.cache == before.cache,
        commands_sound(after.queue),
        after.tables.len() == before.tables.len(),
        forall|u: int|
            0 <= u < after.tables.len() ==> table_sound(#[trigger] after.tables[u]) && column_ids(
                after.tables[u].columns,
            ) == column_ids(before.tables[u].columns),
    ensures
        archetypes_sound(after),
        cache_consistent(before) ==> cache_consistent(after),
{
    reveal(archetypes_sound);
    reveal(cache_consistent);
}

/// A registry with a new table for an archetype that had none stays sound,
/// and its queries stay exact.
pub proof fn lemma_open_keeps_sound(before: ArchetypesView, key: Archetype, made: TableView)
    requires
        archetypes_sound(before),
        before.tables.len() < usize::MAX,
        !has_key(keys_of(before.index), key),
        table_sound(made),
        fingerprint(column_ids(made.columns)) == key,
    ensures
        archetypes_sound(
            ArchetypesView {
                index: before.index.insert(
                    slot_of(keys_of(before.index), key),
                    (key, before.tables.len() as usize),
                ),
                tables: before.tables.push(made),
                cache: cache_announced(
                    before.cache,
                    before.tables.len() as usize,
                    column_ids(made.columns),
                ),
                ..before
            },
        ),
        cache_consistent(before) ==> cache_consistent(
            ArchetypesView {
                index: before.index.insert(
                    slot_of(keys_of(before.index), key),
                    (key, before.tables.len() as usize),
                ),
                tables: before.tables.push(made),
                cache: cache_announced(
                    before.cache,
                    before.tables.len() as usize,
                    column_ids(made.columns),
                ),
                ..before
            },
        ),
{
    reveal(archetypes_sound);
    reveal(cache_consistent);
    let at = slot_of(keys_of(before.index), key);
    let len = before.tables.len() as usize;
    let after = ArchetypesView {
        index: before.index.insert(at, (key, len)),
        tables: before.tables.push(made),
        cache: cache_announced(before.cache, len, column_ids(made.columns)),
        ..before
    };
    lemma_slot_from(keys_of(before.index), key, 0);
    lemma_upsert_keeps_order(before.index, key, len, |a: TableIndex, b: TableIndex| a);
    assert(keys_of(after.cache) =~= keys_of(before.cache));
    if cache_consistent(before) {
        lemma_announce_keeps_consistent(before, made);
        lemma_popped_keeps_consistent(
            ArchetypesView { tables: after.tables, cache: after.cache, ..before },
            after,
        );
    }
}

/// Whether the queries are exact does not depend on the queue.
pub proof fn lemma_popped_keeps_consistent(before: ArchetypesView, after: ArchetypesView)
    requires
        after.tables == before.tables,
        after.cache == before.cache,
    ensures
        cache_consistent(before) ==> cache_consistent(after),
{
    reveal(archetypes_sound);
    reveal(cache_consistent);
}

/// What follows from soundness for the queue and for the orders of the keys.
pub proof fn lemma_sound_queue(view: ArchetypesView)
    requires
        archetypes_sound(view),
    ensures
        commands_sound(view.queue),
        ascending_keys(keys_of(view.cache)),
        ascending_keys(keys_of(view.index)),
{
    reveal(archetypes_sound);
}

/// In a sound registry every table is sound.
pub proof fn lemma_sound_table(view: ArchetypesView, t: int)
    requires
        archetypes_sound(view),
        0 <= t < view.tables.len(),
    ensures
        table_sound(view.tables[t]),
{
    reveal(archetypes_sound);
}

/// In a sound registry every fingerprint leads to a table whose components
/// have that fingerprint.
pub proof fn lemma_sound_index(view: ArchetypesView, e: int)
    requires
        archetypes_sound(view),
        0 <= e < view.index.len(),
    ensures
        view.index[e].1 < view.tables.len(),
        fingerprint(column_ids(view.tables[view.index[e].1 as int].columns)) == view.index[e].0,
{
    reveal(archetypes_sound);
}

/// In a sound registry every table that a registered query lists exists and
/// has all components of the query.
pub proof fn lemma_sound_cache(view: ArchetypesView, q: int)
    requires
        archetypes_sound(view),
        0 <= q < view.cache.len(),
    ensures
        listed_tables_cover(view.tables, view.cache[q].1.ids, view.cache[q].1.indices),
{
    reveal(archetypes_sound);
}

/// A sound registry stays sound, and its queries stay exact, when only its
/// queue changes, and the new queue is sound.
pub proof fn lemma_requeue(before: ArchetypesView, queue: CommandsView)
    requires
        archetypes_sound(before),
        commands_sound(queue),
    ensures
        archetypes_sound(ArchetypesView { queue, ..before }),
        cache_consistent(before) ==> cache_consistent(ArchetypesView { queue, ..before }),
{
    reveal(archetypes_sound);
    reveal(cache_consistent);
}

/// A sound registry stays sound with another query registered. Its queries
/// stay exact if no table has all the components of the new query.
pub proof fn lemma_register_keeps_sound(before: ArchetypesView, key: Archetype, ids: Seq<ComponentId>)
    requires
        archetypes_sound(before),
        !has_key(keys_of(before.cache), key),
    ensures
        archetypes_sound(
            ArchetypesView {
                cache: before.cache.insert(
                    slot_of(keys_of(before.cache), key),
                    (key, QueryView { ids, indices: Seq::empty() }),
                ),
                ..before
            },
        ),
        cache_consistent(before) && (forall|t: int|
            0 <= t < before.tables.len() ==> !covers(
                column_ids(#[trigger] before.tables[t].columns),
                ids,
            )) ==> cache_consistent(
            ArchetypesView {
                cache: before.cache.insert(
                    slot_of(keys_of(before.cache), key),
                    (key, QueryView { ids, indices: Seq::empty() }),
                ),
                ..before
            },
        ),
{
    reveal(archetypes_sound);
    reveal(cache_consistent);
    let entry = (key, QueryView { ids, indices: Seq::<TableIndex>::empty() });
    lemma_slot_from(keys_of(before.cache), key, 0);
    lemma_upsert_keeps_order(before.cache, key, entry.1, |a: QueryView, b: QueryView| a);
    if cache_consistent(before) && (forall|t: int|
        0 <= t < before.tables.len() ==> !covers(
            column_ids(#[trigger] before.tables[t].columns),
            ids,
        )) {
    }
}

/// A list is never longer than the machine can count.
pub proof fn lemma_len_fits<T>(list: &Vec<T>)
    ensures
        list@.len() <= usize::MAX,
{
    assert(list@.len() == list.len());
}

/// The registry of archetypes.
pub struct Archetypes {
    archetypes: Vec<(Archetype, TableIndex)>,
    commands: Commands,
    tables: Vec<Table>,
    cache: QueryCache,
}

impl View for Archetypes {
    type V = ArchetypesView;

    closed spec fn view(&self) -> ArchetypesView {
        ArchetypesView {
            index: self.archetypes@,
            queue: self.commands@,
            tables: Seq::new(self.tables@.len(), |t: int| self.tables@[t]@),
            cache: self.cache@,
        }
    }
}

impl Archetypes {
    /// Every table is valid.
    pub closed spec fn tables_valid(&self) -> bool {
        forall|t: int| 0 <= t < self.tables@.len() ==> (#[trigger] self.tables@[t]).wf()
    }

    /// The registry's invariant.
    pub open spec fn wf(&self) -> bool {
        &&& self.tables_valid()
        &&& archetypes_sound(self@)
    }

    /// A registry without tables, commands or queries.
    pub fn new() -> (archetypes: Archetypes)
        ensures
            archetypes.wf(),
            cache_consistent(archetypes@),
            archetypes@.index.len() == 0,
            archetypes@.tables.len() == 0,
            archetypes@.cache.len() == 0,
            archetypes@.queue == (CommandsView {
                spawn: Seq::empty(),
                destroy: Seq::empty(),
                modify: Seq::empty(),
            }),
    {
        let archetypes = Archetypes {
            archetypes: Vec::new(),
            commands: Commands::null(),
            tables: Vec::new(),
            cache: QueryCache::new(),
        };
        proof {
            reveal(archetypes_sound);
            reveal(cache_consistent);
        }
        archetypes
    }

    /// Registers a query under its fingerprint. See `QueryCache::load`.
    ///
    /// The queries stay exact if no table has all the components of a query
    /// that is new: so they do if every query is registered before the first
    /// table exists.
    pub fn load_query(&mut self, key: Archetype, ids: Vec<ComponentId>) -> (outcome: Trace<()>)
        requires
            old(self).wf(),
        ensures
            final(self).wf(),
            final(self)@.index == old(self)@.index,
            final(self)@.queue == old(self)@.queue,
            final(self)@.tables == old(self)@.tables,
            ({
                let at = slot_of(keys_of(old(self)@.cache), key);
                if !has_key(keys_of(old(self)@.cache), key) {
                    &&& outcome is Pass
                    &&& final(self)@.cache == old(self)@.cache.insert(
                        at,
                        (key, QueryView { ids: sorted_ids(ids@), indices: Seq::empty() }),
                    )
                } else if old(self)@.cache[at].1.ids == sorted_ids(ids@) {
                    &&& outcome is Pass
                    &&& final(self)@.cache == old(self)@.cache
                } else {
                    &&& outcome matches Trace::Fail(message)
                    &&& message@ == collision_message()
                    &&& final(self)@.cache == old(self)@.cache
                }
            }),
            cache_consistent(old(self)@) && (has_key(keys_of(old(self)@.cache), key) || forall|t: int|
                0 <= t < old(self)@.tables.len() ==> !covers(
                    column_ids(#[trigger] old(self)@.tables[t].columns),
                    sorted_ids(ids@),
                )) ==> cache_consistent(final(self)@),
    {
        proof {
            lemma_sound_queue(self@);
            if !has_key(keys_of(self@.cache), key) {
                lemma_register_keeps_sound(self@, key, sorted_ids(ids@));
            }
        }
        self.cache.load(key, ids)
    }

    /// The tables of a registered query, in the order in which they were
    /// listed. Fails for a fingerprint under which no query is registered.
    pub fn query_cache(&self, key: Archetype) -> (found: Trace<&IndexSet<TableIndex>>)
        ensures
            match found {
                Trace::Pass(indices) => {
                    &&& has_key(keys_of(self@.cache), key)
                    &&& indices_of(*indices) == self@.cache[slot_of(
                        keys_of(self@.cache),
                        key,
                    )].1.indices
                },
                Trace::Fail(message) => {
                    &&& !has_key(keys_of(self@.cache), key)
                    &&& message@ == unknown_query_message()
                },
            },
    {
        self.cache.search(key)
    }

    /// Takes the commands of a buffer into the registry's queue, entry by
    /// entry: what the buffer holds for a key goes behind what the queue holds
    /// for it.
    pub fn submit_commands(&mut self, commands: Commands) -> (outcome: Trace<()>)
        requires
            old(self).wf(),
            commands.wf(),
        ensures
            final(self).wf(),
            outcome is Pass,
            final(self)@ == (ArchetypesView { queue: merged(old(self)@.queue, commands@), ..old(self)@ }),
            cache_consistent(old(self)@) ==> cache_consistent(final(self)@),
    {
        proof {
            lemma_sound_queue(self@);
        }
        self.commands.absorb(commands);
        proof {
            lemma_requeue(old(self)@, self@.queue);
        }
        Trace::Pass(())
    }

    /// Every listed table that exists is sound and has no more rows than the
    /// machine can count.
    pub proof fn lemma_tables(&self, indices: Seq<TableIndex>)
        requires
            self.wf(),
            forall|k: int| 0 <= k < indices.len() ==> (#[trigger] indices[k]) < self@.tables.len(),
        ensures
            forall|k: int|
                0 <= k < indices.len() ==> table_sound(self@.tables[(#[trigger] indices[k]) as int])
                    && self@.tables[indices[k] as int].len <= usize::MAX,
    {
        assert forall|k: int| 0 <= k < indices.len() implies table_sound(
            self@.tables[(#[trigger] indices[k]) as int],
        ) && self@.tables[indices[k] as int].len <= usize::MAX by {
            let t = indices[k] as int;
            self.tables@[t].lemma_len_fits();
        }
    }

    /// The number of tables.
    pub fn table_count(&self) -> (count: usize)
        ensures
            count == self@.tables.len(),
    {
        self.tables.len()
    }

    /// The table at an index.
    pub fn table(&self, index: TableIndex) -> (table: &Table)
        requires
            self.wf(),
            index < self@.tables.len(),
        ensures
            table@ == self@.tables[index as int],
            table.wf(),
    {
        &self.tables[index]
    }

    /// Writes a value over the value of its component in a row. Fails, and
    /// changes nothing, if there is no such cell: no such table, no such row,
    /// or no column of the value's component and size.
    pub fn store(&mut self, index: PackageIndex, anon: &Anon) -> (outcome: Trace<()>)
        requires
            old(self).wf(),
        ensures
            final(self).wf(),
            cache_consistent(old(self)@) ==> cache_consistent(final(self)@),
            if index.table < old(self)@.tables.len() && cell_exists(
                old(self)@.tables[index.table as int],
                index.col as int,
                anon@,
            ) {
                &&& outcome is Pass
                &&& final(self)@ == (ArchetypesView {
                    tables: old(self)@.tables.update(
                        index.table as int,
                        stored(old(self)@.tables[index.table as int], index.col as int, anon@),
                    ),
                    ..old(self)@
                })
            } else {
                &&& outcome matches Trace::Fail(message)
                &&& message@ == missing_cell_message()
                &&& final(self)@ == old(self)@
            },
    {
        let ghost before = self@;
        if index.table < self.tables.len() {
            if self.tables[index.table].holds(index.col, anon) {
                self.tables[index.table].store(index.col, anon);
                proof {
                    let t = index.table as int;
                    let after = before.tables.update(t, stored(before.tables[t], index.col as int, anon@));
                    assert(self@.tables =~= after);
                    assert forall|u: int| 0 <= u < self@.tables.len() implies table_sound(
                        #[trigger] self@.tables[u],
                    ) && column_ids(self@.tables[u].columns) == column_ids(before.tables[u].columns) by {
                        if u == t {
                            crate::table::lemma_column_from(before.tables[t].columns, anon@.id, 0);
                        }
                    }
                    lemma_sound_queue(before);
                    lemma_same_ids_keep_sound(before, self@);
                }
                return Trace::Pass(());
            }
        }
        Trace::Fail(String::from_str("Tried to write a component to a row that does not exist!"))
    }

    /// The tables of the query for the listed components: those that the
    /// registered query lists, each of which exists and has the components.
    /// Fails if no query is registered under the fingerprint of the
    /// components, or if the query that is registered is for other components.
    pub fn matching(&self, ids: &Vec<ComponentId>) -> (found: Trace<&IndexSet<TableIndex>>)
        requires
            self.wf(),
        ensures
            ({
                let key = fingerprint(ids@);
                let entry = self@.cache[slot_of(keys_of(self@.cache), key)].1;
                if !has_key(keys_of(self@.cache), key) {
                    found matches Trace::Fail(message) && message@ == unknown_query_message()
                } else if entry.ids != sorted_ids(ids@) {
                    found matches Trace::Fail(message) && message@ == collision_message()
                } else {
                    &&& found matches Trace::Pass(indices)
                    &&& indices_of(*indices) == entry.indices
                    &&& listed_tables_cover(self@.tables, ids@, entry.indices)
                }
            }),
    {
        let key = query_key(ids);
        let mut copy: Vec<ComponentId> = Vec::new();
        let mut k: usize = 0;
        while k < ids.len()
            invariant
                k <= ids@.len(),
                copy@ == ids@.subrange(0, k as int),
            decreases ids@.len() - k,
        {
            copy.push(ids[k]);
            k += 1;
        }
        assert(copy@ =~= ids@);
        let sorted = sort_ids(copy);
        match self.cache.entry(key) {
            None => Trace::Fail(
                String::from_str("Tried to search the Query Cache for a Query that does not exist!"),
            ),
            Some(query) => {
                if !same_ids(query.ids(), &sorted) {
                    return Trace::Fail(
                        String::from_str(
                            "Same Archetype but different components! Indicates hashing algorithm is bad. (internal error, contact maintainer)",
                        ),
                    );
                }
                proof {
                    let at = slot_of(keys_of(self@.cache), key);
                    lemma_slot_from(keys_of(self@.cache), key, 0);
                    lemma_sound_cache(self@, at);
                    let listed = self@.cache[at].1.indices;
                    assert forall|q: int| 0 <= q < listed.len() implies (#[trigger] listed[q])
                        < self@.tables.len() && covers(
                        column_ids(self@.tables[listed[q] as int].columns),
                        ids@,
                    ) by {
                        crate::cache::lemma_covers_sorted(
                            column_ids(self@.tables[listed[q] as int].columns),
                            ids@,
                        );
                    }
                }
                Trace::Pass(query.indices())
            },
        }
    }

    /// Carries out the first queued edit.
    fn relocate_first(&mut self)
        requires
            old(self).wf(),
            old(self)@.queue.modify.len() > 0,
            doomed(old(self)@.queue.destroy, old(self)@.queue.modify[0].0) || (old(
                self,
            )@.queue.modify[0].0.table < old(self)@.tables.len() && old(self)@.queue.modify[0].0.col
                < old(self)@.tables[old(self)@.queue.modify[0].0.table as int].len),
        ensures
            final(self).wf(),
            final(self)@ == (ArchetypesView {
                queue: relocate_one(old(self)@.tables, old(self)@.queue),
                ..old(self)@
            }),
            cache_consistent(old(self)@) ==> cache_consistent(final(self)@),
    {
        let ghost queue = self@.queue;
        let ghost tables = self@.tables;
        proof {
            lemma_sound_queue(self@);
        }
        match self.commands.pop_modify() {
            Some((index, edit)) => {
                proof {
                    lemma_rest_ascending(queue.modify);
                }
                if !self.commands.dooms(index) {
                    let package = self.tables[index.table].extract(edit, index.col);
                    self.commands.spawn_package(package);
                    self.commands.destroy_nodrop(index);
                }
                proof {
                    lemma_requeue(old(self)@, self@.queue);
                }
            },
            None => {},
        }
    }

    /// Carries out the queued edits: every edited row is queued for spawning
    /// as a package and queued to be freed, unless it is to be destroyed with
    /// its values.
    fn relocate(&mut self)
        requires
            old(self).wf(),
            can_relocate(old(self)@.tables, old(self)@.queue),
        ensures
            final(self).wf(),
            final(self)@ == after_modifies(old(self)@),
            final(self)@.queue.modify.len() == 0,
            cache_consistent(old(self)@) ==> cache_consistent(final(self)@),
    {
        proof {
            self.commands.lemma_modify_len();
        }
        while self.commands.modify.len() > 0
            invariant
                self.wf(),
                self@.index == old(self)@.index,
                self@.tables == old(self)@.tables,
                self@.cache == old(self)@.cache,
                self.commands.modify@.len() == self@.queue.modify.len(),
                can_relocate(self@.tables, self@.queue),
                relocated(self@.tables, self@.queue) == relocated(old(self)@.tables, old(self)@.queue),
                cache_consistent(old(self)@) ==> cache_consistent(self@),
            decreases self@.queue.modify.len(),
        {
            self.relocate_first();
            proof {
                self.commands.lemma_modify_len();
            }
        }
    }

    /// Appends packages to the table of their archetype.
    fn join_table(&mut self, t: TableIndex, packages: Vec<Package>)
        requires
            old(self).wf(),
            t < old(self)@.tables.len(),
            forall|p: int|
                0 <= p < packages@.len() ==> fits(
                    (#[trigger] packages@[p])@,
                    old(self)@.tables[t as int].columns,
                ),
            old(self)@.tables[t as int].len + packages@.len() <= usize::MAX,
        ensures
            final(self).wf(),
            final(self)@ == (ArchetypesView {
                tables: old(self)@.tables.update(
                    t as int,
                    spawned(old(self)@.tables[t as int], package_views(packages@)),
                ),
                ..old(self)@
            }),
            cache_consistent(old(self)@) ==> cache_consistent(final(self)@),
    {
        let ghost before = self@;
        self.tables[t].spawn(packages);
        proof {
            let after = before.tables.update(
                t as int,
                spawned(before.tables[t as int], package_views(packages@)),
            );
            assert forall|u: int| 0 <= u < self.tables@.len() implies self@.tables[u] == after[u] by {}
            assert(self@.tables =~= after);
            lemma_spawned_keeps_ids(before.tables[t as int], package_views(packages@));
            assert forall|u: int| 0 <= u < self.tables@.len() implies (#[trigger] self.tables@[u]).wf() by {}
            lemma_sound_queue(before);
            lemma_same_ids_keep_sound(before, self@);
        }
    }

    /// Takes in a new table for an archetype that has none, and announces it
    /// to every registered query.
    fn open_table(&mut self, key: Archetype, at: usize, table: Table)
        requires
            old(self).wf(),
            !has_key(keys_of(old(self)@.index), key),
            at == slot_of(keys_of(old(self)@.index), key),
            table.wf(),
            fingerprint(column_ids(table@.columns)) == key,
        ensures
            final(self).wf(),
            final(self)@ == (ArchetypesView {
                index: old(self)@.index.insert(at as int, (key, old(self)@.tables.len() as usize)),
                tables: old(self)@.tables.push(table@),
                cache: cache_announced(
                    old(self)@.cache,
                    old(self)@.tables.len() as usize,
                    column_ids(table@.columns),
                ),
                ..old(self)@
            }),
            cache_consistent(old(self)@) ==> cache_consistent(final(self)@),
    {
        let ghost before = self@;
        let ghost made = table@;
        let len = self.tables.len();
        proof {
            lemma_slot_from(keys_of(before.index), key, 0);
            lemma_sound_queue(before);
        }
        self.archetypes.insert(at, (key, len));
        self.tables.push(table);
        self.cache.update(len, &self.tables[len]);
        proof {
            lemma_len_fits(&self.tables);
            assert(self@.tables =~= before.tables.push(made));
            lemma_open_keeps_sound(before, key, made);
        }
    }

    /// Carries out the first entry of the spawn queue.
    fn settle_first(&mut self)
        requires
            old(self).wf(),
            old(self)@.queue.spawn.len() > 0,
            can_settle_one(old(self)@),
        ensures
            final(self).wf(),
            final(self)@ == settle_one(old(self)@),
            final(self)@.tables.len() >= old(self)@.tables.len(),
            cache_consistent(old(self)@) ==> cache_consistent(final(self)@),
    {
        let ghost before = self@;
        proof {
            lemma_sound_queue(before);
        }
        match self.commands.pop_spawn() {
            Some((key, packages)) => {
                proof {
                    lemma_rest_sound(before.queue.spawn);
                    lemma_requeue(before, self@.queue);
                    assert forall|p: int| 0 <= p < packages@.len() implies (#[trigger] packages@[p])@
                        == before.queue.spawn[0].1[p] by {}
                }
                let at = find_slot(&self.archetypes, &key);
                if at_key(&self.archetypes, at, &key) {
                    let t = self.archetypes[at].1;
                    proof {
                        lemma_sound_index(before, at as int);
                    }
                    self.join_table(t, packages);
                } else {
                    let table = Table::new(packages);
                    proof {
                        lemma_fresh_fingerprint(package_views(packages@));
                    }
                    self.open_table(key, at, table);
                }
            },
            None => {},
        }
    }

    /// Carries out the queued spawns.
    fn settle(&mut self)
        requires
            old(self).wf(),
            can_settle(old(self)@),
        ensures
            final(self).wf(),
            final(self)@ == settled(old(self)@),
            final(self)@.queue.spawn.len() == 0,
            final(self)@.queue.destroy == old(self)@.queue.destroy,
            final(self)@.queue.modify == old(self)@.queue.modify,
            final(self)@.tables.len() >= old(self)@.tables.len(),
            cache_consistent(old(self)@) ==> cache_consistent(final(self)@),
    {
        proof {
            self.commands.lemma_spawn_len();
        }
        while self.commands.spawn.len() > 0
            invariant
                self.wf(),
                can_settle(self@),
                settled(self@) == settled(old(self)@),
                self@.queue.destroy == old(self)@.queue.destroy,
                self@.queue.modify == old(self)@.queue.modify,
                self@.tables.len() >= old(self)@.tables.len(),
                self.commands.spawn@.len() == self@.queue.spawn.len(),
                cache_consistent(old(self)@) ==> cache_consistent(self@),
            decreases self@.queue.spawn.len(),
        {
            self.settle_first();
            proof {
                self.commands.lemma_spawn_len();
            }
        }
    }

    /// Carries out the first entry of the destroy queue.
    fn raze_first(&mut self)
        requires
            old(self).wf(),
            old(self)@.queue.destroy.len() > 0,
            old(self)@.queue.destroy[0].0 < old(self)@.tables.len(),
            forall|k: int|
                0 <= k < old(self)@.queue.destroy[0].1.len() ==> (#[trigger] old(
                    self,
                )@.queue.destroy[0].1[k]).0 < old(self)@.tables[old(self)@.queue.destroy[0].0 as int].len,
        ensures
            final(self).wf(),
            final(self)@ == (ArchetypesView {
                queue: CommandsView {
                    destroy: old(self)@.queue.destroy.drop_first(),
                    ..old(self)@.queue
                },
                tables: raze_one(old(self)@.tables, old(self)@.queue.destroy),
                ..old(self)@
            }),
            cache_consistent(old(self)@) ==> cache_consistent(final(self)@),
    {
        let ghost before = self@;
        proof {
            lemma_sound_queue(before);
        }
        match self.commands.pop_destroy() {
            Some((t, entries)) => {
                proof {
                    lemma_rest_ascending(before.queue.destroy);
                    lemma_requeue(before, self@.queue);
                }
                let ghost mid = self@;
                self.tables[t].destroy(entries);
                proof {
                    let after = raze_one(before.tables, before.queue.destroy);
                    assert(self@.tables =~= after);
                    lemma_destroyed_keeps_ids(
                        before.tables[t as int],
                        plan_upto(entries@, before.tables[t as int].len as int),
                    );
                    lemma_same_ids_keep_sound(mid, self@);
                }
            },
            None => {},
        }
    }

    /// Carries out the queued destroys.
    fn raze(&mut self)
        requires
            old(self).wf(),
            can_raze(old(self)@.tables, old(self)@.queue.destroy),
        ensures
            final(self).wf(),
            final(self)@ == (ArchetypesView {
                queue: CommandsView { destroy: Seq::empty(), ..old(self)@.queue },
                tables: razed(old(self)@.tables, old(self)@.queue.destroy),
                ..old(self)@
            }),
            final(self)@.tables.len() == old(self)@.tables.len(),
            cache_consistent(old(self)@) ==> cache_consistent(final(self)@),
    {
        proof {
            self.commands.lemma_destroy_len();
        }
        while self.commands.destroy.len() > 0
            invariant
                self.wf(),
                self@.index == old(self)@.index,
                self@.cache == old(self)@.cache,
                self@.queue.spawn == old(self)@.queue.spawn,
                self@.queue.modify == old(self)@.queue.modify,
                self@.tables.len() == old(self)@.tables.len(),
                self.commands.destroy@.len() == self@.queue.destroy.len(),
                can_raze(self@.tables, self@.queue.destroy),
                razed(self@.tables, self@.queue.destroy) == razed(
                    old(self)@.tables,
                    old(self)@.queue.destroy,
                ),
                cache_consistent(old(self)@) ==> cache_consistent(self@),
            decreases self@.queue.destroy.len(),
        {
            self.raze_first();
            proof {
                self.commands.lemma_destroy_len();
            }
        }
        assert(self@.queue.destroy =~= Seq::empty());
    }

    /// Carries out the queued commands, in this order: first the edits, then
    /// the spawns, then the destroys.
    ///
    /// An edit moves its row: the edited row is spawned as a package, and the
    /// row is freed without destroying its values. The edit of a row that is
    /// to be destroyed with its values is dropped. Packages join the table of
    /// their archetype; where there is none, they make a new table, which is
    /// announced to every registered query. Tables are never removed.
    ///
    /// Queries that list exactly their matching tables before the flush do so
    /// after it.
    pub fn flush_queues(&mut self)
        requires
            old(self).wf(),
            can_flush(old(self)@),
        ensures
            final(self).wf(),
            final(self)@ == flushed(old(self)@),
            final(self)@.queue == (CommandsView {
                spawn: Seq::empty(),
                destroy: Seq::empty(),
                modify: Seq::empty(),
            }),
            final(self)@.tables.len() >= old(self)@.tables.len(),
            cache_consistent(old(self)@) ==> cache_consistent(final(self)@),
    {
        self.relocate();
        self.settle();
        self.raze();
        assert(self@.queue.spawn =~= Seq::empty());
        assert(self@.queue.modify =~= Seq::empty());
    }

    /// Whether the first queued edit can be carried out.
    fn relocate_is_ready(&self) -> (ok: bool)
        requires
            self.wf(),
            self@.queue.modify.len() > 0,
        ensures
            ok == relocate_ready(self@),
    {
        match self.commands.first_modify() {
            Some(index) => {
                if self.commands.dooms(index) {
                    true
                } else if index.table < self.tables.len() {
                    index.col < self.tables[index.table].len()
                } else {
                    false
                }
            },
            None => false,
        }
    }

    /// Whether the first entry of the spawn queue can be carried out.
    fn settle_is_ready(&self) -> (ok: bool)
        requires
            self.wf(),
            self@.queue.spawn.len() > 0,
        ensures
            ok == can_settle_one(self@),
    {
        proof {
            lemma_sound_queue(self@);
        }
        match self.commands.first_spawn() {
            Some((key, packages)) => {
                let ghost listed = self@.queue.spawn[0].1;
                assert forall|p: int| 0 <= p < packages@.len() implies (#[trigger] packages@[p]).wf() by {
                    assert(listed[p] == packages@[p]@);
                }
                assert(packages@.len() > 0) by {}
                let at = find_slot(&self.archetypes, &key);
                if at_key(&self.archetypes, at, &key) {
                    let t = self.archetypes[at].1;
                    proof {
                        lemma_sound_index(self@, at as int);
                    }
                    let table = &self.tables[t];
                    if packages.len() > usize::MAX - table.len() {
                        return false;
                    }
                    let mut ok = true;
                    let mut p: usize = 0;
                    while p < packages.len()
                        invariant
                            table.wf(),
                            p <= packages@.len(),
                            listed == package_views(packages@),
                            forall|q: int| 0 <= q < packages@.len() ==> (#[trigger] packages@[q]).wf(),
                            ok ==> forall|q: int|
                                0 <= q < p ==> fits(#[trigger] listed[q], table@.columns),
                            !ok ==> exists|q: int|
                                0 <= q < listed.len() && !fits(#[trigger] listed[q], table@.columns),
                        decreases packages@.len() - p,
                    {
                        assert(listed[p as int] == packages@[p as int]@);
                        if !table.accepts(&packages[p]) {
                            ok = false;
                        }
                        p += 1;
                    }
                    ok
                } else {
                    let last = &packages[packages.len() - 1];
                    let mut ok = true;
                    let mut p: usize = 0;
                    while p < packages.len()
                        invariant
                            p <= packages@.len(),
                            listed == package_views(packages@),
                            forall|q: int| 0 <= q < packages@.len() ==> (#[trigger] packages@[q]).wf(),
                            ok ==> forall|q: int|
                                0 <= q < p ==> fits(#[trigger] listed[q], skeleton(last@).columns),
                            !ok ==> exists|q: int|
                                0 <= q < listed.len() && !fits(
                                    #[trigger] listed[q],
                                    skeleton(last@).columns,
                                ),
                        decreases packages@.len() - p,
                    {
                        assert(listed[p as int] == packages@[p as int]@);
                        if !alike(&packages[p], last) {
                            ok = false;
                        }
                        p += 1;
                    }
                    ok
                }
            },
            None => false,
        }
    }

    /// Whether the first entry of the destroy queue can be carried out.
    fn raze_is_ready(&self) -> (ok: bool)
        requires
            self.wf(),
            self@.queue.destroy.len() > 0,
        ensures
            ok == raze_ready(self@),
    {
        match self.commands.first_destroy() {
            Some((t, entries)) => {
                if t >= self.tables.len() {
                    return false;
                }
                let len = self.tables[t].len();
                let mut ok = true;
                let mut k: usize = 0;
                while k < entries.len()
                    invariant
                        k <= entries@.len(),
                        ok ==> forall|q: int| 0 <= q < k ==> (#[trigger] entries@[q]).0 < len,
                        !ok ==> exists|q: int| 0 <= q < entries@.len() && (#[trigger] entries@[q]).0 >= len,
                    decreases entries@.len() - k,
                {
                    if entries[k].0 >= len {
                        ok = false;
                    }
                    k += 1;
                }
                proof {
                    if !ok {
                        let q = choose|q: int|
                            0 <= q < entries@.len() && (#[trigger] entries@[q]).0 >= len;
                        assert(!(self@.queue.destroy[0].1[q].0 < self@.tables[t as int].len));
                    }
                }
                ok
            },
            None => false,
        }
    }

    /// Carries out the queued commands as `flush_queues` does, step by step,
    /// and stops before the first step that cannot be carried out: an edit or
    /// a destroy request for a row that does not exist, or a package that does
    /// not hold exactly the components of the table it goes to. The commands
    /// that were not carried out stay in the queue, and the flush fails.
    pub fn flush_checked(&mut self) -> (outcome: Trace<()>)
        requires
            old(self).wf(),
        ensures
            final(self).wf(),
            final(self)@ == halted(old(self)@),
            final(self)@.tables.len() >= old(self)@.tables.len(),
            cache_consistent(old(self)@) ==> cache_consistent(final(self)@),
            can_flush(old(self)@) ==> outcome is Pass && final(self)@ == flushed(old(self)@),
            !can_flush(old(self)@) ==> (outcome matches Trace::Fail(message) && message@
                == halt_message(final(self)@)),
    {
        proof {
            lemma_halted(old(self)@);
        }
        loop
            invariant
                self.wf(),
                halted(self@) == halted(old(self)@),
                self@.tables.len() >= old(self)@.tables.len(),
                cache_consistent(old(self)@) ==> cache_consistent(self@),
                can_flush(old(self)@) ==> idle(halted(old(self)@)) && halted(old(self)@) == flushed(
                    old(self)@,
                ),
                !can_flush(old(self)@) ==> !idle(halted(old(self)@)),
            decreases self@.queue.modify.len(), self@.queue.spawn.len(), self@.queue.destroy.len(),
        {
            proof {
                self.commands.lemma_modify_len();
                self.commands.lemma_spawn_len();
                self.commands.lemma_destroy_len();
            }
            if self.commands.modify.len() > 0 {
                if !self.relocate_is_ready() {
                    return Trace::Fail(String::from_str("Tried to modify a row that does not exist!"));
                }
                self.relocate_first();
            } else if self.commands.spawn.len() > 0 {
                if !self.settle_is_ready() {
                    return Trace::Fail(String::from_str("Attempted to spawn invalid component!"));
                }
                self.settle_first();
            } else if self.commands.destroy.len() > 0 {
                if !self.raze_is_ready() {
                    return Trace::Fail(String::from_str("Tried to destroy a row that does not exist!"));
                }
                self.raze_first();
            } else {
                return Trace::Pass(());
            }
        }
    }

    /// Cursors over the values of one component in the listed tables, as one
    /// chain: the table listed last comes first, and tables without rows are
    /// left out.
    ///
    /// Every listed table must exist and, if it has rows, store the component.
    pub fn collect<'a>(&'a self, id: ComponentId, indices: &IndexSet<TableIndex>) -> (chain:
        AnonIterChain<'a>)
        requires
            self.wf(),
            listed_tables_store(self@.tables, id, indices_of(*indices)),
        ensures
            chain.wf(),
            chain.remaining() == gathered(self@.tables, id, indices_of(*indices)),
    {
        let ghost listed = indices_of(*indices);
        let count = indices_len(indices);
        let mut chain = AnonIterChain::with_capacity(count);
        let mut i: usize = 0;
        while i < count
            invariant
                self.wf(),
                listed == indices_of(*indices),
                count == listed.len(),
                i <= count,
                listed_tables_store(self@.tables, id, listed),
                chain.wf(),
                chain.remaining() == gathered(self@.tables, id, listed.subrange(0, i as int)),
            decreases count - i,
        {
            let index = indices_get(indices, i).unwrap();
            proof {
                let next = listed.subrange(0, i as int + 1);
                assert(next.drop_last() =~= listed.subrange(0, i as int));
            }
            if let Some(iter) = self.tables[index].collect(id) {
                chain.push(iter);
            }
            i += 1;
        }
        assert(listed.subrange(0, i as int) =~= listed);
        chain
    }

    /// Cursors over the addresses of the rows of the listed tables, as one
    /// chain, in the order in which `collect` yields the values of those rows.
    ///
    /// Every listed table must exist.
    pub fn collect_indices(&self, indices: &IndexSet<TableIndex>) -> (chain: PackageIndexChain)
        requires
            self.wf(),
            forall|k: int|
                0 <= k < indices_of(*indices).len() ==> (#[trigger] indices_of(*indices)[k])
                    < self@.tables.len(),
        ensures
            chain.remaining() == addresses(self@.tables, indices_of(*indices)),
    {
        let ghost listed = indices_of(*indices);
        let count = indices_len(indices);
        let mut chain = PackageIndexChain { iters: Vec::with_capacity(count) };
        let mut i: usize = 0;
        while i < count
            invariant
                self.wf(),
                listed == indices_of(*indices),
                count == listed.len(),
                i <= count,
                forall|k: int| 0 <= k < listed.len() ==> (#[trigger] listed[k]) < self@.tables.len(),
                chain.remaining() == addresses(self@.tables, listed.subrange(0, i as int)),
            decreases count - i,
        {
            let index = indices_get(indices, i).unwrap();
            proof {
                let next = listed.subrange(0, i as int + 1);
                assert(next.drop_last() =~= listed.subrange(0, i as int));
            }
            if let Some(iter) = self.tables[index].collect_indices(index) {
                chain.push(iter);
            }
            i += 1;
        }
        assert(listed.subrange(0, i as int) =~= listed);
        chain
    }
}

/// Every listed table exists and, if it has rows, stores the component.
pub open spec fn listed_tables_store(
    tables: Seq<TableView>,
    id: ComponentId,
    indices: Seq<TableIndex>,
) -> bool {
    forall|k: int|
        0 <= k < indices.len() ==> {
            &&& (#[trigger] indices[k]) < tables.len()
            &&& tables[indices[k] as int].len > 0 ==> column_from(
                tables[indices[k] as int].columns,
                id,
                0,
            ) < tables[indices[k] as int].columns.len()
        }
}

/// The values of a component in one table, in row order; none when the table
/// has no rows.
pub open spec fn table_values(table: TableView, id: ComponentId) -> Seq<AnonView> {
    if table.len > 0 {
        column_items(table.columns[column_from(table.columns, id, 0)])
    } else {
        Seq::empty()
    }
}

/// The addresses of the rows of one table, in row order.
pub open spec fn table_addresses(table: TableIndex, len: nat) -> Seq<PackageIndex> {
    Seq::new(len, |r: int| PackageIndex { table, col: r as usize })
}

/// The values of a component in the listed tables: those of the table listed
/// last first, each table in row order.
pub open spec fn gathered(
    tables: Seq<TableView>,
    id: ComponentId,
    indices: Seq<TableIndex>,
) -> Seq<AnonView>
    decreases indices.len(),
{
    if indices.len() == 0 {
        Seq::empty()
    } else {
        table_values(tables[indices.last() as int], id) + gathered(tables, id, indices.drop_last())
    }
}

/// The addresses of the rows of the listed tables: those of the table listed
/// last first, each table in row order.
pub open spec fn addresses(tables: Seq<TableView>, indices: Seq<TableIndex>) -> Seq<PackageIndex>
    decreases indices.len(),
{
    if indices.len() == 0 {
        Seq::empty()
    } else {
        table_addresses(indices.last(), tables[indices.last() as int].len) + addresses(
            tables,
            indices.drop_last(),
        )
    }
}

/// Values and addresses come in lockstep: the chain of values of a component
/// and the chain of addresses over the same tables have the same length, and
/// the value at each position is the value of that component in the row that
/// the address at that position names.
pub proof fn lemma_lockstep(tables: Seq<TableView>, id: ComponentId, indices: Seq<TableIndex>)
    requires
        listed_tables_store(tables, id, indices),
        forall|k: int|
            0 <= k < indices.len() ==> table_sound(tables[(#[trigger] indices[k]) as int])
                && tables[indices[k] as int].len <= usize::MAX,
    ensures
        gathered(tables, id, indices).len() == addresses(tables, indices).len(),
        forall|k: int|
            0 <= k < addresses(tables, indices).len() ==> {
                let at = (#[trigger] addresses(tables, indices)[k]);
                let table = tables[at.table as int];
                let column = table.columns[column_from(table.columns, id, 0)];
                &&& at.table < tables.len()
                &&& at.col < table.len
                &&& column_from(table.columns, id, 0) < table.columns.len()
                &&& gathered(tables, id, indices)[k] == (AnonView {
                    id: column.id,
                    drop: column.drop,
                    bytes: column.rows[at.col as int],
                })
            },
    decreases indices.len(),
{
    if indices.len() > 0 {
        let t = indices.last();
        let rest = indices.drop_last();
        lemma_lockstep(tables, id, rest);
        let table = tables[t as int];
        if table.len > 0 {
            crate::table::lemma_column_from(table.columns, id, 0);
        }
    }
}

/// Spawning into archetypes that have a table leaves the registered queries
/// as they are: no table is made, so none is announced.
pub proof fn lemma_settle_known_keeps_cache(view: ArchetypesView)
    requires
        forall|e: int|
            0 <= e < view.queue.spawn.len() ==> has_key(
                keys_of(view.index),
                (#[trigger] view.queue.spawn[e]).0,
            ),
    ensures
        settled(view).cache == view.cache,
        settled(view).index == view.index,
    decreases view.queue.spawn.len(),
{
    if view.queue.spawn.len() > 0 {
        let next = settle_one(view);
        lemma_settle_known_keeps_cache(next);
    }
}

/// A flush without edits that spawns only into archetypes that have a table
/// leaves the registered queries as they are, whatever it destroys: tables
/// are emptied, never removed.
pub proof fn lemma_flush_known_keeps_cache(view: ArchetypesView)
    requires
        view.queue.modify.len() == 0,
        forall|e: int|
            0 <= e < view.queue.spawn.len() ==> has_key(
                keys_of(view.index),
                (#[trigger] view.queue.spawn[e]).0,
            ),
    ensures
        flushed(view).cache == view.cache,
        flushed(view).index == view.index,
{
    lemma_settle_known_keeps_cache(view);
}
} // verus!
