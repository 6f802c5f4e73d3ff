//! The command buffer: spawns, destroys and modifies that a system asks for,
//! recorded without touching the storage and carried out between stages.

use vstd::prelude::*;
use crate::anon::{Anon, AnonView, erased_as};
use crate::archetype::{Archetype, Column, ComponentId, TableIndex, fingerprint};
use crate::archetypes::{Archetypes, ArchetypesView, cache_consistent};
use crate::error::Trace;
use crate::handle::{Component, Handles, named};
use crate::ordered::{
    Key,
    ascending_keys,
    at_key,
    find_slot,
    has_key,
    keys_of,
    lemma_slot_from,
    lemma_upsert_keeps_order,
    slot_of,
    upsert,
};
use crate::package::{
    Package,
    PackageIndex,
    anon_views,
    distinct_ids,
    ids_of,
    with_value,
    without_id,
};
use crate::table::{DO_DROP, NO_DROP, package_views};

verus! {
/// An edit of one row: components to put in, and components to take out.
pub struct Modify {
    pub(crate) insert: Vec<Anon>,
    pub(crate) remove: Vec<ComponentId>,
}

/// What an edit holds, as plain values.
pub struct ModifyView {
    pub insert: Seq<AnonView>,
    pub remove: Seq<ComponentId>,
}

impl View for Modify {
    type V = ModifyView;

    closed spec fn view(&self) -> ModifyView {
        ModifyView { insert: anon_views(self.insert@), remove: self.remove@ }
    }
}

/// The values without the listed components, the last listed taken out first.
pub open spec fn without_all(values: Seq<AnonView>, remove: Seq<ComponentId>) -> Seq<AnonView>
    decreases remove.len(),
{
    if remove.len() == 0 {
        values
    } else {
        without_all(without_id(values, remove.last()), remove.drop_last())
    }
}

/// The values with the listed ones put in, the last listed first: of two
/// listed values of one component, the one listed first stays.
pub open spec fn with_all(values: Seq<AnonView>, insert: Seq<AnonView>) -> Seq<AnonView>
    decreases insert.len(),
{
    if insert.len() == 0 {
        values
    } else {
        with_all(with_value(values, insert.last()), insert.drop_last())
    }
}

/// The row after an edit: first the components to take out leave, then the
/// components to put in are added or replace the ones of their kind.
pub open spec fn edited(row: Seq<AnonView>, modify: ModifyView) -> Seq<AnonView> {
    with_all(without_all(row, modify.remove), modify.insert)
}

impl Modify {
    /// An edit that changes nothing.
    pub fn new() -> (modify: Modify)
        ensures
            modify@ == (ModifyView { insert: Seq::empty(), remove: Seq::empty() }),
    {
        let modify = Modify { insert: Vec::with_capacity(8), remove: Vec::with_capacity(8) };
        assert(modify@.insert =~= Seq::<AnonView>::empty());
        modify
    }

    /// Adds the steps of another edit behind the steps of this one.
    pub fn extend(&mut self, modify: Modify)
        ensures
            final(self)@ == (ModifyView {
                insert: old(self)@.insert + modify@.insert,
                remove: old(self)@.remove + modify@.remove,
            }),
    {
        let mut other = modify;
        self.insert.append(&mut other.insert);
        self.remove.append(&mut other.remove);
        assert(self@.insert =~= old(self)@.insert + modify@.insert);
    }

    /// Asks for the value to be put into the row.
    pub fn with_anon(&mut self, anon: Anon)
        ensures
            final(self)@ == (ModifyView {
                insert: old(self)@.insert.push(anon@),
                remove: old(self)@.remove,
            }),
    {
        self.insert.push(anon);
        assert(self@.insert =~= old(self)@.insert.push(anon@));
    }

    /// Asks for the component to be taken out of the row.
    pub fn without_id(&mut self, id: ComponentId)
        ensures
            final(self)@ == (ModifyView {
                insert: old(self)@.insert,
                remove: old(self)@.remove.push(id),
            }),
    {
        self.remove.push(id);
    }

    /// Asks for a component value to be put into the row, as `with_anon`
    /// does, under the number that the component type was declared with, or
    /// under the number that stands for "not declared".
    pub fn with<C: Component>(&mut self, components: &Handles, value: C)
        requires
            components.wf(),
        ensures
            exists|name: Seq<char>, anon: AnonView|
                #![trigger named::<C>(name), old(self)@.insert.push(anon)]
                named::<C>(name) && erased_as::<C>(components.id(name), value, anon) 
                    && final(self)@ == (ModifyView {
                    insert: old(self)@.insert.push(anon),
                    remove: old(self)@.remove,
                }),
    {
        let name = C::name();
        assert(named::<C>(name@));
        let anon = Anon::new::<C>(components.id_of(name), &value);
        self.with_anon(anon);
    }

    /// Asks for the component of a type to be taken out of the row, as
    /// `without_id` does, by the number that the component type was declared
    /// with, or by the number that stands for "not declared".
    pub fn without<C: Component>(&mut self, components: &Handles)
        requires
            components.wf(),
        ensures
            exists|name: Seq<char>| #[trigger]
                named::<C>(name) && final(self)@ == (ModifyView {
                    insert: old(self)@.insert,
                    remove: old(self)@.remove.push(components.id(name)),
                }),
    {
        let name = C::name();
        assert(named::<C>(name@));
        let id = components.id_of(name);
        self.without_id(id);
    }

    /// Takes the last component to put in out of the edit.
    pub(crate) fn pop_insert(&mut self) -> (last: Option<Anon>)
        ensures
            match last {
                Some(anon) => {
                    &&& old(self)@.insert.len() > 0
                    &&& anon@ == old(self)@.insert.last()
                    &&& final(self)@ == (ModifyView {
                        insert: old(self)@.insert.drop_last(),
                        remove: old(self)@.remove,
                    })
                },
                None => old(self)@.insert.len() == 0 && final(self)@ == old(self)@,
            },
    {
        let last = self.insert.pop();
        proof {
            if last is Some {
                assert(self@.insert =~= old(self)@.insert.drop_last());
            }
        }
        last
    }

    /// Takes the last component to take out out of the edit.
    pub(crate) fn pop_remove(&mut self) -> (last: Option<ComponentId>)
        ensures
            match last {
                Some(id) => {
                    &&& old(self)@.remove.len() > 0
                    &&& id == old(self)@.remove.last()
                    &&& final(self)@ == (ModifyView {
                        insert: old(self)@.insert,
                        remove: old(self)@.remove.drop_last(),
                    })
                },
                None => old(self)@.remove.len() == 0 && final(self)@ == old(self)@,
            },
    {
        let last = self.remove.pop();
        last
    }
}

/// The packages queued for one archetype.
pub type SpawnQueue = Seq<(Archetype, Seq<Seq<AnonView>>)>;

/// The destroy requests queued for the tables.
pub type DestroyQueue = Seq<(TableIndex, Seq<(Column, bool)>)>;

/// The edits queued for the rows.
pub type ModifyQueue = Seq<(PackageIndex, ModifyView)>;

/// What a command buffer holds, as plain values: the packages to spawn by
/// archetype, the destroy requests by table, and the edits by row, each in
/// ascending order of its keys.
pub struct CommandsView {
    pub spawn: SpawnQueue,
    pub destroy: DestroyQueue,
    pub modify: ModifyQueue,
}

/// One edit followed by another.
pub open spec fn edits_joined(first: ModifyView, second: ModifyView) -> ModifyView {
    ModifyView { insert: first.insert + second.insert, remove: first.remove + second.remove }
}

/// The spawn queue with the packages filed under the archetype, behind the
/// packages already queued for it.
pub open spec fn filed(
    spawn: SpawnQueue,
    key: Archetype,
    packages: Seq<Seq<AnonView>>,
) -> SpawnQueue {
    upsert(
        spawn,
        key,
        packages,
        |queued: Seq<Seq<AnonView>>, more: Seq<Seq<AnonView>>| queued + more,
    )
}

/// The destroy queue with the requests filed under the table, behind the
/// requests already queued for it.
pub open spec fn requested(
    destroy: DestroyQueue,
    table: TableIndex,
    entries: Seq<(Column, bool)>,
) -> DestroyQueue {
    upsert(
        destroy,
        table,
        entries,
        |queued: Seq<(Column, bool)>, more: Seq<(Column, bool)>| queued + more,
    )
}

/// The modify queue with the edit filed under the row, behind the edits
/// already queued for it.
pub open spec fn revised(
    modify: ModifyQueue,
    index: PackageIndex,
    edit: ModifyView,
) -> ModifyQueue {
    upsert(modify, index, edit, |queued: ModifyView, more: ModifyView| edits_joined(queued, more))
}

/// What holds of every spawn queue: the archetypes ascend, no archetype has an
/// empty list, and every package is filed under its own fingerprint and holds
/// no component twice.
pub open spec fn spawn_sound(spawn: SpawnQueue) -> bool {
    &&& ascending_keys(keys_of(spawn))
    &&& forall|e: int| 0 <= e < spawn.len() ==> (#[trigger] spawn[e]).1.len() > 0
    &&& forall|e: int, p: int|
        0 <= e < spawn.len() && 0 <= p < spawn[e].1.len() ==> {
            &&& fingerprint(ids_of(#[trigger] spawn[e].1[p])) == spawn[e].0
            &&& distinct_ids(spawn[e].1[p])
        }
}

/// A buffer of deferred commands.
pub struct Commands {
    pub(crate) spawn: Vec<(Archetype, Vec<Package>)>,
    pub(crate) destroy: Vec<(TableIndex, Vec<(Column, bool)>)>,
    pub(crate) modify: Vec<(PackageIndex, Modify)>,
}

impl View for Commands {
    type V = CommandsView;

    closed spec fn view(&self) -> CommandsView {
        CommandsView {
            spawn: Seq::new(
                self.spawn@.len(),
                |e: int| (self.spawn@[e].0, package_views(self.spawn@[e].1@)),
            ),
            destroy: Seq::new(self.destroy@.len(), |e: int| (self.destroy@[e].0, self.destroy@[e].1@)),
            modify: Seq::new(self.modify@.len(), |e: int| (self.modify@[e].0, self.modify@[e].1@)),
        }
    }
}

/// What holds of the contents of every command buffer.
pub open spec fn commands_sound(view: CommandsView) -> bool {
    &&& spawn_sound(view.spawn)
    &&& ascending_keys(keys_of(view.destroy))
    &&& ascending_keys(keys_of(view.modify))
}

impl Commands {
    /// The buffer's invariant.
    pub open spec fn wf(&self) -> bool {
        commands_sound(self@)
    }

    /// A buffer without commands.
    pub fn new() -> (commands: Commands)
        ensures
            commands.wf(),
            commands@ == (CommandsView {
                spawn: Seq::empty(),
                destroy: Seq::empty(),
                modify: Seq::empty(),
            }),
    {
        let commands = Commands { spawn: Vec::new(), destroy: Vec::new(), modify: Vec::new() };
        assert(commands@.spawn =~= Seq::empty());
        assert(commands@.destroy =~= Seq::empty());
        assert(commands@.modify =~= Seq::empty());
        commands
    }

    /// A buffer without commands.
    pub fn null() -> (commands: Commands)
        ensures
            commands.wf(),
            commands@ == (CommandsView {
                spawn: Seq::empty(),
                destroy: Seq::empty(),
                modify: Seq::empty(),
            }),
    {
        Commands::new()
    }

    /// Files packages of one archetype in the spawn queue.
    pub(crate) fn file(&mut self, key: Archetype, packages: Vec<Package>)
        ensures
            final(self)@ == (CommandsView {
                spawn: filed(old(self)@.spawn, key, package_views(packages@)),
                ..old(self)@
            }),
    {
        let ghost before = self@.spawn;
        assert(keys_of(before) =~= keys_of(self.spawn@));
        let at = find_slot(&self.spawn, &key);
        if at_key(&self.spawn, at, &key) {
            let mut more = packages;
            self.spawn[at].1.append(&mut more);
            assert(self@.spawn =~= filed(before, key, package_views(packages@))) by {
                assert(package_views(self.spawn@[at as int].1@) =~= before[at as int].1
                    + package_views(packages@));
            }
        } else {
            self.spawn.insert(at, (key, packages));
            assert(self@.spawn =~= filed(before, key, package_views(packages@)));
        }
    }

    /// Files destroy requests for one table in the destroy queue.
    pub(crate) fn request(&mut self, table: TableIndex, entries: Vec<(Column, bool)>)
        ensures
            final(self)@ == (CommandsView {
                destroy: requested(old(self)@.destroy, table, entries@),
                ..old(self)@
            }),
    {
        let ghost before = self@.destroy;
        assert(keys_of(before) =~= keys_of(self.destroy@));
        let at = find_slot(&self.destroy, &table);
        if at_key(&self.destroy, at, &table) {
            let mut more = entries;
            self.destroy[at].1.append(&mut more);
            assert(self@.destroy =~= requested(before, table, entries@));
        } else {
            self.destroy.insert(at, (table, entries));
            assert(self@.destroy =~= requested(before, table, entries@));
        }
    }

    /// Files an edit of one row in the modify queue.
    pub(crate) fn revise(&mut self, index: PackageIndex, edit: Modify)
        ensures
            final(self)@ == (CommandsView {
                modify: revised(old(self)@.modify, index, edit@),
                ..old(self)@
            }),
    {
        let ghost before = self@.modify;
        assert(keys_of(before) =~= keys_of(self.modify@));
        let at = find_slot(&self.modify, &index);
        if at_key(&self.modify, at, &index) {
            self.modify[at].1.extend(edit);
            assert(self@.modify =~= revised(before, index, edit@));
        } else {
            self.modify.insert(at, (index, edit));
            assert(self@.modify =~= revised(before, index, edit@));
        }
    }

    /// Queues a package for spawning, under the fingerprint of its components.
    pub fn spawn_package(&mut self, package: Package)
        requires
            old(self).wf(),
            package.wf(),
        ensures
            final(self).wf(),
            final(self)@ == (CommandsView {
                spawn: filed(old(self)@.spawn, fingerprint(ids_of(package@)), seq![package@]),
                ..old(self)@
            }),
    {
        let key = package.archetype();
        let mut packages: Vec<Package> = Vec::new();
        packages.push(package);
        assert(package_views(packages@) =~= seq![package@]);
        self.file(key, packages);
        proof {
            lemma_filed_keeps_sound(old(self)@.spawn, key, seq![package@]);
        }
    }

    /// Queues a row to be freed without destroying its values, which have
    /// moved elsewhere.
    pub fn destroy_nodrop(&mut self, index: PackageIndex)
        requires
            old(self).wf(),
        ensures
            final(self).wf(),
            final(self)@ == (CommandsView {
                destroy: requested(old(self)@.destroy, index.table, seq![(index.col, NO_DROP)]),
                ..old(self)@
            }),
    {
        let mut entries: Vec<(Column, bool)> = Vec::new();
        entries.push((index.col, NO_DROP));
        self.request(index.table, entries);
        proof {
            lemma_upsert_keeps_order(
                old(self)@.destroy,
                index.table,
                seq![(index.col, NO_DROP)],
                |queued: Seq<(Column, bool)>, more: Seq<(Column, bool)>| queued + more,
            );
        }
    }

    /// Queues the package that the producer makes for spawning.
    pub fn spawn<F: Fn() -> Package>(&mut self, predicate: F)
        requires
            old(self).wf(),
            call_requires(predicate, ()),
            forall|package: Package| call_ensures(predicate, (), package) ==> package.wf(),
        ensures
            final(self).wf(),
            exists|package: Package|
                call_ensures(predicate, (), package) && final(self)@ == (CommandsView {
                    spawn: filed(old(self)@.spawn, fingerprint(ids_of(package@)), seq![package@]),
                    ..old(self)@
                }),
    {
        let package = predicate();
        self.spawn_package(package);
    }

    /// Queues a row to be destroyed with its values.
    pub fn destroy(&mut self, index: PackageIndex)
        requires
            old(self).wf(),
        ensures
            final(self).wf(),
            final(self)@ == (CommandsView {
                destroy: requested(old(self)@.destroy, index.table, seq![(index.col, DO_DROP)]),
                ..old(self)@
            }),
    {
        let mut entries: Vec<(Column, bool)> = Vec::new();
        entries.push((index.col, DO_DROP));
        self.request(index.table, entries);
        proof {
            lemma_upsert_keeps_order(
                old(self)@.destroy,
                index.table,
                seq![(index.col, DO_DROP)],
                |queued: Seq<(Column, bool)>, more: Seq<(Column, bool)>| queued + more,
            );
        }
    }

    /// Queues an edit of a row. Edits of one row are carried out as one edit,
    /// the steps of the earlier edit before those of the later.
    pub fn modify(&mut self, index: PackageIndex, edit: Modify)
        requires
            old(self).wf(),
        ensures
            final(self).wf(),
            final(self)@ == (CommandsView {
                modify: revised(old(self)@.modify, index, edit@),
                ..old(self)@
            }),
    {
        self.revise(index, edit);
        proof {
            lemma_upsert_keeps_order(
                old(self)@.modify,
                index,
                edit@,
                |queued: ModifyView, more: ModifyView| edits_joined(queued, more),
            );
        }
    }

    /// Whether the buffer holds no command.
    #[inline]
    pub fn is_empty(&self) -> (empty: bool)
        ensures
            empty == (self@.spawn.len() == 0 && self@.destroy.len() == 0 && self@.modify.len()
                == 0),
    {
        self.spawn.is_empty() && self.destroy.is_empty() && self.modify.is_empty()
    }

    /// The spawn queue has as many entries as its view.
    pub(crate) proof fn lemma_spawn_len(&self)
        ensures
            self.spawn@.len() == self@.spawn.len(),
    {
    }

    /// The modify queue has as many entries as its view.
    pub(crate) proof fn lemma_modify_len(&self)
        ensures
            self.modify@.len() == self@.modify.len(),
    {
    }

    /// The destroy queue has as many entries as its view.
    pub(crate) proof fn lemma_destroy_len(&self)
        ensures
            self.destroy@.len() == self@.destroy.len(),
    {
    }

    /// Takes the edit of the lowest row out of the buffer.
    pub(crate) fn pop_modify(&mut self) -> (first: Option<(PackageIndex, Modify)>)
        ensures
            match first {
                Some((index, edit)) => {
                    &&& old(self)@.modify.len() > 0
                    &&& (index, edit@) == old(self)@.modify[0]
                    &&& final(self)@ == (CommandsView {
                        modify: old(self)@.modify.drop_first(),
                        ..old(self)@
                    })
                },
                None => old(self)@.modify.len() == 0 && final(self)@ == old(self)@,
            },
    {
        if self.modify.len() == 0 {
            return None;
        }
        let first = self.modify.remove(0);
        assert(self@.modify =~= old(self)@.modify.drop_first());
        Some(first)
    }

    /// Takes the packages of the lowest archetype out of the buffer.
    pub(crate) fn pop_spawn(&mut self) -> (first: Option<(Archetype, Vec<Package>)>)
        ensures
            match first {
                Some((key, packages)) => {
                    &&& old(self)@.spawn.len() > 0
                    &&& (key, package_views(packages@)) == old(self)@.spawn[0]
                    &&& final(self)@ == (CommandsView {
                        spawn: old(self)@.spawn.drop_first(),
                        ..old(self)@
                    })
                },
                None => old(self)@.spawn.len() == 0 && final(self)@ == old(self)@,
            },
    {
        if self.spawn.len() == 0 {
            return None;
        }
        let first = self.spawn.remove(0);
        assert(self@.spawn =~= old(self)@.spawn.drop_first());
        Some(first)
    }

    /// Takes the destroy requests of the lowest table out of the buffer.
    pub(crate) fn pop_destroy(&mut self) -> (first: Option<(TableIndex, Vec<(Column, bool)>)>)
        ensures
            match first {
                Some((table, entries)) => {
                    &&& old(self)@.destroy.len() > 0
                    &&& (table, entries@) == old(self)@.destroy[0]
                    &&& final(self)@ == (CommandsView {
                        destroy: old(self)@.destroy.drop_first(),
                        ..old(self)@
                    })
                },
                None => old(self)@.destroy.len() == 0 && final(self)@ == old(self)@,
            },
    {
        if self.destroy.len() == 0 {
            return None;
        }
        let first = self.destroy.remove(0);
        assert(self@.destroy =~= old(self)@.destroy.drop_first());
        Some(first)
    }

    /// The row of the lowest queued edit.
    pub(crate) fn first_modify(&self) -> (first: Option<PackageIndex>)
        ensures
            match first {
                Some(index) => self@.modify.len() > 0 && index == self@.modify[0].0,
                None => self@.modify.len() == 0,
            },
    {
        if self.modify.len() == 0 {
            None
        } else {
            Some(self.modify[0].0)
        }
    }

    /// The packages of the lowest queued archetype.
    pub(crate) fn first_spawn(&self) -> (first: Option<(Archetype, &Vec<Package>)>)
        ensures
            match first {
                Some((key, packages)) => self@.spawn.len() > 0 && (key, package_views(packages@))
                    == self@.spawn[0],
                None => self@.spawn.len() == 0,
            },
    {
        if self.spawn.len() == 0 {
            None
        } else {
            Some((self.spawn[0].0, &self.spawn[0].1))
        }
    }

    /// The destroy requests of the lowest queued table.
    pub(crate) fn first_destroy(&self) -> (first: Option<(TableIndex, &Vec<(Column, bool)>)>)
        ensures
            match first {
                Some((table, entries)) => self@.destroy.len() > 0 && (table, entries@)
                    == self@.destroy[0],
                None => self@.destroy.len() == 0,
            },
    {
        if self.destroy.len() == 0 {
            None
        } else {
            Some((self.destroy[0].0, &self.destroy[0].1))
        }
    }

    /// Whether the row is queued to be destroyed with its values.
    pub fn dooms(&self, index: PackageIndex) -> (found: bool)
        ensures
            found == doomed(self@.destroy, index),
    {
        assert(keys_of(self@.destroy) =~= keys_of(self.destroy@));
        let at = find_slot(&self.destroy, &index.table);
        if !at_key(&self.destroy, at, &index.table) {
            return false;
        }
        let entries = &self.destroy[at].1;
        let mut k: usize = 0;
        while k < entries.len()
            invariant
                k <= entries@.len(),
                has_key(keys_of(self@.destroy), index.table),
                self@.destroy[slot_of(keys_of(self@.destroy), index.table)].1 == entries@,
                forall|q: int| 0 <= q < k ==> entries@[q] != (index.col, DO_DROP),
            decreases entries@.len() - k,
        {
            if entries[k].0 == index.col && entries[k].1 == DO_DROP {
                return true;
            }
            k += 1;
        }
        false
    }

    /// Hands the buffer to the registry, which takes its commands into its
    /// queue. An empty buffer changes nothing.
    pub fn submit(self, archetypes: &mut Archetypes) -> (outcome: Trace<()>)
        requires
            self.wf(),
            old(archetypes).wf(),
        ensures
            final(archetypes).wf(),
            outcome is Pass,
            final(archetypes)@ == (ArchetypesView {
                queue: merged(old(archetypes)@.queue, self@),
                ..old(archetypes)@
            }),
            cache_consistent(old(archetypes)@) ==> cache_consistent(final(archetypes)@),
    {
        if !self.is_empty() {
            archetypes.submit_commands(self)
        } else {
            Trace::Pass(())
        }
    }

    /// Moves the commands of another buffer into this one, entry by entry in
    /// key order: what the other buffer holds for a key goes behind what this
    /// one holds for it.
    pub fn absorb(&mut self, other: Commands)
        requires
            old(self).wf(),
            other.wf(),
        ensures
            final(self).wf(),
            final(self)@ == merged(old(self)@, other@),
    {
        let ghost given = other@;
        let mut other = other;
        loop
            invariant
                self.wf(),
                other.wf(),
                merged(self@, other@) == merged(old(self)@, given),
            ensures
                other@.spawn.len() == 0,
            decreases other@.spawn.len(),
        {
            let ghost queue = other@;
            match other.pop_spawn() {
                Some((key, packages)) => {
                    proof {
                        lemma_filed_keeps_sound(self@.spawn, key, package_views(packages@));
                        lemma_rest_sound(queue.spawn);
                    }
                    self.file(key, packages);
                },
                None => {
                    break ;
                },
            }
        }
        loop
            invariant
                self.wf(),
                other.wf(),
                other@.spawn.len() == 0,
                merged(self@, other@) == merged(old(self)@, given),
            ensures
                other@.destroy.len() == 0,
            decreases other@.destroy.len(),
        {
            let ghost queue = other@;
            match other.pop_destroy() {
                Some((table, entries)) => {
                    proof {
                        lemma_upsert_keeps_order(
                            self@.destroy,
                            table,
                            entries@,
                            |queued: Seq<(Column, bool)>, more: Seq<(Column, bool)>| queued + more,
                        );
                        assert(keys_of(other@.destroy) =~= keys_of(queue.destroy).drop_first());
                    }
                    self.request(table, entries);
                },
                None => {
                    break ;
                },
            }
        }
        loop
            invariant
                self.wf(),
                other.wf(),
                other@.spawn.len() == 0,
                other@.destroy.len() == 0,
                merged(self@, other@) == merged(old(self)@, given),
            ensures
                other@.modify.len() == 0,
            decreases other@.modify.len(),
        {
            let ghost queue = other@;
            match other.pop_modify() {
                Some((index, edit)) => {
                    proof {
                        lemma_upsert_keeps_order(
                            self@.modify,
                            index,
                            edit@,
                            |queued: ModifyView, more: ModifyView| edits_joined(queued, more),
                        );
                        assert(keys_of(other@.modify) =~= keys_of(queue.modify).drop_first());
                    }
                    self.revise(index, edit);
                },
                None => {
                    break ;
                },
            }
        }
    }
}

/// Whether the destroy queue asks for the row to be destroyed with its values.
pub open spec fn doomed(destroy: DestroyQueue, index: PackageIndex) -> bool {
    &&& has_key(keys_of(destroy), index.table)
    &&& destroy[slot_of(keys_of(destroy), index.table)].1.contains((index.col, DO_DROP))
}

/// The spawn queue after the entries of another queue are filed in it, the
/// lowest archetype first.
pub open spec fn spawn_merged(queue: SpawnQueue, incoming: SpawnQueue) -> SpawnQueue
    decreases incoming.len(),
{
    if incoming.len() == 0 {
        queue
    } else {
        spawn_merged(filed(queue, incoming[0].0, incoming[0].1), incoming.drop_first())
    }
}

/// The destroy queue after the entries of another queue are filed in it, the
/// lowest table first.
pub open spec fn destroy_merged(queue: DestroyQueue, incoming: DestroyQueue) -> DestroyQueue
    decreases incoming.len(),
{
    if incoming.len() == 0 {
        queue
    } else {
        destroy_merged(requested(queue, incoming[0].0, incoming[0].1), incoming.drop_first())
    }
}

/// The modify queue after the entries of another queue are filed in it, the
/// lowest row first.
pub open spec fn modify_merged(queue: ModifyQueue, incoming: ModifyQueue) -> ModifyQueue
    decreases incoming.len(),
{
    if incoming.len() == 0 {
        queue
    } else {
        modify_merged(revised(queue, incoming[0].0, incoming[0].1), incoming.drop_first())
    }
}

/// A buffer after the commands of another buffer are moved into it.
pub open spec fn merged(queue: CommandsView, incoming: CommandsView) -> CommandsView {
    CommandsView {
        spawn: spawn_merged(queue.spawn, incoming.spawn),
        destroy: destroy_merged(queue.destroy, incoming.destroy),
        modify: modify_merged(queue.modify, incoming.modify),
    }
}

/// A sound spawn queue without its first entry is sound.
pub proof fn lemma_rest_sound(spawn: SpawnQueue)
    requires
        spawn_sound(spawn),
        spawn.len() > 0,
    ensures
        spawn_sound(spawn.drop_first()),
{
    let rest = spawn.drop_first();
    assert(keys_of(rest) =~= keys_of(spawn).drop_first());
    assert forall|e: int| 0 <= e < rest.len() implies (#[trigger] rest[e]).1.len() > 0 by {}
}

impl Default for Commands {
    fn default() -> (commands: Commands)
        ensures
            commands.wf(),
            commands@ == (CommandsView {
                spawn: Seq::empty(),
                destroy: Seq::empty(),
                modify: Seq::empty(),
            }),
    {
        Commands::new()
    }
}

/// Filing packages under their fingerprint keeps the spawn queue sound.
pub proof fn lemma_filed_keeps_sound(spawn: SpawnQueue, key: Archetype, packages: Seq<Seq<AnonView>>)
    requires
        spawn_sound(spawn),
        packages.len() > 0,
        forall|p: int|
            0 <= p < packages.len() ==> fingerprint(ids_of(#[trigger] packages[p])) == key
                && distinct_ids(packages[p]),
    ensures
        spawn_sound(filed(spawn, key, packages)),
{
    let merge = |queued: Seq<Seq<AnonView>>, more: Seq<Seq<AnonView>>| queued + more;
    lemma_upsert_keeps_order(spawn, key, packages, merge);
    lemma_slot_from(keys_of(spawn), key, 0);
    let after = filed(spawn, key, packages);
    assert forall|e: int| 0 <= e < after.len() implies (#[trigger] after[e]).1.len() > 0 by {}
}

/// Adding a component to a row and then taking it out restores the row: the
/// values are those of before, in the order of before, and so is the
/// fingerprint. The row must not have the component before.
pub proof fn lemma_add_then_remove(row: Seq<AnonView>, value: AnonView)
    requires
        !ids_of(row).contains(value.id),
    ensures
        edited(
            edited(row, ModifyView { insert: seq![value], remove: Seq::empty() }),
            ModifyView { insert: Seq::empty(), remove: seq![value.id] },
        ) == row,
        fingerprint(
            ids_of(
                edited(
                    edited(row, ModifyView { insert: seq![value], remove: Seq::empty() }),
                    ModifyView { insert: Seq::empty(), remove: seq![value.id] },
                ),
            ),
        ) == fingerprint(ids_of(row)),
{
    let add = ModifyView { insert: seq![value], remove: Seq::empty() };
    let take = ModifyView { insert: Seq::empty(), remove: seq![value.id] };
    crate::package::lemma_find_from(row, value.id, 0);
    let at = crate::package::find_from(row, value.id, 0);
    if at < row.len() {
        assert(ids_of(row)[at] == value.id);
    }
    assert(add.insert.drop_last() =~= Seq::<AnonView>::empty());
    assert(with_all(row, add.insert) == with_all(with_value(row, value), Seq::empty()));
    let added = edited(row, add);
    crate::package::lemma_find_from(added, value.id, 0);
    assert(added[row.len() as int].id == value.id);
    assert(take.remove.drop_last() =~= Seq::<ComponentId>::empty());
    assert(without_all(added, take.remove) == without_all(without_id(added, value.id), Seq::empty()));
}
} // verus!
