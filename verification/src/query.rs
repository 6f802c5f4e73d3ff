//! Queries: iteration over the rows that have a set of components. A query
//! yields, for each row, one value for each component it asks for, and the
//! address of the row.

use vstd::prelude::*;
use vstd::string::*;
use std::marker::PhantomData;
use crate::anon::{Anon, AnonIterChain, AnonView, erased_as};
use crate::archetype::{ComponentId, UNDECLARED, fingerprint};
use crate::archetypes::{
    ArchetypesView,
    addresses,
    gathered,
    lemma_lockstep,
    listed_tables_store,
    query_key,
};
use crate::cache::{QueryView, collision_message, sorted_ids, unknown_query_message};
use crate::ordered::{has_key, keys_of, slot_of};
use crate::ecs::World;
use crate::error::Trace;
use crate::handle::{Component, Handle, decoded, named};
use crate::indexed::indices_of;
use crate::package::{PackageIndex, PackageIndexChain};
use crate::params::{Effects, EffectsView, Fetch};
use crate::scheduler::Accessor;
use crate::table::lemma_listed_has_column;

verus! {
/// A component fetched for reading.
pub struct Ref<C: Component>(pub C);

impl<C: Component> Ref<C> {
    /// The value of the component.
    pub fn get(&self) -> (value: &C)
        ensures
            *value == self.0,
    {
        &self.0
    }
}

impl<C: Component> std::ops::Deref for Ref<C> {
    type Target = C;

    fn deref(&self) -> (value: &C)
        ensures
            *value == self.0,
    {
        &self.0
    }
}

/// A component fetched for writing. The value is a copy: it replaces the
/// stored value when it is handed to the effects of the system.
pub struct Mut<C: Component> {
    pub value: C,
    pub id: ComponentId,
    pub index: PackageIndex,
}

impl<C: Component> Mut<C> {
    /// The value of the component.
    pub fn get(&self) -> (value: &C)
        ensures
            *value == self.value,
    {
        &self.value
    }

    /// Replaces the value.
    pub fn set(&mut self, value: C)
        ensures
            *final(self) == (Mut { value, id: old(self).id, index: old(self).index }),
    {
        self.value = value;
    }
}

impl<C: Component> std::ops::Deref for Mut<C> {
    type Target = C;

    fn deref(&self) -> (value: &C)
        ensures
            *value == self.value,
    {
        &self.value
    }
}

impl Effects {
    /// Asks for the value of a component fetched for writing to be written
    /// back to its row, as `write` does with the erased form of the value.
    pub fn write_back<C: Component>(&mut self, changed: &Mut<C>)
        ensures
            old(self).wf() ==> final(self).wf(),
            exists|anon: AnonView| #[trigger]
                erased_as::<C>(changed.id, changed.value, anon) && final(self)@ == (EffectsView {
                    cells: old(self)@.cells.push((changed.index, anon)),
                    ..old(self)@
                }),
    {
        let anon = Anon::new::<C>(changed.id, &changed.value);
        self.write(changed.index, anon);
    }
}

/// One component of a query, fetched for reading or for writing.
pub trait QueryParam: Sized {
    /// The component type.
    type Item: Component;

    /// The parameter made of a value, the number of its component and the
    /// address of its row.
    spec fn wrapped(value: Self::Item, id: ComponentId, index: PackageIndex) -> Self;

    /// The access that the parameter declares for the component's number.
    spec fn declared(id: ComponentId) -> Accessor;

    /// Makes the parameter of a value, the number of its component and the
    /// address of its row.
    fn wrap(value: Self::Item, id: ComponentId, index: PackageIndex) -> (param: Self)
        ensures
            param == Self::wrapped(value, id, index),
    ;

    /// Declares the access of the parameter for the component's number,
    /// behind the accesses already listed.
    fn accessors(accessors: &mut Vec<Accessor>, id: ComponentId)
        ensures
            final(accessors)@ == old(accessors)@.push(Self::declared(id)),
    ;
}

impl<C: Component> QueryParam for Ref<C> {
    type Item = C;

    open spec fn wrapped(value: C, id: ComponentId, index: PackageIndex) -> Self {
        Ref(value)
    }

    open spec fn declared(id: ComponentId) -> Accessor {
        Accessor::Ref(id)
    }

    fn wrap(value: C, id: ComponentId, index: PackageIndex) -> (param: Self) {
        Ref(value)
    }

    fn accessors(accessors: &mut Vec<Accessor>, id: ComponentId) {
        accessors.push(Accessor::Ref(id));
    }
}

impl<C: Component> QueryParam for Mut<C> {
    type Item = C;

    open spec fn wrapped(value: C, id: ComponentId, index: PackageIndex) -> Self {
        Mut { value, id, index }
    }

    open spec fn declared(id: ComponentId) -> Accessor {
        Accessor::Mut(id)
    }

    fn wrap(value: C, id: ComponentId, index: PackageIndex) -> (param: Self) {
        Mut { value, id, index }
    }

    fn accessors(accessors: &mut Vec<Accessor>, id: ComponentId) {
        accessors.push(Accessor::Mut(id));
    }
}

/// The message of a query for a component type that was not declared.
pub open spec fn undeclared_component_message(name: Seq<char>) -> Seq<char> {
    "Tried to collect accessors for undeclared Component "@ + name + " in a Query!"@
}

/// Builds the message of a query for a component type that was not declared.
pub fn undeclared_component(name: &str) -> (message: String)
    ensures
        message@ == undeclared_component_message(name@),
{
    let mut message = String::from_str("Tried to collect accessors for undeclared Component ");
    message.append(name);
    message.append(" in a Query!");
    message
}

/// Declares the access of one component of a query, behind the accesses
/// already listed, and lists the component's number. Fails, and lists
/// nothing, for the number that stands for "not declared".
pub fn declare<T: QueryParam>(
    a: &mut Vec<Accessor>,
    ids: &mut Vec<ComponentId>,
    id: ComponentId,
    name: &str,
) -> (outcome: Trace<()>)
    ensures
        if id != UNDECLARED {
            &&& outcome is Pass
            &&& final(a)@ == old(a)@.push(T::declared(id))
            &&& final(ids)@ == old(ids)@.push(id)
        } else {
            &&& outcome matches Trace::Fail(message)
            &&& message@ == undeclared_component_message(name@)
            &&& final(a)@ == old(a)@
            &&& final(ids)@ == old(ids)@
        },
{
    if id == UNDECLARED {
        return Trace::Fail(undeclared_component(name));
    }
    T::accessors(a, id);
    ids.push(id);
    Trace::Pass(())
}

/// A tuple of query parameters: what a query over it yields, and how the
/// query is made and declared.
pub trait IntoQuery<'a>: Sized {
    /// The iterator of the query.
    type Item;

    /// Makes the query: finds the tables registered for its components and
    /// puts a cursor on each of its components, and one on the addresses.
    fn into_query(world: &'a World) -> (query: Trace<Self::Item>)
        requires
            world.wf(),
    ;

    /// Declares the accesses of the query and registers it with the world.
    fn accessors(a: &mut Vec<Accessor>, world: &mut World) -> (outcome: Trace<()>)
        requires
            old(world).wf(),
        ensures
            final(world).wf(),
    ;
}

/// A query as a parameter of a system.
pub struct Query<'a, Q: IntoQuery<'a>> {
    pub rows: Q::Item,
}

impl<'a, Q: IntoQuery<'a>> Fetch<'a> for Query<'a, Q> {
    fn fetch(world: &'a World) -> (fetched: Trace<Self>)
        ensures
            match fetched {
                Trace::Pass(query) => call_ensures(
                    Q::into_query,
                    (world,),
                    Trace::Pass(query.rows),
                ),
                Trace::Fail(trace) => call_ensures(
                    Q::into_query,
                    (world,),
                    Trace::<Q::Item>::Fail(trace),
                ),
            },
    {
        match Q::into_query(world) {
            Trace::Pass(rows) => Trace::Pass(Query { rows }),
            Trace::Fail(trace) => Trace::Fail(trace),
        }
    }

    fn access(v: &mut Vec<Accessor>, world: &mut World) -> (outcome: Trace<()>)
        ensures
            exists|a: &mut Vec<Accessor>, w: &mut World|
                *a == *old(v) && *final(a) == *final(v) && *w == *old(world)
                    && *final(w) == *final(world)
                    && #[trigger] call_ensures(Q::accessors, (a, w), outcome),
    {
        Q::accessors(v, world)
    }
}

/// What the registration of a query for the listed components does to the
/// registry: a new query is stored under the fingerprint of the components,
/// with the components in ascending order and without tables; a query that
/// is registered already must be for the same components.
pub open spec fn registered(
    before: ArchetypesView,
    after: ArchetypesView,
    ids: Seq<ComponentId>,
    outcome: Trace<()>,
) -> bool {
    let key = fingerprint(ids);
    let at = slot_of(keys_of(before.cache), key);
    &&& after.index == before.index
    &&& after.queue == before.queue
    &&& after.tables == before.tables
    &&& if !has_key(keys_of(before.cache), key) {
        &&& outcome is Pass
        &&& after.cache == before.cache.insert(
            at,
            (key, QueryView { ids: sorted_ids(ids), indices: Seq::empty() }),
        )
    } else if before.cache[at].1.ids == sorted_ids(ids) {
        &&& outcome is Pass
        &&& after.cache == before.cache
    } else {
        &&& outcome matches Trace::Fail(message)
        &&& message@ == collision_message()
        &&& after.cache == before.cache
    }
}

/// The rows of a query over 1 component: for each row, the value of
/// the component and the address of the row.
pub struct Query1<'a, T1: QueryParam> {
    t1: AnonIterChain<'a>,
    p: PackageIndexChain,
    marker: PhantomData<(T1,)>,
}

impl<'a, T1: QueryParam> Query1<'a, T1> {
    /// The query's invariant: its cursors are valid and advance in lockstep.
    pub closed spec fn wf(&self) -> bool {
        &&& self.t1.wf()
        &&& self.t1.remaining().len() == self.p.remaining().len()
    }

    /// The stored values of the first component that the query has yet to
    /// yield.
    pub closed spec fn values1(&self) -> Seq<AnonView> {
        self.t1.remaining()
    }

    /// The addresses of the rows that the query has yet to yield.
    pub closed spec fn addresses(&self) -> Seq<PackageIndex> {
        self.p.remaining()
    }

    /// A valid query has as many values of each component left as addresses.
    pub proof fn lemma_lockstep(&self)
        requires
            self.wf(),
        ensures
            self.values1().len() == self.addresses().len(),
    {
    }

    /// The next row as it is stored, or `None` when every row has been
    /// yielded.
    pub fn next_raw(&mut self) -> (row: Option<(Anon, PackageIndex)>)
        requires
            old(self).wf(),
        ensures
            final(self).wf(),
            match row {
                Some(row) => {
                    &&& old(self).addresses().len() > 0
                    &&& old(self).values1().len() > 0
                    &&& row.1 == old(self).addresses()[0]
                    &&& final(self).addresses() == old(self).addresses().drop_first()
                    &&& row.0@ == old(self).values1()[0]
                    &&& final(self).values1() == old(self).values1().drop_first()
                },
                None => old(self).addresses().len() == 0,
            },
    {
        let v1 = self.t1.next();
        let at = self.p.next();
        match (v1, at) {
            (Some(a1), Some(index)) => Some((a1, index)),
            _ => None,
        }
    }

    /// The next row, or `None` when every row has been yielded: what
    /// `next_raw` yields, with each stored value as the component type makes
    /// it of its bytes, wrapped in the parameter that was asked for.
    pub fn next(&mut self) -> (row: Option<(T1, PackageIndex)>)
        requires
            old(self).wf(),
        ensures
            final(self).wf(),
            match row {
                Some(row) => {
                    &&& old(self).addresses().len() > 0
                    &&& old(self).values1().len() > 0
                    &&& row.1 == old(self).addresses()[0]
                    &&& final(self).addresses() == old(self).addresses().drop_first()
                    &&& final(self).values1() == old(self).values1().drop_first()
                    &&& exists|value: T1::Item| #[trigger]
                        decoded::<T1::Item>(old(self).values1()[0].bytes, value)
                            && row.0 == T1::wrapped(
                            value,
                            old(self).values1()[0].id,
                            row.1,
                        )
                },
                None => old(self).addresses().len() == 0,
            },
    {
        match self.next_raw() {
            Some((a1, index)) => {
                let value1 = a1.downcast::<T1::Item>();
                let param1 = T1::wrap(value1, a1.id(), index);
                Some((param1, index))
            },
            None => None,
        }
    }

    /// What a query over the component of the given number is: a failure if no
    /// query is registered for it, or if the registered query is for other
    /// components; otherwise a valid query over the tables that the registered
    /// query lists.
    pub open spec fn made_over(world: &'a World, id1: ComponentId, query: Trace<Self>) -> bool {
        let ids = seq![id1];
        let cache = world.archetypes@.cache;
        let entry = cache[slot_of(keys_of(cache), fingerprint(ids))].1;
        if !has_key(keys_of(cache), fingerprint(ids)) {
            query matches Trace::Fail(message) && message@ == unknown_query_message()
        } else if entry.ids != sorted_ids(ids) {
            query matches Trace::Fail(message) && message@ == collision_message()
        } else {
            &&& query matches Trace::Pass(rows)
            &&& rows.wf()
            &&& rows.addresses() == addresses(world.archetypes@.tables, entry.indices)
            &&& rows.values1() == gathered(world.archetypes@.tables, id1, entry.indices)
        }
    }

    /// A query over the rows that have the component of the given
    /// number: the tables are those that the registered query for this component
    /// lists, the table listed last first. Fails if no such query is
    /// registered, or if the registered query is for other components.
    pub fn over(world: &'a World, id1: ComponentId) -> (query: Trace<Query1<'a, T1>>)
        requires
            world.wf(),
        ensures
            Self::made_over(world, id1, query),
    {
        let mut ids: Vec<ComponentId> = Vec::new();
        ids.push(id1);
        match world.archetypes.matching(&ids) {
            Trace::Fail(trace) => Trace::Fail(trace),
            Trace::Pass(indices) => {
                let ghost listed = indices_of(*indices);
                proof {
                    world.archetypes.lemma_tables(listed);
                }
                proof {
                    assert(listed_tables_store(world.archetypes@.tables, id1, listed)) by {
                        assert forall|k: int| 0 <= k < listed.len() implies {
                            &&& (#[trigger] listed[k]) < world.archetypes@.tables.len()
                            &&& world.archetypes@.tables[listed[k] as int].len > 0
                                ==> crate::table::column_from(
                                world.archetypes@.tables[listed[k] as int].columns,
                                id1,
                                0,
                            ) < world.archetypes@.tables[listed[k] as int].columns.len()
                        } by {
                            lemma_listed_has_column(
                                world.archetypes@.tables[listed[k] as int].columns,
                                id1,
                            );
                        }
                    }
                    lemma_lockstep(world.archetypes@.tables, id1, listed);
                }
                let t1 = world.archetypes.collect(id1, indices);
                let p = world.archetypes.collect_indices(indices);
                Trace::Pass(Query1 { t1, p, marker: PhantomData })
            },
        }
    }

    /// What the declaration of a query over the component of the given
    /// number and name does to the list of accesses and to the registry.
    pub open spec fn declared_as(
        before: Seq<Accessor>,
        after: Seq<Accessor>,
        registry: ArchetypesView,
        changed: ArchetypesView,
        id1: ComponentId,
        name1: Seq<char>,
        outcome: Trace<()>,
    ) -> bool {
        if id1 != UNDECLARED {
            after == before.push(T1::declared(id1)) && registered(
                registry,
                changed,
                seq![id1],
                outcome,
            )
        } else {
            &&& outcome matches Trace::Fail(message)
            &&& message@ == undeclared_component_message(name1)
            &&& after == before
            &&& changed == registry
        }
    }

    /// Declares the access of the query, in the order of its components, and
    /// registers the query with the world. Stops at the first component whose
    /// number stands for "not declared", and fails with its name.
    pub fn register(
        a: &mut Vec<Accessor>,
        world: &mut World,
        id1: ComponentId,
        name1: &str,
    ) -> (outcome: Trace<()>)
        requires
            old(world).wf(),
        ensures
            final(world).wf(),
            final(world).components == old(world).components,
            final(world).resources == old(world).resources,
            Self::declared_as(
                old(a)@,
                final(a)@,
                old(world).archetypes@,
                final(world).archetypes@,
                id1,
                name1@,
                outcome,
            ),
    {
        let mut ids: Vec<ComponentId> = Vec::new();
        if let Trace::Fail(trace) = declare::<T1>(a, &mut ids, id1, name1) {
            return Trace::Fail(trace);
        }
        let key = query_key(&ids);
        world.archetypes.load_query(key, ids)
    }
}

impl<'a, T1: QueryParam> IntoQuery<'a> for (T1,) {
    type Item = Query1<'a, T1>;

    fn into_query(world: &'a World) -> (query: Trace<Self::Item>)
        ensures
            query matches Trace::Pass(rows) ==> rows.wf(),
            exists|name1: Seq<char>|
                #![trigger named::<T1::Item>(name1)]
                named::<T1::Item>(name1)
                    && Query1::<'a, T1>::made_over(world, world.components.id(name1), query),
    {
        let id1 = world.component::<T1::Item>();
        let query = Query1::over(world, id1);
        proof {
            let name1 = choose|name: Seq<char>|
                #[trigger] named::<T1::Item>(name) && id1 == world.components.id(name);
            assert(named::<T1::Item>(name1));
        }
        query
    }

    fn accessors(a: &mut Vec<Accessor>, world: &mut World) -> (outcome: Trace<()>)
        ensures
            final(world).components == old(world).components,
            final(world).resources == old(world).resources,
            final(world).archetypes@.index == old(world).archetypes@.index,
            final(world).archetypes@.queue == old(world).archetypes@.queue,
            final(world).archetypes@.tables == old(world).archetypes@.tables,
            exists|name1: Seq<char>|
                #![trigger named::<T1::Item>(name1)]
                named::<T1::Item>(name1)
                    && Query1::<'a, T1>::declared_as(
                    old(a)@,
                    final(a)@,
                    old(world).archetypes@,
                    final(world).archetypes@,
                    old(world).components.id(name1),
                    name1,
                    outcome,
                ),
    {
        let name1 = T1::Item::name();
        assert(named::<T1::Item>(name1@));
        let id1 = world.components.id_of(name1);
        Query1::<T1>::register(a, world, id1, name1)
    }
}

/// The rows of a query over 2 components: for each row, the value of
/// each component and the address of the row.
pub struct Query2<'a, T1: QueryParam, T2: QueryParam> {
    t1: AnonIterChain<'a>,
    t2: AnonIterChain<'a>,
    p: PackageIndexChain,
    marker: PhantomData<(T1, T2)>,
}

impl<'a, T1: QueryParam, T2: QueryParam> Query2<'a, T1, T2> {
    /// The query's invariant: its cursors are valid and advance in lockstep.
    pub closed spec fn wf(&self) -> bool {
        &&& self.t1.wf()
        &&& self.t1.remaining().len() == self.p.remaining().len()
        &&& self.t2.wf()
        &&& self.t2.remaining().len() == self.p.remaining().len()
    }

    /// The stored values of the first component that the query has yet to
    /// yield.
    pub closed spec fn values1(&self) -> Seq<AnonView> {
        self.t1.remaining()
    }

    /// The stored values of the second component that the query has yet to
    /// yield.
    pub closed spec fn values2(&self) -> Seq<AnonView> {
        self.t2.remaining()
    }

    /// The addresses of the rows that the query has yet to yield.
    pub closed spec fn addresses(&self) -> Seq<PackageIndex> {
        self.p.remaining()
    }

    /// A valid query has as many values of each component left as addresses.
    pub proof fn lemma_lockstep(&self)
        requires
            self.wf(),
        ensures
            self.values1().len() == self.addresses().len(),
            self.values2().len() == self.addresses().len(),
    {
    }

    /// The next row as it is stored, or `None` when every row has been
    /// yielded.
    pub fn next_raw(&mut self) -> (row: Option<(Anon, Anon, PackageIndex)>)
        requires
            old(self).wf(),
        ensures
            final(self).wf(),
            match row {
                Some(row) => {
                    &&& old(self).addresses().len() > 0
                    &&& old(self).values1().len() > 0
                    &&& old(self).values2().len() > 0
                    &&& row.2 == old(self).addresses()[0]
                    &&& final(self).addresses() == old(self).addresses().drop_first()
                    &&& row.0@ == old(self).values1()[0]
                    &&& final(self).values1() == old(self).values1().drop_first()
                    &&& row.1@ == old(self).values2()[0]
                    &&& final(self).values2() == old(self).values2().drop_first()
                },
                None => old(self).addresses().len() == 0,
            },
    {
        let v1 = self.t1.next();
        let v2 = self.t2.next();
        let at = self.p.next();
        match (v1, v2, at) {
            (Some(a1), Some(a2), Some(index)) => Some((a1, a2, index)),
            _ => None,
        }
    }

    /// The next row, or `None` when every row has been yielded: what
    /// `next_raw` yields, with each stored value as the component type makes
    /// it of its bytes, wrapped in the parameter that was asked for.
    pub fn next(&mut self) -> (row: Option<(T1, T2, PackageIndex)>)
        requires
            old(self).wf(),
        ensures
            final(self).wf(),
            match row {
                Some(row) => {
                    &&& old(self).addresses().len() > 0
                    &&& old(self).values1().len() > 0
                    &&& old(self).values2().len() > 0
                    &&& row.2 == old(self).addresses()[0]
                    &&& final(self).addresses() == old(self).addresses().drop_first()
                    &&& final(self).values1() == old(self).values1().drop_first()
                    &&& exists|value: T1::Item| #[trigger]
                        decoded::<T1::Item>(old(self).values1()[0].bytes, value)
                            && row.0 == T1::wrapped(
                            value,
                            old(self).values1()[0].id,
                            row.2,
                        )
                    &&& final(self).values2() == old(self).values2().drop_first()
                    &&& exists|value: T2::Item| #[trigger]
                        decoded::<T2::Item>(old(self).values2()[0].bytes, value)
                            && row.1 == T2::wrapped(
                            value,
                            old(self).values2()[0].id,
                            row.2,
                        )
                },
                None => old(self).addresses().len() == 0,
            },
    {
        match self.next_raw() {
            Some((a1, a2, index)) => {
                let value1 = a1.downcast::<T1::Item>();
                let param1 = T1::wrap(value1, a1.id(), index);
                let value2 = a2.downcast::<T2::Item>();
                let param2 = T2::wrap(value2, a2.id(), index);
                Some((param1, param2, index))
            },
            None => None,
        }
    }

    /// What a query over the components of the given numbers is: a failure if no
    /// query is registered for them, or if the registered query is for other
    /// components; otherwise a valid query over the tables that the registered
    /// query lists.
    pub open spec fn made_over(
        world: &'a World,
        id1: ComponentId,
        id2: ComponentId,
        query: Trace<Self>,
    ) -> bool {
        let ids = seq![id1, id2];
        let cache = world.archetypes@.cache;
        let entry = cache[slot_of(keys_of(cache), fingerprint(ids))].1;
        if !has_key(keys_of(cache), fingerprint(ids)) {
            query matches Trace::Fail(message) && message@ == unknown_query_message()
        } else if entry.ids != sorted_ids(ids) {
            query matches Trace::Fail(message) && message@ == collision_message()
        } else {
            &&& query matches Trace::Pass(rows)
            &&& rows.wf()
            &&& rows.addresses() == addresses(world.archetypes@.tables, entry.indices)
            &&& rows.values1() == gathered(world.archetypes@.tables, id1, entry.indices)
            &&& rows.values2() == gathered(world.archetypes@.tables, id2, entry.indices)
        }
    }

    /// A query over the rows that have the components of the given
    /// numbers: the tables are those that the registered query for these components
    /// lists, the table listed last first. Fails if no such query is
    /// registered, or if the registered query is for other components.
    pub fn over(
        world: &'a World,
        id1: ComponentId,
        id2: ComponentId,
    ) -> (query: Trace<Query2<'a, T1, T2>>)
        requires
            world.wf(),
        ensures
            Self::made_over(world, id1, id2, query),
    {
        let mut ids: Vec<ComponentId> = Vec::new();
        ids.push(id1);
        ids.push(id2);
        assert(ids@ =~= seq![id1, id2]);
        match world.archetypes.matching(&ids) {
            Trace::Fail(trace) => Trace::Fail(trace),
            Trace::Pass(indices) => {
                let ghost listed = indices_of(*indices);
                proof {
                    world.archetypes.lemma_tables(listed);
                }
                proof {
                    assert(listed_tables_store(world.archetypes@.tables, id1, listed)) by {
                        assert forall|k: int| 0 <= k < listed.len() implies {
                            &&& (#[trigger] listed[k]) < world.archetypes@.tables.len()
                            &&& world.archetypes@.tables[listed[k] as int].len > 0
                                ==> crate::table::column_from(
                                world.archetypes@.tables[listed[k] as int].columns,
                                id1,
                                0,
                            ) < world.archetypes@.tables[listed[k] as int].columns.len()
                        } by {
                            lemma_listed_has_column(
                                world.archetypes@.tables[listed[k] as int].columns,
                                id1,
                            );
                        }
                    }
                    lemma_lockstep(world.archetypes@.tables, id1, listed);
                }
                let t1 = world.archetypes.collect(id1, indices);
                proof {
                    assert(listed_tables_store(world.archetypes@.tables, id2, listed)) by {
                        assert forall|k: int| 0 <= k < listed.len() implies {
                            &&& (#[trigger] listed[k]) < world.archetypes@.tables.len()
                            &&& world.archetypes@.tables[listed[k] as int].len > 0
                                ==> crate::table::column_from(
                                world.archetypes@.tables[listed[k] as int].columns,
                                id2,
                                0,
                            ) < world.archetypes@.tables[listed[k] as int].columns.len()
                        } by {
                            lemma_listed_has_column(
                                world.archetypes@.tables[listed[k] as int].columns,
                                id2,
                            );
                        }
                    }
                    lemma_lockstep(world.archetypes@.tables, id2, listed);
                }
                let t2 = world.archetypes.collect(id2, indices);
                let p = world.archetypes.collect_indices(indices);
                Trace::Pass(Query2 { t1, t2, p, marker: PhantomData })
            },
        }
    }

    /// What the declaration of a query over the components of the given
    /// numbers and names does to the list of accesses and to the registry.
    pub open spec fn declared_as(
        before: Seq<Accessor>,
        after: Seq<Accessor>,
        registry: ArchetypesView,
        changed: ArchetypesView,
        id1: ComponentId,
        id2: ComponentId,
        name1: Seq<char>,
        name2: Seq<char>,
        outcome: Trace<()>,
    ) -> bool {
        if id1 != UNDECLARED {
            if id2 != UNDECLARED {
                after == before.push(T1::declared(id1)).push(T2::declared(id2)) && registered(
                    registry,
                    changed,
                    seq![id1, id2],
                    outcome,
                )
            } else {
                &&& outcome matches Trace::Fail(message)
                &&& message@ == undeclared_component_message(name2)
                &&& after == before.push(T1::declared(id1))
                &&& changed == registry
            }
        } else {
            &&& outcome matches Trace::Fail(message)
            &&& message@ == undeclared_component_message(name1)
            &&& after == before
            &&& changed == registry
        }
    }

    /// Declares the accesses of the query, in the order of its components, and
    /// registers the query with the world. Stops at the first component whose
    /// number stands for "not declared", and fails with its name.
    pub fn register(
        a: &mut Vec<Accessor>,
        world: &mut World,
        id1: ComponentId,
        id2: ComponentId,
        name1: &str,
        name2: &str,
    ) -> (outcome: Trace<()>)
        requires
            old(world).wf(),
        ensures
            final(world).wf(),
            final(world).components == old(world).components,
            final(world).resources == old(world).resources,
            Self::declared_as(
                old(a)@,
                final(a)@,
                old(world).archetypes@,
                final(world).archetypes@,
                id1,
                id2,
                name1@,
                name2@,
                outcome,
            ),
    {
        let mut ids: Vec<ComponentId> = Vec::new();
        if let Trace::Fail(trace) = declare::<T1>(a, &mut ids, id1, name1) {
            return Trace::Fail(trace);
        }
        if let Trace::Fail(trace) = declare::<T2>(a, &mut ids, id2, name2) {
            return Trace::Fail(trace);
        }
        assert(ids@ =~= seq![id1, id2]);
        let key = query_key(&ids);
        world.archetypes.load_query(key, ids)
    }
}

impl<'a, T1: QueryParam, T2: QueryParam> IntoQuery<'a> for (T1, T2) {
    type Item = Query2<'a, T1, T2>;

    fn into_query(world: &'a World) -> (query: Trace<Self::Item>)
        ensures
            query matches Trace::Pass(rows) ==> rows.wf(),
            exists|name1: Seq<char>, name2: Seq<char>|
                #![trigger named::<T1::Item>(name1), named::<T2::Item>(name2)]
                named::<T1::Item>(name1)
                    && named::<T2::Item>(name2)
                    && Query2::<'a, T1, T2>::made_over(
                        world,
                        world.components.id(name1),
                        world.components.id(name2),
                        query,
                    ),
    {
        let id1 = world.component::<T1::Item>();
        let id2 = world.component::<T2::Item>();
        let query = Query2::over(world, id1, id2);
        proof {
            let name1 = choose|name: Seq<char>|
                #[trigger] named::<T1::Item>(name) && id1 == world.components.id(name);
            let name2 = choose|name: Seq<char>|
                #[trigger] named::<T2::Item>(name) && id2 == world.components.id(name);
            assert(named::<T1::Item>(name1) && named::<T2::Item>(name2));
        }
        query
    }

    fn accessors(a: &mut Vec<Accessor>, world: &mut World) -> (outcome: Trace<()>)
        ensures
            final(world).components == old(world).components,
            final(world).resources == old(world).resources,
            final(world).archetypes@.index == old(world).archetypes@.index,
            final(world).archetypes@.queue == old(world).archetypes@.queue,
            final(world).archetypes@.tables == old(world).archetypes@.tables,
            exists|name1: Seq<char>, name2: Seq<char>|
                #![trigger named::<T1::Item>(name1), named::<T2::Item>(name2)]
                named::<T1::Item>(name1)
                    && named::<T2::Item>(name2)
                    && Query2::<'a, T1, T2>::declared_as(
                    old(a)@,
                    final(a)@,
                    old(world).archetypes@,
                    final(world).archetypes@,
                    old(world).components.id(name1),
                    old(world).components.id(name2),
                    name1,
                    name2,
                    outcome,
                ),
    {
        let name1 = T1::Item::name();
        assert(named::<T1::Item>(name1@));
        let id1 = world.components.id_of(name1);
        let name2 = T2::Item::name();
        assert(named::<T2::Item>(name2@));
        let id2 = world.components.id_of(name2);
        Query2::<T1, T2>::register(a, world, id1, id2, name1, name2)
    }
}

/// The rows of a query over 3 components: for each row, the value of
/// each component and the address of the row.
pub struct Query3<'a, T1: QueryParam, T2: QueryParam, T3: QueryParam> {
    t1: AnonIterChain<'a>,
    t2: AnonIterChain<'a>,
    t3: AnonIterChain<'a>,
    p: PackageIndexChain,
    marker: PhantomData<(T1, T2, T3)>,
}

impl<'a, T1: QueryParam, T2: QueryParam, T3: QueryParam> Query3<'a, T1, T2, T3> {
    /// The query's invariant: its cursors are valid and advance in lockstep.
    pub closed spec fn wf(&self) -> bool {
        &&& self.t1.wf()
        &&& self.t1.remaining().len() == self.p.remaining().len()
        &&& self.t2.wf()
        &&& self.t2.remaining().len() == self.p.remaining().len()
        &&& self.t3.wf()
        &&& self.t3.remaining().len() == self.p.remaining().len()
    }

    /// The stored values of the first component that the query has yet to
    /// yield.
    pub closed spec fn values1(&self) -> Seq<AnonView> {
        self.t1.remaining()
    }

    /// The stored values of the second component that the query has yet to
    /// yield.
    pub closed spec fn values2(&self) -> Seq<AnonView> {
        self.t2.remaining()
    }

    /// The stored values of the third component that the query has yet to
    /// yield.
    pub closed spec fn values3(&self) -> Seq<AnonView> {
        self.t3.remaining()
    }

    /// The addresses of the rows that the query has yet to yield.
    pub closed spec fn addresses(&self) -> Seq<PackageIndex> {
        self.p.remaining()
    }

    /// A valid query has as many values of each component left as addresses.
    pub proof fn lemma_lockstep(&self)
        requires
            self.wf(),
        ensures
            self.values1().len() == self.addresses().len(),
            self.values2().len() == self.addresses().len(),
            self.values3().len() == self.addresses().len(),
    {
    }

    /// The next row as it is stored, or `None` when every row has been
    /// yielded.
    pub fn next_raw(&mut self) -> (row: Option<(Anon, Anon, Anon, PackageIndex)>)
        requires
            old(self).wf(),
        ensures
            final(self).wf(),
            match row {
                Some(row) => {
                    &&& old(self).addresses().len() > 0
                    &&& old(self).values1().len() > 0
                    &&& old(self).values2().len() > 0
                    &&& old(self).values3().len() > 0
                    &&& row.3 == old(self).addresses()[0]
                    &&& final(self).addresses() == old(self).addresses().drop_first()
                    &&& row.0@ == old(self).values1()[0]
                    &&& final(self).values1() == old(self).values1().drop_first()
                    &&& row.1@ == old(self).values2()[0]
                    &&& final(self).values2() == old(self).values2().drop_first()
                    &&& row.2@ == old(self).values3()[0]
                    &&& final(self).values3() == old(self).values3().drop_first()
                },
                None => old(self).addresses().len() == 0,
            },
    {
        let v1 = self.t1.next();
        let v2 = self.t2.next();
        let v3 = self.t3.next();
        let at = self.p.next();
        match (v1, v2, v3, at) {
            (Some(a1), Some(a2), Some(a3), Some(index)) => Some((a1, a2, a3, index)),
            _ => None,
        }
    }

    /// The next row, or `None` when every row has been yielded: what
    /// `next_raw` yields, with each stored value as the component type makes
    /// it of its bytes, wrapped in the parameter that was asked for.
    pub fn next(&mut self) -> (row: Option<(T1, T2, T3, PackageIndex)>)
        requires
            old(self).wf(),
        ensures
            final(self).wf(),
            match row {
                Some(row) => {
                    &&& old(self).addresses().len() > 0
                    &&& old(self).values1().len() > 0
                    &&& old(self).values2().len() > 0
                    &&& old(self).values3().len() > 0
                    &&& row.3 == old(self).addresses()[0]
                    &&& final(self).addresses() == old(self).addresses().drop_first()
                    &&& final(self).values1() == old(self).values1().drop_first()
                    &&& exists|value: T1::Item| #[trigger]
                        decoded::<T1::Item>(old(self).values1()[0].bytes, value)
                            && row.0 == T1::wrapped(
                            value,
                            old(self).values1()[0].id,
                            row.3,
                        )
                    &&& final(self).values2() == old(self).values2().drop_first()
                    &&& exists|value: T2::Item| #[trigger]
                        decoded::<T2::Item>(old(self).values2()[0].bytes, value)
                            && row.1 == T2::wrapped(
                            value,
                            old(self).values2()[0].id,
                            row.3,
                        )
                    &&& final(self).values3() == old(self).values3().drop_first()
                    &&& exists|value: T3::Item| #[trigger]
                        decoded::<T3::Item>(old(self).values3()[0].bytes, value)
                            && row.2 == T3::wrapped(
                            value,
                            old(self).values3()[0].id,
                            row.3,
                        )
                },
                None => old(self).addresses().len() == 0,
            },
    {
        match self.next_raw() {
            Some((a1, a2, a3, index)) => {
                let value1 = a1.downcast::<T1::Item>();
                let param1 = T1::wrap(value1, a1.id(), index);
                let value2 = a2.downcast::<T2::Item>();
                let param2 = T2::wrap(value2, a2.id(), index);
                let value3 = a3.downcast::<T3::Item>();
                let param3 = T3::wrap(value3, a3.id(), index);
                Some((param1, param2, param3, index))
            },
            None => None,
        }
    }

    /// What a query over the components of the given numbers is: a failure if no
    /// query is registered for them, or if the registered query is for other
    /// components; otherwise a valid query over the tables that the registered
    /// query lists.
    pub open spec fn made_over(
        world: &'a World,
        id1: ComponentId,
        id2: ComponentId,
        id3: ComponentId,
        query: Trace<Self>,
    ) -> bool {
        let ids = seq![id1, id2, id3];
        let cache = world.archetypes@.cache;
        let entry = cache[slot_of(keys_of(cache), fingerprint(ids))].1;
        if !has_key(keys_of(cache), fingerprint(ids)) {
            query matches Trace::Fail(message) && message@ == unknown_query_message()
        } else if entry.ids != sorted_ids(ids) {
            query matches Trace::Fail(message) && message@ == collision_message()
        } else {
            &&& query matches Trace::Pass(rows)
            &&& rows.wf()
            &&& rows.addresses() == addresses(world.archetypes@.tables, entry.indices)
            &&& rows.values1() == gathered(world.archetypes@.tables, id1, entry.indices)
            &&& rows.values2() == gathered(world.archetypes@.tables, id2, entry.indices)
            &&& rows.values3() == gathered(world.archetypes@.tables, id3, entry.indices)
        }
    }

    /// A query over the rows that have the components of the given
    /// numbers: the tables are those that the registered query for these components
    /// lists, the table listed last first. Fails if no such query is
    /// registered, or if the registered query is for other components.
    pub fn over(
        world: &'a World,
        id1: ComponentId,
        id2: ComponentId,
        id3: ComponentId,
    ) -> (query: Trace<Query3<'a, T1, T2, T3>>)
        requires
            world.wf(),
        ensures
            Self::made_over(world, id1, id2, id3, query),
    {
        let mut ids: Vec<ComponentId> = Vec::new();
        ids.push(id1);
        ids.push(id2);
        ids.push(id3);
        assert(ids@ =~= seq![id1, id2, id3]);
        match world.archetypes.matching(&ids) {
            Trace::Fail(trace) => Trace::Fail(trace),
            Trace::Pass(indices) => {
                let ghost listed = indices_of(*indices);
                proof {
                    world.archetypes.lemma_tables(listed);
                }
                proof {
                    assert(listed_tables_store(world.archetypes@.tables, id1, listed)) by {
                        assert forall|k: int| 0 <= k < listed.len() implies {
                            &&& (#[trigger] listed[k]) < world.archetypes@.tables.len()
                            &&& world.archetypes@.tables[listed[k] as int].len > 0
                                ==> crate::table::column_from(
                                world.archetypes@.tables[listed[k] as int].columns,
                                id1,
                                0,
                            ) < world.archetypes@.tables[listed[k] as int].columns.len()
                        } by {
                            lemma_listed_has_column(
                                world.archetypes@.tables[listed[k] as int].columns,
                                id1,
                            );
                        }
                    }
                    lemma_lockstep(world.archetypes@.tables, id1, listed);
                }
                let t1 = world.archetypes.collect(id1, indices);
                proof {
                    assert(listed_tables_store(world.archetypes@.tables, id2, listed)) by {
                        assert forall|k: int| 0 <= k < listed.len() implies {
                            &&& (#[trigger] listed[k]) < world.archetypes@.tables.len()
                            &&& world.archetypes@.tables[listed[k] as int].len > 0
                                ==> crate::table::column_from(
                                world.archetypes@.tables[listed[k] as int].columns,
                                id2,
                                0,
                            ) < world.archetypes@.tables[listed[k] as int].columns.len()
                        } by {
                            lemma_listed_has_column(
                                world.archetypes@.tables[listed[k] as int].columns,
                                id2,
                            );
                        }
                    }
                    lemma_lockstep(world.archetypes@.tables, id2, listed);
                }
                let t2 = world.archetypes.collect(id2, indices);
                proof {
                    assert(listed_tables_store(world.archetypes@.tables, id3, listed)) by {
                        assert forall|k: int| 0 <= k < listed.len() implies {
                            &&& (#[trigger] listed[k]) < world.archetypes@.tables.len()
                            &&& world.archetypes@.tables[listed[k] as int].len > 0
                                ==> crate::table::column_from(
                                world.archetypes@.tables[listed[k] as int].columns,
                                id3,
                                0,
                            ) < world.archetypes@.tables[listed[k] as int].columns.len()
                        } by {
                            lemma_listed_has_column(
                                world.archetypes@.tables[listed[k] as int].columns,
                                id3,
                            );
                        }
                    }
                    lemma_lockstep(world.archetypes@.tables, id3, listed);
                }
                let t3 = world.archetypes.collect(id3, indices);
                let p = world.archetypes.collect_indices(indices);
                Trace::Pass(Query3 { t1, t2, t3, p, marker: PhantomData })
            },
        }
    }

    /// What the declaration of a query over the components of the given
    /// numbers and names does to the list of accesses and to the registry.
    pub open spec fn declared_as(
        before: Seq<Accessor>,
        after: Seq<Accessor>,
        registry: ArchetypesView,
        changed: ArchetypesView,
        id1: ComponentId,
        id2: ComponentId,
        id3: ComponentId,
        name1: Seq<char>,
        name2: Seq<char>,
        name3: Seq<char>,
        outcome: Trace<()>,
    ) -> bool {
        if id1 != UNDECLARED {
            if id2 != UNDECLARED {
                if id3 != UNDECLARED {
                    after == before
                    .push(T1::declared(id1))
                    .push(T2::declared(id2))
                    .push(T3::declared(id3)) && registered(
                        registry,
                        changed,
                        seq![id1, id2, id3],
                        outcome,
                    )
                } else {
                    &&& outcome matches Trace::Fail(message)
                    &&& message@ == undeclared_component_message(name3)
                    &&& after == before.push(T1::declared(id1)).push(T2::declared(id2))
                    &&& changed == registry
                }
            } else {
                &&& outcome matches Trace::Fail(message)
                &&& message@ == undeclared_component_message(name2)
                &&& after == before.push(T1::declared(id1))
                &&& changed == registry
            }
        } else {
            &&& outcome matches Trace::Fail(message)
            &&& message@ == undeclared_component_message(name1)
            &&& after == before
            &&& changed == registry
        }
    }

    /// Declares the accesses of the query, in the order of its components, and
    /// registers the query with the world. Stops at the first component whose
    /// number stands for "not declared", and fails with its name.
    pub fn register(
        a: &mut Vec<Accessor>,
        world: &mut World,
        id1: ComponentId,
        id2: ComponentId,
        id3: ComponentId,
        name1: &str,
        name2: &str,
        name3: &str,
    ) -> (outcome: Trace<()>)
        requires
            old(world).wf(),
        ensures
            final(world).wf(),
            final(world).components == old(world).components,
            final(world).resources == old(world).resources,
            Self::declared_as(
                old(a)@,
                final(a)@,
                old(world).archetypes@,
                final(world).archetypes@,
                id1,
                id2,
                id3,
                name1@,
                name2@,
                name3@,
                outcome,
            ),
    {
        let mut ids: Vec<ComponentId> = Vec::new();
        if let Trace::Fail(trace) = declare::<T1>(a, &mut ids, id1, name1) {
            return Trace::Fail(trace);
        }
        if let Trace::Fail(trace) = declare::<T2>(a, &mut ids, id2, name2) {
            return Trace::Fail(trace);
        }
        if let Trace::Fail(trace) = declare::<T3>(a, &mut ids, id3, name3) {
            return Trace::Fail(trace);
        }
        assert(ids@ =~= seq![id1, id2, id3]);
        let key = query_key(&ids);
        world.archetypes.load_query(key, ids)
    }
}

impl<'a, T1: QueryParam, T2: QueryParam, T3: QueryParam> IntoQuery<'a> for (T1, T2, T3) {
    type Item = Query3<'a, T1, T2, T3>;

    fn into_query(world: &'a World) -> (query: Trace<Self::Item>)
        ensures
            query matches Trace::Pass(rows) ==> rows.wf(),
            exists|name1: Seq<char>, name2: Seq<char>, name3: Seq<char>|
                #![trigger
                    named::<T1::Item>(name1),
                    named::<T2::Item>(name2),
                    named::<T3::Item>(name3)
                ]
                named::<T1::Item>(name1)
                    && named::<T2::Item>(name2)
                    && named::<T3::Item>(name3)
                    && Query3::<'a, T1, T2, T3>::made_over(
                        world,
                        world.components.id(name1),
                        world.components.id(name2),
                        world.components.id(name3),
                        query,
                    ),
    {
        let id1 = world.component::<T1::Item>();
        let id2 = world.component::<T2::Item>();
        let id3 = world.component::<T3::Item>();
        let query = Query3::over(world, id1, id2, id3);
        proof {
            let name1 = choose|name: Seq<char>|
                #[trigger] named::<T1::Item>(name) && id1 == world.components.id(name);
            let name2 = choose|name: Seq<char>|
                #[trigger] named::<T2::Item>(name) && id2 == world.components.id(name);
            let name3 = choose|name: Seq<char>|
                #[trigger] named::<T3::Item>(name) && id3 == world.components.id(name);
            assert(named::<T1::Item>(name1)
                && named::<T2::Item>(name2)
                && named::<T3::Item>(name3));
        }
        query
    }

    fn accessors(a: &mut Vec<Accessor>, world: &mut World) -> (outcome: Trace<()>)
        ensures
            final(world).components == old(world).components,
            final(world).resources == old(world).resources,
            final(world).archetypes@.index == old(world).archetypes@.index,
            final(world).archetypes@.queue == old(world).archetypes@.queue,
            final(world).archetypes@.tables == old(world).archetypes@.tables,
            exists|name1: Seq<char>, name2: Seq<char>, name3: Seq<char>|
                #![trigger
                    named::<T1::Item>(name1),
                    named::<T2::Item>(name2),
                    named::<T3::Item>(name3)
                ]
                named::<T1::Item>(name1)
                    && named::<T2::Item>(name2)
                    && named::<T3::Item>(name3)
                    && Query3::<'a, T1, T2, T3>::declared_as(
                    old(a)@,
                    final(a)@,
                    old(world).archetypes@,
                    final(world).archetypes@,
                    old(world).components.id(name1),
                    old(world).components.id(name2),
                    old(world).components.id(name3),
                    name1,
                    name2,
                    name3,
                    outcome,
                ),
    {
        let name1 = T1::Item::name();
        assert(named::<T1::Item>(name1@));
        let id1 = world.components.id_of(name1);
        let name2 = T2::Item::name();
        assert(named::<T2::Item>(name2@));
        let id2 = world.components.id_of(name2);
        let name3 = T3::Item::name();
        assert(named::<T3::Item>(name3@));
        let id3 = world.components.id_of(name3);
        Query3::<T1, T2, T3>::register(a, world, id1, id2, id3, name1, name2, name3)
    }
}

/// The rows of a query over 4 components: for each row, the value of
/// each component and the address of the row.
pub struct Query4<'a, T1: QueryParam, T2: QueryParam, T3: QueryParam, T4: QueryParam> {
    t1: AnonIterChain<'a>,
    t2: AnonIterChain<'a>,
    t3: AnonIterChain<'a>,
    t4: AnonIterChain<'a>,
    p: PackageIndexChain,
    marker: PhantomData<(T1, T2, T3, T4)>,
}

impl<'a, T1: QueryParam, T2: QueryParam, T3: QueryParam, T4: QueryParam> Query4<'a, T1, T2, T3, T4> {
    /// The query's invariant: its cursors are valid and advance in lockstep.
    pub closed spec fn wf(&self) -> bool {
        &&& self.t1.wf()
        &&& self.t1.remaining().len() == self.p.remaining().len()
        &&& self.t2.wf()
        &&& self.t2.remaining().len() == self.p.remaining().len()
        &&& self.t3.wf()
        &&& self.t3.remaining().len() == self.p.remaining().len()
        &&& self.t4.wf()
        &&& self.t4.remaining().len() == self.p.remaining().len()
    }

    /// The stored values of the first component that the query has yet to
    /// yield.
    pub closed spec fn values1(&self) -> Seq<AnonView> {
        self.t1.remaining()
    }

    /// The stored values of the second component that the query has yet to
    /// yield.
    pub closed spec fn values2(&self) -> Seq<AnonView> {
        self.t2.remaining()
    }

    /// The stored values of the third component that the query has yet to
    /// yield.
    pub closed spec fn values3(&self) -> Seq<AnonView> {
        self.t3.remaining()
    }

    /// The stored values of the fourth component that the query has yet to
    /// yield.
    pub closed spec fn values4(&self) -> Seq<AnonView> {
        self.t4.remaining()
    }

    /// The addresses of the rows that the query has yet to yield.
    pub closed spec fn addresses(&self) -> Seq<PackageIndex> {
        self.p.remaining()
    }

    /// A valid query has as many values of each component left as addresses.
    pub proof fn lemma_lockstep(&self)
        requires
            self.wf(),
        ensures
            self.values1().len() == self.addresses().len(),
            self.values2().len() == self.addresses().len(),
            self.values3().len() == self.addresses().len(),
            self.values4().len() == self.addresses().len(),
    {
    }

    /// The next row as it is stored, or `None` when every row has been
    /// yielded.
    pub fn next_raw(&mut self) -> (row: Option<(Anon, Anon, Anon, Anon, PackageIndex)>)
        requires
            old(self).wf(),
        ensures
            final(self).wf(),
            match row {
                Some(row) => {
                    &&& old(self).addresses().len() > 0
                    &&& old(self).values1().len() > 0
                    &&& old(self).values2().len() > 0
                    &&& old(self).values3().len() > 0
                    &&& old(self).values4().len() > 0
                    &&& row.4 == old(self).addresses()[0]
                    &&& final(self).addresses() == old(self).addresses().drop_first()
                    &&& row.0@ == old(self).values1()[0]
                    &&& final(self).values1() == old(self).values1().drop_first()
                    &&& row.1@ == old(self).values2()[0]
                    &&& final(self).values2() == old(self).values2().drop_first()
                    &&& row.2@ == old(self).values3()[0]
                    &&& final(self).values3() == old(self).values3().drop_first()
                    &&& row.3@ == old(self).values4()[0]
                    &&& final(self).values4() == old(self).values4().drop_first()
                },
                None => old(self).addresses().len() == 0,
            },
    {
        let v1 = self.t1.next();
        let v2 = self.t2.next();
        let v3 = self.t3.next();
        let v4 = self.t4.next();
        let at = self.p.next();
        match (v1, v2, v3, v4, at) {
            (Some(a1), Some(a2), Some(a3), Some(a4), Some(index)) => Some((a1, a2, a3, a4, index)),
            _ => None,
        }
    }

    /// The next row, or `None` when every row has been yielded: what
    /// `next_raw` yields, with each stored value as the component type makes
    /// it of its bytes, wrapped in the parameter that was asked for.
    pub fn next(&mut self) -> (row: Option<(T1, T2, T3, T4, PackageIndex)>)
        requires
            old(self).wf(),
        ensures
            final(self).wf(),
            match row {
                Some(row) => {
                    &&& old(self).addresses().len() > 0
                    &&& old(self).values1().len() > 0
                    &&& old(self).values2().len() > 0
                    &&& old(self).values3().len() > 0
                    &&& old(self).values4().len() > 0
                    &&& row.4 == old(self).addresses()[0]
                    &&& final(self).addresses() == old(self).addresses().drop_first()
                    &&& final(self).values1() == old(self).values1().drop_first()
                    &&& exists|value: T1::Item| #[trigger]
                        decoded::<T1::Item>(old(self).values1()[0].bytes, value)
                            && row.0 == T1::wrapped(
                            value,
                            old(self).values1()[0].id,
                            row.4,
                        )
                    &&& final(self).values2() == old(self).values2().drop_first()
                    &&& exists|value: T2::Item| #[trigger]
                        decoded::<T2::Item>(old(self).values2()[0].bytes, value)
                            && row.1 == T2::wrapped(
                            value,
                            old(self).values2()[0].id,
                            row.4,
                        )
                    &&& final(self).values3() == old(self).values3().drop_first()
                    &&& exists|value: T3::Item| #[trigger]
                        decoded::<T3::Item>(old(self).values3()[0].bytes, value)
                            && row.2 == T3::wrapped(
                            value,
                            old(self).values3()[0].id,
                            row.4,
                        )
                    &&& final(self).values4() == old(self).values4().drop_first()
                    &&& exists|value: T4::Item| #[trigger]
                        decoded::<T4::Item>(old(self).values4()[0].bytes, value)
                            && row.3 == T4::wrapped(
                            value,
                            old(self).values4()[0].id,
                            row.4,
                        )
                },
                None => old(self).addresses().len() == 0,
            },
    {
        match self.next_raw() {
            Some((a1, a2, a3, a4, index)) => {
                let value1 = a1.downcast::<T1::Item>();
                let param1 = T1::wrap(value1, a1.id(), index);
                let value2 = a2.downcast::<T2::Item>();
                let param2 = T2::wrap(value2, a2.id(), index);
                let value3 = a3.downcast::<T3::Item>();
                let param3 = T3::wrap(value3, a3.id(), index);
                let value4 = a4.downcast::<T4::Item>();
                let param4 = T4::wrap(value4, a4.id(), index);
                Some((param1, param2, param3, param4, index))
            },
            None => None,
        }
    }

    /// What a query over the components of the given numbers is: a failure if no
    /// query is registered for them, or if the registered query is for other
    /// components; otherwise a valid query over the tables that the registered
    /// query lists.
    pub open spec fn made_over(
        world: &'a World,
        id1: ComponentId,
        id2: ComponentId,
        id3: ComponentId,
        id4: ComponentId,
        query: Trace<Self>,
    ) -> bool {
        let ids = seq![id1, id2, id3, id4];
        let cache = world.archetypes@.cache;
        let entry = cache[slot_of(keys_of(cache), fingerprint(ids))].1;
        if !has_key(keys_of(cache), fingerprint(ids)) {
            query matches Trace::Fail(message) && message@ == unknown_query_message()
        } else if entry.ids != sorted_ids(ids) {
            query matches Trace::Fail(message) && message@ == collision_message()
        } else {
            &&& query matches Trace::Pass(rows)
            &&& rows.wf()
            &&& rows.addresses() == addresses(world.archetypes@.tables, entry.indices)
            &&& rows.values1() == gathered(world.archetypes@.tables, id1, entry.indices)
            &&& rows.values2() == gathered(world.archetypes@.tables, id2, entry.indices)
            &&& rows.values3() == gathered(world.archetypes@.tables, id3, entry.indices)
            &&& rows.values4() == gathered(world.archetypes@.tables, id4, entry.indices)
        }
    }

    /// A query over the rows that have the components of the given
    /// numbers: the tables are those that the registered query for these components
    /// lists, the table listed last first. Fails if no such query is
    /// registered, or if the registered query is for other components.
    pub fn over(
        world: &'a World,
        id1: ComponentId,
        id2: ComponentId,
        id3: ComponentId,
        id4: ComponentId,
    ) -> (query: Trace<Query4<'a, T1, T2, T3, T4>>)
        requires
            world.wf(),
        ensures
            Self::made_over(world, id1, id2, id3, id4, query),
    {
        let mut ids: Vec<ComponentId> = Vec::new();
        ids.push(id1);
        ids.push(id2);
        ids.push(id3);
        ids.push(id4);
        assert(ids@ =~= seq![id1, id2, id3, id4]);
        match world.archetypes.matching(&ids) {
            Trace::Fail(trace) => Trace::Fail(trace),
            Trace::Pass(indices) => {
                let ghost listed = indices_of(*indices);
                proof {
                    world.archetypes.lemma_tables(listed);
                }
                proof {
                    assert(listed_tables_store(world.archetypes@.tables, id1, listed)) by {
                        assert forall|k: int| 0 <= k < listed.len() implies {
                            &&& (#[trigger] listed[k]) < world.archetypes@.tables.len()
                            &&& world.archetypes@.tables[listed[k] as int].len > 0
                                ==> crate::table::column_from(
                                world.archetypes@.tables[listed[k] as int].columns,
                                id1,
                                0,
                            ) < world.archetypes@.tables[listed[k] as int].columns.len()
                        } by {
                            lemma_listed_has_column(
                                world.archetypes@.tables[listed[k] as int].columns,
                                id1,
                            );
                        }
                    }
                    lemma_lockstep(world.archetypes@.tables, id1, listed);
                }
                let t1 = world.archetypes.collect(id1, indices);
                proof {
                    assert(listed_tables_store(world.archetypes@.tables, id2, listed)) by {
                        assert forall|k: int| 0 <= k < listed.len() implies {
                            &&& (#[trigger] listed[k]) < world.archetypes@.tables.len()
                            &&& world.archetypes@.tables[listed[k] as int].len > 0
                                ==> crate::table::column_from(
                                world.archetypes@.tables[listed[k] as int].columns,
                                id2,
                                0,
                            ) < world.archetypes@.tables[listed[k] as int].columns.len()
                        } by {
                            lemma_listed_has_column(
                                world.archetypes@.tables[listed[k] as int].columns,
                                id2,
                            );
                        }
                    }
                    lemma_lockstep(world.archetypes@.tables, id2, listed);
                }
                let t2 = world.archetypes.collect(id2, indices);
                proof {
                    assert(listed_tables_store(world.archetypes@.tables, id3, listed)) by {
                        assert forall|k: int| 0 <= k < listed.len() implies {
                            &&& (#[trigger] listed[k]) < world.archetypes@.tables.len()
                            &&& world.archetypes@.tables[listed[k] as int].len > 0
                                ==> crate::table::column_from(
                                world.archetypes@.tables[listed[k] as int].columns,
                                id3,
                                0,
                            ) < world.archetypes@.tables[listed[k] as int].columns.len()
                        } by {
                            lemma_listed_has_column(
                                world.archetypes@.tables[listed[k] as int].columns,
                                id3,
                            );
                        }
                    }
                    lemma_lockstep(world.archetypes@.tables, id3, listed);
                }
                let t3 = world.archetypes.collect(id3, indices);
                proof {
                    assert(listed_tables_store(world.archetypes@.tables, id4, listed)) by {
                        assert forall|k: int| 0 <= k < listed.len() implies {
                            &&& (#[trigger] listed[k]) < world.archetypes@.tables.len()
                            &&& world.archetypes@.tables[listed[k] as int].len > 0
                                ==> crate::table::column_from(
                                world.archetypes@.tables[listed[k] as int].columns,
                                id4,
                                0,
                            ) < world.archetypes@.tables[listed[k] as int].columns.len()
                        } by {
                            lemma_listed_has_column(
                                world.archetypes@.tables[listed[k] as int].columns,
                                id4,
                            );
                        }
                    }
                    lemma_lockstep(world.archetypes@.tables, id4, listed);
                }
                let t4 = world.archetypes.collect(id4, indices);
                let p = world.archetypes.collect_indices(indices);
                Trace::Pass(Query4 { t1, t2, t3, t4, p, marker: PhantomData })
            },
        }
    }

    /// What the declaration of a query over the components of the given
    /// numbers and names does to the list of accesses and to the registry.
    pub open spec fn declared_as(
        before: Seq<Accessor>,
        after: Seq<Accessor>,
        registry: ArchetypesView,
        changed: ArchetypesView,
        id1: ComponentId,
        id2: ComponentId,
        id3: ComponentId,
        id4: ComponentId,
        name1: Seq<char>,
        name2: Seq<char>,
        name3: Seq<char>,
        name4: Seq<char>,
        outcome: Trace<()>,
    ) -> bool {
        if id1 != UNDECLARED {
            if id2 != UNDECLARED {
                if id3 != UNDECLARED {
                    if id4 != UNDECLARED {
                        after == before
                        .push(T1::declared(id1))
                        .push(T2::declared(id2))
                        .push(T3::declared(id3))
                        .push(T4::declared(id4)) && registered(
                            registry,
                            changed,
                            seq![id1, id2, id3, id4],
                            outcome,
                        )
                    } else {
                        &&& outcome matches Trace::Fail(message)
                        &&& message@ == undeclared_component_message(name4)
                        &&& after == before
                        .push(T1::declared(id1))
                        .push(T2::declared(id2))
                        .push(T3::declared(id3))
                        &&& changed == registry
                    }
                } else {
                    &&& outcome matches Trace::Fail(message)
                    &&& message@ == undeclared_component_message(name3)
                    &&& after == before.push(T1::declared(id1)).push(T2::declared(id2))
                    &&& changed == registry
                }
            } else {
                &&& outcome matches Trace::Fail(message)
                &&& message@ == undeclared_component_message(name2)
                &&& after == before.push(T1::declared(id1))
                &&& changed == registry
            }
        } else {
            &&& outcome matches Trace::Fail(message)
            &&& message@ == undeclared_component_message(name1)
            &&& after == before
            &&& changed == registry
        }
    }

    /// Declares the accesses of the query, in the order of its components, and
    /// registers the query with the world. Stops at the first component whose
    /// number stands for "not declared", and fails with its name.
    pub fn register(
        a: &mut Vec<Accessor>,
        world: &mut World,
        id1: ComponentId,
        id2: ComponentId,
        id3: ComponentId,
        id4: ComponentId,
        name1: &str,
        name2: &str,
        name3: &str,
        name4: &str,
    ) -> (outcome: Trace<()>)
        requires
            old(world).wf(),
        ensures
            final(world).wf(),
            final(world).components == old(world).components,
            final(world).resources == old(world).resources,
            Self::declared_as(
                old(a)@,
                final(a)@,
                old(world).archetypes@,
                final(world).archetypes@,
                id1,
                id2,
                id3,
                id4,
                name1@,
                name2@,
                name3@,
                name4@,
                outcome,
            ),
    {
        let mut ids: Vec<ComponentId> = Vec::new();
        if let Trace::Fail(trace) = declare::<T1>(a, &mut ids, id1, name1) {
            return Trace::Fail(trace);
        }
        if let Trace::Fail(trace) = declare::<T2>(a, &mut ids, id2, name2) {
            return Trace::Fail(trace);
        }
        if let Trace::Fail(trace) = declare::<T3>(a, &mut ids, id3, name3) {
            return Trace::Fail(trace);
        }
        if let Trace::Fail(trace) = declare::<T4>(a, &mut ids, id4, name4) {
            return Trace::Fail(trace);
        }
        assert(ids@ =~= seq![id1, id2, id3, id4]);
        let key = query_key(&ids);
        world.archetypes.load_query(key, ids)
    }
}

impl<
    'a,
    T1: QueryParam,
    T2: QueryParam,
    T3: QueryParam,
    T4: QueryParam,
> IntoQuery<'a> for (T1, T2, T3, T4) {
    type Item = Query4<'a, T1, T2, T3, T4>;

    fn into_query(world: &'a World) -> (query: Trace<Self::Item>)
        ensures
            query matches Trace::Pass(rows) ==> rows.wf(),
            exists|name1: Seq<char>, name2: Seq<char>, name3: Seq<char>, name4: Seq<char>|
                #![trigger
                    named::<T1::Item>(name1),
                    named::<T2::Item>(name2),
                    named::<T3::Item>(name3),
                    named::<T4::Item>(name4)
                ]
                named::<T1::Item>(name1)
                    && named::<T2::Item>(name2)
                    && named::<T3::Item>(name3)
                    && named::<T4::Item>(name4)
                    && Query4::<'a, T1, T2, T3, T4>::made_over(
                        world,
                        world.components.id(name1),
                        world.components.id(name2),
                        world.components.id(name3),
                        world.components.id(name4),
                        query,
                    ),
    {
        let id1 = world.component::<T1::Item>();
        let id2 = world.component::<T2::Item>();
        let id3 = world.component::<T3::Item>();
        let id4 = world.component::<T4::Item>();
        let query = Query4::over(world, id1, id2, id3, id4);
        proof {
            let name1 = choose|name: Seq<char>|
                #[trigger] named::<T1::Item>(name) && id1 == world.components.id(name);
            let name2 = choose|name: Seq<char>|
                #[trigger] named::<T2::Item>(name) && id2 == world.components.id(name);
            let name3 = choose|name: Seq<char>|
                #[trigger] named::<T3::Item>(name) && id3 == world.components.id(name);
            let name4 = choose|name: Seq<char>|
                #[trigger] named::<T4::Item>(name) && id4 == world.components.id(name);
            assert(named::<T1::Item>(name1)
                && named::<T2::Item>(name2)
                && named::<T3::Item>(name3)
                && named::<T4::Item>(name4));
        }
        query
    }

    fn accessors(a: &mut Vec<Accessor>, world: &mut World) -> (outcome: Trace<()>)
        ensures
            final(world).components == old(world).components,
            final(world).resources == old(world).resources,
            final(world).archetypes@.index == old(world).archetypes@.index,
            final(world).archetypes@.queue == old(world).archetypes@.queue,
            final(world).archetypes@.tables == old(world).archetypes@.tables,
            exists|name1: Seq<char>, name2: Seq<char>, name3: Seq<char>, name4: Seq<char>|
                #![trigger
                    named::<T1::Item>(name1),
                    named::<T2::Item>(name2),
                    named::<T3::Item>(name3),
                    named::<T4::Item>(name4)
                ]
                named::<T1::Item>(name1)
                    && named::<T2::Item>(name2)
                    && named::<T3::Item>(name3)
                    && named::<T4::Item>(name4)
                    && Query4::<'a, T1, T2, T3, T4>::declared_as(
                    old(a)@,
                    final(a)@,
                    old(world).archetypes@,
                    final(world).archetypes@,
                    old(world).components.id(name1),
                    old(world).components.id(name2),
                    old(world).components.id(name3),
                    old(world).components.id(name4),
                    name1,
                    name2,
                    name3,
                    name4,
                    outcome,
                ),
    {
        let name1 = T1::Item::name();
        assert(named::<T1::Item>(name1@));
        let id1 = world.components.id_of(name1);
        let name2 = T2::Item::name();
        assert(named::<T2::Item>(name2@));
        let id2 = world.components.id_of(name2);
        let name3 = T3::Item::name();
        assert(named::<T3::Item>(name3@));
        let id3 = world.components.id_of(name3);
        let name4 = T4::Item::name();
        assert(named::<T4::Item>(name4@));
        let id4 = world.components.id_of(name4);
        Query4::<T1, T2, T3, T4>::register(a, world, id1, id2, id3, id4, name1, name2, name3, name4)
    }
}
} // verus!
