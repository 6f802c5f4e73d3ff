//! What a system asks for and what it gives back: the parameters it fetches
//! from the world, and the effects it leaves to be applied when its group has
//! finished.

use vstd::prelude::*;
use vstd::string::*;
use crate::anon::{Anon, AnonView};
use crate::archetype::UNDECLARED;
use crate::archetypes::{ArchetypesView, cache_consistent};
use crate::resources::{Resources, ResourcesView, resource_found};
use crate::table::{TableView, cell_exists, stored};
use crate::commands::{Commands, CommandsView, merged};
use crate::ecs::World;
use crate::error::Trace;
use crate::handle::{Handle, Resource, named};
use crate::package::PackageIndex;
use crate::scheduler::Accessor;

verus! {
/// A resource fetched for reading.
pub struct ResRef<R>(pub R);

impl<R: Resource> ResRef<R> {
    /// The value of the resource.
    pub fn get(&self) -> (value: &R)
        ensures
            *value == self.0,
    {
        &self.0
    }
}

impl<R: Resource> std::ops::Deref for ResRef<R> {
    type Target = R;

    fn deref(&self) -> (value: &R)
        ensures
            *value == self.0,
    {
        &self.0
    }
}

/// A resource fetched for writing. The value is a copy: it replaces the stored
/// value when it is handed to the effects of the system.
pub struct ResMut<R: Resource>(pub R);

impl<R: Resource> ResMut<R> {
    /// The value of the resource.
    pub fn get(&self) -> (value: &R)
        ensures
            *value == self.0,
    {
        &self.0
    }

    /// Replaces the value.
    pub fn set(&mut self, value: R)
        ensures
            final(self).0 == value,
    {
        self.0 = value;
    }
}

impl<R: Resource> std::ops::Deref for ResMut<R> {
    type Target = R;

    fn deref(&self) -> (value: &R)
        ensures
            *value == self.0,
    {
        &self.0
    }
}

/// What a system leaves to be done: values to write into cells, values to
/// store as resources, and commands to queue.
pub struct Effects {
    pub(crate) cells: Vec<(PackageIndex, Anon)>,
    pub(crate) resources: Vec<(u16, Vec<u8>)>,
    pub(crate) commands: Commands,
}

/// What the effects of a system hold, as plain values.
pub struct EffectsView {
    pub cells: Seq<(PackageIndex, AnonView)>,
    pub resources: Seq<(u16, Seq<u8>)>,
    pub commands: CommandsView,
}

impl View for Effects {
    type V = EffectsView;

    closed spec fn view(&self) -> EffectsView {
        EffectsView {
            cells: Seq::new(self.cells@.len(), |i: int| (self.cells@[i].0, self.cells@[i].1@)),
            resources: Seq::new(
                self.resources@.len(),
                |i: int| (self.resources@[i].0, self.resources@[i].1@),
            ),
            commands: self.commands@,
        }
    }
}

impl Effects {
    /// The invariant: the commands are sound.
    pub closed spec fn wf(&self) -> bool {
        self.commands.wf()
    }

    /// No effects.
    pub fn new() -> (effects: Effects)
        ensures
            effects.wf(),
            effects@.cells.len() == 0,
            effects@.resources.len() == 0,
            effects@.commands == (CommandsView {
                spawn: Seq::empty(),
                destroy: Seq::empty(),
                modify: Seq::empty(),
            }),
    {
        Effects { cells: Vec::new(), resources: Vec::new(), commands: Commands::new() }
    }

    /// Asks for a value to be written over the value of its component in a row.
    pub fn write(&mut self, index: PackageIndex, anon: Anon)
        ensures
            old(self).wf() ==> final(self).wf(),
            final(self)@ == (EffectsView {
                cells: old(self)@.cells.push((index, anon@)),
                ..old(self)@
            }),
    {
        self.cells.push((index, anon));
        assert(self@.cells =~= old(self)@.cells.push((index, anon@)));
    }

    /// Asks for bytes to be stored as the value of a resource.
    pub fn put(&mut self, id: u16, bytes: Vec<u8>)
        ensures
            old(self).wf() ==> final(self).wf(),
            final(self)@ == (EffectsView {
                resources: old(self)@.resources.push((id, bytes@)),
                ..old(self)@
            }),
    {
        self.resources.push((id, bytes));
        assert(self@.resources =~= old(self)@.resources.push((id, bytes@)));
    }

    /// Asks for the commands of a buffer to be queued, behind the commands
    /// that the effects hold already.
    pub fn submit(&mut self, commands: Commands)
        requires
            old(self).wf(),
            commands.wf(),
        ensures
            final(self).wf(),
            final(self)@ == (EffectsView {
                commands: merged(old(self)@.commands, commands@),
                ..old(self)@
            }),
    {
        self.commands.absorb(commands);
    }
}

/// A system: it is made of what it fetched, runs once, and leaves effects.
pub trait System: Handle + Sized {
    /// Runs the system.
    fn execute(self) -> (outcome: Trace<Effects>)
        ensures
            outcome matches Trace::Pass(effects) ==> effects.wf(),
    ;
}

/// A parameter of a system: it declares the accesses it makes, and it is
/// fetched from the world before the system runs.
pub trait Fetch<'a>: Sized {
    /// Fetches the parameter.
    fn fetch(world: &'a World) -> (fetched: Trace<Self>)
        requires
            world.wf(),
    ;

    /// Declares the accesses of the parameter, behind those already listed.
    /// A query registers itself with the world here.
    fn access(v: &mut Vec<Accessor>, world: &mut World) -> (outcome: Trace<()>)
        requires
            old(world).wf(),
        ensures
            final(world).wf(),
    ;
}

/// Whether a call of `F::fetch` on the world can give the result.
pub open spec fn fetched_by<'a, F: Fetch<'a>>(world: &'a World, fetched: Trace<F>) -> bool {
    call_ensures(F::fetch, (world,), fetched)
}

/// Whether a call of `F::fetch` on the world can succeed.
pub open spec fn fetchable<'a, F: Fetch<'a>>(world: &'a World) -> bool {
    exists|part: F| #[trigger] fetched_by::<F>(world, Trace::Pass(part))
}

/// A list of accesses and a world between two declarations.
pub open spec fn between(list: Vec<Accessor>, world: World) -> bool {
    true
}

/// The message of an access to a resource that was not declared.
pub open spec fn undeclared_access_message(name: Seq<char>) -> Seq<char> {
    "Tried to collect accessor for resource "@ + name + ", but it had not been declared!"@
}

/// Builds the message of an access to a resource that was not declared.
pub fn undeclared_access(name: &str) -> (message: String)
    ensures
        message@ == undeclared_access_message(name@),
{
    let mut message = String::from_str("Tried to collect accessor for resource ");
    message.append(name);
    message.append(", but it had not been declared!");
    message
}

/// Declares one access to a resource, behind the accesses already listed.
/// Fails, and lists nothing, for the number that stands for "not declared".
pub fn declare_resource(v: &mut Vec<Accessor>, accessor: Accessor, id: u16, name: &str) -> (outcome:
    Trace<()>)
    ensures
        if id != UNDECLARED {
            &&& outcome is Pass
            &&& final(v)@ == old(v)@.push(accessor)
        } else {
            &&& outcome matches Trace::Fail(message)
            &&& message@ == undeclared_access_message(name@)
            &&& final(v)@ == old(v)@
        },
{
    if id == UNDECLARED {
        return Trace::Fail(undeclared_access(name));
    }
    v.push(accessor);
    Trace::Pass(())
}

/// What the declaration of an access to the resource of a name does: for a
/// name that is declared, the access is listed behind the others; for a name
/// that is not declared, nothing is listed, and the declaration fails with
/// the message that says so.
pub open spec fn resource_declared(
    store: Resources,
    name: Seq<char>,
    before: Seq<Accessor>,
    after: Seq<Accessor>,
    accessor: Accessor,
    outcome: Trace<()>,
) -> bool {
    if store.declares(name) {
        outcome is Pass && after == before.push(accessor)
    } else {
        &&& outcome matches Trace::Fail(message)
        &&& message@ == undeclared_access_message(name)
        &&& after == before
    }
}

impl<'a, R: Resource> Fetch<'a> for ResRef<R> {
    fn fetch(world: &'a World) -> (fetched: Trace<Self>)
        ensures
            match fetched {
                Trace::Pass(resource) => resource_found::<R>(
                    world.resources,
                    Trace::Pass(resource.0),
                ),
                Trace::Fail(message) => resource_found::<R>(world.resources, Trace::Fail(message)),
            },
    {
        world.resources.get_resource_ref::<R>()
    }

    fn access(v: &mut Vec<Accessor>, world: &mut World) -> (outcome: Trace<()>)
        ensures
            *final(world) == *old(world),
            exists|name: Seq<char>| #[trigger]
                named::<R>(name) && resource_declared(
                    old(world).resources,
                    name,
                    old(v)@,
                    final(v)@,
                    Accessor::ResRef(old(world).resources.id(name)),
                    outcome,
                ),
    {
        let name = R::name();
        assert(named::<R>(name@));
        let id = world.resources.id_of_name(name);
        declare_resource(v, Accessor::ResRef(id), id, name)
    }
}

impl<'a, R: Resource> Fetch<'a> for ResMut<R> {
    fn fetch(world: &'a World) -> (fetched: Trace<Self>)
        ensures
            match fetched {
                Trace::Pass(resource) => resource_found::<R>(
                    world.resources,
                    Trace::Pass(resource.0),
                ),
                Trace::Fail(message) => resource_found::<R>(world.resources, Trace::Fail(message)),
            },
    {
        world.resources.get_resource_mut::<R>()
    }

    fn access(v: &mut Vec<Accessor>, world: &mut World) -> (outcome: Trace<()>)
        ensures
            *final(world) == *old(world),
            exists|name: Seq<char>| #[trigger]
                named::<R>(name) && resource_declared(
                    old(world).resources,
                    name,
                    old(v)@,
                    final(v)@,
                    Accessor::ResMut(old(world).resources.id(name)),
                    outcome,
                ),
    {
        let name = R::name();
        assert(named::<R>(name@));
        let id = world.resources.id_of_name(name);
        declare_resource(v, Accessor::ResMut(id), id, name)
    }
}

impl<'a> Fetch<'a> for Commands {
    fn fetch(world: &'a World) -> (fetched: Trace<Self>)
        ensures
            fetched matches Trace::Pass(commands) && commands.wf() && commands@ == (CommandsView {
                spawn: Seq::empty(),
                destroy: Seq::empty(),
                modify: Seq::empty(),
            }),
    {
        Trace::Pass(Commands::new())
    }

    fn access(v: &mut Vec<Accessor>, world: &mut World) -> (outcome: Trace<()>)
        ensures
            outcome is Pass,
            *final(world) == *old(world),
            final(v)@ == old(v)@,
    {
        Trace::Pass(())
    }
}

impl<'a, F1: Fetch<'a>> Fetch<'a> for (F1,) {
    fn fetch(world: &'a World) -> (fetched: Trace<Self>)
        ensures
            match fetched {
                Trace::Pass(parts) => fetched_by::<F1>(world, Trace::Pass(parts.0)),
                Trace::Fail(trace) => {
                    ||| fetched_by::<F1>(world, Trace::Fail(trace))
                },
            },
    {
        let f1 = match F1::fetch(world) {
            Trace::Pass(fetched) => fetched,
            Trace::Fail(trace) => {
                return Trace::Fail(trace);
            },
        };
        assert(fetched_by::<F1>(world, Trace::Pass(f1)));
        Trace::Pass((f1,))
    }

    fn access(v: &mut Vec<Accessor>, world: &mut World) -> (outcome: Trace<()>)
        ensures
            exists|a: &mut Vec<Accessor>, w: &mut World|
                *a == *old(v) && *final(a) == *final(v) && *w == *old(world)
                    && *final(w) == *final(world)
                    && #[trigger] call_ensures(F1::access, (a, w), outcome),
    {
        F1::access(v, world)
    }
}

impl<'a, F1: Fetch<'a>, F2: Fetch<'a>> Fetch<'a> for (F1, F2) {
    fn fetch(world: &'a World) -> (fetched: Trace<Self>)
        ensures
            match fetched {
                Trace::Pass(parts) => {
                    &&& fetched_by::<F1>(world, Trace::Pass(parts.0))
                    &&& fetched_by::<F2>(world, Trace::Pass(parts.1))
                },
                Trace::Fail(trace) => {
                    ||| fetched_by::<F1>(world, Trace::Fail(trace))
                    ||| fetchable::<F1>(world)
                        && fetched_by::<F2>(world, Trace::Fail(trace))
                },
            },
    {
        let f1 = match F1::fetch(world) {
            Trace::Pass(fetched) => fetched,
            Trace::Fail(trace) => {
                return Trace::Fail(trace);
            },
        };
        assert(fetched_by::<F1>(world, Trace::Pass(f1)));
        let f2 = match F2::fetch(world) {
            Trace::Pass(fetched) => fetched,
            Trace::Fail(trace) => {
                return Trace::Fail(trace);
            },
        };
        assert(fetched_by::<F2>(world, Trace::Pass(f2)));
        Trace::Pass((f1, f2))
    }

    fn access(v: &mut Vec<Accessor>, world: &mut World) -> (outcome: Trace<()>)
        ensures
            ({
                ||| outcome is Fail && (exists|a: &mut Vec<Accessor>, w: &mut World|
                    *a == *old(v) && *final(a) == *final(v) && *w == *old(world)
                        && *final(w) == *final(world)
                        && #[trigger] call_ensures(F1::access, (a, w), outcome))
                ||| exists|mid: Vec<Accessor>, then: World| #[trigger]
                    between(mid, then) && (exists|a: &mut Vec<Accessor>, w: &mut World|
                        *a == *old(v) && *final(a) == mid && *w == *old(world)
                            && *final(w) == then
                            && #[trigger] call_ensures(F1::access, (a, w), Trace::Pass(())))
                        && (exists|a: &mut Vec<Accessor>, w: &mut World|
                            *a == mid && *final(a) == *final(v) && *w == then
                                && *final(w) == *final(world)
                                && #[trigger] call_ensures(F2::access, (a, w), outcome))
            }),
    {
        let first = F1::access(v, world);
        match first {
            Trace::Fail(trace) => {
                return Trace::Fail(trace);
            },
            Trace::Pass(unit) => {
                assert(unit == ());
            },
        }
        assert(first == Trace::Pass(()));
        assert(between(*v, *world));
        F2::access(v, world)
    }
}

impl<'a, F1: Fetch<'a>, F2: Fetch<'a>, F3: Fetch<'a>> Fetch<'a> for (F1, F2, F3) {
    fn fetch(world: &'a World) -> (fetched: Trace<Self>)
        ensures
            match fetched {
                Trace::Pass(parts) => {
                    &&& fetched_by::<F1>(world, Trace::Pass(parts.0))
                    &&& fetched_by::<F2>(world, Trace::Pass(parts.1))
                    &&& fetched_by::<F3>(world, Trace::Pass(parts.2))
                },
                Trace::Fail(trace) => {
                    ||| fetched_by::<F1>(world, Trace::Fail(trace))
                    ||| fetchable::<F1>(world)
                        && fetched_by::<F2>(world, Trace::Fail(trace))
                    ||| fetchable::<F1>(world)
                        && fetchable::<F2>(world)
                        && fetched_by::<F3>(world, Trace::Fail(trace))
                },
            },
    {
        let f1 = match F1::fetch(world) {
            Trace::Pass(fetched) => fetched,
            Trace::Fail(trace) => {
                return Trace::Fail(trace);
            },
        };
        assert(fetched_by::<F1>(world, Trace::Pass(f1)));
        let f2 = match F2::fetch(world) {
            Trace::Pass(fetched) => fetched,
            Trace::Fail(trace) => {
                return Trace::Fail(trace);
            },
        };
        assert(fetched_by::<F2>(world, Trace::Pass(f2)));
        let f3 = match F3::fetch(world) {
            Trace::Pass(fetched) => fetched,
            Trace::Fail(trace) => {
                return Trace::Fail(trace);
            },
        };
        assert(fetched_by::<F3>(world, Trace::Pass(f3)));
        Trace::Pass((f1, f2, f3))
    }

    fn access(v: &mut Vec<Accessor>, world: &mut World) -> (outcome: Trace<()>)
        ensures
            ({
                ||| outcome is Fail && (exists|a: &mut Vec<Accessor>, w: &mut World|
                    *a == *old(v) && *final(a) == *final(v) && *w == *old(world)
                        && *final(w) == *final(world)
                        && #[trigger] call_ensures(F1::access, (a, w), outcome))
                ||| exists|mid: Vec<Accessor>, then: World| #[trigger]
                    between(mid, then) && (exists|a: &mut Vec<Accessor>, w: &mut World|
                        *a == *old(v) && *final(a) == mid && *w == *old(world)
                            && *final(w) == then
                            && #[trigger] call_ensures(F1::access, (a, w), Trace::Pass(())))
                        && (exists|a: &mut Vec<Accessor>, w: &mut World|
                            *a == mid && *final(a) == *final(v) && *w == then
                                && *final(w) == *final(world)
                                && #[trigger] call_ensures(<(F2, F3)>::access, (a, w), outcome))
            }),
    {
        let first = F1::access(v, world);
        match first {
            Trace::Fail(trace) => {
                return Trace::Fail(trace);
            },
            Trace::Pass(unit) => {
                assert(unit == ());
            },
        }
        assert(first == Trace::Pass(()));
        assert(between(*v, *world));
        <(F2, F3)>::access(v, world)
    }
}

impl<
    'a,
    F1: Fetch<'a>,
    F2: Fetch<'a>,
    F3: Fetch<'a>,
    F4: Fetch<'a>,
> Fetch<'a> for (F1, F2, F3, F4) {
    fn fetch(world: &'a World) -> (fetched: Trace<Self>)
        ensures
            match fetched {
                Trace::Pass(parts) => {
                    &&& fetched_by::<F1>(world, Trace::Pass(parts.0))
                    &&& fetched_by::<F2>(world, Trace::Pass(parts.1))
                    &&& fetched_by::<F3>(world, Trace::Pass(parts.2))
                    &&& fetched_by::<F4>(world, Trace::Pass(parts.3))
                },
                Trace::Fail(trace) => {
                    ||| fetched_by::<F1>(world, Trace::Fail(trace))
                    ||| fetchable::<F1>(world)
                        && fetched_by::<F2>(world, Trace::Fail(trace))
                    ||| fetchable::<F1>(world)
                        && fetchable::<F2>(world)
                        && fetched_by::<F3>(world, Trace::Fail(trace))
                    ||| fetchable::<F1>(world)
                        && fetchable::<F2>(world)
                        && fetchable::<F3>(world)
                        && fetched_by::<F4>(world, Trace::Fail(trace))
                },
            },
    {
        let f1 = match F1::fetch(world) {
            Trace::Pass(fetched) => fetched,
            Trace::Fail(trace) => {
                return Trace::Fail(trace);
            },
        };
        assert(fetched_by::<F1>(world, Trace::Pass(f1)));
        let f2 = match F2::fetch(world) {
            Trace::Pass(fetched) => fetched,
            Trace::Fail(trace) => {
                return Trace::Fail(trace);
            },
        };
        assert(fetched_by::<F2>(world, Trace::Pass(f2)));
        let f3 = match F3::fetch(world) {
            Trace::Pass(fetched) => fetched,
            Trace::Fail(trace) => {
                return Trace::Fail(trace);
            },
        };
        assert(fetched_by::<F3>(world, Trace::Pass(f3)));
        let f4 = match F4::fetch(world) {
            Trace::Pass(fetched) => fetched,
            Trace::Fail(trace) => {
                return Trace::Fail(trace);
            },
        };
        assert(fetched_by::<F4>(world, Trace::Pass(f4)));
        Trace::Pass((f1, f2, f3, f4))
    }

    fn access(v: &mut Vec<Accessor>, world: &mut World) -> (outcome: Trace<()>)
        ensures
            ({
                ||| outcome is Fail && (exists|a: &mut Vec<Accessor>, w: &mut World|
                    *a == *old(v) && *final(a) == *final(v) && *w == *old(world)
                        && *final(w) == *final(world)
                        && #[trigger] call_ensures(F1::access, (a, w), outcome))
                ||| exists|mid: Vec<Accessor>, then: World| #[trigger]
                    between(mid, then) && (exists|a: &mut Vec<Accessor>, w: &mut World|
                        *a == *old(v) && *final(a) == mid && *w == *old(world)
                            && *final(w) == then
                            && #[trigger] call_ensures(F1::access, (a, w), Trace::Pass(())))
                        && (exists|a: &mut Vec<Accessor>, w: &mut World|
                            *a == mid && *final(a) == *final(v) && *w == then
                                && *final(w) == *final(world)
                                && #[trigger] call_ensures(<(F2, F3, F4)>::access, (a, w), outcome))
            }),
    {
        let first = F1::access(v, world);
        match first {
            Trace::Fail(trace) => {
                return Trace::Fail(trace);
            },
            Trace::Pass(unit) => {
                assert(unit == ());
            },
        }
        assert(first == Trace::Pass(()));
        assert(between(*v, *world));
        <(F2, F3, F4)>::access(v, world)
    }
}

impl<
    'a,
    F1: Fetch<'a>,
    F2: Fetch<'a>,
    F3: Fetch<'a>,
    F4: Fetch<'a>,
    F5: Fetch<'a>,
> Fetch<'a> for (F1, F2, F3, F4, F5) {
    fn fetch(world: &'a World) -> (fetched: Trace<Self>)
        ensures
            match fetched {
                Trace::Pass(parts) => {
                    &&& fetched_by::<F1>(world, Trace::Pass(parts.0))
                    &&& fetched_by::<F2>(world, Trace::Pass(parts.1))
                    &&& fetched_by::<F3>(world, Trace::Pass(parts.2))
                    &&& fetched_by::<F4>(world, Trace::Pass(parts.3))
                    &&& fetched_by::<F5>(world, Trace::Pass(parts.4))
                },
                Trace::Fail(trace) => {
                    ||| fetched_by::<F1>(world, Trace::Fail(trace))
                    ||| fetchable::<F1>(world)
                        && fetched_by::<F2>(world, Trace::Fail(trace))
                    ||| fetchable::<F1>(world)
                        && fetchable::<F2>(world)
                        && fetched_by::<F3>(world, Trace::Fail(trace))
                    ||| fetchable::<F1>(world)
                        && fetchable::<F2>(world)
                        && fetchable::<F3>(world)
                        && fetched_by::<F4>(world, Trace::Fail(trace))
                    ||| fetchable::<F1>(world)
                        && fetchable::<F2>(world)
                        && fetchable::<F3>(world)
                        && fetchable::<F4>(world)
                        && fetched_by::<F5>(world, Trace::Fail(trace))
                },
            },
    {
        let f1 = match F1::fetch(world) {
            Trace::Pass(fetched) => fetched,
            Trace::Fail(trace) => {
                return Trace::Fail(trace);
            },
        };
        assert(fetched_by::<F1>(world, Trace::Pass(f1)));
        let f2 = match F2::fetch(world) {
            Trace::Pass(fetched) => fetched,
            Trace::Fail(trace) => {
                return Trace::Fail(trace);
            },
        };
        assert(fetched_by::<F2>(world, Trace::Pass(f2)));
        let f3 = match F3::fetch(world) {
            Trace::Pass(fetched) => fetched,
            Trace::Fail(trace) => {
                return Trace::Fail(trace);
            },
        };
        assert(fetched_by::<F3>(world, Trace::Pass(f3)));
        let f4 = match F4::fetch(world) {
            Trace::Pass(fetched) => fetched,
            Trace::Fail(trace) => {
                return Trace::Fail(trace);
            },
        };
        assert(fetched_by::<F4>(world, Trace::Pass(f4)));
        let f5 = match F5::fetch(world) {
            Trace::Pass(fetched) => fetched,
            Trace::Fail(trace) => {
                return Trace::Fail(trace);
            },
        };
        assert(fetched_by::<F5>(world, Trace::Pass(f5)));
        Trace::Pass((f1, f2, f3, f4, f5))
    }

    fn access(v: &mut Vec<Accessor>, world: &mut World) -> (outcome: Trace<()>)
        ensures
            ({
                ||| outcome is Fail && (exists|a: &mut Vec<Accessor>, w: &mut World|
                    *a == *old(v) && *final(a) == *final(v) && *w == *old(world)
                        && *final(w) == *final(world)
                        && #[trigger] call_ensures(F1::access, (a, w), outcome))
                ||| exists|mid: Vec<Accessor>, then: World| #[trigger]
                    between(mid, then) && (exists|a: &mut Vec<Accessor>, w: &mut World|
                        *a == *old(v) && *final(a) == mid && *w == *old(world)
                            && *final(w) == then
                            && #[trigger] call_ensures(F1::access, (a, w), Trace::Pass(())))
                        && (exists|a: &mut Vec<Accessor>, w: &mut World|
                            *a == mid && *final(a) == *final(v) && *w == then
                                && *final(w) == *final(world)
                                && #[trigger] call_ensures(
                                <(F2, F3, F4, F5)>::access,
                                (a, w),
                                outcome,
                            ))
            }),
    {
        let first = F1::access(v, world);
        match first {
            Trace::Fail(trace) => {
                return Trace::Fail(trace);
            },
            Trace::Pass(unit) => {
                assert(unit == ());
            },
        }
        assert(first == Trace::Pass(()));
        assert(between(*v, *world));
        <(F2, F3, F4, F5)>::access(v, world)
    }
}

impl<
    'a,
    F1: Fetch<'a>,
    F2: Fetch<'a>,
    F3: Fetch<'a>,
    F4: Fetch<'a>,
    F5: Fetch<'a>,
    F6: Fetch<'a>,
> Fetch<'a> for (F1, F2, F3, F4, F5, F6) {
    fn fetch(world: &'a World) -> (fetched: Trace<Self>)
        ensures
            match fetched {
                Trace::Pass(parts) => {
                    &&& fetched_by::<F1>(world, Trace::Pass(parts.0))
                    &&& fetched_by::<F2>(world, Trace::Pass(parts.1))
                    &&& fetched_by::<F3>(world, Trace::Pass(parts.2))
                    &&& fetched_by::<F4>(world, Trace::Pass(parts.3))
                    &&& fetched_by::<F5>(world, Trace::Pass(parts.4))
                    &&& fetched_by::<F6>(world, Trace::Pass(parts.5))
                },
                Trace::Fail(trace) => {
                    ||| fetched_by::<F1>(world, Trace::Fail(trace))
                    ||| fetchable::<F1>(world)
                        && fetched_by::<F2>(world, Trace::Fail(trace))
                    ||| fetchable::<F1>(world)
                        && fetchable::<F2>(world)
                        && fetched_by::<F3>(world, Trace::Fail(trace))
                    ||| fetchable::<F1>(world)
                        && fetchable::<F2>(world)
                        && fetchable::<F3>(world)
                        && fetched_by::<F4>(world, Trace::Fail(trace))
                    ||| fetchable::<F1>(world)
                        && fetchable::<F2>(world)
                        && fetchable::<F3>(world)
                        && fetchable::<F4>(world)
                        && fetched_by::<F5>(world, Trace::Fail(trace))
                    ||| fetchable::<F1>(world)
                        && fetchable::<F2>(world)
                        && fetchable::<F3>(world)
                        && fetchable::<F4>(world)
                        && fetchable::<F5>(world)
                        && fetched_by::<F6>(world, Trace::Fail(trace))
                },
            },
    {
        let f1 = match F1::fetch(world) {
            Trace::Pass(fetched) => fetched,
            Trace::Fail(trace) => {
                return Trace::Fail(trace);
            },
        };
        assert(fetched_by::<F1>(world, Trace::Pass(f1)));
        let f2 = match F2::fetch(world) {
            Trace::Pass(fetched) => fetched,
            Trace::Fail(trace) => {
                return Trace::Fail(trace);
            },
        };
        assert(fetched_by::<F2>(world, Trace::Pass(f2)));
        let f3 = match F3::fetch(world) {
            Trace::Pass(fetched) => fetched,
            Trace::Fail(trace) => {
                return Trace::Fail(trace);
            },
        };
        assert(fetched_by::<F3>(world, Trace::Pass(f3)));
        let f4 = match F4::fetch(world) {
            Trace::Pass(fetched) => fetched,
            Trace::Fail(trace) => {
                return Trace::Fail(trace);
            },
        };
        assert(fetched_by::<F4>(world, Trace::Pass(f4)));
        let f5 = match F5::fetch(world) {
            Trace::Pass(fetched) => fetched,
            Trace::Fail(trace) => {
                return Trace::Fail(trace);
            },
        };
        assert(fetched_by::<F5>(world, Trace::Pass(f5)));
        let f6 = match F6::fetch(world) {
            Trace::Pass(fetched) => fetched,
            Trace::Fail(trace) => {
                return Trace::Fail(trace);
            },
        };
        assert(fetched_by::<F6>(world, Trace::Pass(f6)));
        Trace::Pass((f1, f2, f3, f4, f5, f6))
    }

    fn access(v: &mut Vec<Accessor>, world: &mut World) -> (outcome: Trace<()>)
        ensures
            ({
                ||| outcome is Fail && (exists|a: &mut Vec<Accessor>, w: &mut World|
                    *a == *old(v) && *final(a) == *final(v) && *w == *old(world)
                        && *final(w) == *final(world)
                        && #[trigger] call_ensures(F1::access, (a, w), outcome))
                ||| exists|mid: Vec<Accessor>, then: World| #[trigger]
                    between(mid, then) && (exists|a: &mut Vec<Accessor>, w: &mut World|
                        *a == *old(v) && *final(a) == mid && *w == *old(world)
                            && *final(w) == then
                            && #[trigger] call_ensures(F1::access, (a, w), Trace::Pass(())))
                        && (exists|a: &mut Vec<Accessor>, w: &mut World|
                            *a == mid && *final(a) == *final(v) && *w == then
                                && *final(w) == *final(world)
                                && #[trigger] call_ensures(
                                <(F2, F3, F4, F5, F6)>::access,
                                (a, w),
                                outcome,
                            ))
            }),
    {
        let first = F1::access(v, world);
        match first {
            Trace::Fail(trace) => {
                return Trace::Fail(trace);
            },
            Trace::Pass(unit) => {
                assert(unit == ());
            },
        }
        assert(first == Trace::Pass(()));
        assert(between(*v, *world));
        <(F2, F3, F4, F5, F6)>::access(v, world)
    }
}

/// The tables after the values are written, the first first. A value
/// without a cell — no such table, no such row, or no column of its component
/// and size — is left out.
pub open spec fn written(tables: Seq<TableView>, cells: Seq<(PackageIndex, AnonView)>) -> Seq<TableView>
    decreases cells.len(),
{
    if cells.len() == 0 {
        tables
    } else {
        written(write_one(tables, cells[0].0, cells[0].1), cells.drop_first())
    }
}

/// Whether the table of the address has a cell for the value.
pub open spec fn has_cell(tables: Seq<TableView>, index: PackageIndex, value: AnonView) -> bool {
    index.table < tables.len() && cell_exists(tables[index.table as int], index.col as int, value)
}

/// The tables after one value is written.
pub open spec fn write_one(
    tables: Seq<TableView>,
    index: PackageIndex,
    value: AnonView,
) -> Seq<TableView> {
    if has_cell(tables, index, value) {
        tables.update(
            index.table as int,
            stored(tables[index.table as int], index.col as int, value),
        )
    } else {
        tables
    }
}

/// Whether every value finds its cell when its turn comes.
pub open spec fn all_written(tables: Seq<TableView>, cells: Seq<(PackageIndex, AnonView)>) -> bool
    decreases cells.len(),
{
    if cells.len() == 0 {
        true
    } else {
        has_cell(tables, cells[0].0, cells[0].1) && all_written(
            write_one(tables, cells[0].0, cells[0].1),
            cells.drop_first(),
        )
    }
}

/// The values of the resources after the listed values are stored, the first
/// first. A value for a number without a resource is left out.
pub open spec fn put_all(values: Seq<Seq<u8>>, puts: Seq<(u16, Seq<u8>)>) -> Seq<Seq<u8>>
    decreases puts.len(),
{
    if puts.len() == 0 {
        values
    } else {
        put_all(put_one(values, puts[0].0, puts[0].1), puts.drop_first())
    }
}

/// The values of the resources after one value is stored.
pub open spec fn put_one(values: Seq<Seq<u8>>, id: u16, bytes: Seq<u8>) -> Seq<Seq<u8>> {
    if id < values.len() {
        values.update(id as int, bytes)
    } else {
        values
    }
}

/// Whether every listed number has a resource.
pub open spec fn all_put(count: nat, puts: Seq<(u16, Seq<u8>)>) -> bool {
    forall|k: int| 0 <= k < puts.len() ==> (#[trigger] puts[k]).0 < count
}

/// The message of effects that could not all be applied.
pub open spec fn lost_effect_message() -> Seq<char> {
    "Tried to write to a component or a resource that does not exist!"@
}

impl Effects {
    /// Applies the effects to the world: the values are written into their
    /// cells, the resource values are stored, and the commands are queued.
    /// What has no place is left out, and the outcome is a failure then.
    pub fn apply_to(self, world: &mut World) -> (outcome: Trace<()>)
        requires
            old(world).wf(),
            self.wf(),
        ensures
            final(world).wf(),
            final(world).components == old(world).components,
            final(world).archetypes@ == (ArchetypesView {
                tables: written(old(world).archetypes@.tables, self@.cells),
                queue: merged(old(world).archetypes@.queue, self@.commands),
                ..old(world).archetypes@
            }),
            final(world).resources@ == (ResourcesView {
                values: put_all(old(world).resources@.values, self@.resources),
                ..old(world).resources@
            }),
            cache_consistent(old(world).archetypes@) ==> cache_consistent(final(world).archetypes@),
            if all_written(old(world).archetypes@.tables, self@.cells) && all_put(
                old(world).resources@.values.len(),
                self@.resources,
            ) {
                outcome is Pass
            } else {
                outcome matches Trace::Fail(message) && message@ == lost_effect_message()
            },
    {
        let ghost cells = self@.cells;
        let ghost puts = self@.resources;
        let ghost tables = world.archetypes@.tables;
        let ghost values = world.resources@.values;
        let mut complete = true;
        let mut i: usize = 0;
        assert(cells.subrange(0, cells.len() as int) =~= cells);
        while i < self.cells.len()
            invariant
                world.wf(),
                world.components == old(world).components,
                world.resources == old(world).resources,
                self@.cells == cells,
                cells.len() == self.cells@.len(),
                i <= cells.len(),
                world.archetypes@.index == old(world).archetypes@.index,
                world.archetypes@.queue == old(world).archetypes@.queue,
                world.archetypes@.cache == old(world).archetypes@.cache,
                written(world.archetypes@.tables, cells.subrange(i as int, cells.len() as int))
                    == written(tables, cells),
                complete ==> (all_written(
                    world.archetypes@.tables,
                    cells.subrange(i as int, cells.len() as int),
                ) <==> all_written(tables, cells)),
                !complete ==> !all_written(tables, cells),
                cache_consistent(old(world).archetypes@) ==> cache_consistent(world.archetypes@),
            decreases cells.len() - i,
        {
            let ghost rest = cells.subrange(i as int, cells.len() as int);
            assert(rest.drop_first() =~= cells.subrange(i as int + 1, cells.len() as int));
            let outcome = world.archetypes.store(self.cells[i].0, &self.cells[i].1);
            if !outcome.is_ok() {
                complete = false;
            }
            i += 1;
        }
        let ghost mid = world.archetypes@;
        let mut resources = self.resources;
        let ghost mut done: int = 0;
        assert(puts.subrange(0, puts.len() as int) =~= puts);
        while resources.len() > 0
            invariant
                world.wf(),
                world.components == old(world).components,
                world.archetypes@ == mid,
                world.resources@.names == old(world).resources@.names,
                world.resources@.values.len() == values.len(),
                0 <= done <= puts.len(),
                put_views(resources@) == puts.subrange(done, puts.len() as int),
                put_all(world.resources@.values, puts.subrange(done, puts.len() as int)) == put_all(
                    values,
                    puts,
                ),
                complete ==> all_written(tables, cells),
                complete ==> forall|k: int| 0 <= k < done ==> (#[trigger] puts[k]).0 < values.len(),
                !complete ==> !(all_written(tables, cells) && all_put(values.len(), puts)),
            decreases resources@.len(),
        {
            let ghost rest = puts.subrange(done, puts.len() as int);
            let (id, bytes) = resources.remove(0);
            proof {
                assert(rest.drop_first() =~= puts.subrange(done + 1, puts.len() as int));
            }
            if !world.resources.store(id, bytes) {
                complete = false;
            }
            proof {
                done = done + 1;
            }
        }
        world.archetypes.submit_commands(self.commands);
        if complete {
            Trace::Pass(())
        } else {
            Trace::Fail(
                String::from_str("Tried to write to a component or a resource that does not exist!"),
            )
        }
    }
}

/// The views of a list of resource values, in order.
pub open spec fn put_views(puts: Seq<(u16, Vec<u8>)>) -> Seq<(u16, Seq<u8>)> {
    Seq::new(puts.len(), |i: int| (puts[i].0, puts[i].1@))
}
} // verus!
