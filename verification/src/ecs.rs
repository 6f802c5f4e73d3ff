//! The driver: it owns the world, that is the storage, the resources and the
//! declared component types, and the stages with their systems.

use vstd::prelude::*;
use vstd::string::*;
use crate::archetype::{ComponentId, UNDECLARED};
use crate::archetypes::Archetypes;
use crate::error::Trace;
use crate::handle::{Component, Handle, Handles, Resource, encoded, named};
use crate::params::{Fetch, ResMut, ResRef, System};
use crate::resources::{Resources, resource_declared_as, resource_found};
use crate::scheduler::{Accessor, joined};
use crate::systems::{Systems, stage_declared};

verus! {
/// What systems work on: the storage, the resources, and the numbers of the
/// declared component types.
pub struct World {
    pub archetypes: Archetypes,
    pub resources: Resources,
    pub components: Handles,
}

impl World {
    /// The world's invariant: each of its parts is valid.
    pub open spec fn wf(&self) -> bool {
        &&& self.archetypes.wf()
        &&& self.resources.wf()
        &&& self.components.wf()
    }

    /// A world without tables, resources or component types.
    pub fn new() -> (world: World)
        ensures
            world.wf(),
            world.components@.len() == 0,
            world.resources@.values.len() == 0,
            world.archetypes@.tables.len() == 0,
    {
        World { archetypes: Archetypes::new(), resources: Resources::new(), components: Handles::new() }
    }

    /// The number of a component type, or the number that stands for "not
    /// declared".
    pub fn component<C: Component>(&self) -> (id: ComponentId)
        requires
            self.wf(),
        ensures
            id == UNDECLARED || id < self.components@.len(),
            exists|name: Seq<char>| #[trigger] named::<C>(name) && id == self.components.id(name),
    {
        let name = C::name();
        assert(named::<C>(name@));
        self.components.id_of(name)
    }
}

/// The driver: the world and the stages.
pub struct Ecs {
    pub world: World,
    pub systems: Systems,
}

impl Ecs {
    /// The driver's invariant: the world and the stages are valid.
    pub open spec fn wf(&self) -> bool {
        self.world.wf() && self.systems.wf()
    }

    /// A driver with nothing declared.
    pub fn new() -> (ecs: Ecs)
        ensures
            ecs.wf(),
            ecs.world.components@.len() == 0,
            ecs.world.resources@.values.len() == 0,
            ecs.world.archetypes@.tables.len() == 0,
            ecs.systems.startup_stages().len() == 0,
            ecs.systems.system_stages().len() == 0,
    {
        Ecs { world: World::new(), systems: Systems::new() }
    }

    /// The value of a resource type, for writing. See
    /// `Resources::get_resource_mut`.
    pub fn get_resource_mut<R: Resource>(&self) -> (found: Trace<ResMut<R>>)
        requires
            self.wf(),
        ensures
            match found {
                Trace::Pass(resource) => resource_found::<R>(
                    self.world.resources,
                    Trace::Pass(resource.0),
                ),
                Trace::Fail(message) => resource_found::<R>(
                    self.world.resources,
                    Trace::Fail(message),
                ),
            },
    {
        self.world.resources.get_resource_mut::<R>()
    }

    /// The value of a resource type, for reading. See
    /// `Resources::get_resource_ref`.
    pub fn get_resource_ref<R: Resource>(&self) -> (found: Trace<ResRef<R>>)
        requires
            self.wf(),
        ensures
            match found {
                Trace::Pass(resource) => resource_found::<R>(
                    self.world.resources,
                    Trace::Pass(resource.0),
                ),
                Trace::Fail(message) => resource_found::<R>(
                    self.world.resources,
                    Trace::Fail(message),
                ),
            },
    {
        self.world.resources.get_resource_ref::<R>()
    }

    /// Declares a component type under the next number, and returns the
    /// number. A type that is declared already is left as it is, as is every
    /// type when no number is left: the number that stands for "not declared"
    /// is returned then.
    pub fn add_component<C: Component>(&mut self) -> (id: ComponentId)
        requires
            old(self).wf(),
        ensures
            final(self).wf(),
            final(self).world.archetypes == old(self).world.archetypes,
            final(self).world.resources == old(self).world.resources,
            final(self).systems == old(self).systems,
            exists|name: Seq<char>| #[trigger]
                named::<C>(name) && (if !old(self).world.components.declares(name)
                    && old(self).world.components@.len() < UNDECLARED {
                    &&& id == old(self).world.components@.len()
                    &&& final(self).world.components@ == old(self).world.components@.push(name)
                    &&& final(self).world.components.id(name) == id
                } else {
                    &&& id == UNDECLARED
                    &&& final(self).world.components@ == old(self).world.components@
                }),
    {
        let name = C::name();
        assert(named::<C>(name@));
        self.world.components.try_declare(name)
    }

    /// Declares a resource type under the next number and stores its value.
    /// See `Resources::add_resource`.
    pub fn add_resource<R: Resource>(&mut self, resource: R) -> (id: u16)
        requires
            old(self).wf(),
        ensures
            final(self).wf(),
            final(self).world.archetypes == old(self).world.archetypes,
            final(self).world.components == old(self).world.components,
            final(self).systems == old(self).systems,
            exists|name: Seq<char>, bytes: Seq<u8>|
                #![trigger named::<R>(name), encoded::<R>(resource, bytes)]
                named::<R>(name) && encoded::<R>(resource, bytes) && resource_declared_as(
                    old(self).world.resources,
                    final(self).world.resources,
                    name,
                    bytes,
                    id,
                ),
    {
        self.world.resources.add_resource(resource)
    }

    /// Registers a system type in a startup stage. See `Systems::add_startup`.
    pub fn add_startup<'a, S: System + Fetch<'a>, H: Handle>(&mut self) -> (id: Option<usize>)
        requires
            old(self).wf(),
        ensures
            final(self).wf(),
            final(self).systems.startup_stages() == old(self).systems.startup_stages(),
            final(self).systems.system_stages() == old(self).systems.system_stages(),
            exists|stage: Seq<char>| #[trigger]
                named::<H>(stage) && ({
                    let at = old(self).systems.startup_id(stage) as int;
                    if old(self).systems.startup_id(stage) != UNDECLARED
                        && old(self).systems.startup_stage(at).registered() < usize::MAX {
                        &&& id == Some(old(self).systems.startup_stage(at).registered() as usize)
                        &&& exists|
                            name: Seq<char>,
                            a: &mut Vec<Accessor>,
                            w: &mut World,
                            outcome: Trace<()>,
                        |
                            #![trigger named::<S>(name), call_ensures(S::access, (a, w), outcome)]
                            named::<S>(name) && (*a)@.len() == 0 && *w == old(self).world && *final(w)
                                == final(self).world && call_ensures(S::access, (a, w), outcome)
                                && joined(
                                old(self).systems.startup_stage(at),
                                final(self).systems.startup_stage(at),
                                name,
                                (*final(a))@,
                                outcome,
                            )
                    } else {
                        id is None && *final(self) == *old(self)
                    }
                }),
    {
        self.systems.add_startup::<S, H>(&mut self.world)
    }

    /// Registers a system type in a system stage. See `Systems::add_system`.
    pub fn add_system<'a, S: System + Fetch<'a>, H: Handle>(&mut self) -> (id: Option<usize>)
        requires
            old(self).wf(),
        ensures
            final(self).wf(),
            final(self).systems.startup_stages() == old(self).systems.startup_stages(),
            final(self).systems.system_stages() == old(self).systems.system_stages(),
            exists|stage: Seq<char>| #[trigger]
                named::<H>(stage) && ({
                    let at = old(self).systems.system_id(stage) as int;
                    if old(self).systems.system_id(stage) != UNDECLARED
                        && old(self).systems.system_stage(at).registered() < usize::MAX {
                        &&& id == Some(old(self).systems.system_stage(at).registered() as usize)
                        &&& exists|
                            name: Seq<char>,
                            a: &mut Vec<Accessor>,
                            w: &mut World,
                            outcome: Trace<()>,
                        |
                            #![trigger named::<S>(name), call_ensures(S::access, (a, w), outcome)]
                            named::<S>(name) && (*a)@.len() == 0 && *w == old(self).world && *final(w)
                                == final(self).world && call_ensures(S::access, (a, w), outcome)
                                && joined(
                                old(self).systems.system_stage(at),
                                final(self).systems.system_stage(at),
                                name,
                                (*final(a))@,
                                outcome,
                            )
                    } else {
                        id is None && *final(self) == *old(self)
                    }
                }),
    {
        self.systems.add_system::<S, H>(&mut self.world)
    }

    /// Declares a startup stage. See `Systems::add_startup_stage`.
    pub fn add_startup_stage<H: Handle>(&mut self) -> (id: u16)
        requires
            old(self).wf(),
        ensures
            final(self).wf(),
            final(self).world == old(self).world,
            final(self).systems.system_stages() == old(self).systems.system_stages(),
            exists|name: Seq<char>| #[trigger]
                named::<H>(name) && stage_declared(
                    old(self).systems.startup_id(name),
                    old(self).systems.startup_stages(),
                    final(self).systems.startup_stages(),
                    final(self).systems.startup_id(name),
                    name,
                    id,
                ) && (id == UNDECLARED ==> *final(self) == *old(self)),
    {
        self.systems.add_startup_stage::<H>()
    }

    /// Declares a system stage. See `Systems::add_systems_stage`.
    pub fn add_system_stage<H: Handle>(&mut self) -> (id: u16)
        requires
            old(self).wf(),
        ensures
            final(self).wf(),
            final(self).world == old(self).world,
            final(self).systems.startup_stages() == old(self).systems.startup_stages(),
            exists|name: Seq<char>| #[trigger]
                named::<H>(name) && stage_declared(
                    old(self).systems.system_id(name),
                    old(self).systems.system_stages(),
                    final(self).systems.system_stages(),
                    final(self).systems.system_id(name),
                    name,
                    id,
                ) && (id == UNDECLARED ==> *final(self) == *old(self)),
    {
        self.systems.add_systems_stage::<H>()
    }
}
} // verus!
