//! The stages of the driver: startup stages, which run once, and system
//! stages, which run every frame. Each stage has a scheduler.

use vstd::prelude::*;
use vstd::string::*;
use crate::archetype::UNDECLARED;
use crate::ecs::World;
use crate::error::Trace;
use crate::handle::{Handle, Handles, lemma_name_from, named};
use crate::params::{Fetch, System};
use crate::scheduler::{
    Accessor,
    Batch,
    NodeView,
    Scheduler,
    failure_report,
    first_failure_from,
    joined,
    linked,
    member_ids,
    mode_for,
    place_all,
    ranked,
};

verus! {
/// What the declaration of a stage does to the names of the stages: a name
/// that is not declared yet gets the next number, if one is left, and stands
/// behind the others; otherwise the names stay as they are, and the number is
/// the one that stands for "not declared".
pub open spec fn stage_declared(
    was: u16,
    before: Seq<Seq<char>>,
    after: Seq<Seq<char>>,
    now: u16,
    name: Seq<char>,
    id: u16,
) -> bool {
    if was == UNDECLARED && before.len() < UNDECLARED {
        id == before.len() && after == before.push(name) && now == id
    } else {
        id == UNDECLARED && after == before
    }
}

/// Whether the declaration of a waiting system of the stage failed.
pub open spec fn fails(stage: Scheduler) -> bool {
    first_failure_from(stage.waiting(), 0) is Some
}

/// The report of the first waiting system of the stage whose declaration
/// failed.
pub open spec fn report_of(stage: Scheduler) -> Seq<char> {
    let at = first_failure_from(stage.waiting(), 0)->0;
    failure_report(stage.stage(), stage.waiting()[at].name, stage.waiting()[at].failure->0)
}

/// Whether the one scheduler is the other after its finalization: no system
/// waits, and the systems that waited are placed in the groups.
pub open spec fn finalized(before: Scheduler, after: Scheduler) -> bool {
    &&& after.waiting().len() == 0
    &&& after.groups() == place_all(ranked(linked(before.waiting())), before.groups())
}

/// Whether the one scheduler has the waiting systems and the groups of the
/// other.
pub open spec fn kept(before: Scheduler, after: Scheduler) -> bool {
    after.waiting() == before.waiting() && after.groups() == before.groups()
}

/// The stages and their schedulers.
pub struct Systems {
    startup: Vec<Scheduler>,
    systems: Vec<Scheduler>,
    startup_names: Handles,
    system_names: Handles,
}

impl Systems {
    /// The names of the startup stages, in the order of declaration.
    pub closed spec fn startup_stages(&self) -> Seq<Seq<char>> {
        self.startup_names@
    }

    /// The names of the system stages, in the order of declaration.
    pub closed spec fn system_stages(&self) -> Seq<Seq<char>> {
        self.system_names@
    }

    /// The scheduler of the startup stage with the given number.
    pub closed spec fn startup_stage(&self, i: int) -> Scheduler {
        self.startup@[i]
    }

    /// The scheduler of the system stage with the given number.
    pub closed spec fn system_stage(&self, i: int) -> Scheduler {
        self.systems@[i]
    }

    /// The number of a startup stage, or the number that stands for "not
    /// declared".
    pub closed spec fn startup_id(&self, name: Seq<char>) -> u16 {
        self.startup_names.id(name)
    }

    /// The number of a system stage, or the number that stands for "not
    /// declared".
    pub closed spec fn system_id(&self, name: Seq<char>) -> u16 {
        self.system_names.id(name)
    }

    /// The invariant: every declared stage has a valid scheduler of its name,
    /// and no stage is declared twice.
    pub closed spec fn wf(&self) -> bool {
        &&& self.startup_names.wf()
        &&& self.system_names.wf()
        &&& self.startup@.len() == self.startup_names@.len()
        &&& self.systems@.len() == self.system_names@.len()
        &&& forall|i: int|
            0 <= i < self.startup@.len() ==> (#[trigger] self.startup@[i]).wf()
                && self.startup@[i].stage() == self.startup_names@[i]
        &&& forall|i: int|
            0 <= i < self.systems@.len() ==> (#[trigger] self.systems@[i]).wf()
                && self.systems@[i].stage() == self.system_names@[i]
    }

    /// A declared stage has a number below the number of stages, and a stage
    /// that is not declared has the number that stands for that.
    pub proof fn lemma_ids(&self, name: Seq<char>)
        requires
            self.wf(),
        ensures
            self.startup_id(name) != UNDECLARED ==> self.startup_id(name)
                < self.startup_stages().len() && self.startup_stages()[self.startup_id(name) as int]
                == name && self.startup_stage(self.startup_id(name) as int).wf(),
            self.system_id(name) != UNDECLARED ==> self.system_id(name) < self.system_stages().len()
                && self.system_stages()[self.system_id(name) as int] == name && self.system_stage(
                self.system_id(name) as int,
            ).wf(),
    {
        lemma_name_from(self.startup_names@, name, 0);
        lemma_name_from(self.system_names@, name, 0);
    }

    /// No stages.
    pub fn new() -> (systems: Systems)
        ensures
            systems.wf(),
            systems.startup_stages().len() == 0,
            systems.system_stages().len() == 0,
    {
        Systems {
            startup: Vec::new(),
            systems: Vec::new(),
            startup_names: Handles::new(),
            system_names: Handles::new(),
        }
    }

    /// The number of the startup stage of a name, or the number that stands
    /// for "not declared".
    pub fn startup_handle(&self, name: &str) -> (id: u16)
        requires
            self.wf(),
        ensures
            id == self.startup_id(name@),
            id != UNDECLARED ==> id < self.startup_stages().len(),
    {
        proof {
            self.lemma_ids(name@);
        }
        self.startup_names.id_of(name)
    }

    /// The number of the system stage of a name, or the number that stands
    /// for "not declared".
    pub fn system_handle(&self, name: &str) -> (id: u16)
        requires
            self.wf(),
        ensures
            id == self.system_id(name@),
            id != UNDECLARED ==> id < self.system_stages().len(),
    {
        proof {
            self.lemma_ids(name@);
        }
        self.system_names.id_of(name)
    }

    /// Declares a startup stage of the given name under the next number,
    /// without systems.
    ///
    /// The name must not be declared already, and a number must be left.
    pub fn declare_startup_stage(&mut self, name: &str) -> (id: u16)
        requires
            old(self).wf(),
            old(self).startup_id(name@) == UNDECLARED,
            old(self).startup_stages().len() < UNDECLARED,
        ensures
            final(self).wf(),
            id == old(self).startup_stages().len(),
            final(self).startup_stages() == old(self).startup_stages().push(name@),
            final(self).system_stages() == old(self).system_stages(),
            final(self).startup_id(name@) == id,
            final(self).startup_stage(id as int).waiting().len() == 0,
            final(self).startup_stage(id as int).groups().len() == 0,
            forall|i: int|
                0 <= i < old(self).startup_stages().len() ==> final(self).startup_stage(i) == old(
                    self,
                ).startup_stage(i),
            forall|i: int|
                0 <= i < old(self).system_stages().len() ==> final(self).system_stage(i) == old(
                    self,
                ).system_stage(i),
    {
        proof {
            lemma_name_from(self.startup_names@, name@, 0);
        }
        let id = self.startup_names.declare(name);
        self.startup.push(Scheduler::new(name));
        id
    }

    /// Declares a system stage of the given name under the next number,
    /// without systems.
    ///
    /// The name must not be declared already, and a number must be left.
    pub fn declare_systems_stage(&mut self, name: &str) -> (id: u16)
        requires
            old(self).wf(),
            old(self).system_id(name@) == UNDECLARED,
            old(self).system_stages().len() < UNDECLARED,
        ensures
            final(self).wf(),
            id == old(self).system_stages().len(),
            final(self).system_stages() == old(self).system_stages().push(name@),
            final(self).startup_stages() == old(self).startup_stages(),
            final(self).system_id(name@) == id,
            final(self).system_stage(id as int).waiting().len() == 0,
            final(self).system_stage(id as int).groups().len() == 0,
            forall|i: int|
                0 <= i < old(self).startup_stages().len() ==> final(self).startup_stage(i) == old(
                    self,
                ).startup_stage(i),
            forall|i: int|
                0 <= i < old(self).system_stages().len() ==> final(self).system_stage(i) == old(
                    self,
                ).system_stage(i),
    {
        proof {
            lemma_name_from(self.system_names@, name@, 0);
        }
        let id = self.system_names.declare(name);
        self.systems.push(Scheduler::new(name));
        id
    }

    /// Declares a startup stage of the given name, if the name is not
    /// declared yet and a number is left. Returns the number of the stage, or
    /// else the number that stands for "not declared".
    pub fn try_declare_startup_stage(&mut self, name: &str) -> (id: u16)
        requires
            old(self).wf(),
        ensures
            final(self).wf(),
            final(self).system_stages() == old(self).system_stages(),
            if old(self).startup_id(name@) == UNDECLARED && old(self).startup_stages().len()
                < UNDECLARED {
                &&& id == old(self).startup_stages().len()
                &&& final(self).startup_stages() == old(self).startup_stages().push(name@)
                &&& final(self).startup_id(name@) == id
                &&& final(self).startup_stage(id as int).waiting().len() == 0
                &&& final(self).startup_stage(id as int).groups().len() == 0
            } else {
                &&& id == UNDECLARED
                &&& *final(self) == *old(self)
            },
    {
        if self.startup.len() >= UNDECLARED as usize || self.startup_handle(name) != UNDECLARED {
            return UNDECLARED;
        }
        self.declare_startup_stage(name)
    }

    /// Declares a system stage of the given name, if the name is not declared
    /// yet and a number is left. Returns the number of the stage, or else the
    /// number that stands for "not declared".
    pub fn try_declare_systems_stage(&mut self, name: &str) -> (id: u16)
        requires
            old(self).wf(),
        ensures
            final(self).wf(),
            final(self).startup_stages() == old(self).startup_stages(),
            if old(self).system_id(name@) == UNDECLARED && old(self).system_stages().len()
                < UNDECLARED {
                &&& id == old(self).system_stages().len()
                &&& final(self).system_stages() == old(self).system_stages().push(name@)
                &&& final(self).system_id(name@) == id
                &&& final(self).system_stage(id as int).waiting().len() == 0
                &&& final(self).system_stage(id as int).groups().len() == 0
            } else {
                &&& id == UNDECLARED
                &&& *final(self) == *old(self)
            },
    {
        if self.systems.len() >= UNDECLARED as usize || self.system_handle(name) != UNDECLARED {
            return UNDECLARED;
        }
        self.declare_systems_stage(name)
    }

    /// Registers a system in the startup stage of the given name, with the
    /// accesses it declared and the trace of the declaration, if that failed.
    /// Returns the system's registration number in that stage. Nothing is
    /// registered, and `None` is returned, if the stage is not declared or
    /// has no registration number left.
    pub fn register_startup(
        &mut self,
        stage: &str,
        name: &str,
        accessors: Vec<Accessor>,
        failure: Option<String>,
    ) -> (id: Option<usize>)
        requires
            old(self).wf(),
        ensures
            final(self).wf(),
            final(self).startup_stages() == old(self).startup_stages(),
            final(self).system_stages() == old(self).system_stages(),
            ({
                let at = old(self).startup_id(stage@) as int;
                let before = old(self).startup_stage(at);
                if old(self).startup_id(stage@) != UNDECLARED && before.registered() < usize::MAX {
                    &&& id == Some(before.registered() as usize)
                    &&& final(self).startup_stage(at).registered() == before.registered() + 1
                    &&& final(self).startup_stage(at).groups() == before.groups()
                    &&& final(self).startup_stage(at).waiting() == before.waiting().push(
                        NodeView {
                            id: before.registered() as usize,
                            name: name@,
                            accessors: accessors@,
                            edges: Seq::empty(),
                            failure: match failure {
                                Some(trace) => Some(trace@),
                                None => None,
                            },
                        },
                    )
                } else {
                    &&& id is None
                    &&& *final(self) == *old(self)
                }
            }),
    {
        let at = self.startup_handle(stage);
        if at == UNDECLARED {
            return None;
        }
        proof {
            self.lemma_ids(stage@);
        }
        if self.startup[at as usize].is_full() {
            return None;
        }
        let id = self.startup[at as usize].register(name, accessors, failure);
        Some(id)
    }

    /// Registers a system in the system stage of the given name, with the
    /// accesses it declared and the trace of the declaration, if that failed.
    /// Returns the system's registration number in that stage. Nothing is
    /// registered, and `None` is returned, if the stage is not declared or
    /// has no registration number left.
    pub fn register_system(
        &mut self,
        stage: &str,
        name: &str,
        accessors: Vec<Accessor>,
        failure: Option<String>,
    ) -> (id: Option<usize>)
        requires
            old(self).wf(),
        ensures
            final(self).wf(),
            final(self).startup_stages() == old(self).startup_stages(),
            final(self).system_stages() == old(self).system_stages(),
            ({
                let at = old(self).system_id(stage@) as int;
                let before = old(self).system_stage(at);
                if old(self).system_id(stage@) != UNDECLARED && before.registered() < usize::MAX {
                    &&& id == Some(before.registered() as usize)
                    &&& final(self).system_stage(at).registered() == before.registered() + 1
                    &&& final(self).system_stage(at).groups() == before.groups()
                    &&& final(self).system_stage(at).waiting() == before.waiting().push(
                        NodeView {
                            id: before.registered() as usize,
                            name: name@,
                            accessors: accessors@,
                            edges: Seq::empty(),
                            failure: match failure {
                                Some(trace) => Some(trace@),
                                None => None,
                            },
                        },
                    )
                } else {
                    &&& id is None
                    &&& *final(self) == *old(self)
                }
            }),
    {
        let at = self.system_handle(stage);
        if at == UNDECLARED {
            return None;
        }
        proof {
            self.lemma_ids(stage@);
        }
        if self.systems[at as usize].is_full() {
            return None;
        }
        let id = self.systems[at as usize].register(name, accessors, failure);
        Some(id)
    }

    /// Declares the startup stage of a handle type, as
    /// `try_declare_startup_stage` does with the name of the type, and returns
    /// its number. A stage that is declared already is left as it is, as is
    /// every stage when no number is left: the number that stands for "not
    /// declared" is returned then.
    pub fn add_startup_stage<H: Handle>(&mut self) -> (id: u16)
        requires
            old(self).wf(),
        ensures
            final(self).wf(),
            final(self).system_stages() == old(self).system_stages(),
            exists|name: Seq<char>| #[trigger]
                named::<H>(name) && stage_declared(
                    old(self).startup_id(name),
                    old(self).startup_stages(),
                    final(self).startup_stages(),
                    final(self).startup_id(name),
                    name,
                    id,
                ) && (id == UNDECLARED ==> *final(self) == *old(self)) && (id != UNDECLARED ==> {
                    &&& final(self).startup_stage(id as int).waiting().len() == 0
                    &&& final(self).startup_stage(id as int).groups().len() == 0
                }),
    {
        let name = H::name();
        assert(named::<H>(name@));
        self.try_declare_startup_stage(name)
    }

    /// Declares the system stage of a handle type, as
    /// `try_declare_systems_stage` does with the name of the type, and returns
    /// its number. A stage that is
    /// declared already is left as it is, as is every stage when no number is
    /// left: the number that stands for "not declared" is returned then.
    pub fn add_systems_stage<H: Handle>(&mut self) -> (id: u16)
        requires
            old(self).wf(),
        ensures
            final(self).wf(),
            final(self).startup_stages() == old(self).startup_stages(),
            exists|name: Seq<char>| #[trigger]
                named::<H>(name) && stage_declared(
                    old(self).system_id(name),
                    old(self).system_stages(),
                    final(self).system_stages(),
                    final(self).system_id(name),
                    name,
                    id,
                ) && (id == UNDECLARED ==> *final(self) == *old(self)) && (id != UNDECLARED ==> {
                    &&& final(self).system_stage(id as int).waiting().len() == 0
                    &&& final(self).system_stage(id as int).groups().len() == 0
                }),
    {
        let name = H::name();
        assert(named::<H>(name@));
        self.try_declare_systems_stage(name)
    }

    /// Registers a system type in the startup stage of a handle type, as
    /// `register_startup` does with the names of the types and with what the
    /// parameters of the system declare, and returns the system's
    /// registration number in that stage. Nothing is registered, and `None`
    /// is returned, if the stage is not declared or the stage has no
    /// registration number left.
    pub fn add_startup<'a, S: System + Fetch<'a>, H: Handle>(&mut self, world: &mut World) -> (id:
        Option<usize>)
        requires
            old(self).wf(),
            old(world).wf(),
        ensures
            final(self).wf(),
            final(world).wf(),
            final(self).startup_stages() == old(self).startup_stages(),
            final(self).system_stages() == old(self).system_stages(),
            exists|stage: Seq<char>| #[trigger]
                named::<H>(stage) && ({
                    let at = old(self).startup_id(stage) as int;
                    if old(self).startup_id(stage) != UNDECLARED
                        && old(self).startup_stage(at).registered() < usize::MAX {
                        &&& id == Some(old(self).startup_stage(at).registered() as usize)
                        &&& exists|
                            name: Seq<char>,
                            a: &mut Vec<Accessor>,
                            w: &mut World,
                            outcome: Trace<()>,
                        |
                            #![trigger named::<S>(name), call_ensures(S::access, (a, w), outcome)]
                            named::<S>(name) && (*a)@.len() == 0 && *w == *old(world) && *final(w)
                                == *final(world) && call_ensures(S::access, (a, w), outcome)
                                && joined(
                                old(self).startup_stage(at),
                                final(self).startup_stage(at),
                                name,
                                (*final(a))@,
                                outcome,
                            )
                    } else {
                        id is None && *final(self) == *old(self) && *final(world) == *old(world)
                    }
                }),
    {
        let stage = H::name();
        assert(named::<H>(stage@));
        let at = self.startup_handle(stage);
        if at == UNDECLARED {
            return None;
        }
        proof {
            self.lemma_ids(stage@);
        }
        if self.startup[at as usize].is_full() {
            return None;
        }
        let mut accessors: Vec<Accessor> = Vec::new();
        let outcome = S::access(&mut accessors, world);
        let ghost declared = outcome;
        let failure = match outcome {
            Trace::Pass(_) => None,
            Trace::Fail(trace) => Some(trace),
        };
        let name = S::name();
        assert(named::<S>(name@));
        let id = self.register_startup(stage, name, accessors, failure);
        assert(joined(
            old(self).startup_stage(at as int),
            self.startup_stage(at as int),
            name@,
            accessors@,
            declared,
        ));
        id
    }

    /// Registers a system type in the system stage of a handle type, as
    /// `register_system` does with the names of the types and with what the
    /// parameters of the system declare, and returns the system's
    /// registration number in that stage. Nothing is registered, and `None`
    /// is returned, if the stage is not declared or the stage has no
    /// registration number left.
    pub fn add_system<'a, S: System + Fetch<'a>, H: Handle>(&mut self, world: &mut World) -> (id:
        Option<usize>)
        requires
            old(self).wf(),
            old(world).wf(),
        ensures
            final(self).wf(),
            final(world).wf(),
            final(self).startup_stages() == old(self).startup_stages(),
            final(self).system_stages() == old(self).system_stages(),
            exists|stage: Seq<char>| #[trigger]
                named::<H>(stage) && ({
                    let at = old(self).system_id(stage) as int;
                    if old(self).system_id(stage) != UNDECLARED
                        && old(self).system_stage(at).registered() < usize::MAX {
                        &&& id == Some(old(self).system_stage(at).registered() as usize)
                        &&& exists|
                            name: Seq<char>,
                            a: &mut Vec<Accessor>,
                            w: &mut World,
                            outcome: Trace<()>,
                        |
                            #![trigger named::<S>(name), call_ensures(S::access, (a, w), outcome)]
                            named::<S>(name) && (*a)@.len() == 0 && *w == *old(world) && *final(w)
                                == *final(world) && call_ensures(S::access, (a, w), outcome)
                                && joined(
                                old(self).system_stage(at),
                                final(self).system_stage(at),
                                name,
                                (*final(a))@,
                                outcome,
                            )
                    } else {
                        id is None && *final(self) == *old(self) && *final(world) == *old(world)
                    }
                }),
    {
        let stage = H::name();
        assert(named::<H>(stage@));
        let at = self.system_handle(stage);
        if at == UNDECLARED {
            return None;
        }
        proof {
            self.lemma_ids(stage@);
        }
        if self.systems[at as usize].is_full() {
            return None;
        }
        let mut accessors: Vec<Accessor> = Vec::new();
        let outcome = S::access(&mut accessors, world);
        let ghost declared = outcome;
        let failure = match outcome {
            Trace::Pass(_) => None,
            Trace::Fail(trace) => Some(trace),
        };
        let name = S::name();
        assert(named::<S>(name@));
        let id = self.register_system(stage, name, accessors, failure);
        assert(joined(
            old(self).system_stage(at as int),
            self.system_stage(at as int),
            name@,
            accessors@,
            declared,
        ));
        id
    }

    /// Finalizes every stage, the startup stages first, each kind in the
    /// order of declaration. Stops at the first stage that reports a failed
    /// system, and returns its report.
    pub fn finalize(&mut self) -> (outcome: Trace<()>)
        requires
            old(self).wf(),
        ensures
            final(self).wf(),
            final(self).startup_stages() == old(self).startup_stages(),
            final(self).system_stages() == old(self).system_stages(),
            match outcome {
                Trace::Pass(_) => {
                    &&& forall|i: int|
                        0 <= i < old(self).startup_stages().len() ==> finalized(
                            #[trigger] old(self).startup_stage(i),
                            final(self).startup_stage(i),
                        )
                    &&& forall|i: int|
                        0 <= i < old(self).system_stages().len() ==> finalized(
                            #[trigger] old(self).system_stage(i),
                            final(self).system_stage(i),
                        )
                },
                Trace::Fail(message) => {
                    ||| exists|i: int|
                        {
                            &&& 0 <= i < old(self).startup_stages().len()
                            &&& fails(#[trigger] old(self).startup_stage(i))
                            &&& message@ == report_of(old(self).startup_stage(i))
                            &&& forall|k: int|
                                0 <= k < i ==> !fails(#[trigger] old(self).startup_stage(k))
                                    && finalized(
                                    old(self).startup_stage(k),
                                    final(self).startup_stage(k),
                                )
                            &&& forall|k: int|
                                i <= k < old(self).startup_stages().len() ==> kept(
                                    #[trigger] old(self).startup_stage(k),
                                    final(self).startup_stage(k),
                                )
                            &&& forall|k: int|
                                0 <= k < old(self).system_stages().len() ==> kept(
                                    #[trigger] old(self).system_stage(k),
                                    final(self).system_stage(k),
                                )
                        }
                    ||| exists|j: int|
                        {
                            &&& 0 <= j < old(self).system_stages().len()
                            &&& fails(#[trigger] old(self).system_stage(j))
                            &&& message@ == report_of(old(self).system_stage(j))
                            &&& forall|k: int|
                                0 <= k < old(self).startup_stages().len() ==> !fails(
                                    #[trigger] old(self).startup_stage(k),
                                ) && finalized(
                                    old(self).startup_stage(k),
                                    final(self).startup_stage(k),
                                )
                            &&& forall|k: int|
                                0 <= k < j ==> !fails(#[trigger] old(self).system_stage(k))
                                    && finalized(
                                    old(self).system_stage(k),
                                    final(self).system_stage(k),
                                )
                            &&& forall|k: int|
                                j <= k < old(self).system_stages().len() ==> kept(
                                    #[trigger] old(self).system_stage(k),
                                    final(self).system_stage(k),
                                )
                        }
                },
            },
            outcome is Fail <==> (exists|i: int|
                0 <= i < old(self).startup_stages().len() && first_failure_from(
                    (#[trigger] old(self).startup_stage(i)).waiting(),
                    0,
                ) is Some) || (exists|i: int|
                0 <= i < old(self).system_stages().len() && first_failure_from(
                    (#[trigger] old(self).system_stage(i)).waiting(),
                    0,
                ) is Some),
    {
        let mut i: usize = 0;
        while i < self.startup.len()
            invariant
                self.wf(),
                self.startup_names == old(self).startup_names,
                self.system_names == old(self).system_names,
                self.systems == old(self).systems,
                i <= self.startup@.len(),
                self.startup@.len() == old(self).startup@.len(),
                forall|k: int|
                    0 <= k < i ==> (#[trigger] self.startup@[k]).waiting().len() == 0
                        && self.startup@[k].groups() == place_all(
                        ranked(linked(old(self).startup@[k].waiting())),
                        old(self).startup@[k].groups(),
                    ),
                forall|k: int|
                    0 <= k < i ==> first_failure_from(
                        (#[trigger] old(self).startup@[k]).waiting(),
                        0,
                    ) is None,
                forall|k: int| i <= k < self.startup@.len() ==> self.startup@[k] == old(self).startup@[k],
            decreases self.startup@.len() - i,
        {
            let outcome = self.startup[i].finalize();
            if let Trace::Fail(report) = outcome {
                assert(first_failure_from(old(self).startup_stage(i as int).waiting(), 0) is Some);
                return Trace::Fail(report);
            }
            i += 1;
        }
        let mut j: usize = 0;
        while j < self.systems.len()
            invariant
                self.wf(),
                self.startup_names == old(self).startup_names,
                self.system_names == old(self).system_names,
                j <= self.systems@.len(),
                self.systems@.len() == old(self).systems@.len(),
                forall|k: int|
                    0 <= k < self.startup@.len() ==> (#[trigger] self.startup@[k]).waiting().len() == 0
                        && self.startup@[k].groups() == place_all(
                        ranked(linked(old(self).startup@[k].waiting())),
                        old(self).startup@[k].groups(),
                    ),
                forall|k: int|
                    0 <= k < j ==> (#[trigger] self.systems@[k]).waiting().len() == 0
                        && self.systems@[k].groups() == place_all(
                        ranked(linked(old(self).systems@[k].waiting())),
                        old(self).systems@[k].groups(),
                    ),
                forall|k: int|
                    0 <= k < self.startup@.len() ==> first_failure_from(
                        (#[trigger] old(self).startup@[k]).waiting(),
                        0,
                    ) is None,
                forall|k: int|
                    0 <= k < j ==> first_failure_from(
                        (#[trigger] old(self).systems@[k]).waiting(),
                        0,
                    ) is None,
                self.startup@.len() == old(self).startup@.len(),
                forall|k: int| j <= k < self.systems@.len() ==> self.systems@[k] == old(self).systems@[k],
            decreases self.systems@.len() - j,
        {
            let outcome = self.systems[j].finalize();
            if let Trace::Fail(report) = outcome {
                assert(first_failure_from(old(self).system_stage(j as int).waiting(), 0) is Some);
                return Trace::Fail(report);
            }
            j += 1;
        }
        Trace::Pass(())
    }

    /// The steps in which the startup stages are executed, stage by stage in
    /// the order of declaration. They are run once, before the first system
    /// stage.
    pub fn execute_startup(&self) -> (plans: Vec<Vec<Batch>>)
        requires
            self.wf(),
        ensures
            plans@.len() == self.startup_stages().len(),
            forall|i: int, g: int|
                0 <= i < plans@.len() && 0 <= g < self.startup_stage(i).groups().len() ==> {
                    &&& plans@[i]@.len() == self.startup_stage(i).groups().len()
                    &&& (#[trigger] plans@[i]@[g]).systems@ == member_ids(self.startup_stage(i).groups()[g])
                    &&& plans@[i]@[g].mode == mode_for(self.startup_stage(i).groups()[g].len() as int)
                },
            forall|i: int|
                0 <= i < plans@.len() ==> (#[trigger] plans@[i])@.len() == self.startup_stage(
                    i,
                ).groups().len(),
    {
        let mut plans: Vec<Vec<Batch>> = Vec::new();
        let mut i: usize = 0;
        while i < self.startup.len()
            invariant
                self.wf(),
                i <= self.startup@.len(),
                plans@.len() == i,
                forall|k: int|
                    0 <= k < i ==> (#[trigger] plans@[k])@.len() == self.startup@[k].groups().len(),
                forall|k: int, g: int|
                    0 <= k < i && 0 <= g < self.startup@[k].groups().len() ==> {
                        &&& (#[trigger] plans@[k]@[g]).systems@ == member_ids(
                            self.startup@[k].groups()[g],
                        )
                        &&& plans@[k]@[g].mode == mode_for(self.startup@[k].groups()[g].len() as int)
                    },
            decreases self.startup@.len() - i,
        {
            plans.push(self.startup[i].execute());
            i += 1;
        }
        plans
    }

    /// The steps in which the system stages are executed, stage by stage in
    /// the order of declaration.
    pub fn schedule(&self) -> (plans: Vec<Vec<Batch>>)
        requires
            self.wf(),
        ensures
            plans@.len() == self.system_stages().len(),
            forall|i: int, g: int|
                0 <= i < plans@.len() && 0 <= g < self.system_stage(i).groups().len() ==> {
                    &&& plans@[i]@.len() == self.system_stage(i).groups().len()
                    &&& (#[trigger] plans@[i]@[g]).systems@ == member_ids(self.system_stage(i).groups()[g])
                    &&& plans@[i]@[g].mode == mode_for(self.system_stage(i).groups()[g].len() as int)
                },
            forall|i: int|
                0 <= i < plans@.len() ==> (#[trigger] plans@[i])@.len() == self.system_stage(
                    i,
                ).groups().len(),
    {
        let mut plans: Vec<Vec<Batch>> = Vec::new();
        let mut i: usize = 0;
        while i < self.systems.len()
            invariant
                self.wf(),
                i <= self.systems@.len(),
                plans@.len() == i,
                forall|k: int|
                    0 <= k < i ==> (#[trigger] plans@[k])@.len() == self.systems@[k].groups().len(),
                forall|k: int, g: int|
                    0 <= k < i && 0 <= g < self.systems@[k].groups().len() ==> {
                        &&& (#[trigger] plans@[k]@[g]).systems@ == member_ids(
                            self.systems@[k].groups()[g],
                        )
                        &&& plans@[k]@[g].mode == mode_for(self.systems@[k].groups()[g].len() as int)
                    },
            decreases self.systems@.len() - i,
        {
            plans.push(self.systems[i].execute());
            i += 1;
        }
        plans
    }
}
} // verus!
