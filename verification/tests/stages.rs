use archetype_ecs::anon::Anon;
use archetype_ecs::archetype::UNDECLARED;
use archetype_ecs::commands::Commands;
use archetype_ecs::ecs::{Ecs, World};
use archetype_ecs::error::Trace;
use archetype_ecs::handle::{Component, Handle, Plain, Resource};
use archetype_ecs::package::Package;
use archetype_ecs::params::{Effects, Fetch, ResMut, ResRef, System};
use archetype_ecs::query::{IntoQuery, Mut, Query, Ref};
use archetype_ecs::resources::Resources;
use archetype_ecs::scheduler::{Accessor, RunMode, Scheduler};
use archetype_ecs::systems::Systems;

struct Startup;
struct Update;
struct Render;

impl Handle for Startup {
    fn name() -> &'static str {
        "Startup"
    }
}

impl Handle for Update {
    fn name() -> &'static str {
        "Update"
    }
}

impl Handle for Render {
    fn name() -> &'static str {
        "Render"
    }
}

#[derive(Debug, Clone, Copy, PartialEq)]
struct Frame(u32);

impl Handle for Frame {
    fn name() -> &'static str {
        "Frame"
    }
}

impl Plain for Frame {
    fn to_bytes(&self) -> Vec<u8> {
        self.0.to_le_bytes().to_vec()
    }

    fn from_bytes(bytes: &Vec<u8>) -> Self {
        Frame(u32::from_le_bytes([bytes[0], bytes[1], bytes[2], bytes[3]]))
    }
}

impl Resource for Frame {}

struct Clock;

impl Handle for Clock {
    fn name() -> &'static str {
        "Clock"
    }
}

impl Plain for Clock {
    fn to_bytes(&self) -> Vec<u8> {
        Vec::new()
    }

    fn from_bytes(_: &Vec<u8>) -> Self {
        Clock
    }
}

impl Resource for Clock {}

#[derive(Debug, Clone, Copy, PartialEq)]
struct Speed(u8);

impl Handle for Speed {
    fn name() -> &'static str {
        "Speed"
    }
}

impl Plain for Speed {
    fn to_bytes(&self) -> Vec<u8> {
        vec![self.0]
    }

    fn from_bytes(bytes: &Vec<u8>) -> Self {
        Speed(bytes[0])
    }
}

impl Component for Speed {
    fn needs_drop() -> bool {
        false
    }
}

/// Counts the frames: reads and writes the frame counter.
struct Tick {
    frame: ResMut<Frame>,
}

impl Handle for Tick {
    fn name() -> &'static str {
        "Tick"
    }
}

impl<'a> Fetch<'a> for Tick {
    fn fetch(world: &'a World) -> Trace<Self> {
        match <ResMut<Frame>>::fetch(world) {
            Trace::Pass(frame) => Trace::Pass(Tick { frame }),
            Trace::Fail(trace) => Trace::Fail(trace),
        }
    }

    fn access(v: &mut Vec<Accessor>, world: &mut World) -> Trace<()> {
        <ResMut<Frame>>::access(v, world)
    }
}

impl System for Tick {
    fn execute(mut self) -> Trace<Effects> {
        let next = Frame(self.frame.get().0 + 1);
        self.frame.set(next);
        let mut effects = Effects::new();
        effects.put(0, self.frame.get().to_bytes());
        Trace::Pass(effects)
    }
}

/// Reads the frame counter.
struct Show {
    frame: ResRef<Frame>,
}

impl Handle for Show {
    fn name() -> &'static str {
        "Show"
    }
}

impl<'a> Fetch<'a> for Show {
    fn fetch(world: &'a World) -> Trace<Self> {
        match <ResRef<Frame>>::fetch(world) {
            Trace::Pass(frame) => Trace::Pass(Show { frame }),
            Trace::Fail(trace) => Trace::Fail(trace),
        }
    }

    fn access(v: &mut Vec<Accessor>, world: &mut World) -> Trace<()> {
        <ResRef<Frame>>::access(v, world)
    }
}

impl System for Show {
    fn execute(self) -> Trace<Effects> {
        let _ = self.frame.get();
        Trace::Pass(Effects::new())
    }
}

/// Asks for a resource that nobody declares.
struct Broken;

impl Handle for Broken {
    fn name() -> &'static str {
        "Broken"
    }
}

impl<'a> Fetch<'a> for Broken {
    fn fetch(world: &'a World) -> Trace<Self> {
        match <ResRef<Clock>>::fetch(world) {
            Trace::Pass(_) => Trace::Pass(Broken),
            Trace::Fail(trace) => Trace::Fail(trace),
        }
    }

    fn access(v: &mut Vec<Accessor>, world: &mut World) -> Trace<()> {
        <ResRef<Clock>>::access(v, world)
    }
}

impl System for Broken {
    fn execute(self) -> Trace<Effects> {
        Trace::Pass(Effects::new())
    }
}

/// Doubles every speed, and spawns one entity with the sum of the speeds.
struct Accelerate<'a> {
    speeds: Query<'a, (Mut<Speed>,)>,
    commands: Commands,
}

impl<'a> Handle for Accelerate<'a> {
    fn name() -> &'static str {
        "Accelerate"
    }
}

impl<'a> Fetch<'a> for Accelerate<'a> {
    fn fetch(world: &'a World) -> Trace<Self> {
        match <(Query<'a, (Mut<Speed>,)>, Commands)>::fetch(world) {
            Trace::Pass((speeds, commands)) => Trace::Pass(Accelerate { speeds, commands }),
            Trace::Fail(trace) => Trace::Fail(trace),
        }
    }

    fn access(v: &mut Vec<Accessor>, world: &mut World) -> Trace<()> {
        <(Query<'a, (Mut<Speed>,)>, Commands)>::access(v, world)
    }
}

impl<'a> System for Accelerate<'a> {
    fn execute(mut self) -> Trace<Effects> {
        let mut effects = Effects::new();
        let mut sum = 0;
        while let Some((mut speed, _)) = self.speeds.rows.next() {
            sum += speed.get().0;
            speed.set(Speed(speed.get().0 * 2));
            effects.write_back(&speed);
        }
        let mut package = Package::new();
        package.insert_anon(Anon::new::<Speed>(1, &Speed(sum)));
        self.commands.spawn_package(package);
        effects.submit(self.commands);
        Trace::Pass(effects)
    }
}

struct Padding;

impl Handle for Padding {
    fn name() -> &'static str {
        "Padding"
    }
}

impl Plain for Padding {
    fn to_bytes(&self) -> Vec<u8> {
        Vec::new()
    }

    fn from_bytes(_: &Vec<u8>) -> Self {
        Padding
    }
}

impl Component for Padding {
    fn needs_drop() -> bool {
        false
    }
}

fn report<T>(trace: Trace<T>) -> String {
    match trace {
        Trace::Pass(_) => panic!("expected a failure"),
        Trace::Fail(message) => message,
    }
}

#[test]
fn stages_are_numbered_in_declaration_order() {
    let mut ecs = Ecs::new();
    assert_eq!(ecs.add_startup_stage::<Startup>(), 0);
    assert_eq!(ecs.add_system_stage::<Update>(), 0);
    assert_eq!(ecs.add_system_stage::<Render>(), 1);
    assert_eq!(ecs.add_system_stage::<Update>(), UNDECLARED);
    assert_eq!(ecs.add_startup_stage::<Startup>(), UNDECLARED);
    assert_eq!(ecs.systems.system_handle("Render"), 1);
    assert_eq!(ecs.systems.system_handle("Startup"), UNDECLARED);
    assert_eq!(ecs.systems.startup_handle("Startup"), 0);
    let mut systems = Systems::new();
    assert_eq!(systems.declare_startup_stage("first"), 0);
    assert_eq!(systems.declare_systems_stage("first"), 0);
    assert_eq!(systems.declare_systems_stage("second"), 1);
    assert_eq!(systems.add_systems_stage::<Update>(), 2);
    assert_eq!(systems.add_startup_stage::<Update>(), 1);
}

#[test]
fn systems_are_registered_in_their_stage() {
    let mut ecs = Ecs::new();
    assert_eq!(ecs.add_resource(Frame(0)), 0);
    assert_eq!(ecs.add_startup_stage::<Startup>(), 0);
    assert_eq!(ecs.add_system_stage::<Update>(), 0);
    assert_eq!(ecs.add_system_stage::<Render>(), 1);
    assert_eq!(ecs.add_system::<Tick, Update>(), Some(0));
    assert_eq!(ecs.add_system::<Show, Update>(), Some(1));
    assert_eq!(ecs.add_system::<Show, Render>(), Some(0));
    assert_eq!(ecs.add_system::<Show, Render>(), Some(1));
    assert_eq!(ecs.add_system::<Show, Render>(), Some(2));
    assert_eq!(ecs.add_startup::<Tick, Startup>(), Some(0));
    // a stage that was not declared takes no system
    assert_eq!(ecs.add_system::<Show, Startup>(), None);
    assert_eq!(ecs.add_startup::<Show, Update>(), None);
    assert!(ecs.systems.finalize().is_ok());

    let startup = ecs.systems.execute_startup();
    assert_eq!(startup.len(), 1);
    assert_eq!(startup[0].len(), 1);
    assert_eq!(startup[0][0].systems, vec![0]);
    assert_eq!(startup[0][0].mode, RunMode::Inline);

    let plans = ecs.systems.schedule();
    assert_eq!(plans.len(), 2);
    // Tick writes the frame counter and Show reads it: one after the other,
    // the one that was registered first before the other
    assert_eq!(plans[0].len(), 2);
    assert_eq!(plans[0][0].systems, vec![0]);
    assert_eq!(plans[0][1].systems, vec![1]);
    // three readers share one group
    assert_eq!(plans[1].len(), 1);
    assert_eq!(plans[1][0].systems, vec![0, 1, 2]);
    assert_eq!(plans[1][0].mode, RunMode::Pool);
}

#[test]
fn a_system_with_an_undeclared_resource_fails_the_finalization() {
    let mut ecs = Ecs::new();
    assert_eq!(ecs.add_resource(Frame(0)), 0);
    assert_eq!(ecs.add_system_stage::<Update>(), 0);
    assert_eq!(ecs.add_system::<Show, Update>(), Some(0));
    assert_eq!(ecs.add_system::<Broken, Update>(), Some(1));
    assert_eq!(
        report(ecs.systems.finalize()),
        "System Scheduler for stage Update encountered error in system Broken with trace: \n Tried to collect accessor for resource Clock, but it had not been declared!"
    );
    assert!(!<Broken as Fetch>::fetch(&ecs.world).is_ok());
}

#[test]
fn a_system_runs_on_what_it_fetched_and_leaves_effects() {
    let mut ecs = Ecs::new();
    assert_eq!(ecs.add_resource(Frame(41)), 0);
    let tick = <Tick as Fetch>::fetch(&ecs.world).unwrap();
    let effects = tick.execute().unwrap();
    // nothing has changed before the effects are applied
    assert_eq!(*ecs.get_resource_ref::<Frame>().unwrap().get(), Frame(41));
    assert!(effects.apply_to(&mut ecs.world).is_ok());
    assert_eq!(*ecs.get_resource_ref::<Frame>().unwrap().get(), Frame(42));
}

#[test]
fn a_system_with_a_query_and_commands() {
    let mut ecs = Ecs::new();
    assert_eq!(ecs.add_component::<Padding>(), 0);
    assert_eq!(ecs.add_component::<Speed>(), 1);
    assert_eq!(ecs.add_system_stage::<Update>(), 0);
    assert_eq!(ecs.add_system::<Accelerate<'static>, Update>(), Some(0));
    assert!(ecs.systems.finalize().is_ok());

    let mut commands = Commands::new();
    commands.spawn_package(Package::new().with(&ecs.world.components, Speed(1)));
    commands.spawn_package(Package::new().with(&ecs.world.components, Speed(2)));
    assert!(commands.submit(&mut ecs.world.archetypes).is_ok());
    assert!(ecs.world.archetypes.flush_checked().is_ok());

    let effects = {
        let system = Accelerate::fetch(&ecs.world).unwrap();
        system.execute().unwrap()
    };
    assert!(effects.apply_to(&mut ecs.world).is_ok());
    assert!(ecs.world.archetypes.flush_checked().is_ok());

    let mut query = <(Ref<Speed>,) as IntoQuery>::into_query(&ecs.world).unwrap();
    let mut speeds = Vec::new();
    while let Some((speed, _)) = query.next() {
        speeds.push(speed.get().0);
    }
    speeds.sort();
    assert_eq!(speeds, vec![2, 3, 4]);
}

#[test]
fn fetched_values_can_be_read_through_a_reference() {
    let mut ecs = Ecs::new();
    assert_eq!(ecs.add_resource(Frame(5)), 0);
    let read = ecs.get_resource_ref::<Frame>().unwrap();
    assert_eq!(read.0, Frame(5));
    assert_eq!(*read, Frame(5));
    let written = ecs.get_resource_mut::<Frame>().unwrap();
    assert_eq!(*written, Frame(5));
    let speed: Ref<Speed> = Ref(Speed(3));
    assert_eq!(*speed, Speed(3));
    assert!(Commands::default().is_empty());
}

#[test]
fn systems_are_registered_by_name_with_what_they_declared() {
    let mut systems = Systems::new();
    assert_eq!(systems.try_declare_systems_stage("update"), 0);
    assert_eq!(systems.try_declare_systems_stage("update"), UNDECLARED);
    assert_eq!(systems.try_declare_startup_stage("setup"), 0);
    assert_eq!(systems.try_declare_startup_stage("setup"), UNDECLARED);
    assert_eq!(
        systems.register_system("update", "writer", vec![Accessor::Mut(0)], None),
        Some(0)
    );
    assert_eq!(
        systems.register_system("update", "reader", vec![Accessor::Ref(0)], None),
        Some(1)
    );
    assert_eq!(
        systems.register_system("setup", "reader", vec![], None),
        None
    );
    assert_eq!(
        systems.register_startup("setup", "loader", vec![], None),
        Some(0)
    );
    assert_eq!(
        systems.register_startup("update", "loader", vec![], None),
        None
    );
    assert!(systems.finalize().is_ok());
    let plans = systems.schedule();
    assert_eq!(plans.len(), 1);
    assert_eq!(plans[0].len(), 2);
    assert_eq!(plans[0][0].systems, vec![0]);
    assert_eq!(plans[0][1].systems, vec![1]);
    assert_eq!(systems.execute_startup()[0][0].systems, vec![0]);

    let mut failing = Systems::new();
    assert_eq!(failing.try_declare_startup_stage("setup"), 0);
    assert_eq!(
        failing.register_startup("setup", "loader", vec![], Some(String::from("no file"))),
        Some(0)
    );
    assert_eq!(
        report(failing.finalize()),
        "System Scheduler for stage setup encountered error in system loader with trace: \n no file"
    );
}

#[test]
fn resources_are_declared_by_name() {
    let mut resources = Resources::new();
    assert_eq!(resources.try_declare("gravity", vec![9, 8]), 0);
    assert_eq!(resources.try_declare("gravity", vec![1, 6]), UNDECLARED);
    assert_eq!(resources.try_declare("wind", vec![]), 1);
    assert_eq!(resources.value_of("gravity"), Some(&vec![9, 8]));
    assert_eq!(resources.id_of_name("wind"), 1);
    assert_eq!(resources.id_of_name("rain"), UNDECLARED);
}

#[test]
fn a_scheduler_registers_system_types() {
    let mut ecs = Ecs::new();
    assert_eq!(ecs.add_resource(Frame(0)), 0);
    let mut scheduler = Scheduler::new("update");
    assert_eq!(scheduler.add_system::<Tick>(&mut ecs.world), 0);
    assert_eq!(scheduler.add_system::<Show>(&mut ecs.world), 1);
    assert_eq!(scheduler.add_system::<Show>(&mut ecs.world), 2);
    assert!(scheduler.finalize().is_ok());
    let plan = scheduler.execute();
    // the writer is the least flexible: it is placed first, alone; the two
    // readers share the second group
    assert_eq!(plan.len(), 2);
    assert_eq!(plan[0].systems, vec![0]);
    assert_eq!(plan[0].mode, RunMode::Inline);
    assert_eq!(plan[1].systems, vec![1, 2]);
    assert_eq!(plan[1].mode, RunMode::Pair);
}
