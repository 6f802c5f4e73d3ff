use archetype_ecs::anon::Anon;
use archetype_ecs::archetype::{Archetype, UNDECLARED};
use archetype_ecs::archetypes::{query_key, Archetypes};
use archetype_ecs::cache::{sort_ids, QueryCache};
use archetype_ecs::commands::{Commands, Modify};
use archetype_ecs::ecs::{Ecs, World};
use archetype_ecs::error::{decimal, start_trace, Trace};
use archetype_ecs::handle::{Component, Handle, Handles, Plain, Resource};
use archetype_ecs::package::{Package, PackageIndex};
use archetype_ecs::params::{Effects, Fetch, ResMut, ResRef};
use archetype_ecs::query::{IntoQuery, Mut, Ref};
use archetype_ecs::resources::Resources;
use archetype_ecs::scheduler::Accessor;
use archetype_ecs::table::{Table, DO_DROP};
use indexmap::IndexSet;

#[derive(Debug, Clone, Copy, PartialEq)]
struct Position {
    x: i32,
    y: i32,
}

#[derive(Debug, Clone, Copy, PartialEq)]
struct Velocity {
    x: i32,
    y: i32,
}

#[derive(Debug, Clone, Copy, PartialEq)]
struct Health(u8);

#[derive(Debug, Clone, Copy, PartialEq)]
struct Token(u8);

#[derive(Debug, Clone, Copy, PartialEq)]
struct Frame(u32);

fn pair_bytes(x: i32, y: i32) -> Vec<u8> {
    let mut bytes = x.to_le_bytes().to_vec();
    bytes.extend_from_slice(&y.to_le_bytes());
    bytes
}

fn pair_of(bytes: &Vec<u8>) -> (i32, i32) {
    (
        i32::from_le_bytes([bytes[0], bytes[1], bytes[2], bytes[3]]),
        i32::from_le_bytes([bytes[4], bytes[5], bytes[6], bytes[7]]),
    )
}

impl Handle for Position {
    fn name() -> &'static str {
        "Position"
    }
}

impl Plain for Position {
    fn to_bytes(&self) -> Vec<u8> {
        pair_bytes(self.x, self.y)
    }

    fn from_bytes(bytes: &Vec<u8>) -> Self {
        let (x, y) = pair_of(bytes);
        Position { x, y }
    }
}

impl Component for Position {
    fn needs_drop() -> bool {
        false
    }
}

impl Handle for Velocity {
    fn name() -> &'static str {
        "Velocity"
    }
}

impl Plain for Velocity {
    fn to_bytes(&self) -> Vec<u8> {
        pair_bytes(self.x, self.y)
    }

    fn from_bytes(bytes: &Vec<u8>) -> Self {
        let (x, y) = pair_of(bytes);
        Velocity { x, y }
    }
}

impl Component for Velocity {
    fn needs_drop() -> bool {
        false
    }
}

impl Handle for Health {
    fn name() -> &'static str {
        "Health"
    }
}

impl Plain for Health {
    fn to_bytes(&self) -> Vec<u8> {
        vec![self.0]
    }

    fn from_bytes(bytes: &Vec<u8>) -> Self {
        Health(bytes[0])
    }
}

impl Component for Health {
    fn needs_drop() -> bool {
        false
    }
}

impl Handle for Token {
    fn name() -> &'static str {
        "Token"
    }
}

impl Plain for Token {
    fn to_bytes(&self) -> Vec<u8> {
        vec![self.0]
    }

    fn from_bytes(bytes: &Vec<u8>) -> Self {
        Token(bytes[0])
    }
}

impl Component for Token {
    fn needs_drop() -> bool {
        true
    }
}

impl Handle for Frame {
    fn name() -> &'static str {
        "Frame"
    }
}

impl Plain for Frame {
    fn to_bytes(&self) -> Vec<u8> {
        self.0.to_le_bytes().to_vec()
    }

    fn from_bytes(bytes: &Vec<u8>) -> Self {
        Frame(u32::from_le_bytes([bytes[0], bytes[1], bytes[2], bytes[3]]))
    }
}

impl Resource for Frame {}

struct Unit;

impl Handle for Unit {
    fn name() -> &'static str {
        "Unit"
    }
}

impl Plain for Unit {
    fn to_bytes(&self) -> Vec<u8> {
        Vec::new()
    }

    fn from_bytes(_: &Vec<u8>) -> Self {
        Unit
    }
}

impl Component for Unit {
    fn needs_drop() -> bool {
        false
    }
}

const POSITION: u16 = 1;
const VELOCITY: u16 = 2;
const HEALTH: u16 = 3;
const TOKEN: u16 = 4;

struct Undeclared;

impl Handle for Undeclared {
    fn name() -> &'static str {
        "Undeclared"
    }
}

impl Plain for Undeclared {
    fn to_bytes(&self) -> Vec<u8> {
        Vec::new()
    }

    fn from_bytes(_: &Vec<u8>) -> Self {
        Undeclared
    }
}

impl Component for Undeclared {
    fn needs_drop() -> bool {
        false
    }
}

impl Resource for Undeclared {}

fn message<T>(trace: Trace<T>) -> String {
    match trace {
        Trace::Pass(_) => panic!("expected a failure"),
        Trace::Fail(message) => message,
    }
}

fn listed(set: &IndexSet<usize>) -> Vec<usize> {
    set.iter().copied().collect()
}

fn tables_of(archetypes: &Archetypes, ids: Vec<u16>) -> Vec<usize> {
    listed(archetypes.query_cache(query_key(&ids)).unwrap())
}

/// A world with the components of the tests, and their queries registered
/// before any table exists. The component with the number 0 is not used: it
/// adds nothing to a fingerprint, so that a set of components with it and the
/// set without it would share their fingerprint.
fn world() -> World {
    let mut ecs = Ecs::new();
    assert_eq!(ecs.add_component::<Unit>(), 0);
    assert_eq!(ecs.add_component::<Position>(), POSITION);
    assert_eq!(ecs.add_component::<Velocity>(), VELOCITY);
    assert_eq!(ecs.add_component::<Health>(), HEALTH);
    assert_eq!(ecs.add_component::<Token>(), TOKEN);
    assert_eq!(ecs.add_component::<Token>(), UNDECLARED);
    let mut world = ecs.world;
    let mut accessors = Vec::new();
    assert!(<(Ref<Position>, Ref<Velocity>)>::accessors(&mut accessors, &mut world).is_ok());
    assert!(<(Ref<Position>,)>::accessors(&mut accessors, &mut world).is_ok());
    assert!(<(Ref<Position>, Ref<Health>)>::accessors(&mut accessors, &mut world).is_ok());
    assert!(<(Ref<Token>,)>::accessors(&mut accessors, &mut world).is_ok());
    world
}

fn spawn_three(world: &mut World) {
    let mut commands = Commands::new();
    let components = &world.components;
    commands.spawn_package(
        Package::new()
            .with(components, Position { x: 1, y: 0 })
            .with(components, Velocity { x: 1, y: 1 }),
    );
    commands.spawn_package(
        Package::new()
            .with(components, Position { x: 2, y: 0 })
            .with(components, Velocity { x: 0, y: 1 }),
    );
    commands.spawn_package(
        Package::new()
            .with(components, Position { x: 3, y: 0 })
            .build(),
    );
    assert!(!commands.is_empty());
    assert!(commands.submit(&mut world.archetypes).is_ok());
    world.archetypes.flush_queues();
}

fn positions_with_velocity(world: &World) -> Vec<(Position, Velocity, PackageIndex)> {
    let mut query = <(Ref<Position>, Ref<Velocity>)>::into_query(world).unwrap();
    let mut rows = Vec::new();
    while let Some((position, velocity, index)) = query.next() {
        rows.push((*position.get(), *velocity.get(), index));
    }
    rows
}

fn positions(world: &World) -> Vec<(Position, PackageIndex)> {
    let mut query = <(Ref<Position>,)>::into_query(world).unwrap();
    let mut rows = Vec::new();
    while let Some((position, index)) = query.next() {
        rows.push((*position.get(), index));
    }
    rows
}

#[test]
fn spawn_and_query() {
    let mut world = world();
    spawn_three(&mut world);
    assert_eq!(world.archetypes.table_count(), 2);

    let mut both: Vec<(Position, Velocity)> = positions_with_velocity(&world)
        .into_iter()
        .map(|(p, v, _)| (p, v))
        .collect();
    both.sort_by_key(|(p, _)| p.x);
    assert_eq!(
        both,
        vec![
            (Position { x: 1, y: 0 }, Velocity { x: 1, y: 1 }),
            (Position { x: 2, y: 0 }, Velocity { x: 0, y: 1 }),
        ]
    );

    let mut alone: Vec<Position> = positions(&world).into_iter().map(|(p, _)| p).collect();
    alone.sort_by_key(|p| p.x);
    assert_eq!(
        alone,
        vec![
            Position { x: 1, y: 0 },
            Position { x: 2, y: 0 },
            Position { x: 3, y: 0 }
        ]
    );
}

#[test]
fn every_address_points_at_the_value_yielded_with_it() {
    let mut world = world();
    spawn_three(&mut world);
    let rows = positions_with_velocity(&world);
    assert_eq!(rows.len(), 2);
    for (position, velocity, index) in rows {
        let table = world.archetypes.table(index.table);
        assert_eq!(
            table
                .column(POSITION)
                .unwrap()
                .index_cast::<Position>(index.col),
            position
        );
        assert_eq!(
            table
                .column(VELOCITY)
                .unwrap()
                .index_cast::<Velocity>(index.col),
            velocity
        );
    }
    for (position, index) in positions(&world) {
        let table = world.archetypes.table(index.table);
        assert_eq!(
            table
                .column(POSITION)
                .unwrap()
                .index_cast::<Position>(index.col),
            position
        );
    }
}

#[test]
fn every_column_is_as_long_as_its_table() {
    let mut world = world();
    spawn_three(&mut world);
    for t in 0..world.archetypes.table_count() {
        let table = world.archetypes.table(t);
        for id in 0..5u16 {
            if let Some(column) = table.column(id) {
                assert_eq!(column.len(), table.len());
            }
        }
    }
}

#[test]
fn queries_list_exactly_the_tables_that_match() {
    let mut world = world();
    spawn_three(&mut world);
    // the table of {Position} comes first: its fingerprint is the lower one
    let with_velocity = tables_of(&world.archetypes, vec![POSITION, VELOCITY]);
    let with_position = tables_of(&world.archetypes, vec![POSITION]);
    assert_eq!(with_velocity.len(), 1);
    assert_eq!(with_position.len(), 2);
    for t in 0..world.archetypes.table_count() {
        let table = world.archetypes.table(t);
        assert_eq!(
            with_velocity.contains(&t),
            table.contains(&vec![POSITION, VELOCITY])
        );
        assert_eq!(with_position.contains(&t), table.contains(&vec![POSITION]));
    }
    assert_eq!(
        tables_of(&world.archetypes, vec![POSITION, HEALTH]),
        Vec::<usize>::new()
    );
}

#[test]
fn modify_relocates_archetype() {
    let mut world = world();
    spawn_three(&mut world);
    let (position, velocity, index) = positions_with_velocity(&world)[0];
    let source = index.table;
    assert_eq!(world.archetypes.table(source).len(), 2);

    let mut modify = Modify::new();
    modify.with(&world.components, Health(7));
    let mut commands = Commands::new();
    commands.modify(index, modify);
    assert!(commands.submit(&mut world.archetypes).is_ok());
    world.archetypes.flush_queues();

    assert_eq!(world.archetypes.table_count(), 3);
    assert_eq!(world.archetypes.table(source).len(), 1);
    let mut query = <(Ref<Position>, Ref<Health>)>::into_query(&world).unwrap();
    let (found, health, at) = query.next().unwrap();
    assert!(query.next().is_none());
    assert_eq!(*found.get(), position);
    assert_eq!(*health.get(), Health(7));
    let table = world.archetypes.table(at.table);
    assert!(table.contains(&vec![POSITION, VELOCITY, HEALTH]));
    assert_eq!(
        table
            .column(VELOCITY)
            .unwrap()
            .index_cast::<Velocity>(at.col),
        velocity
    );
    // the other row of the source table is still there
    assert_eq!(positions_with_velocity(&world).len(), 2);
    assert_eq!(positions(&world).len(), 3);
}

#[test]
fn modify_add_then_remove_restores_the_row() {
    let mut world = world();
    spawn_three(&mut world);
    let before = positions_with_velocity(&world);
    let (_, _, index) = before[0];

    let mut modify = Modify::new();
    modify.with(&world.components, Health(7));
    let mut commands = Commands::new();
    commands.modify(index, modify);
    assert!(commands.submit(&mut world.archetypes).is_ok());
    world.archetypes.flush_queues();

    let mut query = <(Ref<Position>, Ref<Health>)>::into_query(&world).unwrap();
    let (_, _, moved) = query.next().unwrap();
    let mut modify = Modify::new();
    modify.without::<Health>(&world.components);
    let mut commands = Commands::new();
    commands.modify(moved, modify);
    assert!(commands.submit(&mut world.archetypes).is_ok());
    world.archetypes.flush_queues();

    assert_eq!(world.archetypes.table_count(), 3);
    assert_eq!(world.archetypes.table(moved.table).len(), 0);
    let mut after: Vec<(Position, Velocity)> = positions_with_velocity(&world)
        .into_iter()
        .map(|(p, v, _)| (p, v))
        .collect();
    let mut expected: Vec<(Position, Velocity)> =
        before.into_iter().map(|(p, v, _)| (p, v)).collect();
    after.sort_by_key(|(p, _)| p.x);
    expected.sort_by_key(|(p, _)| p.x);
    assert_eq!(after, expected);
    assert_eq!(world.archetypes.table(index.table).len(), 2);
}

#[test]
fn two_modifies_of_one_row_merge() {
    let mut world = world();
    spawn_three(&mut world);
    let (_, _, index) = positions_with_velocity(&world)[0];
    let mut first = Modify::new();
    first.with(&world.components, Health(1));
    let mut second = Modify::new();
    second.without::<Velocity>(&world.components);
    let mut commands = Commands::new();
    commands.modify(index, first);
    commands.modify(index, second);
    assert!(commands.submit(&mut world.archetypes).is_ok());
    world.archetypes.flush_queues();
    // one row moved, once, to the table of {Position, Health}
    assert_eq!(world.archetypes.table_count(), 3);
    assert_eq!(world.archetypes.table(2).len(), 1);
    assert!(world.archetypes.table(2).contains(&vec![POSITION, HEALTH]));
    assert!(!world.archetypes.table(2).contains(&vec![VELOCITY]));
    assert_eq!(world.archetypes.table(index.table).len(), 1);
}

#[test]
fn a_modify_of_a_destroyed_row_is_dropped() {
    let mut world = world();
    spawn_three(&mut world);
    let (_, _, index) = positions_with_velocity(&world)[0];
    let mut modify = Modify::new();
    modify.with(&world.components, Health(1));
    let mut commands = Commands::new();
    commands.modify(index, modify);
    commands.destroy(index);
    assert!(commands.dooms(index));
    assert!(commands.submit(&mut world.archetypes).is_ok());
    world.archetypes.flush_queues();
    assert_eq!(world.archetypes.table_count(), 2);
    assert_eq!(world.archetypes.table(index.table).len(), 1);
    assert_eq!(positions(&world).len(), 2);
}

#[test]
fn destroy_while_iterating() {
    let mut world = world();
    spawn_three(&mut world);
    let mut commands = Commands::new();
    let mut effects = Effects::new();
    let mut visited = 0;
    {
        let mut query = <(Ref<Position>, Mut<Velocity>)>::into_query(&world).unwrap();
        while let Some((_, mut velocity, index)) = query.next() {
            velocity.set(Velocity { x: 9, y: 9 });
            effects.write_back(&velocity);
            commands.destroy(index);
            visited += 1;
        }
    }
    assert_eq!(visited, 2);
    effects.submit(commands);
    assert!(effects.apply_to(&mut world).is_ok());
    world.archetypes.flush_queues();
    assert_eq!(positions_with_velocity(&world).len(), 0);
    for t in tables_of(&world.archetypes, vec![POSITION, VELOCITY]) {
        assert_eq!(world.archetypes.table(t).len(), 0);
    }
    assert_eq!(positions(&world).len(), 1);
}

#[test]
fn destroying_every_row_then_spawning_keeps_the_tables() {
    let mut world = world();
    spawn_three(&mut world);
    let before_velocity = tables_of(&world.archetypes, vec![POSITION, VELOCITY]);
    let before_position = tables_of(&world.archetypes, vec![POSITION]);
    let mut commands = Commands::new();
    for (_, index) in positions(&world) {
        commands.destroy(index);
    }
    assert!(commands.submit(&mut world.archetypes).is_ok());
    world.archetypes.flush_queues();
    assert_eq!(positions(&world).len(), 0);
    assert_eq!(world.archetypes.table_count(), 2);
    spawn_three(&mut world);
    assert_eq!(world.archetypes.table_count(), 2);
    assert_eq!(
        tables_of(&world.archetypes, vec![POSITION, VELOCITY]),
        before_velocity
    );
    assert_eq!(
        tables_of(&world.archetypes, vec![POSITION]),
        before_position
    );
    assert_eq!(positions(&world).len(), 3);
    assert_eq!(positions_with_velocity(&world).len(), 2);
}

#[test]
fn destroyed_values_with_a_destructor_are_counted() {
    let mut world = world();
    let mut commands = Commands::new();
    for i in 0..100u8 {
        commands.spawn_package(Package::new().with(&world.components, Token(i)));
    }
    assert!(commands.submit(&mut world.archetypes).is_ok());
    world.archetypes.flush_queues();
    let mut query = <(Ref<Token>,)>::into_query(&world).unwrap();
    let mut indices = Vec::new();
    while let Some((_, index)) = query.next() {
        indices.push(index);
    }
    assert_eq!(indices.len(), 100);
    let mut commands = Commands::new();
    for k in 0..100 {
        commands.destroy(indices[(k * 7) % 100]);
    }
    assert!(commands.submit(&mut world.archetypes).is_ok());
    world.archetypes.flush_queues();
    let table = world.archetypes.table(indices[0].table);
    assert_eq!(table.len(), 0);
    assert_eq!(table.column(TOKEN).unwrap().dropped(), 100);
}

#[test]
fn writes_of_one_group_are_visible_afterwards() {
    let mut world = world();
    assert!(<(Mut<Velocity>,)>::accessors(&mut Vec::new(), &mut world).is_ok());
    spawn_three(&mut world);
    // one system writes Position, another writes Velocity: both read the
    // world as it is, and their effects are applied when both have finished
    let mut first = Effects::new();
    {
        let mut query = <(Mut<Position>,)>::into_query(&world).unwrap();
        while let Some((mut position, _)) = query.next() {
            let old = *position.get();
            position.set(Position {
                x: old.x + 10,
                y: old.y,
            });
            first.write_back(&position);
        }
    }
    let mut second = Effects::new();
    {
        let mut query = <(Mut<Velocity>,)>::into_query(&world).unwrap();
        while let Some((mut velocity, _)) = query.next() {
            velocity.set(Velocity { x: 5, y: 5 });
            second.write_back(&velocity);
        }
    }
    assert!(first.apply_to(&mut world).is_ok());
    assert!(second.apply_to(&mut world).is_ok());
    let mut both: Vec<(Position, Velocity)> = positions_with_velocity(&world)
        .into_iter()
        .map(|(p, v, _)| (p, v))
        .collect();
    both.sort_by_key(|(p, _)| p.x);
    assert_eq!(
        both,
        vec![
            (Position { x: 11, y: 0 }, Velocity { x: 5, y: 5 }),
            (Position { x: 12, y: 0 }, Velocity { x: 5, y: 5 }),
        ]
    );
    assert_eq!(positions(&world).len(), 3);
}

#[test]
fn a_write_without_a_cell_is_reported() {
    let mut world = world();
    spawn_three(&mut world);
    let mut effects = Effects::new();
    effects.write(
        PackageIndex { table: 9, col: 0 },
        Anon::new::<Position>(POSITION, &Position { x: 0, y: 0 }),
    );
    assert_eq!(
        message(effects.apply_to(&mut world)),
        "Tried to write to a component or a resource that does not exist!"
    );
    assert_eq!(
        message(world.archetypes.store(
            PackageIndex { table: 0, col: 99 },
            &Anon::new::<Position>(POSITION, &Position { x: 0, y: 0 })
        )),
        "Tried to write a component to a row that does not exist!"
    );
}

#[test]
fn component_zero_does_not_show_in_a_fingerprint() {
    assert_eq!(query_key(&vec![0, VELOCITY]), query_key(&vec![VELOCITY]));
    assert_eq!(query_key(&vec![0]), Archetype::new());
    let mut world = world();
    // the query for {Unit, Velocity} shares its fingerprint with the query
    // for {Velocity}: the second registration is refused
    assert!(<(Ref<Velocity>,)>::accessors(&mut Vec::new(), &mut world).is_ok());
    assert_eq!(
        message(<(Ref<Unit>, Ref<Velocity>)>::accessors(&mut Vec::new(), &mut world)),
        "Same Archetype but different components! Indicates hashing algorithm is bad. (internal error, contact maintainer)"
    );
    assert_eq!(
        message(<(Ref<Unit>, Ref<Velocity>)>::into_query(&world)),
        "Same Archetype but different components! Indicates hashing algorithm is bad. (internal error, contact maintainer)"
    );
}

#[test]
fn search_before_registration_fails() {
    let cache = QueryCache::new();
    assert_eq!(
        message(cache.search(Archetype(5))),
        "Tried to search the Query Cache for a Query that does not exist!"
    );
    let archetypes = Archetypes::new();
    assert_eq!(
        message(archetypes.query_cache(Archetype(5))),
        "Tried to search the Query Cache for a Query that does not exist!"
    );
    let world = World::new();
    assert!(!<(Ref<Position>,)>::into_query(&world).is_ok());
}

#[test]
fn registration_stores_the_ids_sorted_and_checks_them() {
    let mut cache = QueryCache::new();
    assert!(cache.load(Archetype(5), vec![3, 1, 2]).is_ok());
    assert_eq!(cache.entry(Archetype(5)).unwrap().ids(), &vec![1, 2, 3]);
    assert_eq!(
        listed(cache.search(Archetype(5)).unwrap()),
        Vec::<usize>::new()
    );
    // the same components in another order are the same query
    assert!(cache.load(Archetype(5), vec![2, 3, 1]).is_ok());
    // other components under the same fingerprint are a collision
    assert_eq!(
        message(cache.load(Archetype(5), vec![1, 2])),
        "Same Archetype but different components! Indicates hashing algorithm is bad. (internal error, contact maintainer)"
    );
    assert!(cache.entry(Archetype(4)).is_none());
    assert_eq!(sort_ids(vec![5, 1, 4, 1]), vec![1, 1, 4, 5]);
}

#[test]
fn update_lists_the_table_in_every_matching_query() {
    let mut cache = QueryCache::new();
    assert!(cache.load(Archetype(1), vec![1]).is_ok());
    assert!(cache.load(Archetype(2), vec![1, 2]).is_ok());
    assert!(cache.load(Archetype(3), vec![3]).is_ok());
    let mut package = Package::new();
    package.insert_anon(Anon::from_bytes(1, false, vec![0]));
    package.insert_anon(Anon::from_bytes(2, false, vec![0]));
    let table = Table::new(vec![package]);
    cache.update(4, &table);
    cache.update(4, &table);
    assert_eq!(listed(cache.search(Archetype(1)).unwrap()), vec![4]);
    assert_eq!(listed(cache.search(Archetype(2)).unwrap()), vec![4]);
    assert_eq!(
        listed(cache.search(Archetype(3)).unwrap()),
        Vec::<usize>::new()
    );
}

#[test]
fn a_query_for_an_undeclared_component_fails() {
    let mut world = world();
    let mut accessors = vec![Accessor::ResRef(0)];
    assert_eq!(
        message(<(Ref<Position>, Mut<Undeclared>)>::accessors(
            &mut accessors,
            &mut world
        )),
        "Tried to collect accessors for undeclared Component Undeclared in a Query!"
    );
    assert_eq!(
        accessors,
        vec![Accessor::ResRef(0), Accessor::Ref(POSITION)]
    );
    assert_eq!(world.component::<Undeclared>(), UNDECLARED);
}

#[test]
fn queries_declare_their_accesses() {
    let mut world = world();
    let mut accessors = Vec::new();
    assert!(
        <(Ref<Position>, Mut<Velocity>, Ref<Health>, Mut<Token>)>::accessors(
            &mut accessors,
            &mut world
        )
        .is_ok()
    );
    assert_eq!(
        accessors,
        vec![
            Accessor::Ref(POSITION),
            Accessor::Mut(VELOCITY),
            Accessor::Ref(HEALTH),
            Accessor::Mut(TOKEN)
        ]
    );
    let mut accessors = Vec::new();
    assert!(
        <(Mut<Health>, Ref<Token>, Ref<Position>)>::accessors(&mut accessors, &mut world).is_ok()
    );
    assert_eq!(
        accessors,
        vec![
            Accessor::Mut(HEALTH),
            Accessor::Ref(TOKEN),
            Accessor::Ref(POSITION)
        ]
    );
    assert!(<Commands as Fetch>::access(&mut accessors, &mut world).is_ok());
    assert_eq!(accessors.len(), 3);
}

#[test]
fn handles_are_numbered_in_declaration_order() {
    let mut handles = Handles::new();
    assert_eq!(handles.id_of("a"), UNDECLARED);
    assert!(!handles.is_declared("a"));
    assert_eq!(handles.declare("a"), 0);
    assert_eq!(handles.declare("b"), 1);
    assert_eq!(handles.id_of("a"), 0);
    assert_eq!(handles.id_of("b"), 1);
    assert_eq!(handles.id_of("c"), UNDECLARED);
    assert!(handles.is_declared("b"));
    assert_eq!(handles.len(), 2);
}

#[test]
fn resources_are_fetched_by_type() {
    let mut resources = Resources::new();
    assert_eq!(
        message(resources.get_resource_ref::<Frame>()),
        "Handle for resource Frame has not been initialized! Did you forget to declare it?"
    );
    assert!(!resources.has::<Frame>());
    assert_eq!(resources.add_resource(Frame(41)), 0);
    assert_eq!(resources.add_resource(Frame(43)), UNDECLARED);
    assert!(resources.has::<Frame>());
    assert_eq!(resources.id_of_name("Frame"), 0);
    assert_eq!(resources.value_of("Frame"), Some(&vec![41, 0, 0, 0]));
    assert_eq!(resources.value_of("Other"), None);
    assert_eq!(resources.declare("Other", vec![1]), 1);
    assert!(resources.store(1, vec![2]));
    assert_eq!(resources.value_of("Other"), Some(&vec![2]));
    assert_eq!(resources.id_of::<Frame>(), 0);
    assert_eq!(resources.len(), 2);
    assert_eq!(
        *resources.get_resource_ref::<Frame>().unwrap().get(),
        Frame(41)
    );
    let mut frame: ResMut<Frame> = resources.get_resource_mut::<Frame>().unwrap();
    frame.set(Frame(frame.get().0 + 1));
    assert!(resources.store(0, frame.get().to_bytes()));
    assert!(!resources.store(2, vec![0, 0, 0, 0]));
    let read: ResRef<Frame> = resources.get_resource_ref::<Frame>().unwrap();
    assert_eq!(*read.get(), Frame(42));
    assert_eq!(
        message(resources.get_resource_mut::<Undeclared>()),
        "Handle for resource Undeclared has not been initialized! Did you forget to declare it?"
    );
}

#[test]
fn resource_parameters_declare_their_accesses() {
    let mut ecs = Ecs::new();
    assert_eq!(ecs.add_resource(Frame(1)), 0);
    assert_eq!(*ecs.get_resource_ref::<Frame>().unwrap().get(), Frame(1));
    assert_eq!(*ecs.get_resource_mut::<Frame>().unwrap().get(), Frame(1));
    let mut accessors = Vec::new();
    assert!(<(ResRef<Frame>, ResMut<Frame>)>::access(&mut accessors, &mut ecs.world).is_ok());
    assert_eq!(accessors, vec![Accessor::ResRef(0), Accessor::ResMut(0)]);
    assert_eq!(
        message(<ResRef<Undeclared>>::access(&mut accessors, &mut ecs.world)),
        "Tried to collect accessor for resource Undeclared, but it had not been declared!"
    );
    assert_eq!(accessors.len(), 2);
    let (read, written) = <(ResRef<Frame>, ResMut<Frame>)>::fetch(&ecs.world).unwrap();
    assert_eq!(read.get(), written.get());
    assert!(!<(ResRef<Frame>, ResRef<Undeclared>)>::fetch(&ecs.world).is_ok());
    let mut effects = Effects::new();
    effects.put(0, Frame(8).to_bytes());
    assert!(effects.apply_to(&mut ecs.world).is_ok());
    assert_eq!(*ecs.get_resource_ref::<Frame>().unwrap().get(), Frame(8));
}

#[test]
fn traces_name_the_places_they_pass() {
    assert_eq!(decimal(0), "0");
    assert_eq!(decimal(907), "907");
    assert_eq!(decimal(u32::MAX), "4294967295");
    let trace = start_trace("a.rs", "f", 12, "no such thing");
    assert_eq!(
        trace,
        "Error in file a.rs in function f at line 12 with message: \n            no such thing"
    );
    let failed: Trace<u8> = Trace::Fail(trace.clone());
    assert_eq!(
        message(failed.traced("b.rs", "g", 7)),
        format!("{}\n  ...in file b.rs in function g at line 7,", trace)
    );
    let fine: Trace<u8> = Trace::Pass(3);
    assert_eq!(fine.traced("b.rs", "g", 7).unwrap(), 3);
}

#[test]
fn commands_spawn_takes_a_producer() {
    let mut world = world();
    let mut commands = Commands::null();
    assert!(commands.is_empty());
    let value = Anon::new::<Health>(HEALTH, &Health(3));
    assert_eq!(value.downcast::<Health>(), Health(3));
    commands.spawn(|| {
        let mut package = Package::new();
        package.insert_anon(Anon::new::<Health>(HEALTH, &Health(3)));
        package
    });
    commands.destroy_nodrop(PackageIndex { table: 0, col: 0 });
    assert!(!commands.dooms(PackageIndex { table: 0, col: 0 }));
    let mut other = Commands::new();
    other.destroy(PackageIndex { table: 0, col: 0 });
    commands.absorb(other);
    assert!(commands.dooms(PackageIndex { table: 0, col: 0 }));
    let _ = DO_DROP;
    let _ = &mut world;
}

#[test]
fn a_checked_flush_stops_at_a_row_that_does_not_exist() {
    let mut world = world();
    spawn_three(&mut world);
    let before = positions(&world).len();
    let mut commands = Commands::new();
    commands.destroy(PackageIndex { table: 0, col: 0 });
    commands.destroy(PackageIndex { table: 7, col: 0 });
    assert!(commands.submit(&mut world.archetypes).is_ok());
    assert_eq!(
        message(world.archetypes.flush_checked()),
        "Tried to destroy a row that does not exist!"
    );
    // the request for table 0 was carried out, the other is still queued
    assert_eq!(positions(&world).len(), before - 1);
    assert_eq!(
        message(world.archetypes.flush_checked()),
        "Tried to destroy a row that does not exist!"
    );

    let mut world = self::world();
    spawn_three(&mut world);
    let mut commands = Commands::new();
    commands.modify(PackageIndex { table: 0, col: 50 }, Modify::new());
    assert!(commands.submit(&mut world.archetypes).is_ok());
    assert_eq!(
        message(world.archetypes.flush_checked()),
        "Tried to modify a row that does not exist!"
    );
}

#[test]
fn a_checked_flush_stops_at_a_package_that_does_not_fit() {
    let mut world = world();
    let mut commands = Commands::new();
    // two packages with one fingerprint and different components: the
    // component with the number 0 does not show in the fingerprint
    commands.spawn_package(Package::new().with(&world.components, Velocity { x: 1, y: 1 }));
    commands.spawn_package(
        Package::new()
            .with(&world.components, Unit)
            .with(&world.components, Velocity { x: 2, y: 2 }),
    );
    assert!(commands.submit(&mut world.archetypes).is_ok());
    assert_eq!(
        message(world.archetypes.flush_checked()),
        "Attempted to spawn invalid component!"
    );
    assert_eq!(world.archetypes.table_count(), 0);
}

#[test]
fn a_checked_flush_carries_out_what_a_flush_does() {
    let mut world = world();
    let mut commands = Commands::new();
    commands.spawn_package(Package::new().with(&world.components, Position { x: 1, y: 0 }));
    commands.spawn_package(Package::new().with(&world.components, Position { x: 2, y: 0 }));
    assert!(commands.submit(&mut world.archetypes).is_ok());
    assert!(world.archetypes.flush_checked().is_ok());
    let mut commands = Commands::new();
    let rows = positions(&world);
    assert_eq!(rows.len(), 2);
    let mut modify = Modify::new();
    modify.with(&world.components, Health(4));
    commands.modify(rows[0].1, modify);
    commands.destroy(rows[1].1);
    assert!(commands.submit(&mut world.archetypes).is_ok());
    assert!(world.archetypes.flush_checked().is_ok());
    assert_eq!(world.archetypes.table_count(), 2);
    assert_eq!(world.archetypes.table(0).len(), 0);
    assert_eq!(world.archetypes.table(1).len(), 1);
    assert_eq!(positions(&world).len(), 1);
}
