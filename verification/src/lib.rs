//! An archetype-based entity-component-system runtime: columnar storage grouped
//! by archetype, a deferred command queue for structural changes, and a
//! conflict-graph scheduler that packs systems into parallel-safe groups.

pub mod anon;
pub mod archetype;
pub mod archetypes;
pub mod cache;
pub mod commands;
pub mod ecs;
pub mod error;
pub mod handle;
pub mod indexed;
pub mod ordered;
pub mod package;
pub mod parallel;
pub mod params;
pub mod query;
pub mod resources;
pub mod scheduler;
pub mod systems;
pub mod table;
