//! An entity/component storage engine for game-style object state.
//!
//! Entities are numeric ids with FIFO recycling, components are typed values
//! kept in dense per-kind storage with packed iteration lists and a per-entity
//! bitmask, and every operation on an entity is gated by an ownership check.

mod c_data;
mod component_manager;
mod ecs;
mod eid_manager;
pub mod seqs;
mod systems;

pub use c_data::Vector2;
pub use component_manager::{Component, ComponentData, ComponentManager, Find};
pub use ecs::{ErrEcs, ECS};
pub use eid_manager::{EidManager, Entity};
pub use systems::{PositionSystem, System, SystemMessage, SystemState};
