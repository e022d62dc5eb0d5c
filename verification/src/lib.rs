//! Entity storage, frame-synchronised data streams and frame timing for a
//! lock-step networked game.
use vstd::prelude::*;

pub mod syncer;
pub mod logic_storage;
pub mod eid_manager;
pub mod pending_entity;
pub mod comp_store;
pub mod ent_changes;
pub mod super_vec;
pub mod clock;
pub mod debug_timer;
pub mod timekeeping;
pub mod components;
pub mod object_holder;
pub mod input_dist;

verus! {

/// Index of a simulation frame.
pub type FrameIndex = usize;

/// Identifier of a connected player.
pub type PlayerID = usize;

/// Identifier of an entity, unique over the entity's whole life.
pub type GlobalEntityID = usize;

/// Number identifying a component type.
pub type TypeIdNum = u64;

} // verus!
