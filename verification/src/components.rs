//! Component types of the game and small marker types.
use vstd::prelude::*;

use crate::PlayerID;

verus! {

/// A type whose values are an entity's components.
pub trait Component: Send {}

/// The player an entity stands for.
#[derive(Clone, Copy, Debug, PartialEq, Eq)]
pub struct PlayerComp {
    pub player_id: PlayerID,
    pub connected: bool,
}

/// The colour an entity is drawn in.
#[derive(Clone, Copy, Debug, PartialEq, Eq)]
pub struct RenderComp {
    pub hue: (u8, u8, u8),
}

/// The player whose inputs steer an entity.
#[derive(Clone, Copy, Debug, PartialEq, Eq)]
pub struct VelocityWithInputComp {
    pub owner_id: usize,
}

/// A one-field test value.
#[derive(Clone, Copy, Debug, PartialEq, Eq)]
pub struct TestWoah {
    pub field: i32,
}

/// The running input handler, once started.
#[derive(Clone, Copy, Debug, PartialEq, Eq)]
pub struct InputHandlerEx {}

impl Component for PlayerComp {}

impl Component for RenderComp {}

impl Component for VelocityWithInputComp {}

} // verus!
