use vstd::prelude::*;

use crate::constants::{Direction, MAP_X_MAX, MAP_X_MIN, MAP_Y_MAX, MAP_Y_MIN};

verus! {

/// The `specs` storage that holds each component type of the library,
/// opaque to Verus.
#[verifier::external_type_specification]
#[verifier::external_body]
#[verifier::reject_recursive_types(T)]
pub struct ExDenseVecStorage<T>(specs::DenseVecStorage<T>);

/// A connected player; `id` names the connection through which the
/// player is reached.
pub struct Player {
    pub id: u128,
}

/// A character driven by the game itself.
pub struct NPC {}

/// The name under which an entity is shown to players.
pub struct Name {
    pub val: String,
}

/// A room of the map: what a player reads on entering it, and where it is.
#[derive(Clone, Copy, Debug)]
pub struct Location {
    pub description: &'static str,
    pub address: (usize, usize),
}

/// Something an entity says during the current tick.
pub struct Speaking {
    pub msg: String,
}

/// A step an entity takes during the current tick.
pub struct Moving {
    pub direction: Direction,
}

/// Marks an entity that roams and taunts on its own.
pub struct Aggressive {}

impl specs::Component for Player {
    type Storage = specs::DenseVecStorage<Self>;
}

impl specs::Component for NPC {
    type Storage = specs::DenseVecStorage<Self>;
}

impl specs::Component for Name {
    type Storage = specs::DenseVecStorage<Self>;
}

impl specs::Component for Location {
    type Storage = specs::DenseVecStorage<Self>;
}

impl specs::Component for Speaking {
    type Storage = specs::DenseVecStorage<Self>;
}

impl specs::Component for Moving {
    type Storage = specs::DenseVecStorage<Self>;
}

impl specs::Component for Aggressive {
    type Storage = specs::DenseVecStorage<Self>;
}

/// Whether an address lies on the map.
pub open spec fn on_map(address: (usize, usize)) -> bool {
    &&& MAP_X_MIN <= address.0 <= MAP_X_MAX
    &&& MAP_Y_MIN <= address.1 <= MAP_Y_MAX
}

/// The text shown for every room of the map.
pub const ROOM_DESCRIPTION: &'static str = "You stand on an open plain in the land of Lera.";

/// The room at an address of the map.
pub open spec fn spec_map_location(x: usize, y: usize) -> Location {
    Location { description: ROOM_DESCRIPTION, address: (x, y) }
}

/// The room at an address of the map.
pub fn map_location(x: usize, y: usize) -> (loc: Location)
    requires
        on_map((x, y)),
    ensures
        loc == spec_map_location(x, y),
{
    Location { description: ROOM_DESCRIPTION, address: (x, y) }
}

} // verus!
