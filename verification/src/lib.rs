//! The world logic of Lera, a small text adventure served over telnet:
//! the map and its directions, the parsing of what players type, the
//! entity store and the systems that run on every tick.

pub mod constants;
pub mod text;
pub mod dice;
pub mod components;
pub mod ecs;
pub mod movement;
pub mod room;
pub mod message;
pub mod communication;
pub mod aggression;
pub mod game_state;
pub mod channel;
pub mod player_input;
pub mod npc_manager;
pub mod commands;
pub mod player;
pub mod world;
