//! Game logic of a Zappy server, of its learning client and of its
//! graphical front-ends, with contracts proved by Verus.
pub mod ai_protocol;
pub mod ai_state;
pub mod client;
pub mod command;
pub mod config;
pub mod console;
pub mod constants;
pub mod egg;
pub mod host_commands;
pub mod input_bindings;
pub mod laws;
pub mod map;
pub mod player;
pub mod resources;
pub mod rng;
pub mod server_protocol;
pub mod team;
pub mod text;
