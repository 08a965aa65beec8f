//! Turn-based tile placement on a walled grid, with the state machine,
//! undo log and seat handling that a multiplayer session is built on.

pub mod board;
pub mod broadcast;
pub mod client;
pub mod components;
pub mod events;
pub mod game_loop;
pub mod geometry;
pub mod input_source;
pub mod name;
pub mod player;
pub mod polynomio_indexing_system;
pub mod save_load_system;
pub mod server;
pub mod setup;
pub mod stats_collect_system;
pub mod state;
