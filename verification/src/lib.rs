//! Lobby, turn and scoring logic of a multiplayer bowling game server.

pub mod strmap;
pub mod text;
pub mod protocol;
pub mod scoring;
pub mod state;
pub mod board;
pub mod ids;
pub mod laws;
pub mod lobby;
pub mod requests;
pub mod game;
pub mod server;
pub mod controller;
