//! Reconstruction of falling-block puzzle replays: a verified board engine (piece geometry,
//! SRS+ kicks, gravity, lock delay, line clears, garbage) driven by a stream of timestamped
//! input events, producing the list of board actions that the game performed.

pub mod action;
pub mod board;
pub mod damage_table;
pub mod determinism;
pub mod event;
pub mod laws;
pub mod reconstruct;
pub mod rng;
pub mod settings;
pub mod storage;
pub mod tetromino;
