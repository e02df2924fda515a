//! Core logic of a simulator that impersonates a fleet of sensor boards:
//! configuration resolution, launch planning, measurement update rules,
//! the per-board control state machine, the settings-file watcher and the
//! newline-delimited JSON packets.

pub mod board;
pub mod config;
pub mod fleet;
pub mod imposter_cfg;
pub mod names;
pub mod simulator;
pub mod state;
pub mod text;
pub mod watcher;
pub mod wire;
