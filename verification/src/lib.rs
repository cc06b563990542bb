//! Verified core of a tray manager for `llama-server`: profile argument
//! parsing, configuration upkeep, the server life-cycle state machine and
//! the tray menu model.

pub mod text;
pub mod args;
pub mod config;
pub mod server;
pub mod models;
pub mod tray;
pub mod commands;
