//! Portpal keeps SSH port forwards running: a configuration of named
//! tunnels, a daemon that starts, watches and restarts them, and a command
//! line that asks the daemon about them.
//!
//! This crate holds the verified logic: the configuration rules, each
//! tunnel's supervision state machine, the daemon's state and requests, the
//! reading of `ps` and `lsof` output and the text of every report.

pub mod cli;
pub mod config;
pub mod connection;
pub mod daemon;
pub mod ipc;
pub mod paths;
pub mod ssh;
pub mod state;
pub mod text;
