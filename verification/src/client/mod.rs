//! The client: tunnel frames, peer sessions, connections, names and commands.
pub mod tunnel;
pub mod reliable;
pub mod peer;
pub mod aliases;
pub mod config;
pub mod outbox;
pub mod upkeep;
pub mod laws;
pub mod discovery;
pub mod paths;
pub mod connection;
pub mod dns;
pub mod commands;
pub mod joining;
pub mod report;
pub mod control;
