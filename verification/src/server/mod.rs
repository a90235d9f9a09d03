//! The server: configuration, the mesh and its members, routes, signaling and
//! relaying.
pub mod config;
pub mod mesh;
pub mod routes;
pub mod sessions;
pub mod guard;
pub mod relay;
pub mod join;
pub mod signaling;
pub mod control;
pub mod commands;
pub mod laws;
