//! LinkMesh: the rules of a NAT-traversing mesh network.
//!
//! The crate holds everything a LinkMesh client and its signaling server decide:
//! wire framing, the reliable data plane, peer sessions, routing tables, rooms,
//! invitations, certificates, name resolution, configuration and the command
//! line. Sockets, files, clocks and the cipher suite belong to the program
//! around it, which hands in plain values and performs what is decided here.

pub mod bytes;
pub mod seqs;
pub mod text;
pub mod table;
pub mod net;
pub mod outside;
pub mod alias;
pub mod cert;
pub mod protocol;
pub mod log;
pub mod control;
pub mod cli;
pub mod help;
pub mod bench;
pub mod client;
pub mod server;
