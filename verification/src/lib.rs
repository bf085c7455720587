//! One node of a Chord distributed hash table.
//!
//! The crate holds the decisions a node takes: the arithmetic of the
//! identifier ring, the finger table and the successor list, the handlers of
//! the peer operations, the maintenance steps, and the framing of the client
//! protocol. Sockets, timers and locks belong to the program that embeds it.

pub mod chord;
pub mod client_api;
pub mod cluster;
pub mod config;
pub mod constants;
pub mod conversions;
pub mod crypto;
pub mod finger_table;
pub mod kv_store;
pub mod laws;
pub mod proof_of_work;
pub mod ring;
pub mod routing;
pub mod successor_list;
pub mod time;
pub mod types;
