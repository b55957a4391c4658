//! Verified core of the Concur sync server.
//!
//! The crate holds the parts of the server that decide anything: the registry
//! of pending login sessions, the login handshake, the vault table and the
//! file sync engine. Every function here is verified against its contract.

pub mod auth;
pub mod clock;
pub mod digest;
pub mod entropy;
pub mod file_sync;
pub mod handshake;
pub mod models;
pub mod provider;
pub mod registry;
pub mod routes;
pub mod text;
pub mod vault_race;
pub mod vault_store;
