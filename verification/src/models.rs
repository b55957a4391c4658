//! The entities the server stores.

pub mod file;
pub mod vault;
