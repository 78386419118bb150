//! Helpers shared by the storage core.

pub mod password;
