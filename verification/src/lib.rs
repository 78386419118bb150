//! Secure storage core: credential policy, per-file envelope encryption,
//! time-bounded shared links and the sweep that reclaims expired entries.

pub mod accounts;
mod clock;
pub mod config;
mod entropy;
pub mod envelope;
mod keyed;
pub mod lifecycle;
pub mod models;
pub mod registry;
pub mod sweeper;
pub mod utils;
