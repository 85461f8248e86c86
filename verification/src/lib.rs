//! Aggregation core for a no-fly-zone drone monitor.
//!
//! The library computes drone distances to a fixed no-fly-zone center,
//! keeps a capacity- and time-bounded store of infringements with
//! merge-on-write semantics, caches pilot lookups, and drives the
//! deterministic replay/record subsystem. Network and filesystem work
//! stays outside; this crate works on plain values handed in by callers.

pub mod config;
pub mod drones;
pub mod errors;
pub mod infringements;
pub mod ndz;
pub mod pilots;
pub mod replay;
pub mod server;
pub mod time;

pub use infringements::{
    get_infringements, record_infringements, DroneWithDistance, Infringement, InfringementStore,
};
pub use ndz::get_drone_distance_to_ndz;
