//! Process-wide configuration: the no-fly-zone location, the poll
//! rhythm, and the bounds of the in-memory stores. All of it is fixed
//! for the lifetime of a process.

use vstd::prelude::*;

pub use crate::ndz::{get_drone_distance_to_ndz, NDZ_CENTER_X, NDZ_CENTER_Y,
    NDZ_MIN_ALLOWED_DISTANCE};

verus! {

/// Milliseconds an infringement stays visible after its latest update.
pub const INFRINGEMENT_DURATION_MILLIS: i64 = 600_000;

/// Seconds between two poll ticks; also the step width of replay playback.
pub const POLL_INTERVAL_SECS: u64 = 2;

/// Entry bound of the pilot cache and of the infringement store.
pub const STORE_CAPACITY: usize = 10_000;

} // verus!
