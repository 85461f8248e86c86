//! Geometry of the no-fly zone: exact integer distance computation.
//!
//! Coordinates are millimeters, so the squared distance of two points
//! fits comfortably in 128 bits and every computation here is exact.

use vstd::prelude::*;
use crate::drones::Drone;

verus! {

/// Millimeters east of the origin where the no-fly zone is centered.
pub const NDZ_CENTER_X: i32 = 250_000;

/// Millimeters north of the origin where the no-fly zone is centered.
pub const NDZ_CENTER_Y: i32 = 250_000;

/// Radius of the no-fly zone in millimeters; a drone strictly closer
/// than this to the center infringes.
pub const NDZ_MIN_ALLOWED_DISTANCE: u64 = 100_000;

/// Squared distance from a drone's position to the no-fly-zone center.
pub open spec fn spec_drone_dist_sq(d: Drone) -> int {
    let dx = d.position_x - NDZ_CENTER_X;
    let dy = d.position_y - NDZ_CENTER_Y;
    dx * dx + dy * dy
}

/// Whether a drone is strictly inside the no-fly zone.
pub open spec fn spec_violates(d: Drone) -> bool {
    spec_drone_dist_sq(d) < NDZ_MIN_ALLOWED_DISTANCE * NDZ_MIN_ALLOWED_DISTANCE
}

/// Squared distance from a drone to the no-fly-zone center, exactly.
pub fn drone_dist_sq(d: &Drone) -> (r: u128)
    ensures
        r == spec_drone_dist_sq(*d),
{
    let dx: i128 = (d.position_x as i128) - (NDZ_CENTER_X as i128);
    let dy: i128 = (d.position_y as i128) - (NDZ_CENTER_Y as i128);
    proof {
        assert(dx * dx >= 0 && dx * dx <= 0x1_0000_0000_0000_0000i128 * 2) by (nonlinear_arith)
            requires
                -0x1_0000_0000i128 <= dx <= 0x1_0000_0000i128,
        ;
        assert(dy * dy >= 0 && dy * dy <= 0x1_0000_0000_0000_0000i128 * 2) by (nonlinear_arith)
            requires
                -0x1_0000_0000i128 <= dy <= 0x1_0000_0000i128,
        ;
    }
    let sq: i128 = dx * dx + dy * dy;
    sq as u128
}

/// Whether a drone is strictly inside the no-fly zone.
pub fn drone_violates_ndz(d: &Drone) -> (r: bool)
    ensures
        r == spec_violates(*d),
{
    let sq = drone_dist_sq(d);
    sq < (NDZ_MIN_ALLOWED_DISTANCE as u128) * (NDZ_MIN_ALLOWED_DISTANCE as u128)
}

/// Integer square root: the greatest `r` with `r * r <= n`.
pub(crate) fn isqrt_u128(n: u128) -> (r: u64)
    ensures
        (r as int) * (r as int) <= n < (r as int + 1) * (r as int + 1),
{
    let mut lo: u64 = 0;
    let mut hi: u64 = u64::MAX;
    proof {
        assert((hi as int + 1) * (hi as int + 1) > u128::MAX) by (nonlinear_arith)
            requires
                hi == u64::MAX,
        ;
    }
    while lo < hi
        invariant
            (lo as int) * (lo as int) <= n,
            n < (hi as int + 1) * (hi as int + 1),
            lo <= hi,
        decreases hi - lo,
    {
        let mid: u64 = (lo as u128 + ((hi - lo) as u128 + 1) / 2) as u64;
        proof {
            assert((mid as int) * (mid as int) <= u128::MAX) by (nonlinear_arith)
                requires
                    0 <= mid <= u64::MAX,
            ;
        }
        if (mid as u128) * (mid as u128) <= n {
            lo = mid;
        } else {
            hi = mid - 1;
        }
    }
    lo
}

/// Distance in whole millimeters (rounded down) from a drone to the
/// no-fly-zone center.
pub fn get_drone_distance_to_ndz(drone: &Drone) -> (r: u64)
    ensures
        (r as int) * (r as int) <= spec_drone_dist_sq(*drone)
            < (r as int + 1) * (r as int + 1),
{
    let sq = drone_dist_sq(drone);
    isqrt_u128(sq)
}

} // verus!
