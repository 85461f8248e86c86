//! The drone feed's data model.
//!
//! Positions are integer millimeters in the sensor's coordinate plane, as
//! the feed reports them; the metadata fields are carried through untouched.

use vstd::prelude::*;

verus! {

/// One observed drone inside a feed snapshot.
pub struct Drone {
    pub serial_number: String,
    pub model: String,
    pub manufacturer: String,
    pub mac: String,
    pub ipv4: String,
    pub ipv6: String,
    pub firmware: String,
    /// Millimeters east of the plane's origin.
    pub position_x: i32,
    /// Millimeters north of the plane's origin.
    pub position_y: i32,
    /// Millimeters above ground.
    pub altitude: i32,
}

impl Drone {
    /// An exact copy of this drone record.
    pub fn duplicate(&self) -> (r: Drone)
        ensures
            r == *self,
    {
        Drone {
            serial_number: self.serial_number.clone(),
            model: self.model.clone(),
            manufacturer: self.manufacturer.clone(),
            mac: self.mac.clone(),
            ipv4: self.ipv4.clone(),
            ipv6: self.ipv6.clone(),
            firmware: self.firmware.clone(),
            position_x: self.position_x,
            position_y: self.position_y,
            altitude: self.altitude,
        }
    }
}

/// Metadata of the sensor that captured a snapshot.
pub struct DronesSensorInfo {
    pub device_id: Option<String>,
    pub listen_range: Option<usize>,
    pub device_started: Option<String>,
    pub uptime_seconds: Option<usize>,
    pub update_interval_ms: Option<usize>,
}

/// The captured instant: a timestamp and every drone observed in it.
pub struct DronesCapture {
    pub snapshot_timestamp: String,
    pub drone: Vec<Drone>,
}

/// One whole feed snapshot.
pub struct DronesDocument {
    pub device_information: DronesSensorInfo,
    pub capture: DronesCapture,
}

impl DronesSensorInfo {
    /// An exact copy of this sensor record.
    pub fn duplicate(&self) -> (r: DronesSensorInfo)
        ensures
            r == *self,
    {
        DronesSensorInfo {
            device_id: match &self.device_id {
                Some(s) => Some(s.clone()),
                None => None,
            },
            listen_range: self.listen_range,
            device_started: match &self.device_started {
                Some(s) => Some(s.clone()),
                None => None,
            },
            uptime_seconds: self.uptime_seconds,
            update_interval_ms: self.update_interval_ms,
        }
    }
}

/// Value equality of two snapshots, up to the identity of the drone list's
/// backing storage.
pub open spec fn spec_doc_matches(a: DronesDocument, b: DronesDocument) -> bool {
    &&& a.device_information == b.device_information
    &&& a.capture.snapshot_timestamp == b.capture.snapshot_timestamp
    &&& a.capture.drone@ == b.capture.drone@
}

impl DronesDocument {
    /// An exact copy of this snapshot.
    pub fn duplicate(&self) -> (r: DronesDocument)
        ensures
            spec_doc_matches(r, *self),
    {
        let mut drone: Vec<Drone> = Vec::new();
        let n = self.capture.drone.len();
        let mut i: usize = 0;
        while i < n
            invariant
                i <= n,
                n == self.capture.drone@.len(),
                drone@ == self.capture.drone@.take(i as int),
            decreases n - i,
        {
            drone.push(self.capture.drone[i].duplicate());
            proof {
                assert(drone@ =~= self.capture.drone@.take(i as int + 1));
            }
            i += 1;
        }
        proof {
            assert(self.capture.drone@.take(n as int) =~= self.capture.drone@);
        }
        DronesDocument {
            device_information: self.device_information.duplicate(),
            capture: DronesCapture {
                snapshot_timestamp: self.capture.snapshot_timestamp.clone(),
                drone,
            },
        }
    }
}

/// View-level equality of two optional strings.
pub open spec fn spec_opt_str_like(a: Option<String>, b: Option<String>) -> bool {
    match (a, b) {
        (Some(x), Some(y)) => x@ == y@,
        (None, None) => true,
        _ => false,
    }
}

/// Structural equality of two sensor records, over the string views.
pub open spec fn spec_sensor_like(a: DronesSensorInfo, b: DronesSensorInfo) -> bool {
    &&& spec_opt_str_like(a.device_id, b.device_id)
    &&& a.listen_range == b.listen_range
    &&& spec_opt_str_like(a.device_started, b.device_started)
    &&& a.uptime_seconds == b.uptime_seconds
    &&& a.update_interval_ms == b.update_interval_ms
}

/// Structural equality of two drone records, over the string views.
pub open spec fn spec_drone_like(a: Drone, b: Drone) -> bool {
    &&& a.serial_number@ == b.serial_number@
    &&& a.model@ == b.model@
    &&& a.manufacturer@ == b.manufacturer@
    &&& a.mac@ == b.mac@
    &&& a.ipv4@ == b.ipv4@
    &&& a.ipv6@ == b.ipv6@
    &&& a.firmware@ == b.firmware@
    &&& a.position_x == b.position_x
    &&& a.position_y == b.position_y
    &&& a.altitude == b.altitude
}

/// Structural equality of two snapshots, over the string views; record mode
/// uses this to detect an unchanged feed.
pub open spec fn spec_doc_like(a: DronesDocument, b: DronesDocument) -> bool {
    &&& spec_sensor_like(a.device_information, b.device_information)
    &&& a.capture.snapshot_timestamp@ == b.capture.snapshot_timestamp@
    &&& a.capture.drone@.len() == b.capture.drone@.len()
    &&& forall|i: int|
        0 <= i < a.capture.drone@.len() ==> spec_drone_like(
            a.capture.drone@[i],
            b.capture.drone@[i],
        )
}

fn opt_str_eq(a: &Option<String>, b: &Option<String>) -> (r: bool)
    ensures
        r == spec_opt_str_like(*a, *b),
{
    match (a, b) {
        (Some(x), Some(y)) => *x == *y,
        (None, None) => true,
        _ => false,
    }
}

fn opt_usize_eq(a: &Option<usize>, b: &Option<usize>) -> (r: bool)
    ensures
        r == (*a == *b),
{
    match (a, b) {
        (Some(x), Some(y)) => *x == *y,
        (None, None) => true,
        _ => false,
    }
}

/// Whether two sensor records carry the same contents.
pub fn sensor_eq(a: &DronesSensorInfo, b: &DronesSensorInfo) -> (r: bool)
    ensures
        r == spec_sensor_like(*a, *b),
{
    opt_str_eq(&a.device_id, &b.device_id) && opt_usize_eq(&a.listen_range, &b.listen_range)
        && opt_str_eq(&a.device_started, &b.device_started)
        && opt_usize_eq(&a.uptime_seconds, &b.uptime_seconds)
        && opt_usize_eq(&a.update_interval_ms, &b.update_interval_ms)
}

/// Whether two drone records carry the same contents.
pub fn drone_eq(a: &Drone, b: &Drone) -> (r: bool)
    ensures
        r == spec_drone_like(*a, *b),
{
    a.serial_number == b.serial_number && a.model == b.model && a.manufacturer == b.manufacturer
        && a.mac == b.mac && a.ipv4 == b.ipv4 && a.ipv6 == b.ipv6 && a.firmware == b.firmware
        && a.position_x == b.position_x && a.position_y == b.position_y
        && a.altitude == b.altitude
}

/// Whether two snapshots carry the same contents; record mode skips the
/// write when the newest snapshot equals the last persisted one.
pub fn snapshot_eq(a: &DronesDocument, b: &DronesDocument) -> (r: bool)
    ensures
        r == spec_doc_like(*a, *b),
{
    if !sensor_eq(&a.device_information, &b.device_information) {
        return false;
    }
    if !(a.capture.snapshot_timestamp == b.capture.snapshot_timestamp) {
        return false;
    }
    let n = a.capture.drone.len();
    if n != b.capture.drone.len() {
        return false;
    }
    let mut i: usize = 0;
    while i < n
        invariant
            i <= n,
            n == a.capture.drone@.len(),
            n == b.capture.drone@.len(),
            forall|j: int|
                0 <= j < i ==> spec_drone_like(a.capture.drone@[j], b.capture.drone@[j]),
        decreases n - i,
    {
        if !drone_eq(&a.capture.drone[i], &b.capture.drone[i]) {
            return false;
        }
        i += 1;
    }
    true
}

/// The single-slot holder of the most recent feed snapshot.
pub struct SnapshotStore {
    latest: Option<DronesDocument>,
}

impl SnapshotStore {
    /// What the store holds.
    pub closed spec fn view(&self) -> Option<DronesDocument> {
        self.latest
    }

    /// An empty store: no snapshot seen yet.
    pub fn new() -> (r: SnapshotStore)
        ensures
            r@ == None::<DronesDocument>,
    {
        SnapshotStore { latest: None }
    }

    /// Replace the held snapshot wholesale.
    pub fn set(&mut self, doc: DronesDocument)
        ensures
            final(self)@ == Some(doc),
    {
        self.latest = Some(doc);
    }

    /// The most recent snapshot, if any poll has succeeded yet.
    pub fn current(&self) -> (r: &Option<DronesDocument>)
        ensures
            *r == self@,
    {
        &self.latest
    }
}

} // verus!
