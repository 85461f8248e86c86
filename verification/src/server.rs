//! What the core hands the HTTP layer: response shapes and the listing
//! logic behind the read API. Routing, serialization and transport stay
//! outside.

use vstd::prelude::*;

use crate::drones::DronesDocument;
use crate::errors::CoreError;
use crate::infringements::{InfringementStore, spec_list_all, Infringement};
use crate::replay::ReplayStatus;
use crate::time::{parse_min_updated_at, rfc3339_millis};

verus! {

/// What the instance reports about itself.
pub struct MetaResponse {
    pub version: String,
    pub replay_status: ReplayStatus,
}

/// The recent-infringement listing handed to the API layer.
pub struct InfringementResponse {
    pub infringements: Vec<Infringement>,
}

/// The current snapshot's drones, flattened into parallel lists; the n-th
/// element of each list belongs to the same drone.
pub struct DronesResponse {
    pub x: Vec<i32>,
    pub y: Vec<i32>,
    pub serials: Vec<String>,
}

/// Flatten the current snapshot for the API; with no snapshot seen yet,
/// every list is empty.
pub fn drones_response(snapshot: &Option<DronesDocument>) -> (r: DronesResponse)
    ensures
        match *snapshot {
            Some(doc) => {
                &&& r.x@.len() == doc.capture.drone@.len()
                &&& r.y@.len() == doc.capture.drone@.len()
                &&& r.serials@.len() == doc.capture.drone@.len()
                &&& forall|i: int|
                    0 <= i < doc.capture.drone@.len() ==> r.x@[i] == (
                    #[trigger] doc.capture.drone@[i]).position_x && r.y@[i]
                        == doc.capture.drone@[i].position_y && r.serials@[i]@
                        == doc.capture.drone@[i].serial_number@
            },
            None => r.x@.len() == 0 && r.y@.len() == 0 && r.serials@.len() == 0,
        },
{
    let mut x: Vec<i32> = Vec::new();
    let mut y: Vec<i32> = Vec::new();
    let mut serials: Vec<String> = Vec::new();
    match snapshot {
        Some(doc) => {
            let n = doc.capture.drone.len();
            let mut i: usize = 0;
            while i < n
                invariant
                    i <= n,
                    n == doc.capture.drone@.len(),
                    x@.len() == i,
                    y@.len() == i,
                    serials@.len() == i,
                    forall|j: int|
                        0 <= j < i ==> x@[j] == (#[trigger] doc.capture.drone@[j]).position_x
                            && y@[j] == doc.capture.drone@[j].position_y && serials@[j]@
                            == doc.capture.drone@[j].serial_number@,
                decreases n - i,
            {
                let d = &doc.capture.drone[i];
                x.push(d.position_x);
                y.push(d.position_y);
                serials.push(d.serial_number.clone());
                i += 1;
            }
            DronesResponse { x, y, serials }
        }
        None => DronesResponse { x, y, serials },
    }
}

/// Answer one listing request: check the client's optional filter stamp,
/// then list every entry still visible at `now` that was updated strictly
/// after the stamp. A malformed stamp is the client's error.
pub fn list_infringements(
    store: &InfringementStore,
    now: i64,
    min_updated_at: Option<&str>,
) -> (r: Result<InfringementResponse, CoreError>)
    ensures
        match min_updated_at {
            None => r is Ok && r->Ok_0.infringements@ == spec_list_all(
                store@,
                now,
                None::<i64>,
            ),
            Some(s) => match rfc3339_millis(s@) {
                Some(m) => r is Ok && r->Ok_0.infringements@ == spec_list_all(
                    store@,
                    now,
                    Some(m),
                ),
                None => r == Err::<InfringementResponse, CoreError>(CoreError::Validation),
            },
        },
{
    match min_updated_at {
        None => Ok(InfringementResponse { infringements: store.list_all(now, None) }),
        Some(s) => {
            match parse_min_updated_at(s) {
                Ok(m) => Ok(InfringementResponse { infringements: store.list_all(now, Some(m)) }),
                Err(e) => Err(e),
            }
        }
    }
}

} // verus!
