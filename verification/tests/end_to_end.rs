use birdnest_api::drones::{Drone, DronesCapture, DronesDocument, DronesSensorInfo};
use birdnest_api::infringements::violating_drones;
use birdnest_api::pilots::Pilot;
use birdnest_api::{get_infringements, record_infringements, InfringementStore};

fn drone_at(serial: &str, x: i32, y: i32) -> Drone {
    Drone {
        serial_number: serial.to_string(),
        model: "Mosquito".to_string(),
        manufacturer: "ProDrone".to_string(),
        mac: "00:00:00:00:00:01".to_string(),
        ipv4: "10.0.0.1".to_string(),
        ipv6: "::2".to_string(),
        firmware: "2.1".to_string(),
        position_x: x,
        position_y: y,
        altitude: 5_000,
    }
}

fn feed(drones: Vec<Drone>) -> DronesDocument {
    DronesDocument {
        device_information: DronesSensorInfo {
            device_id: Some("GUARDB1RD".to_string()),
            listen_range: Some(500_000),
            device_started: None,
            uptime_seconds: Some(7),
            update_interval_ms: Some(2_000),
        },
        capture: DronesCapture {
            snapshot_timestamp: "2023-01-06T13:45:40.503Z".to_string(),
            drone: drones,
        },
    }
}

#[test]
fn one_tick_from_feed_to_store() {
    // Two drones: 50 m and 150 m from the center, threshold 100 m.
    let doc = feed(vec![
        drone_at("CLOSE", 300_000, 250_000),
        drone_at("FAR", 400_000, 250_000),
    ]);
    let violating = violating_drones(&doc);
    assert_eq!(violating.len(), 1);
    assert_eq!(violating[0].drone.serial_number, "CLOSE");

    // The pilot lookup for the violating drone failed this tick.
    let pilots: Vec<Option<Pilot>> = vec![None];
    let now: i64 = 1_673_012_740_000;
    let candidates = get_infringements(&violating, &pilots, now);
    assert_eq!(candidates.len(), 1);

    let mut store = InfringementStore::new(10_000);
    record_infringements(&mut store, &candidates);

    // The infringement exists despite the failed pilot lookup, with the
    // observed position and distance.
    let e = store.get(&"CLOSE".to_string(), now).unwrap();
    assert!(e.pilot.is_none());
    assert_eq!(e.distance_sq, 50_000u128 * 50_000u128);
    assert_eq!(e.distance_mm(), 50_000);
    assert_eq!((e.x, e.y), (300_000, 250_000));
    assert_eq!(e.updated_at, now);

    // The drone beyond the threshold yielded nothing.
    assert!(store.get(&"FAR".to_string(), now).is_none());
    assert_eq!(store.entry_count(), 1);
}

#[test]
fn a_resolved_pilot_is_attached_to_the_candidate() {
    let doc = feed(vec![drone_at("CLOSE", 300_000, 250_000)]);
    let violating = violating_drones(&doc);
    let resolved = Pilot {
        pilot_id: "P1".to_string(),
        first_name: "Jane".to_string(),
        last_name: "Doe".to_string(),
        phone_number: "+358401234567".to_string(),
        created_date: "2022-12-01T00:00:00.000Z".to_string(),
        email: "jane.doe@example.com".to_string(),
    };
    let pilots = vec![Some(resolved)];
    let candidates = get_infringements(&violating, &pilots, 2_000);
    assert_eq!(candidates.len(), 1);
    assert_eq!(candidates[0].pilot.as_ref().unwrap().pilot_id, "P1");
    assert_eq!(candidates[0].drone_serial_number, "CLOSE");
    assert_eq!(candidates[0].updated_at, 2_000);
}
