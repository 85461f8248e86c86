use birdnest_api::drones::Drone;
use birdnest_api::infringements::violating_drones;
use birdnest_api::drones::{DronesCapture, DronesDocument, DronesSensorInfo};
use birdnest_api::get_drone_distance_to_ndz;

fn drone_at(serial: &str, x: i32, y: i32) -> Drone {
    Drone {
        serial_number: serial.to_string(),
        model: "Mosquito".to_string(),
        manufacturer: "ProDr\u{f6}ne Ltd".to_string(),
        mac: "00:11:22:33:44:55".to_string(),
        ipv4: "192.168.0.2".to_string(),
        ipv6: "::1".to_string(),
        firmware: "1.0".to_string(),
        position_x: x,
        position_y: y,
        altitude: 4000,
    }
}

fn doc_of(drones: Vec<Drone>) -> DronesDocument {
    DronesDocument {
        device_information: DronesSensorInfo {
            device_id: Some("GUARDB1RD".to_string()),
            listen_range: Some(500000),
            device_started: Some("2023-01-01T00:00:00.000Z".to_string()),
            uptime_seconds: Some(100),
            update_interval_ms: Some(2000),
        },
        capture: DronesCapture {
            snapshot_timestamp: "2023-01-06T13:45:40.503Z".to_string(),
            drone: drones,
        },
    }
}

#[test]
fn distance_of_a_3_4_5_triangle() {
    // 30 m east, 40 m north of the center: exactly 50 m away.
    let d = drone_at("A1", 280_000, 290_000);
    assert_eq!(get_drone_distance_to_ndz(&d), 50_000);
}

#[test]
fn distance_at_the_center_is_zero() {
    let d = drone_at("A2", 250_000, 250_000);
    assert_eq!(get_drone_distance_to_ndz(&d), 0);
}

#[test]
fn distance_rounds_down_to_whole_millimeters() {
    // dx = 3, dy = 4 gives 5; dx = 1, dy = 1 gives sqrt(2), so 1.
    assert_eq!(get_drone_distance_to_ndz(&drone_at("A3", 250_003, 250_004)), 5);
    assert_eq!(get_drone_distance_to_ndz(&drone_at("A4", 250_001, 250_001)), 1);
}

#[test]
fn violation_needs_strictly_less_than_the_radius() {
    // Exactly on the 100 m radius: no violation. One millimeter closer: violation.
    let on_edge = drone_at("B1", 350_000, 250_000);
    let inside = drone_at("B2", 349_999, 250_000);
    let doc = doc_of(vec![on_edge, inside]);
    let v = violating_drones(&doc);
    assert_eq!(v.len(), 1);
    assert_eq!(v[0].drone.serial_number, "B2");
    assert_eq!(v[0].distance_sq, 99_999u128 * 99_999u128);
}

#[test]
fn violating_drones_keeps_feed_order() {
    let doc = doc_of(vec![
        drone_at("C1", 250_000, 250_000),
        drone_at("C2", 400_000, 250_000),
        drone_at("C3", 250_000, 260_000),
    ]);
    let v = violating_drones(&doc);
    assert_eq!(v.len(), 2);
    assert_eq!(v[0].drone.serial_number, "C1");
    assert_eq!(v[1].drone.serial_number, "C3");
}
