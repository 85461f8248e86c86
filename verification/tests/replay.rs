use birdnest_api::drones::{Drone, DronesCapture, DronesDocument, DronesSensorInfo, SnapshotStore};
use birdnest_api::errors::CoreError;
use birdnest_api::infringements::{Infringement, InfringementStore};
use birdnest_api::replay::{get_replay_status, replay_drones, replay_index, ReplayStatus};

fn doc_stamped(stamp: &str) -> DronesDocument {
    DronesDocument {
        device_information: DronesSensorInfo {
            device_id: None,
            listen_range: None,
            device_started: None,
            uptime_seconds: None,
            update_interval_ms: None,
        },
        capture: DronesCapture {
            snapshot_timestamp: stamp.to_string(),
            drone: vec![Drone {
                serial_number: "R1".to_string(),
                model: "Mosquito".to_string(),
                manufacturer: "ProDrone".to_string(),
                mac: "00:00:00:00:00:01".to_string(),
                ipv4: "10.0.0.1".to_string(),
                ipv6: "::2".to_string(),
                firmware: "2.1".to_string(),
                position_x: 260_000,
                position_y: 250_000,
                altitude: 5_000,
            }],
        },
    }
}

fn obs(serial: &str, at: i64) -> Infringement {
    Infringement {
        drone_serial_number: serial.to_string(),
        pilot: None,
        distance_sq: 100,
        x: 0,
        y: 0,
        updated_at: at,
    }
}

#[test]
fn the_mode_flags_decide_the_status() {
    assert_eq!(get_replay_status(false, false), Ok(ReplayStatus::Off));
    assert_eq!(get_replay_status(true, false), Ok(ReplayStatus::Replaying));
    assert_eq!(get_replay_status(false, true), Ok(ReplayStatus::Recording));
    assert_eq!(get_replay_status(true, true), Err(CoreError::Config));
}

#[test]
fn the_index_is_a_pure_function_of_time_and_history_length() {
    // Two calls at the same second give the same index.
    assert_eq!(replay_index(1_000, 5), replay_index(1_000, 5));
    // Within one poll interval the index does not move.
    assert_eq!(replay_index(1_000, 5), 0);
    assert_eq!(replay_index(1_001, 5), 0);
    // Advancing time by exactly one interval advances it by exactly one.
    assert_eq!(replay_index(1_002, 5), 1);
    assert_eq!(replay_index(1_004, 5), 2);
    // It wraps around the history length.
    assert_eq!(replay_index(1_010, 5), 0);
}

#[test]
fn replaying_an_empty_history_is_a_fetch_failure() {
    let history: Vec<DronesDocument> = vec![];
    let mut st = InfringementStore::new(10);
    let mut snaps = SnapshotStore::new();
    let r = replay_drones(&history, 1_000, &mut st, &mut snaps);
    assert!(matches!(r, Err(CoreError::Fetch)));
    assert!(snaps.current().is_none());
}

#[test]
fn replay_picks_the_snapshot_for_the_moment_and_publishes_it() {
    let history = vec![doc_stamped("t0"), doc_stamped("t1"), doc_stamped("t2")];
    let mut st = InfringementStore::new(10);
    st.merge(obs("S1", 1_000));
    let mut snaps = SnapshotStore::new();
    // 1003 s: index (1003 / 2) mod 3 = 501 mod 3 = 0 -> wraparound.
    let r = replay_drones(&history, 1_003, &mut st, &mut snaps).unwrap();
    assert_eq!(r.capture.snapshot_timestamp, "t0");
    // The wraparound emptied the store.
    assert_eq!(st.entry_count(), 0);
    let held = snaps.current().as_ref().unwrap();
    assert_eq!(held.capture.snapshot_timestamp, "t0");
}

#[test]
fn replay_away_from_the_wraparound_keeps_the_store() {
    let history = vec![doc_stamped("t0"), doc_stamped("t1"), doc_stamped("t2")];
    let mut st = InfringementStore::new(10);
    st.merge(obs("S1", 1_000));
    let mut snaps = SnapshotStore::new();
    // 1004 s: index (1004 / 2) mod 3 = 502 mod 3 = 1.
    let r = replay_drones(&history, 1_004, &mut st, &mut snaps).unwrap();
    assert_eq!(r.capture.snapshot_timestamp, "t1");
    assert_eq!(st.entry_count(), 1);
    assert!(st.get(&"S1".to_string(), 1_000).is_some());
}
