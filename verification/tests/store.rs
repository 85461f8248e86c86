use birdnest_api::{record_infringements, Infringement, InfringementStore};
use birdnest_api::pilots::Pilot;

fn pilot(id: &str) -> Pilot {
    Pilot {
        pilot_id: id.to_string(),
        first_name: "Jane".to_string(),
        last_name: "Doe".to_string(),
        phone_number: "+358401234567".to_string(),
        created_date: "2022-12-01T00:00:00.000Z".to_string(),
        email: "jane.doe@example.com".to_string(),
    }
}

fn obs(serial: &str, distance_sq: u128, x: i32, y: i32, pilot: Option<Pilot>, at: i64) -> Infringement {
    Infringement {
        drone_serial_number: serial.to_string(),
        pilot,
        distance_sq,
        x,
        y,
        updated_at: at,
    }
}

#[test]
fn merge_keeps_the_minimum_distance_and_its_position() {
    let mut st = InfringementStore::new(100);
    st.merge(obs("S1", 80 * 80, 10, 11, None, 1_000));
    st.merge(obs("S1", 50 * 50, 20, 21, None, 2_000));
    st.merge(obs("S1", 70 * 70, 30, 31, None, 3_000));
    let e = st.get(&"S1".to_string(), 3_000).unwrap();
    assert_eq!(e.distance_sq, 50 * 50);
    assert_eq!((e.x, e.y), (20, 21));
    assert_eq!(e.updated_at, 3_000);
}

#[test]
fn merge_tie_prefers_the_new_position() {
    let mut st = InfringementStore::new(100);
    st.merge(obs("S2", 2_500, 1, 2, None, 1_000));
    st.merge(obs("S2", 2_500, 7, 8, None, 2_000));
    let e = st.get(&"S2".to_string(), 2_000).unwrap();
    assert_eq!(e.distance_sq, 2_500);
    assert_eq!((e.x, e.y), (7, 8));
}

#[test]
fn pilot_and_update_time_follow_the_latest_merge() {
    let mut st = InfringementStore::new(100);
    st.merge(obs("S3", 100, 0, 0, Some(pilot("P1")), 1_000));
    // The later, farther observation failed its pilot lookup: the stale
    // pilot must not be kept.
    st.merge(obs("S3", 400, 5, 5, None, 2_000));
    let e = st.get(&"S3".to_string(), 2_000).unwrap();
    assert!(e.pilot.is_none());
    assert_eq!(e.updated_at, 2_000);
    assert_eq!(e.distance_sq, 100);
    assert_eq!((e.x, e.y), (0, 0));

    st.merge(obs("S3", 900, 6, 6, Some(pilot("P2")), 3_000));
    let e = st.get(&"S3".to_string(), 3_000).unwrap();
    assert_eq!(e.pilot.as_ref().unwrap().pilot_id, "P2");
    assert_eq!(e.updated_at, 3_000);
}

#[test]
fn entries_expire_after_the_duration() {
    let mut st = InfringementStore::new(100);
    st.merge(obs("S4", 100, 0, 0, None, 1_000));
    // Exactly at the duration's edge the entry is still there.
    assert!(st.get(&"S4".to_string(), 601_000).is_some());
    assert_eq!(st.list_all(601_000, None).len(), 1);
    // One millisecond later it is gone from both reads.
    assert!(st.get(&"S4".to_string(), 601_001).is_none());
    assert_eq!(st.list_all(601_001, None).len(), 0);
}

#[test]
fn a_merge_just_before_expiry_resets_the_clock() {
    let mut st = InfringementStore::new(100);
    st.merge(obs("S5", 100, 0, 0, None, 1_000));
    // Merged again just before it would have expired.
    st.merge(obs("S5", 200, 1, 1, None, 600_900));
    // Well past the first observation's window, still present.
    let e = st.get(&"S5".to_string(), 1_200_000).unwrap();
    assert_eq!(e.updated_at, 600_900);
    assert_eq!(e.distance_sq, 100);
    // The reset clock runs out in turn.
    assert!(st.get(&"S5".to_string(), 1_201_000).is_none());
}

#[test]
fn an_expired_entry_merges_like_a_first_insert() {
    let mut st = InfringementStore::new(100);
    st.merge(obs("S6", 100, 0, 0, None, 1_000));
    // Far later: the old minimum must not survive into the new entry.
    st.merge(obs("S6", 900, 9, 9, None, 2_000_000));
    let e = st.get(&"S6".to_string(), 2_000_000).unwrap();
    assert_eq!(e.distance_sq, 900);
    assert_eq!((e.x, e.y), (9, 9));
}

#[test]
fn invalidate_all_empties_the_store_and_the_next_merge_is_fresh() {
    let mut st = InfringementStore::new(100);
    st.merge(obs("S7", 100, 0, 0, None, 1_000));
    st.merge(obs("S8", 200, 1, 1, None, 1_000));
    st.invalidate_all();
    assert_eq!(st.entry_count(), 0);
    assert_eq!(st.list_all(1_000, None).len(), 0);
    assert!(st.get(&"S7".to_string(), 1_000).is_none());
    // A subsequent merge behaves as a first insert: the candidate verbatim.
    st.merge(obs("S7", 400, 2, 2, None, 1_500));
    let e = st.get(&"S7".to_string(), 1_500).unwrap();
    assert_eq!(e.distance_sq, 400);
    assert_eq!((e.x, e.y), (2, 2));
}

#[test]
fn the_capacity_bound_evicts_the_oldest_entry() {
    let mut st = InfringementStore::new(2);
    st.merge(obs("T1", 100, 0, 0, None, 1_000));
    st.merge(obs("T2", 200, 0, 0, None, 1_100));
    st.merge(obs("T3", 300, 0, 0, None, 1_200));
    assert_eq!(st.entry_count(), 2);
    assert!(st.get(&"T1".to_string(), 1_200).is_none());
    assert!(st.get(&"T2".to_string(), 1_200).is_some());
    assert!(st.get(&"T3".to_string(), 1_200).is_some());
}

#[test]
fn list_all_filters_strictly_after_the_given_stamp() {
    let mut st = InfringementStore::new(100);
    st.merge(obs("U1", 100, 0, 0, None, 100_000));
    st.merge(obs("U2", 200, 0, 0, None, 200_000));
    let all = st.list_all(200_000, None);
    assert_eq!(all.len(), 2);
    let filtered = st.list_all(200_000, Some(100_000));
    assert_eq!(filtered.len(), 1);
    assert_eq!(filtered[0].drone_serial_number, "U2");
    let none = st.list_all(200_000, Some(200_000));
    assert_eq!(none.len(), 0);
}

#[test]
fn record_infringements_merges_a_whole_tick() {
    let mut st = InfringementStore::new(100);
    let candidates = vec![
        obs("V1", 100, 1, 1, None, 1_000),
        obs("V2", 200, 2, 2, None, 1_000),
        obs("V1", 50, 3, 3, None, 1_000),
    ];
    record_infringements(&mut st, &candidates);
    assert_eq!(st.entry_count(), 2);
    let e = st.get(&"V1".to_string(), 1_000).unwrap();
    assert_eq!(e.distance_sq, 50);
    assert_eq!((e.x, e.y), (3, 3));
}
