use birdnest_api::errors::CoreError;
use birdnest_api::pilots::{get_pilot_replay, resolve_replay_pilot, Pilot, PilotCache};

fn pilot(id: &str) -> Pilot {
    Pilot {
        pilot_id: id.to_string(),
        first_name: "Jane".to_string(),
        last_name: "Doe".to_string(),
        phone_number: "+358401234567".to_string(),
        created_date: "2022-12-01T00:00:00.000Z".to_string(),
        email: "jane.doe@example.com".to_string(),
    }
}

#[test]
fn the_cache_returns_what_was_stored() {
    let mut cache = PilotCache::new(10);
    assert!(cache.lookup(&"D1".to_string()).is_none());
    cache.insert("D1".to_string(), pilot("P1"));
    let got = cache.lookup(&"D1".to_string()).unwrap();
    assert_eq!(got.pilot_id, "P1");
    assert_eq!(cache.entry_count(), 1);
}

#[test]
fn inserting_a_known_serial_overwrites_in_place() {
    let mut cache = PilotCache::new(10);
    cache.insert("D1".to_string(), pilot("P1"));
    cache.insert("D1".to_string(), pilot("P9"));
    assert_eq!(cache.entry_count(), 1);
    assert_eq!(cache.lookup(&"D1".to_string()).unwrap().pilot_id, "P9");
}

#[test]
fn a_full_cache_evicts_its_oldest_entry() {
    let mut cache = PilotCache::new(2);
    cache.insert("D1".to_string(), pilot("P1"));
    cache.insert("D2".to_string(), pilot("P2"));
    cache.insert("D3".to_string(), pilot("P3"));
    assert_eq!(cache.entry_count(), 2);
    assert!(cache.lookup(&"D1".to_string()).is_none());
    assert!(cache.lookup(&"D2".to_string()).is_some());
    assert!(cache.lookup(&"D3".to_string()).is_some());
}

#[test]
fn snapshot_entries_copies_the_cache_in_order() {
    let mut cache = PilotCache::new(10);
    cache.insert("D1".to_string(), pilot("P1"));
    cache.insert("D2".to_string(), pilot("P2"));
    let entries = cache.snapshot_entries();
    assert_eq!(entries.len(), 2);
    assert_eq!(entries[0].0, "D1");
    assert_eq!(entries[0].1.pilot_id, "P1");
    assert_eq!(entries[1].0, "D2");
}

#[test]
fn a_replay_lookup_miss_is_not_found() {
    let doc = vec![("D1".to_string(), pilot("P1"))];
    assert_eq!(resolve_replay_pilot(&doc, &"D1".to_string()).unwrap().pilot_id, "P1");
    assert!(matches!(
        resolve_replay_pilot(&doc, &"D2".to_string()),
        Err(CoreError::NotFound)
    ));
}

#[test]
fn a_replay_lookup_fills_the_cache_once() {
    let doc = vec![("D1".to_string(), pilot("P1"))];
    let mut cache = PilotCache::new(10);
    let got = get_pilot_replay(&mut cache, &doc, &"D1".to_string()).unwrap();
    assert_eq!(got.pilot_id, "P1");
    assert_eq!(cache.entry_count(), 1);
    // The second lookup is served from the cache, even with the document gone.
    let empty: Vec<(String, Pilot)> = vec![];
    let again = get_pilot_replay(&mut cache, &empty, &"D1".to_string()).unwrap();
    assert_eq!(again.pilot_id, "P1");
    // A serial in neither place fails hard.
    assert!(matches!(
        get_pilot_replay(&mut cache, &empty, &"D9".to_string()),
        Err(CoreError::NotFound)
    ));
}
