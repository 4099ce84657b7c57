//! Tests for the bounded per-filter spot storage.

use rbn_parser::config::StorageConfig;
use rbn_parser::filter::{PatternList, SpotFilter};
use rbn_parser::spot::{CwSpot, Mode, SpotTime, SpotType};
use rbn_parser::storage::{FilterStorage, SpotStorage};

fn make_spot(dx_call: &str) -> CwSpot {
    CwSpot {
        spotter: "TEST-#".to_string(),
        frequency_millikhz: 14_025_000,
        dx_call: dx_call.to_string(),
        mode: Mode::Cw,
        snr_db: 15,
        wpm: 20,
        spot_type: SpotType::Cq,
        time: SpotTime::from_hm(12, 0).unwrap(),
    }
}

#[test]
fn test_filter_storage_basic() {
    let mut storage = FilterStorage::new("test".to_string(), 3);

    storage.push(make_spot("W1AW"));
    assert_eq!(storage.len(), 1);

    storage.push(make_spot("W2AW"));
    storage.push(make_spot("W3AW"));
    assert_eq!(storage.len(), 3);
}

#[test]
fn test_per_filter_limit() {
    let config = StorageConfig {
        default_max_kept_entries: 2,
        global_max_size: 10 * 1024 * 1024, // 10MB, won't hit
    };

    let filter = SpotFilter {
        dx_call: Some(PatternList::from_vec(vec!["W*".to_string()])),
        ..Default::default()
    };

    let mut storage = SpotStorage::new(&config, vec![filter]);

    // Store 3 spots, should only keep 2
    storage.store_spot(0, make_spot("W1AW"));
    storage.store_spot(0, make_spot("W2AW"));
    storage.store_spot(0, make_spot("W3AW"));

    let fs = storage.storage_at(0);
    assert_eq!(fs.len(), 2);
    assert_eq!(fs.overflow_count(), 1);
}

#[test]
fn test_global_limit_eviction() {
    // Very small global limit to force eviction
    let spot_size = make_spot("W1AW").json_size();
    let config = StorageConfig {
        default_max_kept_entries: 100,
        global_max_size: spot_size * 2 + 1, // Allow ~2 spots
    };

    let filter1 = SpotFilter { name: Some("filter_a".to_string()), ..Default::default() };
    let filter2 = SpotFilter { name: Some("filter_b".to_string()), ..Default::default() };

    let mut storage = SpotStorage::new(&config, vec![filter1, filter2]);

    // Store 2 spots in filter 0
    storage.store_spot(0, make_spot("W1AW"));
    storage.store_spot(0, make_spot("W2AW"));

    // Store 1 spot in filter 1, should trigger global eviction from filter 0
    storage.store_spot(1, make_spot("W3AW"));

    // Total should be ~2 spots worth
    assert!(storage.total_size_bytes() <= config.global_max_size);
    assert!(storage.global_evictions() >= 1);
}

#[test]
fn test_try_store_matches() {
    let config = StorageConfig { default_max_kept_entries: 10, global_max_size: 10 * 1024 * 1024 };

    let filter1 = SpotFilter {
        dx_call: Some(PatternList::from_vec(vec!["W6*".to_string()])),
        ..Default::default()
    };
    let filter2 = SpotFilter { bands: Some(vec!["20m".to_string()]), ..Default::default() };

    let mut storage = SpotStorage::new(&config, vec![filter1, filter2]);

    // W6JSV on 20m matches both filters
    let spot = make_spot("W6JSV");
    let matched = storage.try_store(&spot);
    assert_eq!(matched, vec![0, 1]);

    // K1ABC on 20m matches only filter 2
    let spot2 = make_spot("K1ABC");
    let matched2 = storage.try_store(&spot2);
    assert_eq!(matched2, vec![1]);
}

#[test]
fn test_sequence_numbers() {
    let config = StorageConfig { default_max_kept_entries: 10, global_max_size: 10 * 1024 * 1024 };

    let filter = SpotFilter { name: Some("test_filter".to_string()), ..Default::default() };

    let mut storage = SpotStorage::new(&config, vec![filter]);

    // Store 3 spots
    storage.store_spot(0, make_spot("W1AW"));
    storage.store_spot(0, make_spot("W2AW"));
    storage.store_spot(0, make_spot("W3AW"));

    let fs = storage.storage_at(0);

    // Check sequence numbers are assigned correctly
    assert_eq!(fs.latest_seq(), 3);
    assert_eq!(fs.len(), 3);

    // Get all spots
    let all_spots = fs.get_spots_since(0);
    assert_eq!(all_spots.len(), 3);
    assert_eq!(all_spots[0].seq, 1);
    assert_eq!(all_spots[1].seq, 2);
    assert_eq!(all_spots[2].seq, 3);

    // Get spots since seq 1 (should get spots 2 and 3)
    let recent_spots = fs.get_spots_since(1);
    assert_eq!(recent_spots.len(), 2);
    assert_eq!(recent_spots[0].seq, 2);
    assert_eq!(recent_spots[1].seq, 3);

    // Get spots since seq 3 (should be empty)
    let no_spots = fs.get_spots_since(3);
    assert!(no_spots.is_empty());
}

#[test]
fn test_filter_names() {
    let config = StorageConfig { default_max_kept_entries: 10, global_max_size: 10 * 1024 * 1024 };

    let filter1 = SpotFilter { name: Some("w6_calls".to_string()), ..Default::default() };
    let filter2 = SpotFilter {
        // No name, should get auto-generated name
        ..Default::default()
    };

    let storage = SpotStorage::new(&config, vec![filter1, filter2]);

    let names = storage.filter_names();
    assert_eq!(names.len(), 2);
    assert_eq!(names[0], "w6_calls");
    assert_eq!(names[1], "filter_1");

    // Get by name
    assert!(storage.get_filter_by_name("w6_calls").is_some());
    assert!(storage.get_filter_by_name("filter_1").is_some());
    assert!(storage.get_filter_by_name("nonexistent").is_none());
}

#[test]
fn test_shared_budget_two_queues() {
    // Two filters capped at 2 entries under a budget that holds exactly
    // three spots: four spots into A then one into B. The caps evict A's
    // oldest two, so A retains seqs {3,4} and B holds seq {1}; the budget
    // itself is never exceeded, so no global eviction fires.
    let spot_size = make_spot("W1AW").json_size();
    let config = StorageConfig { default_max_kept_entries: 50, global_max_size: spot_size * 3 };

    let filter_a = SpotFilter {
        name: Some("a".to_string()),
        max_kept_entries: Some(2),
        ..Default::default()
    };
    let filter_b = SpotFilter {
        name: Some("b".to_string()),
        max_kept_entries: Some(2),
        ..Default::default()
    };

    let mut storage = SpotStorage::new(&config, vec![filter_a, filter_b]);

    storage.store_spot(0, make_spot("W1AW"));
    storage.store_spot(0, make_spot("W2AW"));
    storage.store_spot(0, make_spot("W3AW"));
    storage.store_spot(0, make_spot("W4AW"));
    storage.store_spot(1, make_spot("W5AW"));

    let qa = storage.storage_at(0);
    assert_eq!(qa.len(), 2);
    let a_spots = qa.get_spots_since(0);
    assert_eq!(a_spots[0].seq, 3);
    assert_eq!(a_spots[1].seq, 4);

    let qb = storage.storage_at(1);
    assert_eq!(qb.len(), 1);
    let b_spots = qb.get_spots_since(0);
    assert_eq!(b_spots[0].seq, 1);

    assert_eq!(storage.global_evictions(), 0);
    assert!(storage.total_size_bytes() <= config.global_max_size);
}

#[test]
fn test_shared_budget_global_pressure() {
    // One byte less than three spots' worth of budget: the store into B
    // must first evict from the longest queue, A.
    let spot_size = make_spot("W1AW").json_size();
    let config =
        StorageConfig { default_max_kept_entries: 50, global_max_size: spot_size * 3 - 1 };

    let filter_a = SpotFilter {
        name: Some("a".to_string()),
        max_kept_entries: Some(2),
        ..Default::default()
    };
    let filter_b = SpotFilter {
        name: Some("b".to_string()),
        max_kept_entries: Some(2),
        ..Default::default()
    };

    let mut storage = SpotStorage::new(&config, vec![filter_a, filter_b]);

    storage.store_spot(0, make_spot("W1AW"));
    storage.store_spot(0, make_spot("W2AW"));
    storage.store_spot(1, make_spot("W3AW"));

    assert!(storage.global_evictions() >= 1);
    // A lost its oldest entry to the global budget.
    assert_eq!(storage.storage_at(0).len(), 1);
    assert_eq!(storage.storage_at(0).get_spots_since(0)[0].seq, 2);
    assert_eq!(storage.storage_at(1).len(), 1);
    assert!(storage.total_size_bytes() <= config.global_max_size);
}

#[test]
fn test_cursor_read_after_eviction() {
    // Five spots through a queue capped at 2: seqs 1..3 are evicted, the
    // retained range is {4,5}, and cursor reads see exactly the suffix.
    let config = StorageConfig { default_max_kept_entries: 2, global_max_size: 10 * 1024 * 1024 };
    let filter = SpotFilter::default();
    let mut storage = SpotStorage::new(&config, vec![filter]);

    for dx in ["W1AW", "W2AW", "W3AW", "W4AW", "W5AW"] {
        storage.store_spot(0, make_spot(dx));
    }

    let fs = storage.storage_at(0);
    assert_eq!(fs.overflow_count(), 3);

    let all = fs.get_spots_since(0);
    assert_eq!(all.len(), 2);
    assert_eq!(all[0].seq, 4);
    assert_eq!(all[1].seq, 5);

    let some = fs.get_spots_since(4);
    assert_eq!(some.len(), 1);
    assert_eq!(some[0].seq, 5);

    let none = fs.get_spots_since(5);
    assert!(none.is_empty());
    assert_eq!(fs.get_spots_since(fs.latest_seq()).len(), 0);
}

#[test]
fn test_oversized_spot_is_not_stored() {
    // A spot larger than the whole budget empties the storage and is
    // dropped.
    let spot_size = make_spot("W1AW").json_size();
    let config = StorageConfig { default_max_kept_entries: 10, global_max_size: spot_size - 1 };
    let filter = SpotFilter::default();
    let mut storage = SpotStorage::new(&config, vec![filter]);

    storage.store_spot(0, make_spot("W1AW"));
    assert_eq!(storage.storage_at(0).len(), 0);
    assert_eq!(storage.total_size_bytes(), 0);
}
