//! Tests for PoLo notes parsing and the ingest pipeline.

use rbn_parser::config::StorageConfig;
use rbn_parser::filter::{PatternList, SpotFilter};
use rbn_parser::pipeline::{process_line, ProcessOutcome};
use rbn_parser::polo::{parse_polo_notes, PoloNotesCache};
use rbn_parser::stats::SpotStats;
use rbn_parser::storage::SpotStorage;

#[test]
fn test_parse_polo_notes_basic() {
    let content = "VK1AO Alan\nVK4KC Marty\nKI2D Sebastián";
    let callsigns = parse_polo_notes(content);
    assert_eq!(callsigns, vec!["VK1AO", "VK4KC", "KI2D"]);
}

#[test]
fn test_parse_polo_notes_with_comments() {
    let content = "# My watchlist\nW6JSV Jay\n# Another comment\nK6ABC Bob";
    let callsigns = parse_polo_notes(content);
    assert_eq!(callsigns, vec!["W6JSV", "K6ABC"]);
}

#[test]
fn test_parse_polo_notes_empty_lines() {
    let content = "W6JSV Jay\n\n\nK6ABC Bob\n";
    let callsigns = parse_polo_notes(content);
    assert_eq!(callsigns, vec!["W6JSV", "K6ABC"]);
}

#[test]
fn test_parse_polo_notes_whitespace() {
    let content = "  W6JSV Jay\n\t\nK6ABC Bob  ";
    let callsigns = parse_polo_notes(content);
    assert_eq!(callsigns, vec!["W6JSV", "K6ABC"]);
}

#[test]
fn test_parse_polo_notes_empty() {
    let content = "";
    let callsigns = parse_polo_notes(content);
    assert!(callsigns.is_empty());
}

#[test]
fn test_polo_cache_refresh_decisions() {
    let cache = PoloNotesCache::new(0);
    // Never fetched: an initial fetch is due even with refresh disabled.
    assert!(cache.needs_refresh_at(1000));

    let cache = PoloNotesCache::new(600);
    assert!(cache.needs_refresh_at(600));
    assert!(!cache.needs_refresh_at(599));

    let mut cache = PoloNotesCache::new(600);
    cache.set_callsigns(vec!["W6JSV".to_string()]);
    assert_eq!(cache.get_callsigns(), vec!["W6JSV"]);
}

fn empty_storage() -> SpotStorage {
    SpotStorage::new(&StorageConfig::default(), vec![])
}

#[test]
fn test_process_line_valid_spot() {
    let mut stats = SpotStats::new();
    let line = "DX de EA5WU-#:    7018.3  RW1M           CW    19 dB  18 WPM  CQ      2259Z";

    let mut storage = empty_storage();
    process_line(line, &mut stats, true, &mut storage, false);

    assert_eq!(stats.total_spots(), 1);
}

#[test]
fn test_process_line_non_spot() {
    let mut stats = SpotStats::new();
    let line = "Welcome to the Reverse Beacon Network";

    let mut storage = empty_storage();
    let outcome = process_line(line, &mut stats, true, &mut storage, false);

    assert!(matches!(outcome, ProcessOutcome::NonSpot));
    assert_eq!(stats.summary().non_spot_lines, 1);
}

#[test]
fn test_process_line_skips_non_cw_when_cw_only() {
    let mut stats = SpotStats::new();
    let line = "DX de EA5WU-#:    7018.3  RW1M           RTTY  19 dB  18 WPM  CQ      2259Z";

    let mut storage = empty_storage();
    let outcome = process_line(line, &mut stats, true, &mut storage, false);

    assert!(matches!(outcome, ProcessOutcome::SkippedNonCw(_)));
    assert_eq!(stats.total_spots(), 0);
}

#[test]
fn test_process_line_stores_matches() {
    let mut stats = SpotStats::new();
    let filter = SpotFilter {
        dx_call: Some(PatternList::from_vec(vec!["RW*".to_string()])),
        ..Default::default()
    };
    let mut storage = SpotStorage::new(&StorageConfig::default(), vec![filter]);
    let line = "DX de EA5WU-#:    7018.3  RW1M           CW    19 dB  18 WPM  CQ      2259Z";

    let outcome = process_line(line, &mut stats, true, &mut storage, true);

    match outcome {
        ProcessOutcome::Processed(spot, matched) => {
            assert_eq!(spot.dx_call, "RW1M");
            assert_eq!(matched, vec![0]);
        }
        other => panic!("unexpected outcome: {:?}", other),
    }
    assert_eq!(storage.storage_at(0).len(), 1);
}

#[test]
fn test_process_line_parse_failure() {
    let mut stats = SpotStats::new();
    // Looks like a spot but the grammar rejects it.
    let line = "DX de EA5WU-#: this is not a spot at all, sorry";

    let mut storage = empty_storage();
    let outcome = process_line(line, &mut stats, true, &mut storage, false);

    assert!(matches!(outcome, ProcessOutcome::ParseFailed(_)));
    assert_eq!(stats.summary().parse_failures, 1);
}
