//! Tests for wildcard matching and the filter predicate.

use rbn_parser::filter::{
    any_filter_matches, matches_wildcard, validate_wildcard_pattern, PatternList, SpotFilter,
};
use rbn_parser::spot::{CwSpot, Mode, SpotTime, SpotType};

fn make_spot(dx_call: &str, spotter: &str, freq_millikhz: u64, snr: i32, wpm: u16) -> CwSpot {
    CwSpot {
        spotter: spotter.to_string(),
        frequency_millikhz: freq_millikhz,
        dx_call: dx_call.to_string(),
        mode: Mode::Cw,
        snr_db: snr,
        wpm,
        spot_type: SpotType::Cq,
        time: SpotTime::from_hm(12, 0).unwrap(),
    }
}

#[test]
fn test_matches_wildcard_prefix() {
    assert!(matches_wildcard("W6*", "W6JSV"));
    assert!(matches_wildcard("W6*", "w6abc"));
    assert!(!matches_wildcard("W6*", "K6JSV"));
}

#[test]
fn test_matches_wildcard_suffix() {
    assert!(matches_wildcard("*JSV", "W6JSV"));
    assert!(matches_wildcard("*jsv", "K1JSV"));
    assert!(!matches_wildcard("*JSV", "W6ABC"));
}

#[test]
fn test_matches_wildcard_exact() {
    assert!(matches_wildcard("W6JSV", "W6JSV"));
    assert!(matches_wildcard("w6jsv", "W6JSV"));
    assert!(!matches_wildcard("W6JSV", "W6ABC"));
}

#[test]
fn test_validate_wildcard_pattern() {
    assert!(validate_wildcard_pattern("W6*").is_ok());
    assert!(validate_wildcard_pattern("*JSV").is_ok());
    assert!(validate_wildcard_pattern("W6JSV").is_ok());
    assert!(validate_wildcard_pattern("*W6*").is_err());
    assert!(validate_wildcard_pattern("W*6").is_err());
}

#[test]
fn test_filter_dx_call() {
    let filter = SpotFilter {
        dx_call: Some(PatternList::from_vec(vec!["W6*".to_string()])),
        ..Default::default()
    };

    assert!(filter.matches(&make_spot("W6JSV", "EA5WU-#", 14_025_000, 15, 20)));
    assert!(!filter.matches(&make_spot("K1ABC", "EA5WU-#", 14_025_000, 15, 20)));
}

#[test]
fn test_filter_band() {
    let filter = SpotFilter {
        bands: Some(vec!["20m".to_string(), "40m".to_string()]),
        ..Default::default()
    };

    // 14025 kHz is 20m
    assert!(filter.matches(&make_spot("W6JSV", "EA5WU-#", 14_025_000, 15, 20)));
    // 7025 kHz is 40m
    assert!(filter.matches(&make_spot("W6JSV", "EA5WU-#", 7_025_000, 15, 20)));
    // 21025 kHz is 15m
    assert!(!filter.matches(&make_spot("W6JSV", "EA5WU-#", 21_025_000, 15, 20)));
}

#[test]
fn test_filter_snr_range() {
    let filter = SpotFilter { min_snr: Some(10), max_snr: Some(20), ..Default::default() };

    assert!(filter.matches(&make_spot("W6JSV", "EA5WU-#", 14_025_000, 15, 20)));
    assert!(filter.matches(&make_spot("W6JSV", "EA5WU-#", 14_025_000, 10, 20)));
    assert!(filter.matches(&make_spot("W6JSV", "EA5WU-#", 14_025_000, 20, 20)));
    assert!(!filter.matches(&make_spot("W6JSV", "EA5WU-#", 14_025_000, 5, 20)));
    assert!(!filter.matches(&make_spot("W6JSV", "EA5WU-#", 14_025_000, 25, 20)));
}

#[test]
fn test_filter_combined_and_logic() {
    let filter = SpotFilter {
        bands: Some(vec!["20m".to_string()]),
        min_snr: Some(15),
        ..Default::default()
    };

    // Both conditions met
    assert!(filter.matches(&make_spot("W6JSV", "EA5WU-#", 14_025_000, 20, 20)));
    // Band ok, SNR too low
    assert!(!filter.matches(&make_spot("W6JSV", "EA5WU-#", 14_025_000, 10, 20)));
    // SNR ok, wrong band
    assert!(!filter.matches(&make_spot("W6JSV", "EA5WU-#", 7_025_000, 20, 20)));
}

#[test]
fn test_any_filter_matches_or_logic() {
    let filters = vec![
        SpotFilter {
            dx_call: Some(PatternList::from_vec(vec!["W6JSV".to_string()])),
            ..Default::default()
        },
        SpotFilter { bands: Some(vec!["40m".to_string()]), ..Default::default() },
    ];

    // Matches first filter
    assert!(any_filter_matches(&filters, &make_spot("W6JSV", "EA5WU-#", 14_025_000, 15, 20)));
    // Matches second filter
    assert!(any_filter_matches(&filters, &make_spot("K1ABC", "EA5WU-#", 7_025_000, 15, 20)));
    // Matches neither
    assert!(!any_filter_matches(&filters, &make_spot("K1ABC", "EA5WU-#", 14_025_000, 15, 20)));
}

#[test]
fn test_empty_filters() {
    let filters: Vec<SpotFilter> = vec![];
    assert!(!any_filter_matches(&filters, &make_spot("W6JSV", "EA5WU-#", 14_025_000, 15, 20)));
}

#[test]
fn test_filter_dx_call_array() {
    let filter = SpotFilter {
        dx_call: Some(PatternList::from_vec(vec!["W6*".to_string(), "K6*".to_string()])),
        ..Default::default()
    };

    assert!(filter.matches(&make_spot("W6JSV", "EA5WU-#", 14_025_000, 15, 20)));
    assert!(filter.matches(&make_spot("K6ABC", "EA5WU-#", 14_025_000, 15, 20)));
    assert!(!filter.matches(&make_spot("N1ABC", "EA5WU-#", 14_025_000, 15, 20)));
}

#[test]
fn test_filter_spotter_array() {
    let filter = SpotFilter {
        spotter: Some(PatternList::from_vec(vec!["EA5*".to_string(), "VE7*".to_string()])),
        ..Default::default()
    };

    assert!(filter.matches(&make_spot("W6JSV", "EA5WU-#", 14_025_000, 15, 20)));
    assert!(filter.matches(&make_spot("W6JSV", "VE7ABC-#", 14_025_000, 15, 20)));
    assert!(!filter.matches(&make_spot("W6JSV", "K1ABC-#", 14_025_000, 15, 20)));
}

#[test]
fn test_pattern_list_accessors() {
    let list = PatternList::from_vec(vec!["W6*".to_string(), "K6*".to_string()]);
    assert_eq!(list.patterns().len(), 2);
    assert_eq!(list.patterns()[0], "W6*");
    assert!(!list.is_empty());
    assert!(list.matches_any("W6JSV"));
    assert!(!list.matches_any("N1ABC"));
    let empty = PatternList::from_vec(vec![]);
    assert!(empty.is_empty());
    assert!(!empty.matches_any("W6JSV"));
}

#[test]
fn test_filter_validate() {
    let good = SpotFilter {
        dx_call: Some(PatternList::from_vec(vec!["W6*".to_string()])),
        spotter: Some(PatternList::from_vec(vec!["*JSV".to_string()])),
        ..Default::default()
    };
    assert!(good.validate().is_ok());
    let bad = SpotFilter {
        dx_call: Some(PatternList::from_vec(vec!["W*6".to_string()])),
        ..Default::default()
    };
    assert!(bad.validate().is_err());
}

#[test]
fn test_filter_dx_band_snr_scenario() {
    // A filter on `W6*`, band 20m and minimum SNR 15 accepts a matching
    // spot and rejects the same spot with another DX call.
    let filter = SpotFilter {
        dx_call: Some(PatternList::from_vec(vec!["W6*".to_string()])),
        bands: Some(vec!["20m".to_string()]),
        min_snr: Some(15),
        ..Default::default()
    };
    assert!(filter.matches(&make_spot("W6JSV", "EA5WU-#", 14_025_000, 20, 20)));
    assert!(!filter.matches(&make_spot("K1ABC", "EA5WU-#", 14_025_000, 20, 20)));
}
