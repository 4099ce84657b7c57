//! Tests for the spot value type: band classification and size.

use rbn_parser::spot::{CwSpot, Mode, SpotTime, SpotType};

fn make_spot(freq_millikhz: u64) -> CwSpot {
    CwSpot {
        spotter: "TEST-#".to_string(),
        frequency_millikhz: freq_millikhz,
        dx_call: "W1AW".to_string(),
        mode: Mode::Cw,
        snr_db: 10,
        wpm: 20,
        spot_type: SpotType::Cq,
        time: SpotTime::from_hm(12, 0).unwrap(),
    }
}

#[test]
fn test_band_detection() {
    let spot = make_spot(14_025_000);
    assert_eq!(spot.band(), Some("20m"));
}

#[test]
fn test_band_detection_edge_cases() {
    assert_eq!(make_spot(7_000_000).band(), Some("40m"));
    assert_eq!(make_spot(7_300_000).band(), Some("40m"));
    assert_eq!(make_spot(6_999_000).band(), None);
    // The fractional part is below the classification resolution.
    assert_eq!(make_spot(6_999_900).band(), None);
    assert_eq!(make_spot(7_300_900).band(), Some("40m"));
}

#[test]
fn test_band_full_table() {
    let cases: [(u64, Option<&str>); 9] = [
        (137_000, Some("2200m")),
        (475_000, Some("630m")),
        (1_900_000, Some("160m")),
        (3_600_000, Some("80m")),
        (10_120_000, Some("30m")),
        (24_900_000, Some("12m")),
        (52_000_000, Some("6m")),
        (145_000_000, Some("2m")),
        (9_000_000, None),
    ];
    for (freq, band) in cases {
        assert_eq!(make_spot(freq).band(), band);
    }
}

#[test]
fn test_json_size_tracks_field_widths() {
    let a = make_spot(7_018_300);
    let b = CwSpot { dx_call: "W1AWX".to_string(), ..make_spot(7_018_300) };
    // One more callsign character costs exactly one byte.
    assert_eq!(a.json_size() + 1, b.json_size());
    // A negative SNR costs one byte for the sign.
    let c = CwSpot { snr_db: -10, ..make_spot(7_018_300) };
    assert_eq!(a.json_size() + 1, c.json_size());
}

#[test]
fn test_spot_time_validation() {
    assert!(SpotTime::from_hm(23, 59).is_some());
    assert!(SpotTime::from_hm(0, 0).is_some());
    assert!(SpotTime::from_hm(24, 0).is_none());
    assert!(SpotTime::from_hm(0, 60).is_none());
}

#[test]
fn test_mode_and_type_labels() {
    assert_eq!(Mode::Cw.label(), "CW");
    assert_eq!(Mode::Rtty.label(), "RTTY");
    assert_eq!(Mode::Unknown.label(), "UNKNOWN");
    assert_eq!(SpotType::NcdxfBeacon.label(), "NCDXF B");
    assert_eq!(SpotType::Other.label(), "OTHER");
}
