//! Tests for the statistics collector.

use rbn_parser::spot::{CwSpot, Mode, SpotTime, SpotType};
use rbn_parser::stats::SpotStats;

fn make_test_spot() -> CwSpot {
    CwSpot {
        spotter: "TEST-#".to_string(),
        frequency_millikhz: 14_025_000,
        dx_call: "W1AW".to_string(),
        mode: Mode::Cw,
        snr_db: 15,
        wpm: 22,
        spot_type: SpotType::Cq,
        time: SpotTime::from_hm(12, 0).unwrap(),
    }
}

#[test]
fn test_record_spot() {
    let mut stats = SpotStats::new();
    let spot = make_test_spot();

    stats.record_spot(&spot);

    let summary = stats.summary();
    assert_eq!(summary.total_spots, 1);
    assert_eq!(summary.cw_spots, 1);
}

#[test]
fn test_summary_generation() {
    let mut stats = SpotStats::new();

    for _ in 0..10 {
        stats.record_spot(&make_test_spot());
    }
    stats.record_parse_failure();
    stats.record_non_spot();
    stats.record_bytes(1000);

    let summary = stats.summary();

    assert_eq!(summary.total_spots, 10);
    assert_eq!(summary.cw_spots, 10);
    assert_eq!(summary.parse_failures, 1);
    assert_eq!(summary.non_spot_lines, 1);
    assert_eq!(summary.bytes_processed, 1000);
}

#[test]
fn test_summary_maps_and_percentiles() {
    let mut stats = SpotStats::new();
    let spot = make_test_spot();
    stats.record_spot(&spot);

    let summary = stats.summary();

    // One 20m CW CQ spot from one spotter.
    assert_eq!(summary.spots_by_band.len(), 1);
    assert_eq!(summary.spots_by_band[0].0, "20m");
    assert_eq!(summary.spots_by_band[0].1, 1);
    assert_eq!(summary.spots_by_mode.len(), 1);
    assert_eq!(summary.spots_by_mode[0].0, "CW");
    assert_eq!(summary.spots_by_type.len(), 1);
    assert_eq!(summary.spots_by_type[0].0, "CQ");
    assert_eq!(summary.top_spotters.len(), 1);
    assert_eq!(summary.top_spotters[0].0, "TEST-#");
    assert_eq!(summary.top_spotters[0].1, 1);

    // SNR 15 is recorded as 45 and shifted back on the way out.
    let snr = summary.snr_percentiles.unwrap();
    assert_eq!(snr.p50, 15);
    assert_eq!(snr.count, 1);
    let wpm = summary.wpm_percentiles.unwrap();
    assert_eq!(wpm.p50, 22);
    let size = summary.size_percentiles.unwrap();
    assert_eq!(size.count, 1);
    assert_eq!(size.p50 as usize, make_test_spot().json_size());
}

#[test]
fn test_top_spotters_order() {
    let mut stats = SpotStats::new();
    // BBB twice, AAA once, CCC once: order is BBB first (most spots),
    // then AAA before CCC (ties by name).
    for spotter in ["BBB-#", "AAA-#", "BBB-#", "CCC-#"] {
        let spot = CwSpot { spotter: spotter.to_string(), ..make_test_spot() };
        stats.record_spot(&spot);
    }
    let summary = stats.summary();
    assert_eq!(summary.top_spotters.len(), 3);
    assert_eq!(summary.top_spotters[0].0, "BBB-#");
    assert_eq!(summary.top_spotters[0].1, 2);
    assert_eq!(summary.top_spotters[1].0, "AAA-#");
    assert_eq!(summary.top_spotters[2].0, "CCC-#");
}

#[test]
fn test_top_spotters_keeps_ten() {
    let mut stats = SpotStats::new();
    for i in 0..15u32 {
        let spot = CwSpot { spotter: format!("S{:02}-#", i), ..make_test_spot() };
        stats.record_spot(&spot);
    }
    let summary = stats.summary();
    assert_eq!(summary.top_spotters.len(), 10);
    // All counts tie at one, so the ten lexicographically first names stay.
    assert_eq!(summary.top_spotters[0].0, "S00-#");
    assert_eq!(summary.top_spotters[9].0, "S09-#");
}

#[test]
fn test_snr_extremes_clamped() {
    let mut stats = SpotStats::new();
    let weak = CwSpot { snr_db: -40, ..make_test_spot() };
    let strong = CwSpot { snr_db: 80, ..make_test_spot() };
    stats.record_spot(&weak);
    stats.record_spot(&strong);
    let summary = stats.summary();
    let snr = summary.snr_percentiles.unwrap();
    // Recorded values clamp to 1 and 99; shifted back they read 0 and 69.
    assert_eq!(snr.min, 0);
    assert_eq!(snr.max, 69);
}
