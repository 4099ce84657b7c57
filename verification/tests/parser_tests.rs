//! Tests for the spot line parser.

use rbn_parser::parser::{is_cw_spot, looks_like_spot, parse_spot, ParseError};
use rbn_parser::spot::{CwSpot, Mode, SpotTime, SpotType};

#[test]
fn test_parse_basic_cq_spot() {
    let line = "DX de EA5WU-#:    7018.3  RW1M           CW    19 dB  18 WPM  CQ      2259Z";
    let spot = parse_spot(line).expect("Should parse successfully");

    assert_eq!(spot.spotter, "EA5WU-#");
    assert_eq!(spot.frequency_millikhz, 7018_300);
    assert_eq!(spot.dx_call, "RW1M");
    assert_eq!(spot.mode, Mode::Cw);
    assert_eq!(spot.snr_db, 19);
    assert_eq!(spot.wpm, 18);
    assert_eq!(spot.spot_type, SpotType::Cq);
    assert_eq!(spot.time, SpotTime::from_hm(22, 59).unwrap());
    assert_eq!(spot.band(), Some("40m"));
}

#[test]
fn test_parse_beacon_spot() {
    let line = "DX de KM3T-2-#:  14100.0  CS3B           CW    24 dB  22 WPM  NCDXF B 2259Z";
    let spot = parse_spot(line).expect("Should parse successfully");

    assert_eq!(spot.spotter, "KM3T-2-#");
    assert_eq!(spot.frequency_millikhz, 14100_000);
    assert_eq!(spot.dx_call, "CS3B");
    assert_eq!(spot.spot_type, SpotType::NcdxfBeacon);
    assert_eq!(spot.band(), Some("20m"));
}

#[test]
fn test_parse_regular_beacon_spot() {
    let line = "DX de K9LC-#:    28169.9  VA3XCD/B       CW     9 dB  10 WPM  BEACON  2259Z";
    let spot = parse_spot(line).expect("Should parse successfully");

    assert_eq!(spot.dx_call, "VA3XCD/B");
    assert_eq!(spot.spot_type, SpotType::Beacon);
}

#[test]
fn test_parse_portable_callsign() {
    let line = "DX de W1NT-6-#:  28222.9  N1NSP/B        CW     5 dB  15 WPM  BEACON  2259Z";
    let spot = parse_spot(line).expect("Should parse successfully");

    assert_eq!(spot.spotter, "W1NT-6-#");
    assert_eq!(spot.dx_call, "N1NSP/B");
}

#[test]
fn test_looks_like_spot() {
    assert!(looks_like_spot(
        "DX de EA5WU-#:    7018.3  RW1M           CW    19 dB  18 WPM  CQ      2259Z"
    ));
    assert!(looks_like_spot(
        "  DX de EA5WU-#:    7018.3  RW1M           CW    19 dB  18 WPM  CQ      2259Z  "
    ));
    assert!(!looks_like_spot("Hello world"));
    assert!(!looks_like_spot(""));
    assert!(!looks_like_spot("DX de ")); // Too short
}

#[test]
fn test_looks_like_spot_any_casing() {
    // The pre-filter is case-insensitive, so every casing of the prefix
    // that the grammar accepts with single spaces passes it.
    let line = "Dx dE EA5WU-#:    7018.3  RW1M           CW    19 dB  18 WPM  CQ      2259Z";
    assert!(looks_like_spot(line));
    assert!(parse_spot(line).is_ok());
}

#[test]
fn test_is_cw_spot() {
    let cw_spot = CwSpot {
        spotter: "TEST-#".to_string(),
        frequency_millikhz: 7018_300,
        dx_call: "W1AW".to_string(),
        mode: Mode::Cw,
        snr_db: 10,
        wpm: 20,
        spot_type: SpotType::Cq,
        time: SpotTime::from_hm(12, 0).unwrap(),
    };

    assert!(is_cw_spot(&cw_spot));

    let rtty_spot = CwSpot { mode: Mode::Rtty, ..cw_spot };

    assert!(!is_cw_spot(&rtty_spot));
}

#[test]
fn test_case_insensitive_parsing() {
    let line = "dx de ea5wu-#:    7018.3  rw1m           cw    19 db  18 wpm  cq      2259z";
    let spot = parse_spot(line).expect("Should parse case-insensitively");
    assert_eq!(spot.mode, Mode::Cw);
}

#[test]
fn test_negative_snr() {
    // Some weak signals have negative SNR
    let line = "DX de TEST-#:    7018.3  W1AW           CW    -5 dB  20 WPM  CQ      1234Z";
    let spot = parse_spot(line).expect("Should parse negative SNR");
    assert_eq!(spot.snr_db, -5);
}

#[test]
fn test_midnight_time() {
    let line = "DX de TEST-#:    7018.3  W1AW           CW    10 dB  20 WPM  CQ      0000Z";
    let spot = parse_spot(line).expect("Should parse midnight time");
    assert_eq!(spot.time, SpotTime::from_hm(0, 0).unwrap());
}

#[test]
fn test_various_bands() {
    let test_cases = [
        ("DX de T-#: 1820.0 W1 CW 10 dB 20 WPM CQ 0000Z", 1820_000u64, Some("160m")),
        ("DX de T-#: 3525.0 W1 CW 10 dB 20 WPM CQ 0000Z", 3525_000, Some("80m")),
        ("DX de T-#: 7030.0 W1 CW 10 dB 20 WPM CQ 0000Z", 7030_000, Some("40m")),
        ("DX de T-#: 14025.0 W1 CW 10 dB 20 WPM CQ 0000Z", 14025_000, Some("20m")),
        ("DX de T-#: 21025.0 W1 CW 10 dB 20 WPM CQ 0000Z", 21025_000, Some("15m")),
        ("DX de T-#: 28025.0 W1 CW 10 dB 20 WPM CQ 0000Z", 28025_000, Some("10m")),
    ];

    for (line, expected_freq, expected_band) in test_cases {
        let spot = parse_spot(line).unwrap_or_else(|_| panic!("Should parse: {}", line));
        assert_eq!(spot.frequency_millikhz, expected_freq);
        assert_eq!(spot.band(), expected_band);
    }
}

#[test]
fn test_padding_does_not_change_result() {
    let bare = "DX de EA5WU-#:    7018.3  RW1M           CW    19 dB  18 WPM  CQ      2259Z";
    let padded = format!("   \t {} \t  ", bare);
    let a = parse_spot(bare).unwrap();
    let b = parse_spot(&padded).unwrap();
    assert_eq!(a.spotter, b.spotter);
    assert_eq!(a.frequency_millikhz, b.frequency_millikhz);
    assert_eq!(a.dx_call, b.dx_call);
    assert_eq!(a.snr_db, b.snr_db);
    assert_eq!(a.time, b.time);
}

#[test]
fn test_invalid_time_rejected() {
    // Out-of-range hours and minutes.
    let bad_hour = "DX de TEST-#:    7018.3  W1AW           CW    10 dB  20 WPM  CQ      2460Z";
    assert_eq!(parse_spot(bad_hour).unwrap_err(), ParseError::InvalidTime);
    let bad_minute = "DX de TEST-#:    7018.3  W1AW           CW    10 dB  20 WPM  CQ      1299Z";
    assert_eq!(parse_spot(bad_minute).unwrap_err(), ParseError::InvalidTime);
    // Wrong digit count.
    let short = "DX de TEST-#:    7018.3  W1AW           CW    10 dB  20 WPM  CQ      123Z";
    assert_eq!(parse_spot(short).unwrap_err(), ParseError::InvalidTime);
    let long = "DX de TEST-#:    7018.3  W1AW           CW    10 dB  20 WPM  CQ      12345Z";
    assert_eq!(parse_spot(long).unwrap_err(), ParseError::InvalidTime);
}

#[test]
fn test_invalid_format_rejected() {
    assert_eq!(
        parse_spot("Welcome to the telnet server, enter your call:").unwrap_err(),
        ParseError::InvalidFormat
    );
    assert_eq!(parse_spot("").unwrap_err(), ParseError::InvalidFormat);
    // Missing the dB keyword.
    let line = "DX de TEST-#:    7018.3  W1AW           CW    10 xx  20 WPM  CQ      1234Z";
    assert_eq!(parse_spot(line).unwrap_err(), ParseError::InvalidFormat);
}

#[test]
fn test_invalid_frequency_rejected() {
    // A whole part too large to carry in milli-kHz.
    let line =
        "DX de TEST-#:    99999999999999999999.0  W1AW  CW    10 dB  20 WPM  CQ      1234Z";
    assert_eq!(parse_spot(line).unwrap_err(), ParseError::InvalidFrequency);
    // A spot's frequency is positive: a literal zero is rejected.
    let zero = "DX de TEST-#:    0.0  W1AW           CW    10 dB  20 WPM  CQ      1234Z";
    assert_eq!(parse_spot(zero).unwrap_err(), ParseError::InvalidFrequency);
    let zero2 = "DX de TEST-#:    0  W1AW             CW    10 dB  20 WPM  CQ      1234Z";
    assert_eq!(parse_spot(zero2).unwrap_err(), ParseError::InvalidFrequency);
}

#[test]
fn test_snr_range_round_trips() {
    // Every SNR from -29 to +69 parses back to itself.
    for snr in -29i32..=69 {
        let line = format!(
            "DX de TEST-#:    7018.3  W1AW           CW    {} dB  20 WPM  CQ      1234Z",
            snr
        );
        let spot = parse_spot(&line).unwrap_or_else(|_| panic!("Should parse snr {}", snr));
        assert_eq!(spot.snr_db, snr);
    }
}

#[test]
fn test_lowercase_preserves_everything_but_callsign_case() {
    let line = "DX de EA5WU-#:    7018.3  RW1M           CW    19 dB  18 WPM  CQ      2259Z";
    let lower = line.to_lowercase();
    let a = parse_spot(line).unwrap();
    let b = parse_spot(&lower).unwrap();
    assert_eq!(b.spotter, a.spotter.to_lowercase());
    assert_eq!(b.dx_call, a.dx_call.to_lowercase());
    assert_eq!(a.frequency_millikhz, b.frequency_millikhz);
    assert_eq!(a.mode, b.mode);
    assert_eq!(a.snr_db, b.snr_db);
    assert_eq!(a.wpm, b.wpm);
    assert_eq!(a.spot_type, b.spot_type);
    assert_eq!(a.time, b.time);
}

#[test]
fn test_other_spot_type_is_non_greedy() {
    // An unknown type reads up to where the time begins.
    let line = "DX de TEST-#:    7018.3  W1AW           CW    10 dB  20 WPM  DX      1234Z";
    let spot = parse_spot(line).expect("Should parse unknown type");
    assert_eq!(spot.spot_type, SpotType::Other);
}
