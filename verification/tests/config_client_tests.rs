//! Tests for the configuration values, the size parser and the client
//! configuration.

use rbn_parser::client::{
    clean_line, prompt_step, ready_step, PromptStep, RbnClientConfig, ReadyStep, RBN_HOST,
    RBN_PORT_CW,
};
use rbn_parser::config::{parse_size, Config};
use rbn_parser::filter::{PatternList, SpotFilter};

#[test]
fn client_test_default_config() {
    let config = RbnClientConfig::default();
    assert_eq!(config.host, RBN_HOST);
    assert_eq!(config.port, RBN_PORT_CW);
    assert!(config.auto_reconnect);
}

#[test]
fn test_config_builder() {
    let config = RbnClientConfig::with_callsign("W6JSV").with_server("test.example.com", 1234);

    assert_eq!(config.callsign, "W6JSV");
    assert_eq!(config.host, "test.example.com");
    assert_eq!(config.port, 1234);
}

#[test]
fn config_test_default_config() {
    let config = Config::default();
    assert_eq!(config.callsign, "N0CALL");
    assert_eq!(config.host, RBN_HOST);
    assert_eq!(config.port, RBN_PORT_CW);
    assert!(config.reconnect);
    assert!(config.cw_only);
}

#[test]
fn test_default_metrics_disabled() {
    let config = Config::default();
    assert!(!config.metrics_enabled);
    assert_eq!(config.metrics_port, 9090);
    assert!(config.filters.is_empty());
}

#[test]
fn test_parse_size() {
    assert_eq!(parse_size("100").unwrap(), 100);
    assert_eq!(parse_size("100B").unwrap(), 100);
    assert_eq!(parse_size("1KB").unwrap(), 1024);
    assert_eq!(parse_size("1K").unwrap(), 1024);
    assert_eq!(parse_size("10MB").unwrap(), 10 * 1024 * 1024);
    assert_eq!(parse_size("10M").unwrap(), 10 * 1024 * 1024);
    assert_eq!(parse_size("1GB").unwrap(), 1024 * 1024 * 1024);
    assert_eq!(parse_size("1G").unwrap(), 1024 * 1024 * 1024);
    // Case insensitive
    assert_eq!(parse_size("10mb").unwrap(), 10 * 1024 * 1024);
    assert_eq!(parse_size("10Mb").unwrap(), 10 * 1024 * 1024);
    // With whitespace
    assert_eq!(parse_size("  10MB  ").unwrap(), 10 * 1024 * 1024);
    // Decimal
    assert_eq!(parse_size("1.5MB").unwrap(), (1.5 * 1024.0 * 1024.0) as usize);
}

#[test]
fn test_parse_size_errors() {
    assert!(parse_size("").is_err());
    assert!(parse_size("abc").is_err());
    assert!(parse_size("10TB").is_err()); // TB not supported
}

#[test]
fn test_parse_size_leading_zeros() {
    // Leading zeros do not count against the exactness bound.
    assert_eq!(parse_size("0000000000000000000000000001KB").unwrap(), 1024);
    assert_eq!(parse_size("007").unwrap(), 7);
    assert_eq!(parse_size("00").unwrap(), 0);
    assert_eq!(parse_size("0.5KB").unwrap(), 512);
    // Twenty-eight significant characters exceed the exact range.
    assert!(parse_size("1000000000000000000000000000").is_err());
}

#[test]
fn test_no_storage_config() {
    let config = Config::default();
    assert!(config.storage.is_none());
}

#[test]
fn test_config_validate() {
    let mut config = Config::default();
    config.filters.push(SpotFilter {
        dx_call: Some(PatternList::from_vec(vec!["W6*".to_string()])),
        ..Default::default()
    });
    assert!(config.validate().is_ok());
    config.filters.push(SpotFilter {
        dx_call: Some(PatternList::from_vec(vec!["*W6*".to_string()])),
        ..Default::default()
    });
    let err = config.validate().unwrap_err();
    assert!(err.starts_with("Invalid filter [1]: Pattern '*W6*'"));
}

#[test]
fn test_client_reconnect_decision() {
    let mut config = RbnClientConfig::default();
    config.reconnect_delay_secs = 7;
    assert_eq!(config.after_disconnect(), Some(7));
    config.auto_reconnect = false;
    assert_eq!(config.after_disconnect(), None);
}

#[test]
fn test_login_prompt_scanner() {
    let mut buf: Vec<u8> = Vec::new();
    let banner = b"Please enter your call:";
    let mut found = false;
    for &b in banner.iter() {
        match prompt_step(&mut buf, b) {
            PromptStep::Found => {
                found = true;
            }
            PromptStep::Continue => {}
            PromptStep::Overflow => panic!("should not overflow"),
        }
    }
    assert!(found);

    let mut buf2: Vec<u8> = Vec::new();
    assert!(matches!(ready_step(&mut buf2, b'x'), ReadyStep::Continue));
    assert!(matches!(ready_step(&mut buf2, b'>'), ReadyStep::Ready));
}

#[test]
fn test_clean_line_strips_terminators() {
    assert_eq!(clean_line("spot line\r\n"), "spot line");
    assert_eq!(clean_line("spot line"), "spot line");
    assert_eq!(clean_line("  keep leading  \r\n"), "  keep leading");
}
