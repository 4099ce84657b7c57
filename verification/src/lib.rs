//! Parsing, filtering, statistics and bounded storage for Reverse Beacon
//! Network (RBN) spot lines.
//!
//! The library covers the computational core of an RBN feed consumer: the
//! line parser for the wire format, wildcard filter predicates, bounded
//! per-filter spot queues with sequence numbers, and running statistics.
//! Network plumbing (telnet, HTTP) lives outside the library and hands in
//! plain values.

mod clock;

pub mod client;
pub mod config;
pub mod filter;
pub mod parser;
pub mod pipeline;
pub mod polo;
pub mod spot;
pub mod stats;
pub mod storage;
pub mod text;

pub use client::{RbnClient, RbnClientConfig, RbnEvent};
pub use config::{Config, StorageConfig};
pub use filter::{any_filter_matches, SpotFilter};
pub use parser::{is_cw_spot, looks_like_spot, parse_spot, ParseError};
pub use spot::{CwSpot, Mode, SpotTime, SpotType};
pub use stats::{SpotStats, StatsSummary};
pub use storage::SpotStorage;
