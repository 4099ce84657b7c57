//! The ingest pipeline: what happens to each line from the feed.
//!
//! A line is counted, screened by the pre-filter, parsed, recorded in the
//! statistics and offered to storage. The caller loops over received
//! lines and handles presentation; every decision along the way is made
//! here.

use vstd::prelude::*;
use vstd::string::StringSliceAdditionalSpecFns;

use crate::parser::{is_cw_spot, looks_like_spot, parse_spot, ParseError};
use crate::spot::{CwSpot, Mode};
use crate::stats::{SpotStats, STATS_MAX_SPOTS};
use crate::storage::SpotStorage;

verus! {

/// The line's byte count, as `str::len` reports it.
pub open spec fn line_byte_count(line: &str) -> int {
    line.spec_bytes().len() as usize as int
}

/// What became of one input line.
#[derive(Debug)]
pub enum ProcessOutcome {
    /// The line did not look like a spot; it was tallied and dropped.
    NonSpot,
    /// The line looked like a spot but failed to parse.
    ParseFailed(ParseError),
    /// The spot parsed but was not CW while only CW is counted.
    SkippedNonCw(Mode),
    /// The spot was recorded; the stored copy and the indices of the
    /// filters it matched (empty when storage is disabled).
    Processed(CwSpot, Vec<usize>),
}

/// Process one line from the feed: count its bytes, screen it with the
/// pre-filter, parse it, record the outcome in the statistics, and store
/// a counted spot in every matching filter queue when storage is enabled.
pub fn process_line(
    line: &str,
    stats: &mut SpotStats,
    cw_only: bool,
    storage: &mut SpotStorage,
    storage_enabled: bool,
) -> (r: ProcessOutcome)
    requires
        old(stats)@.wf(),
        old(stats)@.total_spots < STATS_MAX_SPOTS,
        old(stats)@.parse_failures < u64::MAX,
        old(stats)@.non_spot_lines < u64::MAX,
        old(stats)@.bytes_processed + line_byte_count(line) <= u64::MAX,
        line@.len() <= crate::spot::CALLSIGN_MAX_LEN,
        old(storage)@.wf(),
        forall|i: int|
            0 <= i < old(storage)@.entries.len() ==> (#[trigger] old(storage)@.entries[
                i
            ]).queue.next_seq < u64::MAX,
    ensures
        final(stats)@.wf(),
        final(storage)@.wf(),
        !storage_enabled ==> final(storage)@ == old(storage)@,
        final(stats)@.bytes_processed == old(stats)@.bytes_processed + line_byte_count(line),
        // Which outcome comes back is fixed by the line alone.
        r is NonSpot <==> !crate::parser::spec_looks_like_spot(line@),
        r is ParseFailed <==> (crate::parser::spec_looks_like_spot(line@)
            && crate::parser::spec_parse_spot(line@) is Err),
        r is SkippedNonCw <==> (crate::parser::spec_looks_like_spot(line@)
            && (crate::parser::spec_parse_spot(line@) matches Ok(v) && cw_only && v.mode
            != Mode::Cw)),
        r is Processed <==> (crate::parser::spec_looks_like_spot(line@)
            && (crate::parser::spec_parse_spot(line@) matches Ok(v) && (!cw_only || v.mode
            == Mode::Cw))),
        match r {
            ProcessOutcome::NonSpot => {
                &&& final(stats)@ == (crate::stats::StatsView {
                    non_spot_lines: (old(stats)@.non_spot_lines + 1) as u64,
                    bytes_processed: (old(stats)@.bytes_processed
                        + line_byte_count(line)) as u64,
                    ..old(stats)@
                })
                &&& final(storage)@ == old(storage)@
            },
            ProcessOutcome::ParseFailed(e) => {
                &&& crate::parser::spec_parse_spot(line@) == Err::<
                    crate::spot::SpotView,
                    ParseError,
                >(e)
                &&& final(stats)@ == (crate::stats::StatsView {
                    parse_failures: (old(stats)@.parse_failures + 1) as u64,
                    bytes_processed: (old(stats)@.bytes_processed
                        + line_byte_count(line)) as u64,
                    ..old(stats)@
                })
                &&& final(storage)@ == old(storage)@
            },
            ProcessOutcome::SkippedNonCw(m) => {
                &&& m != Mode::Cw
                &&& crate::parser::spec_parse_spot(line@) matches Ok(v) && v.mode == m
                &&& final(stats)@ == (crate::stats::StatsView {
                    bytes_processed: (old(stats)@.bytes_processed
                        + line_byte_count(line)) as u64,
                    ..old(stats)@
                })
                &&& final(storage)@ == old(storage)@
            },
            ProcessOutcome::Processed(spot, matched) => {
                &&& crate::parser::spec_parse_spot(line@) == Ok::<
                    crate::spot::SpotView,
                    ParseError,
                >(spot@)
                &&& final(stats)@.total_spots == old(stats)@.total_spots + 1
                &&& final(stats)@.cw_spots == old(stats)@.cw_spots + (
                if spot@.mode == Mode::Cw {
                    1int
                } else {
                    0int
                })
                &&& final(stats)@.parse_failures == old(stats)@.parse_failures
                &&& final(stats)@.non_spot_lines == old(stats)@.non_spot_lines
                &&& (storage_enabled ==> forall|j: int|
                    0 <= j < old(storage)@.entries.len() ==> (
                    crate::storage::spec_contains_index(matched@, j)
                        <==> crate::filter::spec_filter_matches(
                        (#[trigger] old(storage)@.entries[j]).filter,
                        spot@,
                    )))
                &&& (!storage_enabled ==> matched@.len() == 0)
            },
        },
{
    let len = line.len();
    stats.record_bytes(len as u64);
    if !looks_like_spot(line) {
        stats.record_non_spot();
        return ProcessOutcome::NonSpot;
    }
    match parse_spot(line) {
        Ok(spot) => {
            if cw_only && !is_cw_spot(&spot) {
                return ProcessOutcome::SkippedNonCw(spot.mode);
            }
            stats.record_spot(&spot);
            let matched: Vec<usize> = if storage_enabled {
                storage.try_store(&spot)
            } else {
                Vec::new()
            };
            ProcessOutcome::Processed(spot, matched)
        },
        Err(e) => {
            stats.record_parse_failure();
            ProcessOutcome::ParseFailed(e)
        },
    }
}

} // verus!
