//! Parser for RBN spot lines.
//!
//! The wire format is a whitespace-lax, case-insensitive line such as
//!
//! ```text
//! DX de EA5WU-#:    7018.3  RW1M           CW    19 dB  18 WPM  CQ      2259Z
//! ```
//!
//! The grammar is stated as specification functions over character
//! sequences; the executable parser is proved to compute exactly what the
//! grammar says. Lines that are not spots fail with a categorized error.

use vstd::prelude::*;

use crate::config::{digit_val, is_digit};
use crate::spot::{CwSpot, Mode, SpotTime, SpotType};
use crate::text::{spec_is_ws, spec_trim, spec_upper, trim};

verus! {

/// Errors a spot line can fail with.
#[derive(Debug, Clone, Copy, PartialEq, Eq, Structural)]
pub enum ParseError {
    /// The line does not follow the spot grammar.
    InvalidFormat,
    /// The frequency field is out of the representable range.
    InvalidFrequency,
    /// The time field has the wrong number of digits or an impossible
    /// hour or minute.
    InvalidTime,
    /// A required field is absent.
    MissingField,
    /// The line ended before the grammar was satisfied.
    Incomplete,
}

/// Characters a callsign may contain: alphanumerics plus `/`, `-`, `#`.
pub open spec fn is_callsign_char(c: char) -> bool {
    ('A' <= c && c <= 'Z') || ('a' <= c && c <= 'z') || ('0' <= c && c <= '9') || c == '/'
        || c == '-' || c == '#'
}

/// A space or tab: the separator between fields.
pub open spec fn is_space(c: char) -> bool {
    c == ' ' || c == '\t'
}

/// Characters the catch-all spot type may contain.
pub open spec fn is_other_char(c: char) -> bool {
    ('A' <= c && c <= 'Z') || ('a' <= c && c <= 'z') || ('0' <= c && c <= '9') || c == ' '
}

/// End of the run of whitespace characters starting at `i`.
pub open spec fn scan_ws_end(t: Seq<char>, i: int) -> int
    decreases t.len() - i,
{
    if 0 <= i < t.len() && spec_is_ws(t[i]) {
        scan_ws_end(t, i + 1)
    } else {
        i
    }
}

/// End of the run of spaces and tabs starting at `i`.
pub open spec fn scan_space_end(t: Seq<char>, i: int) -> int
    decreases t.len() - i,
{
    if 0 <= i < t.len() && is_space(t[i]) {
        scan_space_end(t, i + 1)
    } else {
        i
    }
}

/// End of the run of digits starting at `i`.
pub open spec fn scan_digit_end(t: Seq<char>, i: int) -> int
    decreases t.len() - i,
{
    if 0 <= i < t.len() && is_digit(t[i]) {
        scan_digit_end(t, i + 1)
    } else {
        i
    }
}

/// End of the run of callsign characters starting at `i`.
pub open spec fn scan_call_end(t: Seq<char>, i: int) -> int
    decreases t.len() - i,
{
    if 0 <= i < t.len() && is_callsign_char(t[i]) {
        scan_call_end(t, i + 1)
    } else {
        i
    }
}

/// The whitespace run ends within the line, covers only whitespace, and
/// stops at the first non-whitespace character.
pub proof fn lemma_scan_ws(t: Seq<char>, i: int)
    requires
        0 <= i <= t.len(),
    ensures
        i <= scan_ws_end(t, i) <= t.len(),
        forall|k: int| i <= k < scan_ws_end(t, i) ==> spec_is_ws(#[trigger] t[k]),
        scan_ws_end(t, i) < t.len() ==> !spec_is_ws(t[scan_ws_end(t, i)]),
    decreases t.len() - i,
{
    if i < t.len() && spec_is_ws(t[i]) {
        lemma_scan_ws(t, i + 1);
    }
}

/// The space run ends within the line, covers only spaces and tabs, and
/// stops at the first other character.
pub proof fn lemma_scan_space(t: Seq<char>, i: int)
    requires
        0 <= i <= t.len(),
    ensures
        i <= scan_space_end(t, i) <= t.len(),
        forall|k: int| i <= k < scan_space_end(t, i) ==> is_space(#[trigger] t[k]),
        scan_space_end(t, i) < t.len() ==> !is_space(t[scan_space_end(t, i)]),
    decreases t.len() - i,
{
    if i < t.len() && is_space(t[i]) {
        lemma_scan_space(t, i + 1);
    }
}

/// The digit run ends within the line, covers only digits, and stops at
/// the first non-digit.
pub proof fn lemma_scan_digit(t: Seq<char>, i: int)
    requires
        0 <= i <= t.len(),
    ensures
        i <= scan_digit_end(t, i) <= t.len(),
        forall|k: int| i <= k < scan_digit_end(t, i) ==> is_digit(#[trigger] t[k]),
        scan_digit_end(t, i) < t.len() ==> !is_digit(t[scan_digit_end(t, i)]),
    decreases t.len() - i,
{
    if i < t.len() && is_digit(t[i]) {
        lemma_scan_digit(t, i + 1);
    }
}

/// The callsign run ends within the line, covers only callsign
/// characters, and stops at the first other character.
pub proof fn lemma_scan_call(t: Seq<char>, i: int)
    requires
        0 <= i <= t.len(),
    ensures
        i <= scan_call_end(t, i) <= t.len(),
        forall|k: int| i <= k < scan_call_end(t, i) ==> is_callsign_char(#[trigger] t[k]),
        scan_call_end(t, i) < t.len() ==> !is_callsign_char(t[scan_call_end(t, i)]),
    decreases t.len() - i,
{
    if i < t.len() && is_callsign_char(t[i]) {
        lemma_scan_call(t, i + 1);
    }
}

/// Whether the characters at `i` spell `tag`, ASCII case-insensitively.
/// The tag itself is written in uppercase.
pub open spec fn spec_tag_at(t: Seq<char>, i: int, tag: Seq<char>) -> bool {
    &&& 0 <= i
    &&& i + tag.len() <= t.len()
    &&& forall|k: int| 0 <= k < tag.len() ==> spec_upper(t[i + k]) == tag[k]
}

/// Skip one-or-more whitespace characters (spaces, tabs or line ends, as
/// between the words of the `DX de` prefix).
pub open spec fn sp_multispace1(t: Seq<char>, i: int) -> Result<int, ParseError> {
    if 0 <= i < t.len() && spec_is_ws(t[i]) {
        Ok(scan_ws_end(t, i))
    } else {
        Err(ParseError::InvalidFormat)
    }
}

/// Skip one-or-more spaces or tabs (the separator between fields).
pub open spec fn sp_space1(t: Seq<char>, i: int) -> Result<int, ParseError> {
    if 0 <= i < t.len() && is_space(t[i]) {
        Ok(scan_space_end(t, i))
    } else {
        Err(ParseError::InvalidFormat)
    }
}

/// Skip zero-or-more spaces or tabs.
pub open spec fn sp_space0(t: Seq<char>, i: int) -> int {
    scan_space_end(t, i)
}

/// The `DX de ` prefix: both words case-insensitive, each followed by
/// whitespace.
pub open spec fn sp_prefix(t: Seq<char>) -> Result<int, ParseError> {
    if !spec_tag_at(t, 0, "DX"@) {
        Err(ParseError::InvalidFormat)
    } else {
        match sp_multispace1(t, 2) {
            Err(e) => Err(e),
            Ok(i) => {
                if !spec_tag_at(t, i, "DE"@) {
                    Err(ParseError::InvalidFormat)
                } else {
                    sp_multispace1(t, i + 2)
                }
            },
        }
    }
}

/// A callsign: one or more callsign characters.
pub open spec fn sp_callsign(t: Seq<char>, i: int) -> Result<(int, Seq<char>), ParseError> {
    if 0 <= i < t.len() && is_callsign_char(t[i]) {
        let end = scan_call_end(t, i);
        Ok((end, t.subrange(i, end)))
    } else {
        Err(ParseError::InvalidFormat)
    }
}

/// The spotter: a callsign, a colon, then optional spaces.
pub open spec fn sp_spotter(t: Seq<char>, i: int) -> Result<(int, Seq<char>), ParseError> {
    match sp_callsign(t, i) {
        Err(e) => Err(e),
        Ok((j, call)) => {
            if j < t.len() && t[j] == ':' {
                Ok((sp_space0(t, j + 1), call))
            } else {
                Err(ParseError::InvalidFormat)
            }
        },
    }
}

/// Largest whole-kHz value a frequency may have and still be represented
/// in milli-kHz in a `u64`.
pub const FREQ_WHOLE_MAX: u64 = 18446744073709550;

/// The value of up-to-three fraction digits, in thousandths: fewer digits
/// are padded with zeros, further digits are below the stored resolution
/// and ignored.
pub open spec fn spec_frac_millis(fd: Seq<char>) -> nat {
    if fd.len() >= 3 {
        crate::config::spec_mantissa(fd.subrange(0, 3))
    } else if fd.len() == 2 {
        crate::config::spec_mantissa(fd) * 10
    } else if fd.len() == 1 {
        crate::config::spec_mantissa(fd) * 100
    } else {
        0
    }
}

/// A frequency in kHz: digits, optionally a dot followed by digits; the
/// value is returned in milli-kHz and must be positive, since a spot's
/// frequency is. A dot not followed by a digit is left unconsumed, as is
/// anything beyond it. A value of zero, and whole parts above
/// [`FREQ_WHOLE_MAX`] kHz that do not fit, fail as invalid frequencies.
pub open spec fn sp_freq(t: Seq<char>, i: int) -> Result<(int, u64), ParseError> {
    if !(0 <= i < t.len() && is_digit(t[i])) {
        Err(ParseError::InvalidFormat)
    } else {
        let d_end = scan_digit_end(t, i);
        let whole = crate::config::spec_mantissa(t.subrange(i, d_end));
        if whole > FREQ_WHOLE_MAX {
            Err(ParseError::InvalidFrequency)
        } else {
            if d_end + 1 < t.len() && t[d_end] == '.' && is_digit(t[d_end + 1]) {
                let f_end = scan_digit_end(t, d_end + 1);
                let frac = spec_frac_millis(t.subrange(d_end + 1, f_end));
                if whole * 1000 + frac == 0 {
                    Err(ParseError::InvalidFrequency)
                } else {
                    Ok((f_end, (whole * 1000 + frac) as u64))
                }
            } else {
                if whole == 0 {
                    Err(ParseError::InvalidFrequency)
                } else {
                    Ok((d_end, (whole * 1000) as u64))
                }
            }
        }
    }
}

/// The transmission mode: one of the known tags, tried in order.
pub open spec fn sp_mode(t: Seq<char>, i: int) -> Result<(int, Mode), ParseError> {
    if spec_tag_at(t, i, "CW"@) {
        Ok((i + 2, Mode::Cw))
    } else if spec_tag_at(t, i, "RTTY"@) {
        Ok((i + 4, Mode::Rtty))
    } else if spec_tag_at(t, i, "FT8"@) {
        Ok((i + 3, Mode::Ft8))
    } else if spec_tag_at(t, i, "FT4"@) {
        Ok((i + 3, Mode::Ft4))
    } else if spec_tag_at(t, i, "PSK31"@) {
        Ok((i + 5, Mode::Psk31))
    } else {
        Err(ParseError::InvalidFormat)
    }
}

/// The SNR: an optional minus sign, digits, then whitespace and `dB`.
/// Values outside `i32` fail as malformed.
pub open spec fn sp_snr(t: Seq<char>, i: int) -> Result<(int, i32), ParseError> {
    let neg = 0 <= i < t.len() && t[i] == '-';
    let ds = if neg {
        i + 1
    } else {
        i
    };
    if !(0 <= ds < t.len() && is_digit(t[ds])) {
        Err(ParseError::InvalidFormat)
    } else {
        let d_end = scan_digit_end(t, ds);
        let mag = crate::config::spec_mantissa(t.subrange(ds, d_end));
        if (neg && mag > 0x8000_0000) || (!neg && mag > 0x7fff_ffff) {
            Err(ParseError::InvalidFormat)
        } else {
            let v = if neg {
                -(mag as int)
            } else {
                mag as int
            };
            match sp_space1(t, d_end) {
                Err(e) => Err(e),
                Ok(j) => {
                    if spec_tag_at(t, j, "DB"@) {
                        Ok((j + 2, v as i32))
                    } else {
                        Err(ParseError::InvalidFormat)
                    }
                },
            }
        }
    }
}

/// The CW speed: digits, then whitespace and `WPM`. Values outside `u16`
/// fail as malformed.
pub open spec fn sp_wpm(t: Seq<char>, i: int) -> Result<(int, u16), ParseError> {
    if !(0 <= i < t.len() && is_digit(t[i])) {
        Err(ParseError::InvalidFormat)
    } else {
        let d_end = scan_digit_end(t, i);
        let mag = crate::config::spec_mantissa(t.subrange(i, d_end));
        if mag > 0xffff {
            Err(ParseError::InvalidFormat)
        } else {
            match sp_space1(t, d_end) {
                Err(e) => Err(e),
                Ok(j) => {
                    if spec_tag_at(t, j, "WPM"@) {
                        Ok((j + 3, mag as u16))
                    } else {
                        Err(ParseError::InvalidFormat)
                    }
                },
            }
        }
    }
}

/// Whether a time field (four digits then `Z`, case-insensitive) starts
/// at `i`. Hour and minute ranges are checked later.
pub open spec fn spec_time_shape_at(t: Seq<char>, i: int) -> bool {
    let d_end = scan_digit_end(t, i);
    d_end - i == 4 && d_end < t.len() && spec_upper(t[d_end]) == 'Z'
}

/// End position of the non-greedy catch-all spot type that begins at `i`:
/// the smallest end, at least one character past `i`, such that every
/// consumed character is a letter, digit or space and a time field
/// follows after optional spaces. `None` when no such end exists.
pub open spec fn sp_other_end(t: Seq<char>, i: int, end: int) -> Option<int>
    decreases t.len() - end + 1,
{
    if end > t.len() || end < i + 1 {
        None
    } else if !is_other_char(t[end - 1]) {
        None
    } else if spec_time_shape_at(t, sp_space0(t, end)) {
        Some(end)
    } else if end >= t.len() {
        None
    } else {
        sp_other_end(t, i, end + 1)
    }
}

/// The spot type: the known tags in order, else the non-greedy catch-all
/// read up to where the time begins.
pub open spec fn sp_type(t: Seq<char>, i: int) -> Result<(int, SpotType), ParseError> {
    if spec_tag_at(t, i, "NCDXF"@) {
        match sp_space1(t, i + 5) {
            Err(e) => Err(e),
            Ok(j) => {
                if spec_tag_at(t, j, "B"@) {
                    Ok((j + 1, SpotType::NcdxfBeacon))
                } else {
                    Err(ParseError::InvalidFormat)
                }
            },
        }
    } else if spec_tag_at(t, i, "BEACON"@) {
        Ok((i + 6, SpotType::Beacon))
    } else if spec_tag_at(t, i, "CQ"@) {
        Ok((i + 2, SpotType::Cq))
    } else {
        match sp_other_end(t, i, i + 1) {
            Some(end) => Ok((end, SpotType::Other)),
            None => Err(ParseError::InvalidFormat),
        }
    }
}

/// The time: a run of digits terminated by `Z`. A missing run or missing
/// `Z` is malformed; a run of the wrong length, or an hour or minute out
/// of range, is an invalid time. Anything after the `Z` is ignored.
pub open spec fn sp_time(t: Seq<char>, i: int) -> Result<SpotTime, ParseError> {
    if !(0 <= i < t.len() && is_digit(t[i])) {
        Err(ParseError::InvalidFormat)
    } else {
        let d_end = scan_digit_end(t, i);
        if !(d_end < t.len() && spec_upper(t[d_end]) == 'Z') {
            Err(ParseError::InvalidFormat)
        } else if d_end - i != 4 {
            Err(ParseError::InvalidTime)
        } else {
            let hh = digit_val(t[i]) * 10 + digit_val(t[i + 1]);
            let mm = digit_val(t[i + 2]) * 10 + digit_val(t[i + 3]);
            if hh > 23 || mm > 59 {
                Err(ParseError::InvalidTime)
            } else {
                Ok(SpotTime { hour: hh as u8, minute: mm as u8 })
            }
        }
    }
}

/// The whole grammar, applied to the trimmed line.
pub open spec fn spec_parse_spot(s: Seq<char>) -> Result<crate::spot::SpotView, ParseError> {
    let t = spec_trim(s);
    match sp_prefix(t) {
        Err(e) => Err(e),
        Ok(i0) => match sp_spotter(t, i0) {
            Err(e) => Err(e),
            Ok((i1, spotter)) => {
                let i1b = sp_space0(t, i1);
                match sp_freq(t, i1b) {
                    Err(e) => Err(e),
                    Ok((i2, freq)) => match sp_space1(t, i2) {
                        Err(e) => Err(e),
                        Ok(i3) => match sp_callsign(t, i3) {
                            Err(e) => Err(e),
                            Ok((i4, dx_call)) => match sp_space1(t, i4) {
                                Err(e) => Err(e),
                                Ok(i5) => match sp_mode(t, i5) {
                                    Err(e) => Err(e),
                                    Ok((i6, mode)) => match sp_space1(t, i6) {
                                        Err(e) => Err(e),
                                        Ok(i7) => match sp_snr(t, i7) {
                                            Err(e) => Err(e),
                                            Ok((i8, snr)) => match sp_space1(t, i8) {
                                                Err(e) => Err(e),
                                                Ok(i9) => match sp_wpm(t, i9) {
                                                    Err(e) => Err(e),
                                                    Ok((i10, wpm)) => match sp_space1(t, i10) {
                                                        Err(e) => Err(e),
                                                        Ok(i11) => match sp_type(t, i11) {
                                                            Err(e) => Err(e),
                                                            Ok((i12, spot_type)) => match sp_time(
                                                                t,
                                                                sp_space0(t, i12),
                                                            ) {
                                                                Err(e) => Err(e),
                                                                Ok(time) => Ok(
                                                                    crate::spot::SpotView {
                                                                        spotter,
                                                                        frequency_millikhz: freq,
                                                                        dx_call,
                                                                        mode,
                                                                        snr_db: snr,
                                                                        wpm,
                                                                        spot_type,
                                                                        time,
                                                                    },
                                                                ),
                                                            },
                                                        },
                                                    },
                                                },
                                            },
                                        },
                                    },
                                },
                            },
                        },
                    },
                }
            },
        },
    }
}

/// The quick pre-filter: after trimming, a spot line is longer than 20
/// characters and begins, case-insensitively, with `DX de ` (with single
/// spaces and the trailing space).
pub open spec fn spec_looks_like_spot(s: Seq<char>) -> bool {
    let t = spec_trim(s);
    t.len() > 20 && spec_tag_at(t, 0, "DX DE "@)
}

} // verus!

verus! {

/// ASCII uppercase of a character, as its scalar value.
fn upper_u32(c: char) -> (r: u32)
    ensures
        r == spec_upper(c) as u32,
{
    let x = c as u32;
    if 97 <= x && x <= 122 {
        x - 32
    } else {
        x
    }
}

/// Whether the characters of `t` at `i` spell `tag`, ASCII
/// case-insensitively.
fn tag_at(t: &str, tlen: usize, i: usize, tag: &str) -> (r: bool)
    requires
        tlen == t@.len(),
        i <= tlen,
    ensures
        r == spec_tag_at(t@, i as int, tag@),
{
    let taglen = tag.unicode_len();
    if taglen > tlen - i {
        return false;
    }
    let mut k: usize = 0;
    while k < taglen
        invariant
            k <= taglen,
            taglen <= tlen - i,
            i + taglen <= tlen,
            tlen == t@.len(),
            taglen == tag@.len(),
            forall|j: int| 0 <= j < k ==> spec_upper(t@[i + j]) == tag@[j],
        decreases taglen - k,
    {
        if upper_u32(t.get_char(i + k)) != tag.get_char(k) as u32 {
            proof {
                assert(spec_upper(t@[i + k]) != tag@[k as int]);
            }
            return false;
        }
        k = k + 1;
    }
    true
}

/// End of the whitespace run at `i`.
fn p_scan_ws(t: &str, tlen: usize, i: usize) -> (r: usize)
    requires
        tlen == t@.len(),
        i <= tlen,
    ensures
        r == scan_ws_end(t@, i as int),
        i <= r <= tlen,
{
    proof {
        lemma_scan_ws(t@, i as int);
    }
    let mut j: usize = i;
    while j < tlen && crate::text::is_ws(t.get_char(j))
        invariant
            i <= j <= tlen,
            tlen == t@.len(),
            scan_ws_end(t@, i as int) == scan_ws_end(t@, j as int),
        decreases tlen - j,
    {
        j = j + 1;
    }
    j
}

/// End of the space-or-tab run at `i`.
fn p_scan_space(t: &str, tlen: usize, i: usize) -> (r: usize)
    requires
        tlen == t@.len(),
        i <= tlen,
    ensures
        r == scan_space_end(t@, i as int),
        i <= r <= tlen,
{
    proof {
        lemma_scan_space(t@, i as int);
    }
    let mut j: usize = i;
    while j < tlen && (t.get_char(j) == ' ' || t.get_char(j) == '\t')
        invariant
            i <= j <= tlen,
            tlen == t@.len(),
            scan_space_end(t@, i as int) == scan_space_end(t@, j as int),
        decreases tlen - j,
    {
        j = j + 1;
    }
    j
}

/// End of the digit run at `i`.
fn p_scan_digit(t: &str, tlen: usize, i: usize) -> (r: usize)
    requires
        tlen == t@.len(),
        i <= tlen,
    ensures
        r == scan_digit_end(t@, i as int),
        i <= r <= tlen,
{
    proof {
        lemma_scan_digit(t@, i as int);
    }
    let mut j: usize = i;
    while j < tlen && crate::config::is_digit_char(t.get_char(j))
        invariant
            i <= j <= tlen,
            tlen == t@.len(),
            scan_digit_end(t@, i as int) == scan_digit_end(t@, j as int),
        decreases tlen - j,
    {
        j = j + 1;
    }
    j
}

/// Whether `c` may appear in a callsign.
fn is_callsign_char_exec(c: char) -> (r: bool)
    ensures
        r == is_callsign_char(c),
{
    ('A' <= c && c <= 'Z') || ('a' <= c && c <= 'z') || ('0' <= c && c <= '9') || c == '/'
        || c == '-' || c == '#'
}

/// Whether `c` may appear in the catch-all spot type.
fn is_other_char_exec(c: char) -> (r: bool)
    ensures
        r == is_other_char(c),
{
    ('A' <= c && c <= 'Z') || ('a' <= c && c <= 'z') || ('0' <= c && c <= '9') || c == ' '
}

/// End of the callsign-character run at `i`.
fn p_scan_call(t: &str, tlen: usize, i: usize) -> (r: usize)
    requires
        tlen == t@.len(),
        i <= tlen,
    ensures
        r == scan_call_end(t@, i as int),
        i <= r <= tlen,
{
    proof {
        lemma_scan_call(t@, i as int);
    }
    let mut j: usize = i;
    while j < tlen && is_callsign_char_exec(t.get_char(j))
        invariant
            i <= j <= tlen,
            tlen == t@.len(),
            scan_call_end(t@, i as int) == scan_call_end(t@, j as int),
        decreases tlen - j,
    {
        j = j + 1;
    }
    j
}

/// Skip one-or-more whitespace characters.
fn p_multispace1(t: &str, tlen: usize, i: usize) -> (r: Result<usize, ParseError>)
    requires
        tlen == t@.len(),
        i <= tlen,
    ensures
        match r {
            Ok(j) => sp_multispace1(t@, i as int) == Ok::<int, ParseError>(j as int) && i < j
                <= tlen,
            Err(e) => sp_multispace1(t@, i as int) == Err::<int, ParseError>(e),
        },
{
    if i < tlen && crate::text::is_ws(t.get_char(i)) {
        proof {
            lemma_scan_ws(t@, i as int);
        }
        Ok(p_scan_ws(t, tlen, i))
    } else {
        Err(ParseError::InvalidFormat)
    }
}

/// Skip one-or-more spaces or tabs.
fn p_space1(t: &str, tlen: usize, i: usize) -> (r: Result<usize, ParseError>)
    requires
        tlen == t@.len(),
        i <= tlen,
    ensures
        match r {
            Ok(j) => sp_space1(t@, i as int) == Ok::<int, ParseError>(j as int) && i < j <= tlen,
            Err(e) => sp_space1(t@, i as int) == Err::<int, ParseError>(e),
        },
{
    if i < tlen && (t.get_char(i) == ' ' || t.get_char(i) == '\t') {
        proof {
            lemma_scan_space(t@, i as int);
        }
        Ok(p_scan_space(t, tlen, i))
    } else {
        Err(ParseError::InvalidFormat)
    }
}

/// Extending a digit run never shrinks its value.
proof fn lemma_mantissa_monotone(t: Seq<char>, i: int, e1: int, e2: int)
    requires
        0 <= i <= e1 <= e2 <= t.len(),
        forall|k: int| i <= k < e2 ==> is_digit(#[trigger] t[k]),
    ensures
        crate::config::spec_mantissa(t.subrange(i, e1)) <= crate::config::spec_mantissa(
            t.subrange(i, e2),
        ),
    decreases e2 - e1,
{
    if e1 < e2 {
        lemma_mantissa_monotone(t, i, e1, e2 - 1);
        assert(t.subrange(i, e2).drop_last() =~= t.subrange(i, e2 - 1));
        assert(t.subrange(i, e2).last() == t[e2 - 1]);
    }
}

/// The value of the digit run `t[i..end]`, unless it exceeds `cap`.
fn digits_value(t: &str, tlen: usize, i: usize, end: usize, cap: u64) -> (r: Option<u64>)
    requires
        tlen == t@.len(),
        i <= end <= tlen,
        forall|k: int| i <= k < end ==> is_digit(#[trigger] t@[k]),
    ensures
        match r {
            Some(v) => v as nat == crate::config::spec_mantissa(
                t@.subrange(i as int, end as int),
            ) && v <= cap,
            None => crate::config::spec_mantissa(t@.subrange(i as int, end as int)) > cap,
        },
{
    let mut mant: u64 = 0;
    let mut j: usize = i;
    while j < end
        invariant
            i <= j <= end <= tlen,
            tlen == t@.len(),
            forall|k: int| i <= k < end ==> is_digit(#[trigger] t@[k]),
            mant as nat == crate::config::spec_mantissa(t@.subrange(i as int, j as int)),
            mant <= cap,
        decreases end - j,
    {
        let c = t.get_char(j);
        let d = crate::config::char_digit_val(c) as u64;
        proof {
            assert(t@.subrange(i as int, j + 1).drop_last() =~= t@.subrange(i as int, j as int));
            assert(t@.subrange(i as int, j + 1).last() == t@[j as int]);
        }
        if d > cap || mant > (cap - d) / 10 {
            proof {
                assert(mant * 10 + d > cap) by (nonlinear_arith)
                    requires
                        d <= cap ==> mant > (cap - d) / 10,
                        d > cap || mant > (cap - d) / 10,
                        mant >= 0,
                        d >= 0,
                        cap >= 0,
                ;
                lemma_mantissa_monotone(t@, i as int, j + 1, end as int);
            }
            return None;
        }
        proof {
            assert(mant * 10 + d <= cap) by (nonlinear_arith)
                requires
                    d <= cap,
                    mant <= (cap - d) / 10,
                    mant >= 0,
                    d >= 0,
            ;
        }
        mant = mant * 10 + d;
        j = j + 1;
    }
    proof {
        assert(t@.subrange(i as int, j as int) =~= t@.subrange(i as int, end as int));
    }
    Some(mant)
}

} // verus!

verus! {

/// The `DX de ` prefix.
fn p_prefix(t: &str, tlen: usize) -> (r: Result<usize, ParseError>)
    requires
        tlen == t@.len(),
    ensures
        match r {
            Ok(j) => sp_prefix(t@) == Ok::<int, ParseError>(j as int) && j <= tlen,
            Err(e) => sp_prefix(t@) == Err::<int, ParseError>(e),
        },
{
    proof {
        reveal_strlit("DX");
        reveal_strlit("DE");
    }
    if !tag_at(t, tlen, 0, "DX") {
        return Err(ParseError::InvalidFormat);
    }
    let i = match p_multispace1(t, tlen, 2) {
        Ok(i) => i,
        Err(e) => {
            return Err(e);
        },
    };
    if !tag_at(t, tlen, i, "DE") {
        return Err(ParseError::InvalidFormat);
    }
    p_multispace1(t, tlen, i + 2)
}

/// A callsign token, extracted as an owned string.
fn p_callsign(t: &str, tlen: usize, i: usize) -> (r: Result<(usize, String), ParseError>)
    requires
        tlen == t@.len(),
        i <= tlen,
    ensures
        match r {
            Ok((j, s)) => sp_callsign(t@, i as int) == Ok::<(int, Seq<char>), ParseError>(
                (j as int, s@),
            ) && i < j <= tlen,
            Err(e) => sp_callsign(t@, i as int) == Err::<(int, Seq<char>), ParseError>(e),
        },
{
    if i < tlen && is_callsign_char_exec(t.get_char(i)) {
        proof {
            lemma_scan_call(t@, i as int);
        }
        let end = p_scan_call(t, tlen, i);
        let s = t.substring_char(i, end).to_owned();
        Ok((end, s))
    } else {
        Err(ParseError::InvalidFormat)
    }
}

/// The spotter: a callsign, a colon, optional spaces.
fn p_spotter(t: &str, tlen: usize, i: usize) -> (r: Result<(usize, String), ParseError>)
    requires
        tlen == t@.len(),
        i <= tlen,
    ensures
        match r {
            Ok((j, s)) => sp_spotter(t@, i as int) == Ok::<(int, Seq<char>), ParseError>(
                (j as int, s@),
            ) && j <= tlen,
            Err(e) => sp_spotter(t@, i as int) == Err::<(int, Seq<char>), ParseError>(e),
        },
{
    let (j, call) = match p_callsign(t, tlen, i) {
        Ok(p) => p,
        Err(e) => {
            return Err(e);
        },
    };
    if j < tlen && t.get_char(j) == ':' {
        let k = p_scan_space(t, tlen, j + 1);
        Ok((k, call))
    } else {
        Err(ParseError::InvalidFormat)
    }
}

/// The fraction digits of a frequency, in thousandths of a kHz.
fn p_frac_millis(t: &str, tlen: usize, fs: usize, fe: usize) -> (r: u64)
    requires
        tlen == t@.len(),
        fs <= fe <= tlen,
        forall|k: int| fs <= k < fe ==> is_digit(#[trigger] t@[k]),
    ensures
        r == spec_frac_millis(t@.subrange(fs as int, fe as int)),
        r <= 999,
{
    proof {
        reveal_with_fuel(crate::spot::pow10, 4);
    }
    if fe - fs >= 3 {
        proof {
            crate::config::lemma_mantissa_bound(t@.subrange(fs as int, fs + 3), 3);
        }
        let v = match digits_value(t, tlen, fs, fs + 3, 999) {
            Some(v) => v,
            None => {
                proof {
                    assert(false);
                }
                0
            },
        };
        proof {
            assert(t@.subrange(fs as int, fe as int).subrange(0, 3) =~= t@.subrange(
                fs as int,
                fs + 3,
            ));
        }
        v
    } else if fe - fs == 2 {
        proof {
            crate::config::lemma_mantissa_bound(t@.subrange(fs as int, fs + 2), 2);
        }
        let v = match digits_value(t, tlen, fs, fs + 2, 99) {
            Some(v) => v,
            None => {
                proof {
                    assert(false);
                }
                0
            },
        };
        v * 10
    } else if fe - fs == 1 {
        proof {
            crate::config::lemma_mantissa_bound(t@.subrange(fs as int, fs + 1), 1);
        }
        let v = match digits_value(t, tlen, fs, fs + 1, 9) {
            Some(v) => v,
            None => {
                proof {
                    assert(false);
                }
                0
            },
        };
        v * 100
    } else {
        0
    }
}

/// The frequency, in milli-kHz.
fn p_freq(t: &str, tlen: usize, i: usize) -> (r: Result<(usize, u64), ParseError>)
    requires
        tlen == t@.len(),
        i <= tlen,
    ensures
        match r {
            Ok((j, v)) => sp_freq(t@, i as int) == Ok::<(int, u64), ParseError>((j as int, v))
                && i < j <= tlen && v > 0,
            Err(e) => sp_freq(t@, i as int) == Err::<(int, u64), ParseError>(e),
        },
{
    if !(i < tlen && crate::config::is_digit_char(t.get_char(i))) {
        return Err(ParseError::InvalidFormat);
    }
    proof {
        lemma_scan_digit(t@, i as int);
    }
    let d_end = p_scan_digit(t, tlen, i);
    let whole = match digits_value(t, tlen, i, d_end, FREQ_WHOLE_MAX) {
        Some(w) => w,
        None => {
            return Err(ParseError::InvalidFrequency);
        },
    };
    if d_end < tlen && d_end + 1 < tlen && t.get_char(d_end) == '.'
        && crate::config::is_digit_char(t.get_char(d_end + 1)) {
        proof {
            lemma_scan_digit(t@, d_end + 1);
        }
        let f_end = p_scan_digit(t, tlen, d_end + 1);
        let frac = p_frac_millis(t, tlen, d_end + 1, f_end);
        if whole * 1000 + frac == 0 {
            Err(ParseError::InvalidFrequency)
        } else {
            Ok((f_end, whole * 1000 + frac))
        }
    } else {
        if whole == 0 {
            Err(ParseError::InvalidFrequency)
        } else {
            Ok((d_end, whole * 1000))
        }
    }
}

/// The mode tag.
fn p_mode(t: &str, tlen: usize, i: usize) -> (r: Result<(usize, Mode), ParseError>)
    requires
        tlen == t@.len(),
        i <= tlen,
    ensures
        match r {
            Ok((j, m)) => sp_mode(t@, i as int) == Ok::<(int, Mode), ParseError>((j as int, m))
                && i < j <= tlen,
            Err(e) => sp_mode(t@, i as int) == Err::<(int, Mode), ParseError>(e),
        },
{
    proof {
        reveal_strlit("CW");
        reveal_strlit("RTTY");
        reveal_strlit("FT8");
        reveal_strlit("FT4");
        reveal_strlit("PSK31");
    }
    if tag_at(t, tlen, i, "CW") {
        Ok((i + 2, Mode::Cw))
    } else if tag_at(t, tlen, i, "RTTY") {
        Ok((i + 4, Mode::Rtty))
    } else if tag_at(t, tlen, i, "FT8") {
        Ok((i + 3, Mode::Ft8))
    } else if tag_at(t, tlen, i, "FT4") {
        Ok((i + 3, Mode::Ft4))
    } else if tag_at(t, tlen, i, "PSK31") {
        Ok((i + 5, Mode::Psk31))
    } else {
        Err(ParseError::InvalidFormat)
    }
}

/// The SNR with its `dB` suffix.
fn p_snr(t: &str, tlen: usize, i: usize) -> (r: Result<(usize, i32), ParseError>)
    requires
        tlen == t@.len(),
        i <= tlen,
    ensures
        match r {
            Ok((j, v)) => sp_snr(t@, i as int) == Ok::<(int, i32), ParseError>((j as int, v))
                && i < j <= tlen,
            Err(e) => sp_snr(t@, i as int) == Err::<(int, i32), ParseError>(e),
        },
{
    proof {
        reveal_strlit("DB");
    }
    let neg = i < tlen && t.get_char(i) == '-';
    let ds = if neg {
        i + 1
    } else {
        i
    };
    if !(ds < tlen && crate::config::is_digit_char(t.get_char(ds))) {
        return Err(ParseError::InvalidFormat);
    }
    proof {
        lemma_scan_digit(t@, ds as int);
    }
    let d_end = p_scan_digit(t, tlen, ds);
    let cap: u64 = if neg {
        0x8000_0000
    } else {
        0x7fff_ffff
    };
    let mag = match digits_value(t, tlen, ds, d_end, cap) {
        Some(m) => m,
        None => {
            return Err(ParseError::InvalidFormat);
        },
    };
    let j = match p_space1(t, tlen, d_end) {
        Ok(j) => j,
        Err(e) => {
            return Err(e);
        },
    };
    if tag_at(t, tlen, j, "DB") {
        let v: i32 = if neg {
            (-(mag as i64)) as i32
        } else {
            mag as i32
        };
        Ok((j + 2, v))
    } else {
        Err(ParseError::InvalidFormat)
    }
}

/// The WPM with its `WPM` suffix.
fn p_wpm(t: &str, tlen: usize, i: usize) -> (r: Result<(usize, u16), ParseError>)
    requires
        tlen == t@.len(),
        i <= tlen,
    ensures
        match r {
            Ok((j, v)) => sp_wpm(t@, i as int) == Ok::<(int, u16), ParseError>((j as int, v))
                && i < j <= tlen,
            Err(e) => sp_wpm(t@, i as int) == Err::<(int, u16), ParseError>(e),
        },
{
    proof {
        reveal_strlit("WPM");
    }
    if !(i < tlen && crate::config::is_digit_char(t.get_char(i))) {
        return Err(ParseError::InvalidFormat);
    }
    proof {
        lemma_scan_digit(t@, i as int);
    }
    let d_end = p_scan_digit(t, tlen, i);
    let mag = match digits_value(t, tlen, i, d_end, 0xffff) {
        Some(m) => m,
        None => {
            return Err(ParseError::InvalidFormat);
        },
    };
    let j = match p_space1(t, tlen, d_end) {
        Ok(j) => j,
        Err(e) => {
            return Err(e);
        },
    };
    if tag_at(t, tlen, j, "WPM") {
        Ok((j + 3, mag as u16))
    } else {
        Err(ParseError::InvalidFormat)
    }
}

/// Whether a four-digit time terminated by `Z` starts at `i`.
fn p_time_shape(t: &str, tlen: usize, i: usize) -> (r: bool)
    requires
        tlen == t@.len(),
        i <= tlen,
    ensures
        r == spec_time_shape_at(t@, i as int),
{
    proof {
        lemma_scan_digit(t@, i as int);
    }
    let d_end = p_scan_digit(t, tlen, i);
    d_end - i == 4 && d_end < tlen && upper_u32(t.get_char(d_end)) == 'Z' as u32
}

/// The spot type.
#[verifier::loop_isolation(false)]
fn p_type(t: &str, tlen: usize, i: usize) -> (r: Result<(usize, SpotType), ParseError>)
    requires
        tlen == t@.len(),
        i <= tlen,
    ensures
        match r {
            Ok((j, ty)) => sp_type(t@, i as int) == Ok::<(int, SpotType), ParseError>(
                (j as int, ty),
            ) && i < j <= tlen,
            Err(e) => sp_type(t@, i as int) == Err::<(int, SpotType), ParseError>(e),
        },
{
    proof {
        reveal_strlit("NCDXF");
        reveal_strlit("BEACON");
        reveal_strlit("CQ");
        reveal_strlit("B");
    }
    if tag_at(t, tlen, i, "NCDXF") {
        let j = match p_space1(t, tlen, i + 5) {
            Ok(j) => j,
            Err(e) => {
                return Err(e);
            },
        };
        if tag_at(t, tlen, j, "B") {
            Ok((j + 1, SpotType::NcdxfBeacon))
        } else {
            Err(ParseError::InvalidFormat)
        }
    } else if tag_at(t, tlen, i, "BEACON") {
        Ok((i + 6, SpotType::Beacon))
    } else if tag_at(t, tlen, i, "CQ") {
        Ok((i + 2, SpotType::Cq))
    } else {
        // Non-greedy catch-all: extend while valid characters last, until
        // a time field follows.
        if i >= tlen {
            return Err(ParseError::InvalidFormat);
        }
        let mut end = i + 1;
        loop
            invariant
                i + 1 <= end,
                end <= tlen + 1,
                i <= tlen,
                tlen == t@.len(),
                sp_other_end(t@, i as int, (i + 1) as int) == sp_other_end(
                    t@,
                    i as int,
                    end as int,
                ),
            decreases tlen + 1 - end,
        {
            if end > tlen {
                return Err(ParseError::InvalidFormat);
            }
            if !is_other_char_exec(t.get_char(end - 1)) {
                return Err(ParseError::InvalidFormat);
            }
            let sp = p_scan_space(t, tlen, end);
            if p_time_shape(t, tlen, sp) {
                return Ok((end, SpotType::Other));
            }
            if end >= tlen {
                return Err(ParseError::InvalidFormat);
            }
            end = end + 1;
        }
    }
}

/// The time field.
fn p_time(t: &str, tlen: usize, i: usize) -> (r: Result<SpotTime, ParseError>)
    requires
        tlen == t@.len(),
        i <= tlen,
    ensures
        match r {
            Ok(v) => sp_time(t@, i as int) == Ok::<SpotTime, ParseError>(v) && v.wf(),
            Err(e) => sp_time(t@, i as int) == Err::<SpotTime, ParseError>(e),
        },
{
    if !(i < tlen && crate::config::is_digit_char(t.get_char(i))) {
        return Err(ParseError::InvalidFormat);
    }
    proof {
        lemma_scan_digit(t@, i as int);
    }
    let d_end = p_scan_digit(t, tlen, i);
    if !(d_end < tlen && upper_u32(t.get_char(d_end)) == 'Z' as u32) {
        return Err(ParseError::InvalidFormat);
    }
    if d_end - i != 4 {
        return Err(ParseError::InvalidTime);
    }
    let hh = crate::config::char_digit_val(t.get_char(i)) * 10 + crate::config::char_digit_val(
        t.get_char(i + 1),
    );
    let mm = crate::config::char_digit_val(t.get_char(i + 2)) * 10
        + crate::config::char_digit_val(t.get_char(i + 3));
    if hh > 23 || mm > 59 {
        return Err(ParseError::InvalidTime);
    }
    Ok(SpotTime { hour: hh as u8, minute: mm as u8 })
}

/// Parse a complete RBN spot line.
///
/// The line is trimmed, then matched against the spot grammar; the result
/// is exactly what the grammar specifies, with the error category saying
/// what was malformed. Anything after the time field is ignored.
pub fn parse_spot(input: &str) -> (r: Result<CwSpot, ParseError>)
    ensures
        match r {
            Ok(spot) => spec_parse_spot(input@) == Ok::<crate::spot::SpotView, ParseError>(
                spot@,
            ) && (input@.len() <= crate::spot::CALLSIGN_MAX_LEN ==> spot@.wf()),
            Err(e) => spec_parse_spot(input@) == Err::<crate::spot::SpotView, ParseError>(e),
        },
{
    let t = trim(input);
    let tlen = t.unicode_len();
    proof {
        crate::text::lemma_trim_len(input@);
    }
    let i0 = match p_prefix(t, tlen) {
        Ok(i) => i,
        Err(e) => {
            return Err(e);
        },
    };
    let (i1, spotter) = match p_spotter(t, tlen, i0) {
        Ok(p) => p,
        Err(e) => {
            return Err(e);
        },
    };
    let i1b = p_scan_space(t, tlen, i1);
    let (i2, freq) = match p_freq(t, tlen, i1b) {
        Ok(p) => p,
        Err(e) => {
            return Err(e);
        },
    };
    let i3 = match p_space1(t, tlen, i2) {
        Ok(j) => j,
        Err(e) => {
            return Err(e);
        },
    };
    let (i4, dx_call) = match p_callsign(t, tlen, i3) {
        Ok(p) => p,
        Err(e) => {
            return Err(e);
        },
    };
    let i5 = match p_space1(t, tlen, i4) {
        Ok(j) => j,
        Err(e) => {
            return Err(e);
        },
    };
    let (i6, mode) = match p_mode(t, tlen, i5) {
        Ok(p) => p,
        Err(e) => {
            return Err(e);
        },
    };
    let i7 = match p_space1(t, tlen, i6) {
        Ok(j) => j,
        Err(e) => {
            return Err(e);
        },
    };
    let (i8, snr) = match p_snr(t, tlen, i7) {
        Ok(p) => p,
        Err(e) => {
            return Err(e);
        },
    };
    let i9 = match p_space1(t, tlen, i8) {
        Ok(j) => j,
        Err(e) => {
            return Err(e);
        },
    };
    let (i10, wpm) = match p_wpm(t, tlen, i9) {
        Ok(p) => p,
        Err(e) => {
            return Err(e);
        },
    };
    let i11 = match p_space1(t, tlen, i10) {
        Ok(j) => j,
        Err(e) => {
            return Err(e);
        },
    };
    let (i12, spot_type) = match p_type(t, tlen, i11) {
        Ok(p) => p,
        Err(e) => {
            return Err(e);
        },
    };
    let i13 = p_scan_space(t, tlen, i12);
    let time = match p_time(t, tlen, i13) {
        Ok(v) => v,
        Err(e) => {
            return Err(e);
        },
    };
    let spot = CwSpot {
        spotter,
        frequency_millikhz: freq,
        dx_call,
        mode,
        snr_db: snr,
        wpm,
        spot_type,
        time,
    };
    proof {
        if input@.len() <= crate::spot::CALLSIGN_MAX_LEN {
            lemma_scan_call(t@, i0 as int);
            lemma_scan_call(t@, i3 as int);
            assert(vstd::utf8::is_ascii_chars(spot.spotter@));
            assert(vstd::utf8::is_ascii_chars(spot.dx_call@));
        }
    }
    Ok(spot)
}

/// Quick pre-filter: whether the line looks like a spot at all — after
/// trimming, longer than 20 characters and beginning, case-insensitively,
/// with `DX de `.
pub fn looks_like_spot(line: &str) -> (r: bool)
    ensures
        r == spec_looks_like_spot(line@),
{
    proof {
        reveal_strlit("DX DE ");
    }
    let t = trim(line);
    let tlen = t.unicode_len();
    if tlen <= 20 {
        return false;
    }
    tag_at(t, tlen, 0, "DX DE ")
}

/// Whether a spot is a CW spot.
pub fn is_cw_spot(spot: &CwSpot) -> (r: bool)
    ensures
        r == (spot.mode == Mode::Cw),
{
    spot.mode == Mode::Cw
}

} // verus!

verus! {

/// Whitespace padding around a line does not change what the parser
/// returns: the grammar sees only the trimmed line.
pub proof fn lemma_parse_spot_padding(pad1: Seq<char>, l: Seq<char>, pad2: Seq<char>)
    requires
        crate::text::all_ws(pad1),
        crate::text::all_ws(pad2),
    ensures
        spec_parse_spot(pad1 + l + pad2) == spec_parse_spot(l),
{
    crate::text::lemma_trim_pad(pad1, l, pad2);
}

/// Every line the grammar accepts is longer than 20 characters once
/// trimmed: each field contributes its minimum width.
pub proof fn lemma_accepted_is_long(s: Seq<char>)
    requires
        spec_parse_spot(s) is Ok,
    ensures
        spec_trim(s).len() > 20,
{
    let t = spec_trim(s);
    let i0 = sp_prefix(t)->Ok_0;
    lemma_scan_ws(t, 2);
    let iw = sp_multispace1(t, 2)->Ok_0;
    lemma_scan_ws(t, iw + 2);
    assert(i0 >= 6);
    let (i1, _spotter) = sp_spotter(t, i0)->Ok_0;
    lemma_scan_call(t, i0);
    lemma_scan_space(t, sp_callsign(t, i0)->Ok_0.0 + 1);
    assert(i1 >= i0 + 2);
    let i1b = sp_space0(t, i1);
    lemma_scan_space(t, i1);
    let (i2, _) = sp_freq(t, i1b)->Ok_0;
    lemma_scan_digit(t, i1b);
    lemma_scan_digit(t, scan_digit_end(t, i1b) + 1);
    assert(i2 >= i1b + 1);
    let i3 = sp_space1(t, i2)->Ok_0;
    lemma_scan_space(t, i2);
    let (i4, _) = sp_callsign(t, i3)->Ok_0;
    lemma_scan_call(t, i3);
    let i5 = sp_space1(t, i4)->Ok_0;
    lemma_scan_space(t, i4);
    let (i6, _) = sp_mode(t, i5)->Ok_0;
    assert(i6 >= i5 + 2);
    let i7 = sp_space1(t, i6)->Ok_0;
    lemma_scan_space(t, i6);
    let (i8, _) = sp_snr(t, i7)->Ok_0;
    lemma_scan_digit(t, i7);
    lemma_scan_digit(t, i7 + 1);
    lemma_scan_space(t, scan_digit_end(t, i7));
    lemma_scan_space(t, scan_digit_end(t, i7 + 1));
    assert(i8 >= i7 + 4);
    let i9 = sp_space1(t, i8)->Ok_0;
    lemma_scan_space(t, i8);
    let (i10, _) = sp_wpm(t, i9)->Ok_0;
    lemma_scan_digit(t, i9);
    lemma_scan_space(t, scan_digit_end(t, i9));
    assert(i10 >= i9 + 5);
    let i11 = sp_space1(t, i10)->Ok_0;
    lemma_scan_space(t, i10);
    let (i12, _) = sp_type(t, i11)->Ok_0;
    lemma_sp_type_advances(t, i11, i12);
    let i13 = sp_space0(t, i12);
    lemma_scan_space(t, i12);
    lemma_scan_digit(t, i13);
    assert(scan_digit_end(t, i13) < t.len());
    assert(t.len() >= i13 + 5);
}

/// The spot type consumes at least one character and stays within the
/// line.
proof fn lemma_sp_type_advances(t: Seq<char>, i: int, j: int)
    requires
        0 <= i <= t.len(),
        sp_type(t, i) is Ok,
        j == sp_type(t, i)->Ok_0.0,
    ensures
        i < j <= t.len(),
{
    reveal_strlit("NCDXF");
    reveal_strlit("BEACON");
    reveal_strlit("CQ");
    reveal_strlit("B");
    if spec_tag_at(t, i, "NCDXF"@) {
        lemma_scan_space(t, i + 5);
    } else if spec_tag_at(t, i, "BEACON"@) {
    } else if spec_tag_at(t, i, "CQ"@) {
    } else {
        lemma_sp_other_end_bounds(t, i, i + 1);
    }
}

/// The catch-all end, when it exists, lies past `i` and within the line.
proof fn lemma_sp_other_end_bounds(t: Seq<char>, i: int, end: int)
    requires
        i + 1 <= end,
        sp_other_end(t, i, end) is Some,
    ensures
        i < sp_other_end(t, i, end)->0 <= t.len(),
    decreases t.len() - end + 1,
{
    if !(end > t.len() || end < i + 1) && !(!is_other_char(t[end - 1])) && !spec_time_shape_at(
        t,
        sp_space0(t, end),
    ) && !(end >= t.len()) {
        lemma_sp_other_end_bounds(t, i, end + 1);
    }
}

/// Where the pre-filter and the grammar agree: an accepted line whose
/// prefix words are separated by single spaces looks like a spot, in any
/// casing. (The grammar also accepts tabs or several whitespace
/// characters inside the `DX de ` prefix; such a line parses but fails
/// the pre-filter, which demands the six-character prefix itself.)
pub proof fn lemma_accepted_looks_like(s: Seq<char>)
    requires
        spec_parse_spot(s) is Ok,
        spec_tag_at(spec_trim(s), 0, "DX DE "@),
    ensures
        spec_looks_like_spot(s),
{
    lemma_accepted_is_long(s);
}

/// Time fields fail as invalid times exactly when they have the shape of
/// a time (digits terminated by `Z`) but the wrong number of digits or an
/// hour or minute out of range.
pub proof fn lemma_time_error_category(t: Seq<char>, i: int)
    requires
        0 <= i < t.len(),
        is_digit(t[i]),
        scan_digit_end(t, i) < t.len(),
        spec_upper(t[scan_digit_end(t, i)]) == 'Z',
    ensures
        sp_time(t, i) == Err::<SpotTime, ParseError>(ParseError::InvalidTime) <==> (
        scan_digit_end(t, i) - i != 4 || digit_val(t[i]) * 10 + digit_val(t[i + 1]) > 23
            || digit_val(t[i + 2]) * 10 + digit_val(t[i + 3]) > 59),
{
    lemma_scan_digit(t, i);
}

} // verus!

verus! {

/// The parse result of a lowercased line: callsigns come out lowercased,
/// everything else is unchanged.
pub open spec fn lower_spot_view(v: crate::spot::SpotView) -> crate::spot::SpotView {
    crate::spot::SpotView {
        spotter: crate::text::lower_seq(v.spotter),
        dx_call: crate::text::lower_seq(v.dx_call),
        ..v
    }
}

/// Lowercasing does not move the end of a whitespace run.
proof fn lemma_lower_scan_ws(t: Seq<char>, i: int)
    ensures
        scan_ws_end(crate::text::lower_seq(t), i) == scan_ws_end(t, i),
    decreases t.len() - i,
{
    let lt = crate::text::lower_seq(t);
    if 0 <= i && i < t.len() {
        assert(lt[i] == crate::text::spec_lower(t[i]));
        if spec_is_ws(t[i]) {
            lemma_lower_scan_ws(t, i + 1);
        }
    }
}

/// Lowercasing does not move the end of a space run.
proof fn lemma_lower_scan_space(t: Seq<char>, i: int)
    ensures
        scan_space_end(crate::text::lower_seq(t), i) == scan_space_end(t, i),
    decreases t.len() - i,
{
    let lt = crate::text::lower_seq(t);
    if 0 <= i && i < t.len() {
        assert(lt[i] == crate::text::spec_lower(t[i]));
        if is_space(t[i]) {
            lemma_lower_scan_space(t, i + 1);
        }
    }
}

/// Lowercasing does not move the end of a digit run.
proof fn lemma_lower_scan_digit(t: Seq<char>, i: int)
    ensures
        scan_digit_end(crate::text::lower_seq(t), i) == scan_digit_end(t, i),
    decreases t.len() - i,
{
    let lt = crate::text::lower_seq(t);
    if 0 <= i && i < t.len() {
        assert(lt[i] == crate::text::spec_lower(t[i]));
        if is_digit(t[i]) {
            lemma_lower_scan_digit(t, i + 1);
        }
    }
}

/// Lowercasing does not move the end of a callsign run.
proof fn lemma_lower_scan_call(t: Seq<char>, i: int)
    ensures
        scan_call_end(crate::text::lower_seq(t), i) == scan_call_end(t, i),
    decreases t.len() - i,
{
    let lt = crate::text::lower_seq(t);
    if 0 <= i && i < t.len() {
        assert(lt[i] == crate::text::spec_lower(t[i]));
        if is_callsign_char(t[i]) {
            lemma_lower_scan_call(t, i + 1);
        }
    }
}

/// Lowercasing does not change whether a tag matches.
proof fn lemma_lower_tag_at(t: Seq<char>, i: int, tag: Seq<char>)
    ensures
        spec_tag_at(crate::text::lower_seq(t), i, tag) == spec_tag_at(t, i, tag),
{
    let lt = crate::text::lower_seq(t);
    if spec_tag_at(t, i, tag) {
        assert forall|k: int| 0 <= k < tag.len() implies spec_upper(lt[i + k]) == tag[k] by {
            assert(lt[i + k] == crate::text::spec_lower(t[i + k]));
            crate::text::lemma_upper_of_lower(t[i + k]);
        }
    }
    if spec_tag_at(lt, i, tag) {
        assert forall|k: int| 0 <= k < tag.len() implies spec_upper(t[i + k]) == tag[k] by {
            assert(lt[i + k] == crate::text::spec_lower(t[i + k]));
            crate::text::lemma_upper_of_lower(t[i + k]);
        }
    }
}

/// A digit run reads the same value after lowercasing.
proof fn lemma_lower_digit_run(t: Seq<char>, i: int, e: int)
    requires
        0 <= i <= e <= t.len(),
        forall|k: int| i <= k < e ==> is_digit(#[trigger] t[k]),
    ensures
        crate::text::lower_seq(t).subrange(i, e) == t.subrange(i, e),
{
    let lt = crate::text::lower_seq(t);
    assert forall|k: int| 0 <= k < e - i implies lt.subrange(i, e)[k] == t.subrange(i, e)[k] by {
        assert(lt[i + k] == crate::text::spec_lower(t[i + k]));
    }
    assert(lt.subrange(i, e) =~= t.subrange(i, e));
}

/// Lowercasing does not change whether a time shape starts at `i`.
proof fn lemma_lower_time_shape(t: Seq<char>, i: int)
    ensures
        spec_time_shape_at(crate::text::lower_seq(t), i) == spec_time_shape_at(t, i),
{
    let lt = crate::text::lower_seq(t);
    lemma_lower_scan_digit(t, i);
    let d = scan_digit_end(t, i);
    if 0 <= d < t.len() {
        assert(lt[d] == crate::text::spec_lower(t[d]));
        crate::text::lemma_upper_of_lower(t[d]);
    }
}

/// Lowercasing does not change where the catch-all spot type ends.
proof fn lemma_lower_other_end(t: Seq<char>, i: int, end: int)
    requires
        0 <= i,
        i + 1 <= end,
    ensures
        sp_other_end(crate::text::lower_seq(t), i, end) == sp_other_end(t, i, end),
    decreases t.len() - end + 1,
{
    let lt = crate::text::lower_seq(t);
    if end <= t.len() {
        assert(lt[end - 1] == crate::text::spec_lower(t[end - 1]));
        if is_other_char(t[end - 1]) {
            lemma_lower_scan_space(t, end);
            lemma_lower_time_shape(t, sp_space0(t, end));
            if !spec_time_shape_at(t, sp_space0(t, end)) && end < t.len() {
                lemma_lower_other_end(t, i, end + 1);
            }
        }
    }
}

/// The time field reads the same after lowercasing.
proof fn lemma_lower_sp_time(t: Seq<char>, i: int)
    ensures
        sp_time(crate::text::lower_seq(t), i) == sp_time(t, i),
{
    let lt = crate::text::lower_seq(t);
    lemma_lower_scan_digit(t, i);
    if 0 <= i && i < t.len() {
        assert(lt[i] == crate::text::spec_lower(t[i]));
        if is_digit(t[i]) {
            let d = scan_digit_end(t, i);
            lemma_scan_digit(t, i);
            if d < t.len() {
                assert(lt[d] == crate::text::spec_lower(t[d]));
                crate::text::lemma_upper_of_lower(t[d]);
                if spec_upper(t[d]) == 'Z' && d - i == 4 {
                    assert(lt[i] == t[i]);
                    assert(lt[i + 1] == t[i + 1]);
                    assert(lt[i + 2] == t[i + 2]);
                    assert(lt[i + 3] == t[i + 3]);
                }
            }
        }
    }
}

/// Case insensitivity of the grammar: parsing the lowercased line gives
/// the same outcome — the same error, or the same spot with the callsigns
/// lowercased, since callsigns alone retain their case.
pub proof fn lemma_parse_spot_case_insensitive(s: Seq<char>)
    ensures
        spec_parse_spot(crate::text::lower_seq(s)) == (match spec_parse_spot(s) {
            Ok(v) => Ok::<crate::spot::SpotView, ParseError>(lower_spot_view(v)),
            Err(e) => Err::<crate::spot::SpotView, ParseError>(e),
        }),
{
    crate::text::lemma_lower_trim(s);
    let t = spec_trim(s);
    let lt = crate::text::lower_seq(t);
    assert(spec_trim(crate::text::lower_seq(s)) == lt);
    reveal_strlit("DX");
    reveal_strlit("DE");
    reveal_strlit("CW");
    reveal_strlit("RTTY");
    reveal_strlit("FT8");
    reveal_strlit("FT4");
    reveal_strlit("PSK31");
    reveal_strlit("DB");
    reveal_strlit("WPM");
    reveal_strlit("NCDXF");
    reveal_strlit("BEACON");
    reveal_strlit("CQ");
    reveal_strlit("B");
    lemma_lower_tag_at(t, 0, "DX"@);
    lemma_lower_scan_ws(t, 2);
    if t.len() > 0 {
        assert(lt[0] == crate::text::spec_lower(t[0]));
    }
    if 2 < t.len() {
        assert(lt[2] == crate::text::spec_lower(t[2]));
    }
    if sp_prefix(t) is Err && sp_prefix(lt) is Err {
        assert(sp_prefix(lt) == sp_prefix(t)) by {
            lemma_lower_prefix(t);
        }
    }
    lemma_lower_prefix(t);
    if sp_prefix(t) is Ok {
        let i0 = sp_prefix(t)->Ok_0;
        lemma_lower_spotter(t, i0);
        if sp_spotter(t, i0) is Ok {
            let (i1, _) = sp_spotter(t, i0)->Ok_0;
            lemma_lower_scan_space(t, i1);
            let i1b = sp_space0(t, i1);
            lemma_lower_freq(t, i1b);
            if sp_freq(t, i1b) is Ok {
                let (i2, _) = sp_freq(t, i1b)->Ok_0;
                lemma_lower_space1(t, i2);
                if sp_space1(t, i2) is Ok {
                    let i3 = sp_space1(t, i2)->Ok_0;
                    lemma_lower_callsign(t, i3);
                    if sp_callsign(t, i3) is Ok {
                        let (i4, _) = sp_callsign(t, i3)->Ok_0;
                        lemma_lower_space1(t, i4);
                        if sp_space1(t, i4) is Ok {
                            let i5 = sp_space1(t, i4)->Ok_0;
                            lemma_lower_mode(t, i5);
                            if sp_mode(t, i5) is Ok {
                                let (i6, _) = sp_mode(t, i5)->Ok_0;
                                lemma_lower_space1(t, i6);
                                if sp_space1(t, i6) is Ok {
                                    let i7 = sp_space1(t, i6)->Ok_0;
                                    lemma_lower_snr(t, i7);
                                    if sp_snr(t, i7) is Ok {
                                        let (i8, _) = sp_snr(t, i7)->Ok_0;
                                        lemma_lower_space1(t, i8);
                                        if sp_space1(t, i8) is Ok {
                                            let i9 = sp_space1(t, i8)->Ok_0;
                                            lemma_lower_wpm(t, i9);
                                            if sp_wpm(t, i9) is Ok {
                                                let (i10, _) = sp_wpm(t, i9)->Ok_0;
                                                lemma_lower_space1(t, i10);
                                                if sp_space1(t, i10) is Ok {
                                                    let i11 = sp_space1(t, i10)->Ok_0;
                                                    lemma_scan_space(t, i10);
                                                    lemma_lower_type(t, i11);
                                                    if sp_type(t, i11) is Ok {
                                                        let (i12, _) = sp_type(t, i11)->Ok_0;
                                                        lemma_lower_scan_space(t, i12);
                                                        lemma_lower_sp_time(
                                                            t,
                                                            sp_space0(t, i12),
                                                        );
                                                    }
                                                }
                                            }
                                        }
                                    }
                                }
                            }
                        }
                    }
                }
            }
        }
    }
}

/// The prefix reads the same after lowercasing.
proof fn lemma_lower_prefix(t: Seq<char>)
    ensures
        sp_prefix(crate::text::lower_seq(t)) == sp_prefix(t),
{
    let lt = crate::text::lower_seq(t);
    reveal_strlit("DX");
    reveal_strlit("DE");
    lemma_lower_tag_at(t, 0, "DX"@);
    lemma_lower_ms1(t, 2);
    if sp_multispace1(t, 2) is Ok {
        let i = sp_multispace1(t, 2)->Ok_0;
        lemma_lower_tag_at(t, i, "DE"@);
        lemma_lower_ms1(t, i + 2);
    }
}

/// One-or-more whitespace reads the same after lowercasing.
proof fn lemma_lower_ms1(t: Seq<char>, i: int)
    ensures
        sp_multispace1(crate::text::lower_seq(t), i) == sp_multispace1(t, i),
{
    let lt = crate::text::lower_seq(t);
    if 0 <= i && i < t.len() {
        assert(lt[i] == crate::text::spec_lower(t[i]));
    }
    lemma_lower_scan_ws(t, i);
}

/// One-or-more spaces reads the same after lowercasing.
proof fn lemma_lower_space1(t: Seq<char>, i: int)
    ensures
        sp_space1(crate::text::lower_seq(t), i) == sp_space1(t, i),
{
    let lt = crate::text::lower_seq(t);
    if 0 <= i && i < t.len() {
        assert(lt[i] == crate::text::spec_lower(t[i]));
    }
    lemma_lower_scan_space(t, i);
}

/// A callsign's end is unmoved and its characters are lowercased.
proof fn lemma_lower_callsign(t: Seq<char>, i: int)
    ensures
        sp_callsign(crate::text::lower_seq(t), i) == (match sp_callsign(t, i) {
            Ok((j, cs)) => Ok::<(int, Seq<char>), ParseError>(
                (j, crate::text::lower_seq(cs)),
            ),
            Err(e) => Err::<(int, Seq<char>), ParseError>(e),
        }),
{
    let lt = crate::text::lower_seq(t);
    if 0 <= i && i < t.len() {
        assert(lt[i] == crate::text::spec_lower(t[i]));
    }
    lemma_lower_scan_call(t, i);
    if 0 <= i < t.len() && is_callsign_char(t[i]) {
        let end = scan_call_end(t, i);
        lemma_scan_call(t, i);
        assert(lt.subrange(i, end) =~= crate::text::lower_seq(t.subrange(i, end))) by {
            assert forall|k: int|
                0 <= k < end - i implies lt.subrange(i, end)[k] == crate::text::lower_seq(
                t.subrange(i, end),
            )[k] by {
                assert(lt[i + k] == crate::text::spec_lower(t[i + k]));
            }
        }
    }
}

/// The spotter reads the same after lowercasing, with its callsign
/// lowercased.
proof fn lemma_lower_spotter(t: Seq<char>, i: int)
    ensures
        sp_spotter(crate::text::lower_seq(t), i) == (match sp_spotter(t, i) {
            Ok((j, cs)) => Ok::<(int, Seq<char>), ParseError>(
                (j, crate::text::lower_seq(cs)),
            ),
            Err(e) => Err::<(int, Seq<char>), ParseError>(e),
        }),
{
    let lt = crate::text::lower_seq(t);
    lemma_lower_callsign(t, i);
    if sp_callsign(t, i) is Ok {
        let (j, _) = sp_callsign(t, i)->Ok_0;
        lemma_scan_call(t, i);
        if j < t.len() {
            assert(lt[j] == crate::text::spec_lower(t[j]));
        }
        lemma_lower_scan_space(t, j + 1);
    }
}

/// The frequency reads the same after lowercasing.
proof fn lemma_lower_freq(t: Seq<char>, i: int)
    ensures
        sp_freq(crate::text::lower_seq(t), i) == sp_freq(t, i),
{
    let lt = crate::text::lower_seq(t);
    if 0 <= i && i < t.len() {
        assert(lt[i] == crate::text::spec_lower(t[i]));
    }
    lemma_lower_scan_digit(t, i);
    if 0 <= i < t.len() && is_digit(t[i]) {
        let d_end = scan_digit_end(t, i);
        lemma_scan_digit(t, i);
        lemma_lower_digit_run(t, i, d_end);
        if d_end < t.len() {
            assert(lt[d_end] == crate::text::spec_lower(t[d_end]));
        }
        if d_end + 1 < t.len() {
            assert(lt[d_end + 1] == crate::text::spec_lower(t[d_end + 1]));
            lemma_lower_scan_digit(t, d_end + 1);
            let f_end = scan_digit_end(t, d_end + 1);
            lemma_scan_digit(t, d_end + 1);
            lemma_lower_digit_run(t, d_end + 1, f_end);
        }
    }
}

/// The mode reads the same after lowercasing.
proof fn lemma_lower_mode(t: Seq<char>, i: int)
    ensures
        sp_mode(crate::text::lower_seq(t), i) == sp_mode(t, i),
{
    lemma_lower_tag_at(t, i, "CW"@);
    lemma_lower_tag_at(t, i, "RTTY"@);
    lemma_lower_tag_at(t, i, "FT8"@);
    lemma_lower_tag_at(t, i, "FT4"@);
    lemma_lower_tag_at(t, i, "PSK31"@);
}

/// The SNR reads the same after lowercasing.
proof fn lemma_lower_snr(t: Seq<char>, i: int)
    ensures
        sp_snr(crate::text::lower_seq(t), i) == sp_snr(t, i),
{
    let lt = crate::text::lower_seq(t);
    if 0 <= i && i < t.len() {
        assert(lt[i] == crate::text::spec_lower(t[i]));
    }
    let neg = 0 <= i < t.len() && t[i] == '-';
    let ds = if neg { i + 1 } else { i };
    if 0 <= ds && ds < t.len() {
        assert(lt[ds] == crate::text::spec_lower(t[ds]));
    }
    lemma_lower_scan_digit(t, ds);
    if 0 <= ds < t.len() && is_digit(t[ds]) {
        let d_end = scan_digit_end(t, ds);
        lemma_scan_digit(t, ds);
        lemma_lower_digit_run(t, ds, d_end);
        lemma_lower_space1(t, d_end);
        if sp_space1(t, d_end) is Ok {
            let j = sp_space1(t, d_end)->Ok_0;
            lemma_lower_tag_at(t, j, "DB"@);
        }
    }
}

/// The WPM reads the same after lowercasing.
proof fn lemma_lower_wpm(t: Seq<char>, i: int)
    ensures
        sp_wpm(crate::text::lower_seq(t), i) == sp_wpm(t, i),
{
    let lt = crate::text::lower_seq(t);
    if 0 <= i && i < t.len() {
        assert(lt[i] == crate::text::spec_lower(t[i]));
    }
    lemma_lower_scan_digit(t, i);
    if 0 <= i < t.len() && is_digit(t[i]) {
        let d_end = scan_digit_end(t, i);
        lemma_scan_digit(t, i);
        lemma_lower_digit_run(t, i, d_end);
        lemma_lower_space1(t, d_end);
        if sp_space1(t, d_end) is Ok {
            let j = sp_space1(t, d_end)->Ok_0;
            lemma_lower_tag_at(t, j, "WPM"@);
        }
    }
}

/// The spot type reads the same after lowercasing.
proof fn lemma_lower_type(t: Seq<char>, i: int)
    requires
        0 <= i,
    ensures
        sp_type(crate::text::lower_seq(t), i) == sp_type(t, i),
{
    lemma_lower_tag_at(t, i, "NCDXF"@);
    lemma_lower_tag_at(t, i, "BEACON"@);
    lemma_lower_tag_at(t, i, "CQ"@);
    reveal_strlit("NCDXF");
    if spec_tag_at(t, i, "NCDXF"@) {
        lemma_lower_space1(t, i + 5);
        if sp_space1(t, i + 5) is Ok {
            let j = sp_space1(t, i + 5)->Ok_0;
            lemma_lower_tag_at(t, j, "B"@);
        }
    } else if !spec_tag_at(t, i, "BEACON"@) && !spec_tag_at(t, i, "CQ"@) {
        lemma_lower_other_end(t, i, i + 1);
    }
}

} // verus!
