//! The spot value type and its derived attributes.
//!
//! A spot is one reception report from the Reverse Beacon Network: which
//! skimmer heard which station, on what frequency, in which mode, with what
//! signal quality, at what time of day. Frequencies are carried in integer
//! milli-kilohertz so that band classification and size accounting are exact.

use vstd::prelude::*;
use vstd::utf8::{is_ascii_chars, is_ascii_chars_encode_utf8};

verus! {

/// The kind of activity the skimmer attributed to the transmission.
#[derive(Debug, Clone, Copy, PartialEq, Eq, Hash, Structural)]
pub enum SpotType {
    /// A station calling CQ.
    Cq,
    /// An NCDXF/IARU network beacon.
    NcdxfBeacon,
    /// Any other beacon.
    Beacon,
    /// Anything else the feed reports.
    Other,
}

/// The transmission mode of the spotted signal.
#[derive(Debug, Clone, Copy, PartialEq, Eq, Hash, Structural)]
pub enum Mode {
    /// Continuous wave (Morse code).
    Cw,
    /// Radio teletype.
    Rtty,
    /// FT8 digital mode.
    Ft8,
    /// FT4 digital mode.
    Ft4,
    /// PSK31 digital mode.
    Psk31,
    /// Not one of the recognized modes.
    Unknown,
}

impl Mode {
    /// The label used for this mode in serialized output.
    pub open spec fn spec_label(self) -> Seq<char> {
        match self {
            Mode::Cw => "CW"@,
            Mode::Rtty => "RTTY"@,
            Mode::Ft8 => "FT8"@,
            Mode::Ft4 => "FT4"@,
            Mode::Psk31 => "PSK31"@,
            Mode::Unknown => "UNKNOWN"@,
        }
    }

    /// The label used for this mode in serialized output.
    pub fn label(&self) -> (r: &'static str)
        ensures
            r@ == self.spec_label(),
    {
        match self {
            Mode::Cw => "CW",
            Mode::Rtty => "RTTY",
            Mode::Ft8 => "FT8",
            Mode::Ft4 => "FT4",
            Mode::Psk31 => "PSK31",
            Mode::Unknown => "UNKNOWN",
        }
    }

    /// Character count of this mode's label.
    pub fn label_len(&self) -> (r: usize)
        ensures
            r == self.spec_label().len(),
            2 <= r <= 7,
    {
        proof {
            reveal_strlit("CW");
            reveal_strlit("RTTY");
            reveal_strlit("FT8");
            reveal_strlit("FT4");
            reveal_strlit("PSK31");
            reveal_strlit("UNKNOWN");
        }
        match self {
            Mode::Cw => 2,
            Mode::Rtty => 4,
            Mode::Ft8 => 3,
            Mode::Ft4 => 3,
            Mode::Psk31 => 5,
            Mode::Unknown => 7,
        }
    }
}

impl SpotType {
    /// The label used for this spot type in serialized output.
    pub open spec fn spec_label(self) -> Seq<char> {
        match self {
            SpotType::Cq => "CQ"@,
            SpotType::NcdxfBeacon => "NCDXF B"@,
            SpotType::Beacon => "BEACON"@,
            SpotType::Other => "OTHER"@,
        }
    }

    /// The label used for this spot type in serialized output.
    pub fn label(&self) -> (r: &'static str)
        ensures
            r@ == self.spec_label(),
    {
        match self {
            SpotType::Cq => "CQ",
            SpotType::NcdxfBeacon => "NCDXF B",
            SpotType::Beacon => "BEACON",
            SpotType::Other => "OTHER",
        }
    }

    /// Character count of this spot type's label.
    pub fn label_len(&self) -> (r: usize)
        ensures
            r == self.spec_label().len(),
            2 <= r <= 7,
    {
        proof {
            reveal_strlit("CQ");
            reveal_strlit("NCDXF B");
            reveal_strlit("BEACON");
            reveal_strlit("OTHER");
        }
        match self {
            SpotType::Cq => 2,
            SpotType::NcdxfBeacon => 7,
            SpotType::Beacon => 6,
            SpotType::Other => 5,
        }
    }
}

/// A wall-clock time of day (hours and minutes, no date).
#[derive(Debug, Clone, Copy, PartialEq, Eq, Hash, Structural)]
pub struct SpotTime {
    /// Hour of day, `0..=23`.
    pub hour: u8,
    /// Minute of hour, `0..=59`.
    pub minute: u8,
}

impl SpotTime {
    /// A valid time of day stays inside the 24-hour clock.
    pub open spec fn wf(self) -> bool {
        self.hour < 24 && self.minute < 60
    }

    /// Build a time of day, rejecting out-of-range hours or minutes.
    pub fn from_hm(hour: u32, minute: u32) -> (r: Option<SpotTime>)
        ensures
            match r {
                Some(t) => hour < 24 && minute < 60 && t.hour == hour && t.minute == minute
                    && t.wf(),
                None => hour >= 24 || minute >= 60,
            },
    {
        if hour < 24 && minute < 60 {
            Some(SpotTime { hour: hour as u8, minute: minute as u8 })
        } else {
            None
        }
    }
}

/// The mathematical content of a [`CwSpot`]: the same fields with the
/// callsigns abstracted to character sequences.
pub struct SpotView {
    pub spotter: Seq<char>,
    pub frequency_millikhz: u64,
    pub dx_call: Seq<char>,
    pub mode: Mode,
    pub snr_db: i32,
    pub wpm: u16,
    pub spot_type: SpotType,
    pub time: SpotTime,
}

impl SpotView {
    /// Callsigns are non-empty ASCII of sane length, the frequency is
    /// positive, and the time is a clock time. The length bound keeps
    /// size accounting free of overflow.
    pub open spec fn wf(self) -> bool {
        &&& 1 <= self.spotter.len() <= CALLSIGN_MAX_LEN
        &&& 1 <= self.dx_call.len() <= CALLSIGN_MAX_LEN
        &&& is_ascii_chars(self.spotter)
        &&& is_ascii_chars(self.dx_call)
        &&& self.frequency_millikhz > 0
        &&& self.time.wf()
    }
}

/// Upper bound on the callsign lengths a well-formed spot may carry.
pub const CALLSIGN_MAX_LEN: usize = 0x1000_0000;

/// A parsed spot from the Reverse Beacon Network: one decoded signal
/// detected by a skimmer station.
#[derive(Debug)]
pub struct CwSpot {
    /// Callsign of the skimmer that detected the signal. RBN skimmers
    /// customarily carry a `-#` suffix.
    pub spotter: String,

    /// Frequency where the signal was detected, in milli-kilohertz
    /// (thousandths of a kHz), so `7018.3 kHz` is stored as `7018300`.
    pub frequency_millikhz: u64,

    /// Callsign of the station being spotted.
    pub dx_call: String,

    /// Transmission mode.
    pub mode: Mode,

    /// Signal-to-noise ratio in decibels.
    pub snr_db: i32,

    /// CW speed in words per minute (`0` when not applicable).
    pub wpm: u16,

    /// The kind of activity.
    pub spot_type: SpotType,

    /// UTC time of day at which the spot was reported.
    pub time: SpotTime,
}

impl Clone for CwSpot {
    /// A clone carries exactly the same field values.
    fn clone(&self) -> (r: Self)
        ensures
            r@ == self@,
    {
        CwSpot {
            spotter: self.spotter.clone(),
            frequency_millikhz: self.frequency_millikhz,
            dx_call: self.dx_call.clone(),
            mode: self.mode,
            snr_db: self.snr_db,
            wpm: self.wpm,
            spot_type: self.spot_type,
            time: self.time,
        }
    }
}

impl View for CwSpot {
    type V = SpotView;

    open spec fn view(&self) -> SpotView {
        SpotView {
            spotter: self.spotter@,
            frequency_millikhz: self.frequency_millikhz,
            dx_call: self.dx_call@,
            mode: self.mode,
            snr_db: self.snr_db,
            wpm: self.wpm,
            spot_type: self.spot_type,
            time: self.time,
        }
    }
}

/// The amateur band for a frequency, keyed by the integer kHz floor.
/// Frequencies outside every listed range have no band.
pub open spec fn spec_band(khz: int) -> Option<Seq<char>> {
    if 135 <= khz <= 138 {
        Some("2200m"@)
    } else if 472 <= khz <= 479 {
        Some("630m"@)
    } else if 1800 <= khz <= 2000 {
        Some("160m"@)
    } else if 3500 <= khz <= 4000 {
        Some("80m"@)
    } else if 5330 <= khz <= 5410 {
        Some("60m"@)
    } else if 7000 <= khz <= 7300 {
        Some("40m"@)
    } else if 10100 <= khz <= 10150 {
        Some("30m"@)
    } else if 14000 <= khz <= 14350 {
        Some("20m"@)
    } else if 18068 <= khz <= 18168 {
        Some("17m"@)
    } else if 21000 <= khz <= 21450 {
        Some("15m"@)
    } else if 24890 <= khz <= 24990 {
        Some("12m"@)
    } else if 28000 <= khz <= 29700 {
        Some("10m"@)
    } else if 50000 <= khz <= 54000 {
        Some("6m"@)
    } else if 144000 <= khz <= 148000 {
        Some("2m"@)
    } else {
        None
    }
}

/// Number of digits in the decimal rendering of `n`.
pub open spec fn dec_len(n: nat) -> nat
    decreases n,
{
    if n < 10 {
        1
    } else {
        1 + dec_len(n / 10)
    }
}

/// `10^k`.
pub open spec fn pow10(k: nat) -> nat
    decreases k,
{
    if k == 0 {
        1
    } else {
        10 * pow10((k - 1) as nat)
    }
}

/// `10^k` is positive.
pub proof fn lemma_pow10_pos(k: nat)
    ensures
        pow10(k) >= 1,
    decreases k,
{
    if k > 0 {
        lemma_pow10_pos((k - 1) as nat);
    }
}

/// One unfolding of [`pow10`].
pub proof fn lemma_pow10_unfold(k: nat)
    requires
        k >= 1,
    ensures
        pow10(k) == 10 * pow10((k - 1) as nat),
{
}

/// [`pow10`] is monotone.
pub proof fn lemma_pow10_mono(a: nat, b: nat)
    requires
        a <= b,
    ensures
        pow10(a) <= pow10(b),
    decreases b,
{
    if a < b {
        lemma_pow10_mono(a, (b - 1) as nat);
        lemma_pow10_pos((b - 1) as nat);
    }
}

/// A number below `10^k` has at most `k` decimal digits.
pub proof fn lemma_dec_len_bound(n: nat, k: nat)
    requires
        k >= 1,
        n < pow10(k),
    ensures
        dec_len(n) <= k,
    decreases k,
{
    if n >= 10 {
        assert(pow10(k) == 10 * pow10((k - 1) as nat));
        lemma_dec_len_bound(n / 10, (k - 1) as nat);
    }
}

/// Every `u64` has at most 20 decimal digits.
pub proof fn lemma_dec_len_u64(n: u64)
    ensures
        dec_len(n as nat) <= 20,
{
    reveal_with_fuel(pow10, 21);
    assert(pow10(20) > u64::MAX as nat);
    lemma_dec_len_bound(n as nat, 20);
}

/// Count the decimal digits of `n`.
pub fn dec_len_u64(n: u64) -> (r: usize)
    ensures
        r == dec_len(n as nat),
        1 <= r <= 20,
{
    proof {
        lemma_dec_len_u64(n);
    }
    let mut rest = n;
    let mut len: usize = 1;
    while rest >= 10
        invariant
            dec_len(n as nat) == (len - 1) + dec_len(rest as nat),
            1 <= len,
            len - 1 + dec_len(rest as nat) <= 20,
        decreases rest,
    {
        rest = rest / 10;
        len = len + 1;
    }
    len
}

/// Number of characters in the decimal rendering of a signed value:
/// its digits, plus one for the sign when negative.
pub open spec fn signed_dec_len(n: int) -> nat {
    if n < 0 {
        1 + dec_len((-n) as nat)
    } else {
        dec_len(n as nat)
    }
}

/// Byte count of the punctuation, keys and quotes of the canonical JSON
/// object: everything except the variable-width field values.
pub const SPOT_JSON_OVERHEAD: usize = 100;

/// Byte count of the canonical JSON serialization of a spot: the fixed
/// object skeleton plus the width of each field value. The time renders as
/// `HH:MM` (5 bytes).
pub open spec fn spec_json_size(s: SpotView) -> nat {
    (SPOT_JSON_OVERHEAD as nat) + s.spotter.len() + s.dx_call.len() + dec_len(
        s.frequency_millikhz as nat,
    ) + signed_dec_len(s.snr_db as int) + dec_len(s.wpm as nat) + s.mode.spec_label().len()
        + s.spot_type.spec_label().len() + 5
}

impl CwSpot {
    /// Callsigns are non-empty and of sane length, and the time is a clock
    /// time.
    pub open spec fn wf(self) -> bool {
        self@.wf()
    }

    /// The amateur band for this spot's frequency, or `None` when the
    /// frequency falls outside every recognized band. Classification uses
    /// the integer kHz floor of the frequency.
    pub fn band(&self) -> (r: Option<&'static str>)
        ensures
            match r {
                Some(s) => spec_band(self.frequency_millikhz as int / 1000) == Some(s@),
                None => spec_band(self.frequency_millikhz as int / 1000) is None,
            },
    {
        let khz = self.frequency_millikhz / 1000;
        if 135 <= khz && khz <= 138 {
            Some("2200m")
        } else if 472 <= khz && khz <= 479 {
            Some("630m")
        } else if 1800 <= khz && khz <= 2000 {
            Some("160m")
        } else if 3500 <= khz && khz <= 4000 {
            Some("80m")
        } else if 5330 <= khz && khz <= 5410 {
            Some("60m")
        } else if 7000 <= khz && khz <= 7300 {
            Some("40m")
        } else if 10100 <= khz && khz <= 10150 {
            Some("30m")
        } else if 14000 <= khz && khz <= 14350 {
            Some("20m")
        } else if 18068 <= khz && khz <= 18168 {
            Some("17m")
        } else if 21000 <= khz && khz <= 21450 {
            Some("15m")
        } else if 24890 <= khz && khz <= 24990 {
            Some("12m")
        } else if 28000 <= khz && khz <= 29700 {
            Some("10m")
        } else if 50000 <= khz && khz <= 54000 {
            Some("6m")
        } else if 144000 <= khz && khz <= 148000 {
            Some("2m")
        } else {
            None
        }
    }

    /// Size of this spot in bytes under the canonical JSON serialization.
    /// The measure is used consistently for all storage byte accounting.
    pub fn json_size(&self) -> (r: usize)
        requires
            self.wf(),
        ensures
            r == spec_json_size(self@),
    {
        proof {
            lemma_dec_len_u64(self.frequency_millikhz);
            lemma_dec_len_u64(self.wpm as u64);
            is_ascii_chars_encode_utf8(self.spotter@);
            is_ascii_chars_encode_utf8(self.dx_call@);
        }
        let freq_len = dec_len_u64(self.frequency_millikhz);
        let snr_len = if self.snr_db < 0 {
            proof {
                lemma_dec_len_u64((-(self.snr_db as i64)) as u64);
            }
            1 + dec_len_u64((-(self.snr_db as i64)) as u64)
        } else {
            dec_len_u64(self.snr_db as u64)
        };
        let wpm_len = dec_len_u64(self.wpm as u64);
        let mode_len = self.mode.label_len();
        let type_len = self.spot_type.label_len();
        SPOT_JSON_OVERHEAD + self.spotter.as_str().len() + self.dx_call.as_str().len() + freq_len
            + snr_len + wpm_len + mode_len + type_len + 5
    }
}

} // verus!
