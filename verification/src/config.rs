//! Application configuration values and their validation.
//!
//! Loading the configuration file is I/O and lives outside the library;
//! this module holds the configuration data itself, the human-readable
//! size parser for the storage budget, and validation of filter patterns.

use vstd::prelude::*;

use crate::client::{RBN_HOST, RBN_PORT_CW};
use crate::filter::SpotFilter;
use crate::spot::pow10;
use crate::text::{ascii_upper, spec_trim, spec_u64_digits, str_eq, trim, u64_to_string,
    upper_seq};

verus! {

/// Configuration for spot storage.
#[derive(Debug, Clone, Copy)]
pub struct StorageConfig {
    /// Default cap on entries per filter, used when a filter does not
    /// specify its own.
    pub default_max_kept_entries: usize,

    /// Global budget in bytes for all stored spots together.
    pub global_max_size: usize,
}

impl StorageConfig {
    /// Both bounds must be at least one.
    pub open spec fn wf(self) -> bool {
        self.default_max_kept_entries >= 1 && self.global_max_size >= 1
    }
}

impl Default for StorageConfig {
    /// Fifty entries per filter and a ten-megabyte global budget.
    fn default() -> (r: Self)
        ensures
            r.default_max_kept_entries == 50,
            r.global_max_size == 10 * 1024 * 1024,
            r.wf(),
    {
        StorageConfig { default_max_kept_entries: 50, global_max_size: 10 * 1024 * 1024 }
    }
}

/// A decimal digit.
pub open spec fn is_digit(c: char) -> bool {
    '0' <= c && c <= '9'
}

/// Numeric value of a decimal digit.
pub open spec fn digit_val(c: char) -> int {
    (c as int) - 48
}

/// Length of the leading run of characters that can belong to a number
/// (digits and `.`).
pub open spec fn spec_num_end(s: Seq<char>) -> int
    decreases s.len(),
{
    if s.len() > 0 && (is_digit(s[0]) || s[0] == '.') {
        1 + spec_num_end(s.drop_first())
    } else {
        0
    }
}

/// Number of `.` characters in a numeric token.
pub open spec fn dot_count(s: Seq<char>) -> nat
    decreases s.len(),
{
    if s.len() == 0 {
        0
    } else {
        dot_count(s.drop_last()) + if s.last() == '.' {
            1nat
        } else {
            0nat
        }
    }
}

/// Number of digit characters in a numeric token.
pub open spec fn digit_count(s: Seq<char>) -> nat
    decreases s.len(),
{
    if s.len() == 0 {
        0
    } else {
        digit_count(s.drop_last()) + if is_digit(s.last()) {
            1nat
        } else {
            0nat
        }
    }
}

/// The digits of the token read as one integer, ignoring a decimal point.
pub open spec fn spec_mantissa(s: Seq<char>) -> nat
    decreases s.len(),
{
    if s.len() == 0 {
        0
    } else if is_digit(s.last()) {
        spec_mantissa(s.drop_last()) * 10 + (digit_val(s.last()) as nat)
    } else {
        spec_mantissa(s.drop_last())
    }
}

/// Number of digits after the decimal point (zero when there is none).
pub open spec fn spec_frac_len(s: Seq<char>) -> nat
    decreases s.len(),
{
    if s.len() == 0 {
        0
    } else if s.last() == '.' {
        0
    } else if dot_count(s) > 0 {
        1 + spec_frac_len(s.drop_last())
    } else {
        0
    }
}

/// The byte multiplier for a unit token, if the unit is known.
pub open spec fn spec_unit_multiplier(u: Seq<char>) -> Option<nat> {
    if u == Seq::<char>::empty() || u == "B"@ {
        Some(1)
    } else if u == "KB"@ || u == "K"@ {
        Some(1024)
    } else if u == "MB"@ || u == "M"@ {
        Some(1024 * 1024)
    } else if u == "GB"@ || u == "G"@ {
        Some(1024 * 1024 * 1024)
    } else {
        None
    }
}

/// Bound on the number of significant characters (after leading zeros) in
/// the numeric token `parse_size` accepts; longer tokens are rejected so
/// the arithmetic stays exact.
pub const SIZE_NUM_MAX_LEN: usize = 27;

/// Length of the leading run of `0` characters.
pub open spec fn lead_zeros(s: Seq<char>) -> int
    decreases s.len(),
{
    if s.len() > 0 && s[0] == '0' {
        1 + lead_zeros(s.drop_first())
    } else {
        0
    }
}

/// What `parse_size` computes. The input is trimmed and upper-cased; the
/// leading run of digits and dots is the number, the trimmed remainder the
/// unit. The number must be non-empty, hold at least one digit, at most
/// one dot and, past its leading zeros, at most [`SIZE_NUM_MAX_LEN`]
/// characters. The value is the exact rational value times the unit
/// multiplier, rounded down, and saturates at `usize::MAX`.
pub open spec fn spec_parse_size(s: Seq<char>) -> Option<nat> {
    let t = upper_seq(spec_trim(s));
    let ne = spec_num_end(t);
    let num = t.subrange(0, ne);
    let unit = spec_trim(t.subrange(ne, t.len() as int));
    if num.len() == 0 || num.len() - lead_zeros(num) > SIZE_NUM_MAX_LEN || dot_count(num) > 1
        || digit_count(num) == 0 {
        None
    } else {
        match spec_unit_multiplier(unit) {
            None => None,
            Some(mult) => {
                let v = spec_mantissa(num) * mult / pow10(spec_frac_len(num));
                Some(
                    if v > usize::MAX {
                        usize::MAX as nat
                    } else {
                        v
                    },
                )
            },
        }
    }
}

/// The mantissa of a token of at most `n` digit-or-dot characters stays
/// below `10^n`.
pub proof fn lemma_mantissa_bound(s: Seq<char>, n: nat)
    requires
        s.len() <= n,
    ensures
        spec_mantissa(s) < pow10(n),
    decreases s.len(),
{
    if s.len() == 0 {
        crate::spot::lemma_pow10_pos(n);
    } else {
        lemma_mantissa_bound(s.drop_last(), (n - 1) as nat);
        assert(pow10(n) == 10 * pow10((n - 1) as nat)) by {
            crate::spot::lemma_pow10_unfold(n);
        }
    }
}

/// The leading-zero run ends exactly at `k`.
proof fn lemma_lead_zeros_at(s: Seq<char>, k: int)
    requires
        0 <= k <= s.len(),
        forall|j: int| 0 <= j < k ==> s[j] == '0',
        k < s.len() ==> s[k] != '0',
    ensures
        lead_zeros(s) == k,
    decreases k,
{
    if k == 0 {
    } else {
        let t = s.drop_first();
        assert(forall|j: int| 0 <= j < k - 1 ==> t[j] == '0');
        lemma_lead_zeros_at(t, k - 1);
    }
}

/// Stripping a run of leading zeros changes neither the mantissa, the
/// number of dots, nor the fraction length.
proof fn lemma_strip_zeros(s: Seq<char>, k: int)
    requires
        0 <= k <= s.len(),
        forall|j: int| 0 <= j < k ==> s[j] == '0',
    ensures
        spec_mantissa(s) == spec_mantissa(s.subrange(k, s.len() as int)),
        dot_count(s) == dot_count(s.subrange(k, s.len() as int)),
        spec_frac_len(s) == spec_frac_len(s.subrange(k, s.len() as int)),
    decreases s.len(),
{
    let sub = s.subrange(k, s.len() as int);
    if s.len() == 0 {
        assert(sub =~= s);
    } else if k == s.len() {
        let dl = s.drop_last();
        assert(forall|j: int| 0 <= j < k - 1 ==> dl[j] == '0');
        lemma_strip_zeros(dl, k - 1);
        assert(dl.subrange(k - 1, dl.len() as int) =~= Seq::<char>::empty());
        assert(sub =~= Seq::<char>::empty());
        assert(s.last() == '0');
    } else {
        let dl = s.drop_last();
        lemma_strip_zeros(dl, k);
        assert(sub.drop_last() =~= dl.subrange(k, dl.len() as int));
        assert(sub.last() == s.last());
    }
}

/// Parse a human-readable byte size such as `100`, `500KB`, `10MB` or
/// `1GB` (case-insensitive; `B`, `K`/`KB`, `M`/`MB`, `G`/`GB`).
///
/// Fails on an empty or malformed number, a numeric part whose
/// significant characters (past leading zeros) exceed
/// [`SIZE_NUM_MAX_LEN`] (a machine bound: the arithmetic is kept exact),
/// and any unknown unit; values beyond `usize::MAX` bytes saturate there.
#[verifier::rlimit(60)]
pub fn parse_size(s: &str) -> (r: Result<usize, String>)
    ensures
        match r {
            Ok(v) => spec_parse_size(s@) == Some(v as nat),
            Err(_) => spec_parse_size(s@) is None,
        },
{
    let t0 = trim(s);
    let tu = ascii_upper(t0);
    let t = tu.as_str();
    let tlen = t.unicode_len();

    // Find where the numeric token ends.
    let mut ne: usize = 0;
    while ne < tlen && (is_digit_char(t.get_char(ne)) || t.get_char(ne) == '.')
        invariant
            ne <= tlen,
            tlen == t@.len(),
            forall|j: int| 0 <= j < ne ==> is_digit(#[trigger] t@[j]) || t@[j] == '.',
        decreases tlen - ne,
    {
        ne = ne + 1;
    }
    proof {
        lemma_num_end_at(t@, ne as int);
    }

    // Count the digits and dots of the whole numeric token.
    let ghost num = t@.subrange(0, ne as int);
    let mut digits: usize = 0;
    let mut dots: usize = 0;
    let mut i: usize = 0;
    while i < ne
        invariant
            i <= ne,
            ne <= tlen,
            tlen == t@.len(),
            num == t@.subrange(0, ne as int),
            forall|j: int| 0 <= j < ne ==> is_digit(#[trigger] t@[j]) || t@[j] == '.',
            digits == digit_count(num.subrange(0, i as int)),
            dots == dot_count(num.subrange(0, i as int)),
            digits + dots == i,
        decreases ne - i,
    {
        proof {
            assert(num.subrange(0, i + 1).drop_last() =~= num.subrange(0, i as int));
            assert(num.subrange(0, i + 1).last() == t@[i as int]);
        }
        if t.get_char(i) == '.' {
            dots = dots + 1;
        } else {
            digits = digits + 1;
        }
        i = i + 1;
    }
    proof {
        assert(num.subrange(0, ne as int) =~= num);
    }

    if digits == 0 || dots > 1 {
        // Covers the empty token as well: no digits at all.
        let msg = if tlen == 0 {
            String::from_str("empty size string")
        } else {
            let mut m = String::from_str("invalid number in size: ");
            m.append(s);
            m
        };
        return Err(msg);
    }
    // Leading zeros carry no value; the exactness bound applies to the
    // significant characters only.
    let mut lead: usize = 0;
    while lead < ne && t.get_char(lead) == '0'
        invariant
            lead <= ne,
            ne <= tlen,
            tlen == t@.len(),
            num == t@.subrange(0, ne as int),
            forall|j: int| 0 <= j < lead ==> #[trigger] num[j] == '0',
        decreases ne - lead,
    {
        proof {
            assert(num[lead as int] == t@[lead as int]);
        }
        lead = lead + 1;
    }
    proof {
        if lead < ne {
            assert(num[lead as int] == t@[lead as int]);
        }
        lemma_lead_zeros_at(num, lead as int);
        lemma_strip_zeros(num, lead as int);
    }
    if ne - lead > SIZE_NUM_MAX_LEN {
        // The token has more significant characters than the arithmetic
        // stays exact for.
        let mut msg = String::from_str("invalid number in size: ");
        msg.append(s);
        return Err(msg);
    }

    // Read the value from the significant characters.
    let ghost sig = num.subrange(lead as int, ne as int);
    proof {
        reveal_with_fuel(pow10, 28);
        assert(pow10(27) == 1000000000000000000000000000);
    }
    let mut mant: u128 = 0;
    let mut fdots: usize = 0;
    let mut frac: usize = 0;
    let mut i: usize = lead;
    while i < ne
        invariant
            lead <= i <= ne,
            ne <= tlen,
            tlen == t@.len(),
            num == t@.subrange(0, ne as int),
            sig == num.subrange(lead as int, ne as int),
            ne - lead <= SIZE_NUM_MAX_LEN,
            forall|j: int| 0 <= j < ne ==> is_digit(#[trigger] t@[j]) || t@[j] == '.',
            mant == spec_mantissa(sig.subrange(0, i - lead)),
            fdots == dot_count(sig.subrange(0, i - lead)),
            fdots <= i - lead,
            frac == spec_frac_len(sig.subrange(0, i - lead)),
            mant < pow10((i - lead) as nat),
            frac <= i - lead,
            pow10(27) == 1000000000000000000000000000,
        decreases ne - i,
    {
        proof {
            assert(sig.subrange(0, i - lead + 1).drop_last() =~= sig.subrange(0, i - lead));
            assert(sig.subrange(0, i - lead + 1).last() == t@[i as int]);
            crate::spot::lemma_pow10_unfold((i - lead + 1) as nat);
            crate::spot::lemma_pow10_mono((i - lead + 1) as nat, 27);
        }
        let c = t.get_char(i);
        if c == '.' {
            fdots = fdots + 1;
            frac = 0;
        } else {
            mant = mant * 10 + (char_digit_val(c) as u128);
            if fdots > 0 {
                frac = frac + 1;
            }
        }
        i = i + 1;
    }
    proof {
        assert(sig.subrange(0, ne - lead) =~= sig);
        assert(spec_mantissa(num) == mant);
        assert(spec_frac_len(num) == frac);
    }

    // The unit is the trimmed remainder.
    let unit = trim_str_suffix(t, ne, tlen);
    let mult: u128 = if unit.unicode_len() == 0 || str_eq(unit, "B") {
        1
    } else if str_eq(unit, "KB") || str_eq(unit, "K") {
        1024
    } else if str_eq(unit, "MB") || str_eq(unit, "M") {
        1024 * 1024
    } else if str_eq(unit, "GB") || str_eq(unit, "G") {
        1024 * 1024 * 1024
    } else {
        let mut msg = String::from_str("unknown size unit: ");
        msg.append(unit);
        proof {
            assert(unit@ == Seq::<char>::empty() ==> unit@.len() == 0);
        }
        return Err(msg);
    };
    proof {
        assert(unit@.len() == 0 ==> unit@ =~= Seq::<char>::empty());
    }

    // value = mantissa * multiplier / 10^frac, exactly.
    let p = pow10_u128(frac);
    proof {
        lemma_mantissa_bound(sig, 27);
        crate::spot::lemma_pow10_mono(frac as nat, 27);
        crate::spot::lemma_pow10_pos(frac as nat);
        assert(mant * mult <= mant * (1024 * 1024 * 1024)) by (nonlinear_arith)
            requires
                mult <= 1024 * 1024 * 1024,
                mant >= 0,
        ;
        assert(mant * (1024 * 1024 * 1024) < pow10(27) * (1024 * 1024 * 1024))
            by (nonlinear_arith)
            requires
                mant < pow10(27),
        ;
        reveal_with_fuel(pow10, 28);
        assert(pow10(27) == 1000000000000000000000000000);
        assert(1000000000000000000000000000 * (1024 * 1024 * 1024) < u128::MAX);
    }
    let v = (mant * mult) / p;
    if v > usize::MAX as u128 {
        Ok(usize::MAX)
    } else {
        Ok(v as usize)
    }
}

/// Whether `c` is a decimal digit.
pub(crate) fn is_digit_char(c: char) -> (r: bool)
    ensures
        r == is_digit(c),
{
    '0' <= c && c <= '9'
}

/// Numeric value of a digit character.
pub(crate) fn char_digit_val(c: char) -> (r: u32)
    requires
        is_digit(c),
    ensures
        r == digit_val(c),
        r <= 9,
{
    (c as u32) - 48
}

/// `10^k` as a `u128`, for small `k`.
fn pow10_u128(k: usize) -> (r: u128)
    requires
        k <= 27,
    ensures
        r == pow10(k as nat),
{
    proof {
        reveal_with_fuel(pow10, 28);
        assert(pow10(27) == 1000000000000000000000000000);
    }
    let mut r: u128 = 1;
    let mut j: usize = 0;
    while j < k
        invariant
            j <= k,
            k <= 27,
            r == pow10(j as nat),
            pow10(27) == 1000000000000000000000000000,
        decreases k - j,
    {
        proof {
            crate::spot::lemma_pow10_unfold((j + 1) as nat);
            crate::spot::lemma_pow10_mono((j + 1) as nat, 27);
        }
        r = r * 10;
        j = j + 1;
    }
    r
}

/// The leading run of digit-or-dot characters ends exactly at `k`.
proof fn lemma_num_end_at(s: Seq<char>, k: int)
    requires
        0 <= k <= s.len(),
        forall|j: int| 0 <= j < k ==> is_digit(#[trigger] s[j]) || s[j] == '.',
        k < s.len() ==> !(is_digit(s[k]) || s[k] == '.'),
    ensures
        spec_num_end(s) == k,
    decreases k,
{
    if k == 0 {
    } else {
        let t = s.drop_first();
        assert(forall|j: int| 0 <= j < k - 1 ==> is_digit(#[trigger] t[j]) || t[j] == '.');
        lemma_num_end_at(t, k - 1);
    }
}

/// Trimmed substring of `t` from `from` to `to`.
fn trim_str_suffix<'a>(t: &'a str, from: usize, to: usize) -> (r: &'a str)
    requires
        from <= to <= t@.len(),
    ensures
        r@ == spec_trim(t@.subrange(from as int, to as int)),
{
    let sub = t.substring_char(from, to);
    trim(sub)
}

/// Application configuration.
#[derive(Debug)]
pub struct Config {
    /// Callsign used for the RBN login.
    pub callsign: String,

    /// RBN server hostname.
    pub host: String,

    /// RBN server port.
    pub port: u16,

    /// Connection timeout in seconds.
    pub connect_timeout: u64,

    /// Read timeout in seconds.
    pub read_timeout: u64,

    /// Whether to reconnect automatically after a disconnect.
    pub reconnect: bool,

    /// Only count CW spots, ignoring other modes.
    pub cw_only: bool,

    /// Print statistics every this many seconds (`0` disables).
    pub stats_interval: u64,

    /// Whether the metrics HTTP endpoint is enabled.
    pub metrics_enabled: bool,

    /// Port for the metrics HTTP endpoint.
    pub metrics_port: u16,

    /// Spot filters for selective storage.
    pub filters: Vec<SpotFilter>,

    /// Optional storage configuration for keeping matched spots.
    pub storage: Option<StorageConfig>,
}

impl Default for Config {
    /// The stock configuration: the public RBN server, placeholder
    /// callsign, CW only, reconnecting, no filters and no storage.
    fn default() -> (r: Self)
        ensures
            r.callsign@ == "N0CALL"@,
            r.host@ == RBN_HOST@,
            r.port == RBN_PORT_CW,
            r.connect_timeout == 30,
            r.read_timeout == 120,
            r.reconnect,
            r.cw_only,
            r.stats_interval == 30,
            !r.metrics_enabled,
            r.metrics_port == 9090,
            r.filters@.len() == 0,
            r.storage is None,
    {
        Config {
            callsign: String::from_str("N0CALL"),
            host: String::from_str(RBN_HOST),
            port: RBN_PORT_CW,
            connect_timeout: 30,
            read_timeout: 120,
            reconnect: true,
            cw_only: true,
            stats_interval: 30,
            metrics_enabled: false,
            metrics_port: 9090,
            filters: Vec::new(),
            storage: None,
        }
    }
}

impl Config {
    /// Every filter's patterns are valid wildcard patterns.
    pub open spec fn spec_filters_valid(&self) -> bool {
        forall|i: int|
            0 <= i < self.filters@.len() ==> (#[trigger] self.filters@[i]@).wf_patterns()
    }

    /// Validate the configuration: every filter's wildcard patterns must
    /// be well-formed. An error names the first failing filter's index
    /// and carries that filter's own message.
    pub fn validate(&self) -> (r: Result<(), String>)
        ensures
            r is Ok <==> self.spec_filters_valid(),
            r matches Err(m) ==> exists|i: int|
                0 <= i < self.filters@.len() && !(#[trigger] self.filters@[i]@).wf_patterns()
                    && (forall|j: int| 0 <= j < i ==> (#[trigger] self.filters@[j]@).wf_patterns())
                    && m@ == "Invalid filter ["@ + spec_u64_digits(i as nat) + "]: "@
                    + self.filters@[i]@.spec_first_error(),
    {
        let n = self.filters.len();
        let mut i: usize = 0;
        while i < n
            invariant
                i <= n,
                n == self.filters@.len(),
                forall|j: int| 0 <= j < i ==> (#[trigger] self.filters@[j]@).wf_patterns(),
            decreases n - i,
        {
            match self.filters[i].validate() {
                Ok(()) => (),
                Err(e) => {
                    let mut msg = String::from_str("Invalid filter [");
                    msg.append(u64_to_string(i as u64).as_str());
                    msg.append("]: ");
                    msg.append(e.as_str());
                    return Err(msg);
                },
            }
            i = i + 1;
        }
        Ok(())
    }
}

} // verus!
