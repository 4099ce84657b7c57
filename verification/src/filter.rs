//! Spot filtering: wildcard patterns and the AND-of-fields predicate.
//!
//! A [`SpotFilter`] matches a spot when every field it specifies matches;
//! unspecified fields are wildcards. Pattern lists use OR logic inside the
//! list. Wildcard patterns allow a single `*`, at the start or the end, and
//! match ASCII case-insensitively.

use vstd::prelude::*;

use crate::spot::{spec_band, CwSpot, Mode, SpotType};
use crate::text::{ascii_upper, str_ends_with, str_eq, str_eq_ignore_case, str_starts_with,
    upper_seq};

verus! {

/// Number of `*` characters in a pattern.
pub open spec fn star_count(s: Seq<char>) -> nat
    decreases s.len(),
{
    if s.len() == 0 {
        0
    } else {
        star_count(s.drop_last()) + if s.last() == '*' {
            1nat
        } else {
            0nat
        }
    }
}

/// A pattern is valid when it has at most one `*`, and that `*` (if any)
/// stands first or last.
pub open spec fn spec_valid_pattern(p: Seq<char>) -> bool {
    &&& star_count(p) <= 1
    &&& (star_count(p) == 1 ==> p.len() > 0 && (p[0] == '*' || p[p.len() - 1] == '*'))
}

/// Wildcard match, ASCII case-insensitive: `*SUF` matches values ending in
/// `SUF`, `PRE*` matches values starting with `PRE`, anything else matches
/// exactly.
pub open spec fn spec_matches_wildcard(p: Seq<char>, v: Seq<char>) -> bool {
    let pu = upper_seq(p);
    let vu = upper_seq(v);
    if pu.len() > 0 && pu[0] == '*' {
        vu.len() >= pu.len() - 1 && vu.subrange(vu.len() - (pu.len() - 1), vu.len() as int)
            == pu.subrange(1, pu.len() as int)
    } else if pu.len() > 0 && pu[pu.len() - 1] == '*' {
        vu.len() >= pu.len() - 1 && vu.subrange(0, pu.len() - 1) == pu.subrange(0, pu.len() - 1)
    } else {
        pu == vu
    }
}

/// Match a value against a wildcard pattern, ASCII case-insensitively.
///
/// `*` may stand first (suffix match) or last (prefix match); a pattern
/// without `*` must equal the value up to case.
pub fn matches_wildcard(pattern: &str, value: &str) -> (r: bool)
    ensures
        r == spec_matches_wildcard(pattern@, value@),
{
    let pu = ascii_upper(pattern);
    let vu = ascii_upper(value);
    let plen = pu.as_str().unicode_len();
    if plen > 0 && pu.as_str().get_char(0) == '*' {
        let suffix = pu.as_str().substring_char(1, plen);
        str_ends_with(vu.as_str(), suffix)
    } else if plen > 0 && pu.as_str().get_char(plen - 1) == '*' {
        let prefix = pu.as_str().substring_char(0, plen - 1);
        str_starts_with(vu.as_str(), prefix)
    } else {
        str_eq(pu.as_str(), vu.as_str())
    }
}

/// The message an invalid pattern is rejected with.
pub open spec fn spec_pattern_error(p: Seq<char>) -> Seq<char> {
    if star_count(p) > 1 {
        "Pattern '"@ + p + "' has multiple wildcards; only one is allowed"@
    } else {
        "Pattern '"@ + p + "' has wildcard in middle; only prefix (*ABC) or suffix (ABC*) allowed"@
    }
}

/// Index of the first invalid pattern; the sequence's length when all
/// are valid.
pub open spec fn first_invalid(ps: Seq<Seq<char>>) -> int
    decreases ps.len(),
{
    if ps.len() == 0 {
        0
    } else if !spec_valid_pattern(ps[0]) {
        0
    } else {
        1 + first_invalid(ps.drop_first())
    }
}

/// When everything before `i` is valid and `i` is not, `i` is the first
/// invalid index.
proof fn lemma_first_invalid_at(ps: Seq<Seq<char>>, i: int)
    requires
        0 <= i < ps.len(),
        forall|j: int| 0 <= j < i ==> spec_valid_pattern(#[trigger] ps[j]),
        !spec_valid_pattern(ps[i]),
    ensures
        first_invalid(ps) == i,
    decreases i,
{
    if i > 0 {
        let t = ps.drop_first();
        assert(forall|j: int| 0 <= j < i - 1 ==> spec_valid_pattern(#[trigger] t[j]));
        assert(t[i - 1] == ps[i]);
        lemma_first_invalid_at(t, i - 1);
    }
}

/// Validate a wildcard pattern.
///
/// Fails when the pattern holds more than one `*`, or a single `*` that is
/// neither the first nor the last character; the error names the pattern
/// and the offending shape.
pub fn validate_wildcard_pattern(pattern: &str) -> (r: Result<(), String>)
    ensures
        r is Ok <==> spec_valid_pattern(pattern@),
        r matches Err(m) ==> m@ == spec_pattern_error(pattern@),
{
    let len = pattern.unicode_len();
    let mut stars: usize = 0;
    let mut i: usize = 0;
    while i < len
        invariant
            i <= len,
            len == pattern@.len(),
            stars == star_count(pattern@.subrange(0, i as int)),
            stars <= i,
        decreases len - i,
    {
        proof {
            assert(pattern@.subrange(0, i + 1).drop_last() =~= pattern@.subrange(0, i as int));
        }
        if pattern.get_char(i) == '*' {
            stars = stars + 1;
        }
        i = i + 1;
    }
    proof {
        assert(pattern@.subrange(0, len as int) =~= pattern@);
    }
    if stars > 1 {
        let mut msg = String::from_str("Pattern '");
        msg.append(pattern);
        msg.append("' has multiple wildcards; only one is allowed");
        return Err(msg);
    }
    if stars == 1 && pattern.get_char(0) != '*' && pattern.get_char(len - 1) != '*' {
        let mut msg = String::from_str("Pattern '");
        msg.append(pattern);
        msg.append("' has wildcard in middle; only prefix (*ABC) or suffix (ABC*) allowed");
        return Err(msg);
    }
    Ok(())
}

/// A list of wildcard patterns; a value matches the list when it matches
/// at least one of them.
#[derive(Debug)]
pub struct PatternList(Vec<String>);

impl View for PatternList {
    type V = Seq<Seq<char>>;

    closed spec fn view(&self) -> Seq<Seq<char>> {
        self.0.deep_view()
    }
}

/// Whether at least one pattern of `ps` matches `v`.
pub open spec fn spec_any_pattern_matches(ps: Seq<Seq<char>>, v: Seq<char>) -> bool {
    exists|i: int| 0 <= i < ps.len() && spec_matches_wildcard(ps[i], v)
}

impl PatternList {
    /// Wrap a vector of patterns.
    pub fn from_vec(patterns: Vec<String>) -> (r: PatternList)
        ensures
            r@ == patterns.deep_view(),
    {
        PatternList(patterns)
    }

    /// The patterns, in order.
    pub fn patterns(&self) -> (r: &Vec<String>)
        ensures
            r.deep_view() == self@,
    {
        &self.0
    }

    /// Whether any pattern in the list matches the value.
    pub fn matches_any(&self, value: &str) -> (r: bool)
        ensures
            r == spec_any_pattern_matches(self@, value@),
    {
        let n = self.0.len();
        let mut i: usize = 0;
        while i < n
            invariant
                i <= n,
                n == self.0.len(),
                self@.len() == n,
                forall|j: int| 0 <= j < i ==> !spec_matches_wildcard(self@[j], value@),
            decreases n - i,
        {
            proof {
                assert(self@[i as int] == self.0[i as int]@);
            }
            if matches_wildcard(self.0[i].as_str(), value) {
                return true;
            }
            i = i + 1;
        }
        false
    }

    /// Whether the list holds no patterns.
    pub fn is_empty(&self) -> (r: bool)
        ensures
            r == (self@.len() == 0),
    {
        self.0.len() == 0
    }
}

impl Clone for PatternList {
    /// A clone carries the same patterns.
    fn clone(&self) -> (r: Self)
        ensures
            r@ == self@,
    {
        PatternList(clone_string_vec(&self.0))
    }
}

impl Default for PatternList {
    /// The default list is empty.
    fn default() -> (r: Self)
        ensures
            r@ == Seq::<Seq<char>>::empty(),
    {
        PatternList(Vec::new())
    }
}

/// Clone a vector of strings, preserving its contents.
pub fn clone_string_vec(v: &Vec<String>) -> (r: Vec<String>)
    ensures
        r.deep_view() == v.deep_view(),
{
    let mut out: Vec<String> = Vec::new();
    let n = v.len();
    let mut i: usize = 0;
    while i < n
        invariant
            i <= n,
            n == v.len(),
            out.len() == i,
            forall|j: int| 0 <= j < i ==> out@[j]@ == v@[j]@,
        decreases n - i,
    {
        out.push(v[i].clone());
        i = i + 1;
    }
    proof {
        assert(out.deep_view() =~= v.deep_view());
    }
    out
}

/// Copy a vector of a `Copy` type.
pub fn copy_vec<T: Copy>(v: &Vec<T>) -> (r: Vec<T>)
    ensures
        r@ == v@,
{
    let mut out: Vec<T> = Vec::new();
    let n = v.len();
    let mut i: usize = 0;
    while i < n
        invariant
            i <= n,
            n == v.len(),
            out@ =~= v@.subrange(0, i as int),
        decreases n - i,
    {
        out.push(v[i]);
        i = i + 1;
    }
    proof {
        assert(out@ =~= v@);
    }
    out
}

/// The mathematical content of a [`SpotFilter`].
pub struct FilterView {
    pub name: Option<Seq<char>>,
    pub dx_call: Option<Seq<Seq<char>>>,
    pub spotter: Option<Seq<Seq<char>>>,
    pub bands: Option<Seq<Seq<char>>>,
    pub modes: Option<Seq<Mode>>,
    pub spot_types: Option<Seq<SpotType>>,
    pub min_snr: Option<i32>,
    pub max_snr: Option<i32>,
    pub min_wpm: Option<u16>,
    pub max_wpm: Option<u16>,
    pub max_kept_entries: Option<usize>,
}

/// A declarative filter over spots. Every specified field must match;
/// missing fields match everything.
#[derive(Debug)]
pub struct SpotFilter {
    /// Optional name, used to address this filter's storage queue.
    pub name: Option<String>,

    /// DX callsign patterns (OR logic within the list).
    pub dx_call: Option<PatternList>,

    /// Spotter callsign patterns (OR logic within the list).
    pub spotter: Option<PatternList>,

    /// Band labels to accept, such as `20m` (ASCII case-insensitive).
    pub bands: Option<Vec<String>>,

    /// Modes to accept.
    pub modes: Option<Vec<Mode>>,

    /// Spot types to accept.
    pub spot_types: Option<Vec<SpotType>>,

    /// Minimum SNR in dB, inclusive.
    pub min_snr: Option<i32>,

    /// Maximum SNR in dB, inclusive.
    pub max_snr: Option<i32>,

    /// Minimum WPM, inclusive.
    pub min_wpm: Option<u16>,

    /// Maximum WPM, inclusive.
    pub max_wpm: Option<u16>,

    /// Cap on stored entries for this filter, overriding the storage
    /// default.
    pub max_kept_entries: Option<usize>,
}

impl View for SpotFilter {
    type V = FilterView;

    open spec fn view(&self) -> FilterView {
        FilterView {
            name: match self.name {
                Some(ref s) => Some(s@),
                None => None,
            },
            dx_call: match self.dx_call {
                Some(ref p) => Some(p@),
                None => None,
            },
            spotter: match self.spotter {
                Some(ref p) => Some(p@),
                None => None,
            },
            bands: match self.bands {
                Some(ref b) => Some(b.deep_view()),
                None => None,
            },
            modes: match self.modes {
                Some(ref m) => Some(m@),
                None => None,
            },
            spot_types: match self.spot_types {
                Some(ref t) => Some(t@),
                None => None,
            },
            min_snr: self.min_snr,
            max_snr: self.max_snr,
            min_wpm: self.min_wpm,
            max_wpm: self.max_wpm,
            max_kept_entries: self.max_kept_entries,
        }
    }
}

impl DeepView for SpotFilter {
    type V = FilterView;

    open spec fn deep_view(&self) -> FilterView {
        self.view()
    }
}

/// Whether an optional pattern list passes for a value: absent or empty
/// lists pass, a non-empty list passes when some pattern matches.
pub open spec fn spec_patterns_pass(opt: Option<Seq<Seq<char>>>, v: Seq<char>) -> bool {
    match opt {
        None => true,
        Some(ps) => ps.len() == 0 || spec_any_pattern_matches(ps, v),
    }
}

/// Whether the band clause passes: absent passes; present requires the
/// spot's frequency to lie in a recognized band whose label equals one of
/// the listed labels up to ASCII case.
pub open spec fn spec_bands_pass(bands: Option<Seq<Seq<char>>>, khz: int) -> bool {
    match bands {
        None => true,
        Some(bs) => match spec_band(khz) {
            Some(b) => exists|i: int| 0 <= i < bs.len() && upper_seq(bs[i]) == upper_seq(b),
            None => false,
        },
    }
}

/// Whether a membership clause passes: absent passes, present requires the
/// value to appear in the list.
pub open spec fn spec_set_pass<T>(opt: Option<Seq<T>>, v: T) -> bool {
    match opt {
        None => true,
        Some(xs) => xs.contains(v),
    }
}

/// The filter predicate: every specified clause must pass.
pub open spec fn spec_filter_matches(f: FilterView, s: crate::spot::SpotView) -> bool {
    &&& spec_patterns_pass(f.dx_call, s.dx_call)
    &&& spec_patterns_pass(f.spotter, s.spotter)
    &&& spec_bands_pass(f.bands, s.frequency_millikhz as int / 1000)
    &&& spec_set_pass(f.modes, s.mode)
    &&& spec_set_pass(f.spot_types, s.spot_type)
    &&& (f.min_snr matches Some(m) ==> s.snr_db >= m)
    &&& (f.max_snr matches Some(m) ==> s.snr_db <= m)
    &&& (f.min_wpm matches Some(m) ==> s.wpm >= m)
    &&& (f.max_wpm matches Some(m) ==> s.wpm <= m)
}

impl SpotFilter {
    /// Whether the spot matches this filter (AND over all specified
    /// clauses).
    pub fn matches(&self, spot: &CwSpot) -> (r: bool)
        ensures
            r == spec_filter_matches(self@, spot@),
    {
        if let Some(patterns) = &self.dx_call {
            if !patterns.is_empty() && !patterns.matches_any(spot.dx_call.as_str()) {
                return false;
            }
        }
        if let Some(patterns) = &self.spotter {
            if !patterns.is_empty() && !patterns.matches_any(spot.spotter.as_str()) {
                return false;
            }
        }
        if let Some(bands) = &self.bands {
            match spot.band() {
                Some(band) => {
                    let n = bands.len();
                    let mut i: usize = 0;
                    let mut found = false;
                    while i < n && !found
                        invariant
                            i <= n,
                            n == bands.len(),
                            bands.deep_view().len() == n,
                            !found ==> forall|j: int|
                                0 <= j < i ==> upper_seq(bands.deep_view()[j]) != upper_seq(
                                    band@,
                                ),
                            found ==> exists|j: int|
                                0 <= j < bands.deep_view().len() && upper_seq(
                                    bands.deep_view()[j],
                                ) == upper_seq(band@),
                        decreases n - i,
                    {
                        proof {
                            assert(bands.deep_view()[i as int] == bands[i as int]@);
                        }
                        if str_eq_ignore_case(bands[i].as_str(), band) {
                            found = true;
                        }
                        i = i + 1;
                    }
                    if !found {
                        return false;
                    }
                },
                None => {
                    return false;
                },
            }
        }
        if let Some(modes) = &self.modes {
            if !contains_mode(modes, spot) {
                return false;
            }
        }
        if let Some(types) = &self.spot_types {
            if !contains_spot_type(types, spot) {
                return false;
            }
        }
        if let Some(min_snr) = self.min_snr {
            if spot.snr_db < min_snr {
                return false;
            }
        }
        if let Some(max_snr) = self.max_snr {
            if spot.snr_db > max_snr {
                return false;
            }
        }
        if let Some(min_wpm) = self.min_wpm {
            if spot.wpm < min_wpm {
                return false;
            }
        }
        if let Some(max_wpm) = self.max_wpm {
            if spot.wpm > max_wpm {
                return false;
            }
        }
        true
    }

    /// Validate the filter configuration: every pattern in both pattern
    /// lists must be a valid wildcard pattern. An error carries the first
    /// offending pattern's message, the DX list checked first.
    pub fn validate(&self) -> (r: Result<(), String>)
        ensures
            r is Ok <==> self@.wf_patterns(),
            r matches Err(m) ==> m@ == self@.spec_first_error(),
    {
        if let Some(patterns) = &self.dx_call {
            match validate_pattern_vec(patterns.patterns()) {
                Ok(()) => (),
                Err(e) => {
                    return Err(e);
                },
            }
        }
        if let Some(patterns) = &self.spotter {
            match validate_pattern_vec(patterns.patterns()) {
                Ok(()) => (),
                Err(e) => {
                    return Err(e);
                },
            }
        }
        Ok(())
    }
}

impl FilterView {
    /// All patterns in both pattern lists are valid wildcard patterns.
    pub open spec fn wf_patterns(self) -> bool {
        &&& (self.dx_call matches Some(ps) ==> all_patterns_valid(ps))
        &&& (self.spotter matches Some(ps) ==> all_patterns_valid(ps))
    }

    /// The message validation rejects this filter with: the first invalid
    /// pattern's error, the DX list checked before the spotter list.
    pub open spec fn spec_first_error(self) -> Seq<char> {
        match list_error(self.dx_call) {
            Some(e) => e,
            None => match list_error(self.spotter) {
                Some(e) => e,
                None => Seq::empty(),
            },
        }
    }
}

/// Every pattern in the sequence is a valid wildcard pattern.
pub open spec fn all_patterns_valid(ps: Seq<Seq<char>>) -> bool {
    forall|i: int| 0 <= i < ps.len() ==> spec_valid_pattern(#[trigger] ps[i])
}

/// The error a pattern list is rejected with, if any: the first invalid
/// pattern's message.
pub open spec fn list_error(opt: Option<Seq<Seq<char>>>) -> Option<Seq<char>> {
    match opt {
        Some(ps) => if !all_patterns_valid(ps) {
            Some(spec_pattern_error(ps[first_invalid(ps)]))
        } else {
            None
        },
        None => None,
    }
}

/// Validate every pattern in a vector; an error carries the first
/// offending pattern's message.
fn validate_pattern_vec(patterns: &Vec<String>) -> (r: Result<(), String>)
    ensures
        r is Ok <==> all_patterns_valid(patterns.deep_view()),
        r matches Err(m) ==> first_invalid(patterns.deep_view()) < patterns.deep_view().len()
            && m@ == spec_pattern_error(
            patterns.deep_view()[first_invalid(patterns.deep_view())],
        ),
{
    let n = patterns.len();
    let mut i: usize = 0;
    while i < n
        invariant
            i <= n,
            n == patterns.len(),
            patterns.deep_view().len() == n,
            forall|j: int| 0 <= j < i ==> spec_valid_pattern(#[trigger] patterns.deep_view()[j]),
        decreases n - i,
    {
        proof {
            assert(patterns.deep_view()[i as int] == patterns[i as int]@);
        }
        match validate_wildcard_pattern(patterns[i].as_str()) {
            Ok(()) => (),
            Err(e) => {
                proof {
                    lemma_first_invalid_at(patterns.deep_view(), i as int);
                }
                return Err(e);
            },
        }
        i = i + 1;
    }
    Ok(())
}

/// Whether a mode list contains the spot's mode.
fn contains_mode(modes: &Vec<Mode>, spot: &CwSpot) -> (r: bool)
    ensures
        r == modes@.contains(spot.mode),
{
    let n = modes.len();
    let mut i: usize = 0;
    while i < n
        invariant
            i <= n,
            n == modes.len(),
            forall|j: int| 0 <= j < i ==> modes@[j] != spot.mode,
        decreases n - i,
    {
        if modes[i] == spot.mode {
            return true;
        }
        i = i + 1;
    }
    false
}

/// Whether a spot-type list contains the spot's type.
fn contains_spot_type(types: &Vec<SpotType>, spot: &CwSpot) -> (r: bool)
    ensures
        r == types@.contains(spot.spot_type),
{
    let n = types.len();
    let mut i: usize = 0;
    while i < n
        invariant
            i <= n,
            n == types.len(),
            forall|j: int| 0 <= j < i ==> types@[j] != spot.spot_type,
        decreases n - i,
    {
        if types[i] == spot.spot_type {
            return true;
        }
        i = i + 1;
    }
    false
}

/// Whether any filter in the list matches the spot (OR logic); an empty
/// list matches nothing.
pub open spec fn spec_any_filter_matches(fs: Seq<FilterView>, s: crate::spot::SpotView) -> bool {
    exists|i: int| 0 <= i < fs.len() && spec_filter_matches(fs[i], s)
}

/// Whether at least one of the given filters matches the spot. Returns
/// `false` on an empty list.
pub fn any_filter_matches(filters: &[SpotFilter], spot: &CwSpot) -> (r: bool)
    ensures
        r == spec_any_filter_matches(filters.deep_view(), spot@),
{
    let n = filters.len();
    let mut i: usize = 0;
    while i < n
        invariant
            i <= n,
            n == filters.len(),
            filters.deep_view().len() == n,
            forall|j: int| 0 <= j < i ==> !spec_filter_matches(filters.deep_view()[j], spot@),
        decreases n - i,
    {
        proof {
            assert(filters.deep_view()[i as int] == filters[i as int]@);
        }
        if filters[i].matches(spot) {
            return true;
        }
        i = i + 1;
    }
    false
}

impl Clone for SpotFilter {
    /// A clone carries exactly the same clauses.
    fn clone(&self) -> (r: Self)
        ensures
            r@ == self@,
    {
        SpotFilter {
            name: match &self.name {
                Some(s) => Some(s.clone()),
                None => None,
            },
            dx_call: match &self.dx_call {
                Some(p) => Some(p.clone()),
                None => None,
            },
            spotter: match &self.spotter {
                Some(p) => Some(p.clone()),
                None => None,
            },
            bands: match &self.bands {
                Some(b) => Some(clone_string_vec(b)),
                None => None,
            },
            modes: match &self.modes {
                Some(m) => Some(copy_vec(m)),
                None => None,
            },
            spot_types: match &self.spot_types {
                Some(t) => Some(copy_vec(t)),
                None => None,
            },
            min_snr: self.min_snr,
            max_snr: self.max_snr,
            min_wpm: self.min_wpm,
            max_wpm: self.max_wpm,
            max_kept_entries: self.max_kept_entries,
        }
    }
}

impl Default for SpotFilter {
    /// The default filter specifies nothing and so matches every spot.
    fn default() -> (r: Self)
        ensures
            r@.name is None,
            r@.dx_call is None,
            r@.spotter is None,
            r@.bands is None,
            r@.modes is None,
            r@.spot_types is None,
            r@.min_snr is None,
            r@.max_snr is None,
            r@.min_wpm is None,
            r@.max_wpm is None,
            r@.max_kept_entries is None,
    {
        SpotFilter {
            name: None,
            dx_call: None,
            spotter: None,
            bands: None,
            modes: None,
            spot_types: None,
            min_snr: None,
            max_snr: None,
            min_wpm: None,
            max_wpm: None,
            max_kept_entries: None,
        }
    }
}

} // verus!
