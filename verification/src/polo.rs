//! Ham2K PoLo callsign notes: file parsing and refresh bookkeeping.
//!
//! A notes file holds one callsign per line, with free-form notes after
//! it; `#` starts a comment line. Fetching the file over the network is
//! outside the library; the cache below holds the parsed callsigns and
//! decides when a refresh is due.

use vstd::prelude::*;

use crate::filter::clone_string_vec;
use crate::text::{ascii_upper, spec_is_ws, spec_trim, trim, upper_seq};

verus! {

/// Default refresh interval for PoLo notes, in seconds (30 minutes).
pub const DEFAULT_POLO_REFRESH_SECS: u64 = 1800;

/// Position of the first newline at or after `i`.
pub open spec fn scan_nl(s: Seq<char>, i: int) -> int
    decreases s.len() - i,
{
    if 0 <= i < s.len() && s[i] != '\n' {
        scan_nl(s, i + 1)
    } else {
        i
    }
}

/// The newline scan stays within the line and stops exactly at a newline.
pub proof fn lemma_scan_nl(s: Seq<char>, i: int)
    requires
        0 <= i <= s.len(),
    ensures
        i <= scan_nl(s, i) <= s.len(),
        forall|k: int| i <= k < scan_nl(s, i) ==> #[trigger] s[k] != '\n',
        scan_nl(s, i) < s.len() ==> s[scan_nl(s, i)] == '\n',
    decreases s.len() - i,
{
    if i < s.len() && s[i] != '\n' {
        lemma_scan_nl(s, i + 1);
    }
}

/// End of the leading non-whitespace run: where the first token of a
/// trimmed line ends.
pub open spec fn scan_nonws_end(s: Seq<char>, i: int) -> int
    decreases s.len() - i,
{
    if 0 <= i < s.len() && !spec_is_ws(s[i]) {
        scan_nonws_end(s, i + 1)
    } else {
        i
    }
}

/// The non-whitespace scan stays within the line.
pub proof fn lemma_scan_nonws(s: Seq<char>, i: int)
    requires
        0 <= i <= s.len(),
    ensures
        i <= scan_nonws_end(s, i) <= s.len(),
        forall|k: int| i <= k < scan_nonws_end(s, i) ==> !spec_is_ws(#[trigger] s[k]),
        scan_nonws_end(s, i) < s.len() ==> spec_is_ws(s[scan_nonws_end(s, i)]),
    decreases s.len() - i,
{
    if i < s.len() && !spec_is_ws(s[i]) {
        lemma_scan_nonws(s, i + 1);
    }
}

/// The callsigns extracted from the notes text from position `i` on: one
/// line at a time, skipping blank and comment lines, taking each line's
/// first whitespace-delimited token in ASCII uppercase.
pub open spec fn spec_polo_from(s: Seq<char>, i: int) -> Seq<Seq<char>>
    decreases s.len() - i,
    via spec_polo_from_dec
{
    if !(0 <= i < s.len()) {
        Seq::empty()
    } else {
        let e = scan_nl(s, i);
        let rest = if e < s.len() {
            spec_polo_from(s, e + 1)
        } else {
            Seq::empty()
        };
        let t = spec_trim(s.subrange(i, e));
        if t.len() == 0 || t[0] == '#' {
            rest
        } else {
            seq![upper_seq(t.subrange(0, scan_nonws_end(t, 0)))] + rest
        }
    }
}

#[via_fn]
proof fn spec_polo_from_dec(s: Seq<char>, i: int) {
    if 0 <= i < s.len() {
        lemma_scan_nl(s, i);
    }
}

/// What [`parse_polo_notes`] extracts from the whole text.
pub open spec fn spec_parse_polo_notes(s: Seq<char>) -> Seq<Seq<char>> {
    spec_polo_from(s, 0)
}

/// Parse a PoLo notes file into its callsigns: one per non-blank,
/// non-comment line, the line's first token, in ASCII uppercase.
#[verifier::loop_isolation(false)]
pub fn parse_polo_notes(content: &str) -> (r: Vec<String>)
    ensures
        r.deep_view() == spec_parse_polo_notes(content@),
{
    let len = content.unicode_len();
    let mut out: Vec<String> = Vec::new();
    let mut i: usize = 0;
    proof {
        assert(Seq::<Seq<char>>::empty() + spec_polo_from(content@, 0) =~= spec_polo_from(
            content@,
            0,
        ));
        assert(out.deep_view() =~= Seq::<Seq<char>>::empty());
    }
    while i < len
        invariant
            i <= len,
            len == content@.len(),
            spec_parse_polo_notes(content@) == out.deep_view() + spec_polo_from(
                content@,
                i as int,
            ),
        decreases len - i,
    {
        proof {
            lemma_scan_nl(content@, i as int);
        }
        let mut e: usize = i;
        while e < len && content.get_char(e) != '\n'
            invariant
                i <= e <= len,
                len == content@.len(),
                scan_nl(content@, i as int) == scan_nl(content@, e as int),
            decreases len - e,
        {
            e = e + 1;
        }
        let line = content.substring_char(i, e);
        let t = trim(line);
        let tlen = t.unicode_len();
        let keep = tlen > 0 && t.get_char(0) != '#';
        if keep {
            proof {
                lemma_scan_nonws(t@, 0);
            }
            let mut te: usize = 0;
            while te < tlen && !crate::text::is_ws(t.get_char(te))
                invariant
                    te <= tlen,
                    tlen == t@.len(),
                    scan_nonws_end(t@, 0) == scan_nonws_end(t@, te as int),
                decreases tlen - te,
            {
                te = te + 1;
            }
            let token = t.substring_char(0, te);
            let up = ascii_upper(token);
            let ghost opre = out.deep_view();
            out.push(up);
            proof {
                assert(out.deep_view() =~= opre.push(upper_seq(
                    t@.subrange(0, scan_nonws_end(t@, 0)),
                )));
                assert(out.deep_view() + spec_polo_from(content@, e + 1) =~= opre + (seq![
                    upper_seq(t@.subrange(0, scan_nonws_end(t@, 0))),
                ] + spec_polo_from(content@, e + 1)));
                if e >= len {
                    assert(out.deep_view() + Seq::<Seq<char>>::empty() =~= out.deep_view());
                    assert(opre + (seq![upper_seq(t@.subrange(0, scan_nonws_end(t@, 0)))]
                        + Seq::<Seq<char>>::empty()) =~= opre + seq![
                        upper_seq(t@.subrange(0, scan_nonws_end(t@, 0))),
                    ]);
                }
            }
        } else {
            proof {
                if e >= len {
                    assert(out.deep_view() + Seq::<Seq<char>>::empty() =~= out.deep_view());
                }
            }
        }
        if e < len {
            i = e + 1;
        } else {
            i = len;
            proof {
                assert(spec_polo_from(content@, len as int) =~= Seq::<Seq<char>>::empty());
                assert(out.deep_view() + Seq::<Seq<char>>::empty() =~= out.deep_view());
            }
        }
    }
    proof {
        assert(spec_polo_from(content@, len as int) =~= Seq::<Seq<char>>::empty());
        assert(out.deep_view() + Seq::<Seq<char>>::empty() =~= out.deep_view());
    }
    out
}

/// Cached callsigns from one PoLo notes source.
#[derive(Debug)]
pub struct PoloNotesCache {
    /// Cached callsigns, uppercase.
    callsigns: Vec<String>,
    /// Unix timestamp of the last successful fetch, `0` before the first.
    last_fetch: u64,
    /// Refresh interval in seconds; `0` means fetch once and keep.
    refresh_secs: u64,
}

/// The mathematical content of a [`PoloNotesCache`].
pub struct PoloCacheView {
    pub callsigns: Seq<Seq<char>>,
    pub last_fetch: u64,
    pub refresh_secs: u64,
}

impl View for PoloNotesCache {
    type V = PoloCacheView;

    closed spec fn view(&self) -> PoloCacheView {
        PoloCacheView {
            callsigns: self.callsigns.deep_view(),
            last_fetch: self.last_fetch,
            refresh_secs: self.refresh_secs,
        }
    }
}

/// Whether a cache with the given state needs a refresh at time `now`:
/// with no interval, only before the first fetch; otherwise once the
/// interval has passed since the last one.
pub open spec fn spec_needs_refresh_at(c: PoloCacheView, now: u64) -> bool {
    if c.refresh_secs == 0 {
        c.last_fetch == 0
    } else {
        now >= c.last_fetch + c.refresh_secs
    }
}

impl PoloNotesCache {
    /// An empty cache that has never been fetched.
    pub fn new(refresh_secs: u64) -> (r: PoloNotesCache)
        ensures
            r@.callsigns.len() == 0,
            r@.last_fetch == 0,
            r@.refresh_secs == refresh_secs,
    {
        let r = PoloNotesCache { callsigns: Vec::new(), last_fetch: 0, refresh_secs };
        proof {
            assert(r.callsigns.deep_view() =~= Seq::<Seq<char>>::empty());
        }
        r
    }

    /// The cached callsigns.
    pub fn get_callsigns(&self) -> (r: Vec<String>)
        ensures
            r.deep_view() == self@.callsigns,
    {
        clone_string_vec(&self.callsigns)
    }

    /// Replace the cached callsigns and stamp the fetch time from the
    /// system clock.
    pub fn set_callsigns(&mut self, callsigns: Vec<String>)
        ensures
            final(self)@.callsigns == callsigns.deep_view(),
            final(self)@.refresh_secs == old(self)@.refresh_secs,
    {
        self.callsigns = callsigns;
        self.last_fetch = crate::clock::now_unix_secs();
    }

    /// Whether a refresh is due at the given time.
    pub fn needs_refresh_at(&self, now: u64) -> (r: bool)
        ensures
            r == spec_needs_refresh_at(self@, now),
    {
        if self.refresh_secs == 0 {
            self.last_fetch == 0
        } else if self.last_fetch > u64::MAX - self.refresh_secs {
            false
        } else {
            now >= self.last_fetch + self.refresh_secs
        }
    }

    /// Whether a refresh is due now, by the system clock. The clock's
    /// reading is environment-dependent; with no refresh interval this
    /// still decides exactly: a refresh is due only before the first
    /// fetch.
    pub fn needs_refresh(&self) -> (r: bool)
        ensures
            self@.refresh_secs == 0 ==> r == (self@.last_fetch == 0),
    {
        let now = crate::clock::now_unix_secs();
        self.needs_refresh_at(now)
    }
}

} // verus!
