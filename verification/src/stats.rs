//! Running statistics over the spot stream.
//!
//! Counters for parsed spots, failures and bytes; fixed-range integer
//! histograms for spot size, SNR and WPM; tallies by band, mode, type and
//! spotter; and a snapshot summary with percentiles and the top ten
//! spotters. Everything is integer arithmetic; rates and means are left
//! to the presentation layer, which can divide.

use vstd::prelude::*;

use vstd::pervasive::VecAdditionalExecFns;

use crate::spot::{spec_json_size, CwSpot, Mode, SpotType};
use crate::text::str_eq;

verus! {

/// Sum of a sequence of counters.
pub open spec fn counts_sum(s: Seq<u64>) -> int
    decreases s.len(),
{
    if s.len() == 0 {
        0
    } else {
        counts_sum(s.drop_last()) + s.last()
    }
}

/// Cumulative count of values up to and including `v` (index 0 is
/// unused).
pub open spec fn counts_cum(s: Seq<u64>, v: int) -> int
    decreases v,
{
    if v <= 0 || s.len() == 0 {
        0
    } else if v >= s.len() {
        counts_cum(s, s.len() - 1)
    } else {
        counts_cum(s, v - 1) + s[v]
    }
}

/// A fixed-range counting histogram over the integer values `1..=high`.
///
/// The recorded ranges are small and fixed, so every value keeps its own
/// exact counter and percentiles come from cumulative counts — no
/// approximation is involved.
#[derive(Debug)]
pub struct Histogram {
    /// `counts[v]` is how many times `v` was recorded; index `0` is
    /// unused and stays zero.
    counts: Vec<u64>,
    /// Total number of recorded values.
    total: u64,
    /// Sum of all recorded values, for mean computation downstream.
    value_sum: u64,
}

/// The mathematical content of a [`Histogram`].
pub struct HistogramView {
    pub counts: Seq<u64>,
    pub total: u64,
    pub value_sum: u64,
}

impl View for Histogram {
    type V = HistogramView;

    closed spec fn view(&self) -> HistogramView {
        HistogramView { counts: self.counts@, total: self.total, value_sum: self.value_sum }
    }
}

impl HistogramView {
    /// The highest recordable value.
    pub open spec fn high(self) -> int {
        self.counts.len() - 1
    }

    /// The counters cover `1..=high`, index zero is unused, and the total
    /// is their sum.
    pub open spec fn wf(self) -> bool {
        &&& self.counts.len() >= 2
        &&& self.counts[0] == 0
        &&& self.total == counts_sum(self.counts)
    }

    /// The smallest recorded value; `0` when nothing was recorded.
    pub open spec fn spec_min_value(self) -> int {
        if self.total == 0 {
            0
        } else {
            choose|v: int|
                1 <= v <= self.high() && #[trigger] self.counts[v] > 0 && (forall|u: int|
                    1 <= u < v ==> self.counts[u] == 0)
        }
    }

    /// The largest recorded value; `0` when nothing was recorded.
    pub open spec fn spec_max_value(self) -> int {
        if self.total == 0 {
            0
        } else {
            choose|v: int|
                1 <= v <= self.high() && #[trigger] self.counts[v] > 0 && (forall|u: int|
                    v < u <= self.high() ==> self.counts[u] == 0)
        }
    }

    /// The smallest value whose cumulative count reaches `pct` percent of
    /// the total; `0` when nothing was recorded.
    pub open spec fn spec_value_at_percentile(self, pct: int) -> int {
        if self.total == 0 {
            0
        } else {
            choose|v: int|
                1 <= v <= self.high() && #[trigger] counts_cum(self.counts, v) * 100 >= pct
                    * self.total && (counts_cum(self.counts, v - 1) * 100 < pct * self.total)
        }
    }
}

/// Each counter is bounded by the sum of all of them.
proof fn lemma_count_le_sum(s: Seq<u64>, i: int)
    requires
        0 <= i < s.len(),
    ensures
        s[i] <= counts_sum(s),
        counts_sum(s) >= 0,
    decreases s.len(),
{
    if s.len() > 0 {
        if i < s.len() - 1 {
            lemma_count_le_sum(s.drop_last(), i);
        } else if s.len() >= 2 {
            lemma_count_le_sum(s.drop_last(), 0);
        }
    }
}

/// The sum of all counters is non-negative.
proof fn lemma_sum_nonneg(s: Seq<u64>)
    ensures
        counts_sum(s) >= 0,
    decreases s.len(),
{
    if s.len() > 0 {
        lemma_sum_nonneg(s.drop_last());
    }
}

/// Updating one counter changes the sum by the difference.
proof fn lemma_sum_update(s: Seq<u64>, i: int, v: u64)
    requires
        0 <= i < s.len(),
    ensures
        counts_sum(s.update(i, v)) == counts_sum(s) - s[i] + v,
    decreases s.len(),
{
    let up = s.update(i, v);
    if i == s.len() - 1 {
        assert(up.drop_last() =~= s.drop_last());
    } else {
        assert(up.drop_last() =~= s.drop_last().update(i, v));
        lemma_sum_update(s.drop_last(), i, v);
    }
}

/// The cumulative count is monotone in `v` and bounded by the total.
proof fn lemma_cum_props(s: Seq<u64>, v: int)
    requires
        s.len() >= 1,
        0 <= v,
    ensures
        0 <= counts_cum(s, v),
        v >= s.len() - 1 ==> counts_cum(s, v) == counts_cum(s, s.len() - 1),
    decreases v,
{
    if v > 0 {
        lemma_cum_props(s, v - 1);
    }
}

/// The full cumulative count equals the sum when index zero holds
/// nothing.
proof fn lemma_cum_total(s: Seq<u64>)
    requires
        s.len() >= 1,
        s[0] == 0,
    ensures
        counts_cum(s, s.len() - 1) == counts_sum(s),
    decreases s.len(),
{
    if s.len() == 1 {
        assert(s.last() == s[0]);
        assert(s.drop_last().len() == 0);
        assert(counts_sum(s.drop_last()) == 0);
    } else {
        let dl = s.drop_last();
        assert(dl[0] == s[0]);
        lemma_cum_total(dl);
        lemma_cum_eq_prefix(s, dl, dl.len() - 1);
        assert(counts_cum(s, s.len() - 1) == counts_cum(s, s.len() - 2) + s[s.len() - 1]);
        assert(counts_cum(s, s.len() - 2) == counts_cum(dl, dl.len() - 1));
        assert(counts_sum(s) == counts_sum(dl) + s[s.len() - 1]);
    }
}

/// Cumulative counts agree on a common prefix.
proof fn lemma_cum_eq_prefix(a: Seq<u64>, b: Seq<u64>, v: int)
    requires
        b.len() <= a.len(),
        forall|i: int| 0 <= i < b.len() ==> a[i] == b[i],
        v < b.len(),
    ensures
        counts_cum(a, v) == counts_cum(b, v),
    decreases v,
{
    if v > 0 {
        lemma_cum_eq_prefix(a, b, v - 1);
    }
}

impl Histogram {
    /// An empty histogram over `1..=high`.
    pub fn new(high: u64) -> (r: Histogram)
        requires
            1 <= high <= 100000,
        ensures
            r@.wf(),
            r@.high() == high,
            r@.total == 0,
            r@.value_sum == 0,
            forall|v: int| 0 <= v < r@.counts.len() ==> r@.counts[v] == 0,
    {
        let mut counts: Vec<u64> = Vec::new();
        let n = high + 1;
        let mut i: u64 = 0;
        while i < n
            invariant
                i <= n,
                n == high + 1,
                counts.len() == i,
                forall|v: int| 0 <= v < i ==> counts@[v] == 0,
            decreases n - i,
        {
            counts.push(0);
            i = i + 1;
        }
        let r = Histogram { counts, total: 0, value_sum: 0 };
        proof {
            lemma_zero_sum(r.counts@);
        }
        r
    }

    /// Record one value.
    pub fn record(&mut self, v: u64)
        requires
            old(self)@.wf(),
            1 <= v <= old(self)@.high(),
            old(self)@.total < u64::MAX,
            old(self)@.value_sum + v <= u64::MAX,
        ensures
            final(self)@.wf(),
            final(self)@.counts == old(self)@.counts.update(v as int, (old(self)@.counts[
                v as int
            ] + 1) as u64),
            final(self)@.total == old(self)@.total + 1,
            final(self)@.value_sum == old(self)@.value_sum + v,
            final(self)@.high() == old(self)@.high(),
    {
        proof {
            lemma_count_le_sum(self.counts@, v as int);
            assert(self@.total == counts_sum(self.counts@));
            assert(self.counts@[v as int] < u64::MAX);
            lemma_sum_update(self.counts@, v as int, (self.counts@[v as int] + 1) as u64);
        }
        let n = self.counts.len();
        proof {
            assert(self.counts@.len() == n);
            assert(v < n);
        }
        let idx = v as usize;
        proof {
            assert(idx == v as int);
        }
        let c = self.counts[idx];
        self.counts.set(idx, c + 1);
        self.total = self.total + 1;
        self.value_sum = self.value_sum + v;
    }

    /// Total number of recorded values.
    pub fn total(&self) -> (r: u64)
        ensures
            r == self@.total,
    {
        self.total
    }

    /// Sum of all recorded values.
    pub fn value_sum(&self) -> (r: u64)
        ensures
            r == self@.value_sum,
    {
        self.value_sum
    }

    /// The smallest value whose cumulative count reaches `pct` percent of
    /// the total, or `0` when nothing was recorded.
    pub fn value_at_percentile(&self, pct: u64) -> (r: u64)
        requires
            self@.wf(),
            self@.total <= 0x1_0000_0000_0000,
            1 <= pct <= 100,
        ensures
            r == self@.spec_value_at_percentile(pct as int),
            r <= self@.high(),
    {
        if self.total == 0 {
            return 0;
        }
        let n = self.counts.len();
        let mut acc: u64 = 0;
        let mut v: usize = 1;
        proof {
            lemma_sum_nonneg(self.counts@);
            lemma_cum_total(self.counts@);
            assert(pct * self@.total >= 1) by (nonlinear_arith)
                requires
                    pct >= 1,
                    self@.total >= 1,
            ;
            assert(pct * self@.total <= 100 * 0x1_0000_0000_0000) by (nonlinear_arith)
                requires
                    pct <= 100,
                    self@.total <= 0x1_0000_0000_0000,
            ;
        }
        let threshold = pct * self.total;
        while v < n - 1
            invariant
                1 <= v <= n - 1,
                n == self.counts@.len(),
                n >= 2,
                self@.wf(),
                self@.total > 0,
                1 <= pct <= 100,
                acc == counts_cum(self.counts@, v - 1),
                acc <= self@.total,
                self@.total <= 0x1_0000_0000_0000,
                threshold == pct * self@.total,
                threshold <= 100 * 0x1_0000_0000_0000,
                counts_cum(self.counts@, v - 1) * 100 < pct * self@.total,
            decreases n - v,
        {
            proof {
                lemma_count_le_sum(self.counts@, v as int);
                lemma_cum_le_total(self.counts@, v as int);
            }
            let c = self.counts[v];
            if (acc + c) * 100 >= threshold {
                proof {
                    witness_percentile(self@, pct as int, v as int);
                }
                return v as u64;
            }
            acc = acc + c;
            v = v + 1;
        }
        proof {
            lemma_count_le_sum(self.counts@, n - 1);
            lemma_cum_le_total(self.counts@, n - 1);
            assert(counts_cum(self.counts@, n - 1) == self@.total);
            assert(self@.total * 100 >= pct * self@.total) by (nonlinear_arith)
                requires
                    pct <= 100,
                    self@.total >= 0,
            ;
            witness_percentile(self@, pct as int, n - 1);
        }
        (n - 1) as u64
    }

    /// The smallest recorded value, or `0` when nothing was recorded.
    pub fn min_value(&self) -> (r: u64)
        requires
            self@.wf(),
        ensures
            r == self@.spec_min_value(),
            r <= self@.high(),
    {
        let n = self.counts.len();
        let mut v: usize = 1;
        while v < n
            invariant
                self@.wf(),
                1 <= v <= n,
                n == self.counts@.len(),
                forall|u: int| 1 <= u < v ==> self@.counts[u] == 0,
            decreases n - v,
        {
            if self.counts[v] > 0 {
                proof {
                    lemma_count_le_sum(self.counts@, v as int);
                    assert(self@.total == counts_sum(self.counts@));
                    assert(self@.total > 0);
                    witness_min(self@, v as int);
                }
                return v as u64;
            }
            v = v + 1;
        }
        proof {
            lemma_zero_sum(self.counts@);
            assert(self@.total == 0);
        }
        0
    }

    /// The largest recorded value, or `0` when nothing was recorded.
    pub fn max_value(&self) -> (r: u64)
        requires
            self@.wf(),
        ensures
            r == self@.spec_max_value(),
            r <= self@.high(),
    {
        let n = self.counts.len();
        let mut v: usize = n - 1;
        while v >= 1
            invariant
                self@.wf(),
                0 <= v <= n - 1,
                n == self.counts@.len(),
                forall|u: int| v < u < n ==> self@.counts[u] == 0,
            decreases v,
        {
            if self.counts[v] > 0 {
                proof {
                    lemma_count_le_sum(self.counts@, v as int);
                    assert(self@.total == counts_sum(self.counts@));
                    witness_max(self@, v as int);
                }
                return v as u64;
            }
            v = v - 1;
        }
        proof {
            lemma_zero_sum(self.counts@);
            assert(self@.total == 0);
        }
        0
    }
}

/// A sequence of zeros sums to zero.
proof fn lemma_zero_sum(s: Seq<u64>)
    requires
        forall|v: int| 0 <= v < s.len() ==> s[v] == 0,
    ensures
        counts_sum(s) == 0,
    decreases s.len(),
{
    if s.len() > 0 {
        assert(forall|v: int| 0 <= v < s.len() - 1 ==> s.drop_last()[v] == 0);
        lemma_zero_sum(s.drop_last());
    }
}

/// The cumulative count never exceeds the full sum.
proof fn lemma_cum_le_total(s: Seq<u64>, v: int)
    requires
        s.len() >= 1,
        s[0] == 0,
        0 <= v < s.len(),
    ensures
        counts_cum(s, v) <= counts_sum(s),
        counts_cum(s, v) >= 0,
    decreases s.len() - v,
{
    if v < s.len() - 1 {
        lemma_cum_le_total(s, v + 1);
        lemma_cum_props(s, v);
    } else {
        lemma_cum_total(s);
        lemma_cum_props(s, v);
    }
}

/// When the cumulative count first reaches the percentile threshold at
/// `v`, `v` is the percentile value.
proof fn witness_percentile(h: HistogramView, pct: int, v: int)
    requires
        h.wf(),
        h.total > 0,
        1 <= v <= h.high(),
        counts_cum(h.counts, v) * 100 >= pct * h.total,
        counts_cum(h.counts, v - 1) * 100 < pct * h.total,
    ensures
        h.spec_value_at_percentile(pct) == v,
{
    let chosen = choose|u: int|
        1 <= u <= h.high() && #[trigger] counts_cum(h.counts, u) * 100 >= pct * h.total && (
        counts_cum(h.counts, u - 1) * 100 < pct * h.total);
    assert(1 <= v <= h.high() && counts_cum(h.counts, v) * 100 >= pct * h.total && (counts_cum(
        h.counts,
        v - 1,
    ) * 100 < pct * h.total));
    if chosen != v {
        if chosen < v {
            lemma_cum_mono(h.counts, chosen, v - 1);
        } else {
            lemma_cum_mono(h.counts, v, chosen - 1);
        }
    }
}

/// The first positive counter is the minimum recorded value.
proof fn witness_min(h: HistogramView, v: int)
    requires
        h.wf(),
        h.total > 0,
        1 <= v <= h.high(),
        h.counts[v] > 0,
        forall|u: int| 1 <= u < v ==> h.counts[u] == 0,
    ensures
        h.spec_min_value() == v,
{
    let chosen = choose|u: int|
        1 <= u <= h.high() && #[trigger] h.counts[u] > 0 && (forall|w: int|
            1 <= w < u ==> h.counts[w] == 0);
    assert(1 <= v <= h.high() && h.counts[v] > 0 && (forall|w: int|
        1 <= w < v ==> h.counts[w] == 0));
    if chosen < v {
        assert(h.counts[chosen] == 0);
    } else if chosen > v {
        assert(h.counts[v] == 0);
    }
}

/// The last positive counter is the maximum recorded value.
proof fn witness_max(h: HistogramView, v: int)
    requires
        h.wf(),
        h.total > 0,
        1 <= v <= h.high(),
        h.counts[v] > 0,
        forall|u: int| v < u <= h.high() ==> h.counts[u] == 0,
    ensures
        h.spec_max_value() == v,
{
    let chosen = choose|u: int|
        1 <= u <= h.high() && #[trigger] h.counts[u] > 0 && (forall|w: int|
            u < w <= h.high() ==> h.counts[w] == 0);
    assert(1 <= v <= h.high() && h.counts[v] > 0 && (forall|w: int|
        v < w <= h.high() ==> h.counts[w] == 0));
    if chosen < v {
        assert(h.counts[v] == 0);
    } else if chosen > v {
        assert(h.counts[chosen] == 0);
    }
}

/// Cumulative counts are monotone.
proof fn lemma_cum_mono(s: Seq<u64>, a: int, b: int)
    requires
        0 <= a <= b,
    ensures
        counts_cum(s, a) <= counts_cum(s, b),
    decreases b - a,
{
    if a < b {
        lemma_cum_mono(s, a, b - 1);
        if b < s.len() {
        }
    }
}

} // verus!

verus! {

/// Whether a key occurs in a sequence of keys.
pub open spec fn key_present(keys: Seq<Seq<char>>, k: Seq<char>) -> bool {
    exists|i: int| 0 <= i < keys.len() && keys[i] == k
}

/// A tally keyed by strings, in first-seen order.
#[derive(Debug)]
pub struct StringTally {
    keys: Vec<String>,
    counts: Vec<u64>,
}

/// The mathematical content of a [`StringTally`].
pub struct StringTallyView {
    pub keys: Seq<Seq<char>>,
    pub counts: Seq<u64>,
}

impl View for StringTally {
    type V = StringTallyView;

    closed spec fn view(&self) -> StringTallyView {
        StringTallyView { keys: self.keys.deep_view(), counts: self.counts@ }
    }
}

impl StringTallyView {
    /// Keys and counts pair up and keys are unique.
    pub open spec fn wf(self) -> bool {
        &&& self.keys.len() == self.counts.len()
        &&& forall|i: int, j: int| 0 <= i < j < self.keys.len() ==> self.keys[i] != self.keys[j]
    }
}

impl StringTally {
    /// An empty tally.
    pub fn new() -> (r: StringTally)
        ensures
            r@.wf(),
            r@.keys.len() == 0,
    {
        let r = StringTally { keys: Vec::new(), counts: Vec::new() };
        proof {
            assert(r.keys.deep_view() =~= Seq::<Seq<char>>::empty());
        }
        r
    }

    /// Number of distinct keys.
    pub fn len(&self) -> (r: usize)
        requires
            self@.wf(),
        ensures
            r == self@.keys.len(),
    {
        self.keys.len()
    }

    /// The key at an index.
    pub fn key_at(&self, i: usize) -> (r: &String)
        requires
            self@.wf(),
            i < self@.keys.len(),
        ensures
            r@ == self@.keys[i as int],
    {
        proof {
            assert(self.keys.deep_view()[i as int] == self.keys[i as int]@);
        }
        &self.keys[i]
    }

    /// The count at an index.
    pub fn count_at(&self, i: usize) -> (r: u64)
        requires
            self@.wf(),
            i < self@.keys.len(),
        ensures
            r == self@.counts[i as int],
    {
        self.counts[i]
    }

    /// Count one occurrence of `key`: an existing entry is incremented,
    /// a new key is appended with count one.
    pub fn bump(&mut self, key: &str)
        requires
            old(self)@.wf(),
            forall|i: int| 0 <= i < old(self)@.counts.len() ==> old(self)@.counts[i] < u64::MAX,
        ensures
            final(self)@.wf(),
            string_tally_bumped(old(self)@, final(self)@, key@),
            forall|i: int|
                0 <= i < final(self)@.counts.len() ==> final(self)@.counts[i]
                    <= count_after_bump_bound(old(self)@.counts, i),
    {
        let n = self.keys.len();
        let mut i: usize = 0;
        while i < n
            invariant
                i <= n,
                n == self.keys.len(),
                n == self.counts.len(),
                self@.wf(),
                self@ == old(self)@,
                forall|j: int| 0 <= j < old(self)@.counts.len() ==> old(self)@.counts[j]
                    < u64::MAX,
                forall|j: int| 0 <= j < i ==> self@.keys[j] != key@,
            decreases n - i,
        {
            proof {
                assert(self.keys.deep_view()[i as int] == self.keys[i as int]@);
            }
            if str_eq(self.keys[i].as_str(), key) {
                let c = self.counts[i];
                self.counts.set(i, c + 1);
                proof {
                    assert(key_present(old(self)@.keys, key@));
                }
                return;
            }
            i = i + 1;
        }
        proof {
            if key_present(old(self)@.keys, key@) {
                let w = choose|j: int|
                    0 <= j < old(self)@.keys.len() && old(self)@.keys[j] == key@;
                assert(false);
            }
        }
        let ghost kpre = self.keys.deep_view();
        self.keys.push(String::from_str(key));
        self.counts.push(1);
        proof {
            assert(self.keys.deep_view() =~= kpre.push(key@));
        }
    }
}

/// How a string tally changes when one occurrence of `k` is counted: an
/// existing entry's count rises by one, a fresh key is appended with
/// count one.
pub open spec fn string_tally_bumped(o: StringTallyView, n: StringTallyView, k: Seq<char>) -> bool {
    if key_present(o.keys, k) {
        n.keys == o.keys && exists|i: int|
            0 <= i < o.keys.len() && o.keys[i] == k && n.counts == o.counts.update(
                i,
                (o.counts[i] + 1) as u64,
            )
    } else {
        n.keys == o.keys.push(k) && n.counts == o.counts.push(1)
    }
}

/// How a mode tally changes when one occurrence of `k` is counted.
pub open spec fn mode_tally_bumped(o: ModeTallyView, n: ModeTallyView, k: Mode) -> bool {
    if o.keys.contains(k) {
        n.keys == o.keys && exists|i: int|
            0 <= i < o.keys.len() && o.keys[i] == k && n.counts == o.counts.update(
                i,
                (o.counts[i] + 1) as u64,
            )
    } else {
        n.keys == o.keys.push(k) && n.counts == o.counts.push(1)
    }
}

/// How a spot-type tally changes when one occurrence of `k` is counted.
pub open spec fn type_tally_bumped(o: TypeTallyView, n: TypeTallyView, k: SpotType) -> bool {
    if o.keys.contains(k) {
        n.keys == o.keys && exists|i: int|
            0 <= i < o.keys.len() && o.keys[i] == k && n.counts == o.counts.update(
                i,
                (o.counts[i] + 1) as u64,
            )
    } else {
        n.keys == o.keys.push(k) && n.counts == o.counts.push(1)
    }
}

/// After a bump, the count at `i` is at most one more than the count that
/// stood there (or one, for a fresh key): the bound callers use to keep
/// counts within range.
pub open spec fn count_after_bump_bound(old_counts: Seq<u64>, i: int) -> int {
    if 0 <= i < old_counts.len() {
        old_counts[i] + 1
    } else {
        1
    }
}

/// A tally keyed by modes.
#[derive(Debug)]
pub struct ModeTally {
    keys: Vec<Mode>,
    counts: Vec<u64>,
}

/// The mathematical content of a [`ModeTally`].
pub struct ModeTallyView {
    pub keys: Seq<Mode>,
    pub counts: Seq<u64>,
}

impl View for ModeTally {
    type V = ModeTallyView;

    closed spec fn view(&self) -> ModeTallyView {
        ModeTallyView { keys: self.keys@, counts: self.counts@ }
    }
}

impl ModeTallyView {
    /// Keys and counts pair up and keys are unique.
    pub open spec fn wf(self) -> bool {
        &&& self.keys.len() == self.counts.len()
        &&& forall|i: int, j: int| 0 <= i < j < self.keys.len() ==> self.keys[i] != self.keys[j]
    }
}

impl ModeTally {
    /// An empty tally.
    pub fn new() -> (r: ModeTally)
        ensures
            r@.wf(),
            r@.keys.len() == 0,
    {
        ModeTally { keys: Vec::new(), counts: Vec::new() }
    }

    /// Number of distinct keys.
    pub fn len(&self) -> (r: usize)
        requires
            self@.wf(),
        ensures
            r == self@.keys.len(),
    {
        self.keys.len()
    }

    /// The key at an index.
    pub fn key_at(&self, i: usize) -> (r: Mode)
        requires
            self@.wf(),
            i < self@.keys.len(),
        ensures
            r == self@.keys[i as int],
    {
        self.keys[i]
    }

    /// The count at an index.
    pub fn count_at(&self, i: usize) -> (r: u64)
        requires
            self@.wf(),
            i < self@.keys.len(),
        ensures
            r == self@.counts[i as int],
    {
        self.counts[i]
    }

    /// Count one occurrence of `key`.
    pub fn bump(&mut self, key: Mode)
        requires
            old(self)@.wf(),
            forall|i: int| 0 <= i < old(self)@.counts.len() ==> old(self)@.counts[i] < u64::MAX,
        ensures
            final(self)@.wf(),
            mode_tally_bumped(old(self)@, final(self)@, key),
            forall|i: int|
                0 <= i < final(self)@.counts.len() ==> final(self)@.counts[i]
                    <= count_after_bump_bound(old(self)@.counts, i),
    {
        let n = self.keys.len();
        let mut i: usize = 0;
        while i < n
            invariant
                i <= n,
                n == self.keys.len(),
                n == self.counts.len(),
                self@.wf(),
                self@ == old(self)@,
                forall|j: int| 0 <= j < old(self)@.counts.len() ==> old(self)@.counts[j]
                    < u64::MAX,
                forall|j: int| 0 <= j < i ==> self@.keys[j] != key,
            decreases n - i,
        {
            if self.keys[i] == key {
                let c = self.counts[i];
                self.counts.set(i, c + 1);
                return;
            }
            i = i + 1;
        }
        self.keys.push(key);
        self.counts.push(1);
    }
}

/// A tally keyed by spot types.
#[derive(Debug)]
pub struct TypeTally {
    keys: Vec<SpotType>,
    counts: Vec<u64>,
}

/// The mathematical content of a [`TypeTally`].
pub struct TypeTallyView {
    pub keys: Seq<SpotType>,
    pub counts: Seq<u64>,
}

impl View for TypeTally {
    type V = TypeTallyView;

    closed spec fn view(&self) -> TypeTallyView {
        TypeTallyView { keys: self.keys@, counts: self.counts@ }
    }
}

impl TypeTallyView {
    /// Keys and counts pair up and keys are unique.
    pub open spec fn wf(self) -> bool {
        &&& self.keys.len() == self.counts.len()
        &&& forall|i: int, j: int| 0 <= i < j < self.keys.len() ==> self.keys[i] != self.keys[j]
    }
}

impl TypeTally {
    /// An empty tally.
    pub fn new() -> (r: TypeTally)
        ensures
            r@.wf(),
            r@.keys.len() == 0,
    {
        TypeTally { keys: Vec::new(), counts: Vec::new() }
    }

    /// Number of distinct keys.
    pub fn len(&self) -> (r: usize)
        requires
            self@.wf(),
        ensures
            r == self@.keys.len(),
    {
        self.keys.len()
    }

    /// The key at an index.
    pub fn key_at(&self, i: usize) -> (r: SpotType)
        requires
            self@.wf(),
            i < self@.keys.len(),
        ensures
            r == self@.keys[i as int],
    {
        self.keys[i]
    }

    /// The count at an index.
    pub fn count_at(&self, i: usize) -> (r: u64)
        requires
            self@.wf(),
            i < self@.keys.len(),
        ensures
            r == self@.counts[i as int],
    {
        self.counts[i]
    }

    /// Count one occurrence of `key`.
    pub fn bump(&mut self, key: SpotType)
        requires
            old(self)@.wf(),
            forall|i: int| 0 <= i < old(self)@.counts.len() ==> old(self)@.counts[i] < u64::MAX,
        ensures
            final(self)@.wf(),
            type_tally_bumped(old(self)@, final(self)@, key),
            forall|i: int|
                0 <= i < final(self)@.counts.len() ==> final(self)@.counts[i]
                    <= count_after_bump_bound(old(self)@.counts, i),
    {
        let n = self.keys.len();
        let mut i: usize = 0;
        while i < n
            invariant
                i <= n,
                n == self.keys.len(),
                n == self.counts.len(),
                self@.wf(),
                self@ == old(self)@,
                forall|j: int| 0 <= j < old(self)@.counts.len() ==> old(self)@.counts[j]
                    < u64::MAX,
                forall|j: int| 0 <= j < i ==> self@.keys[j] != key,
            decreases n - i,
        {
            if self.keys[i] == key {
                let c = self.counts[i];
                self.counts.set(i, c + 1);
                return;
            }
            i = i + 1;
        }
        self.keys.push(key);
        self.counts.push(1);
    }
}

} // verus!

verus! {

/// Percentile triple plus extremes, count and value sum of one histogram
/// snapshot. The mean is `sum / count`, left to the caller since it is
/// not an integer.
#[derive(Debug, Clone, Copy)]
pub struct HistogramPercentiles {
    pub p50: u64,
    pub p90: u64,
    pub p99: u64,
    pub min: u64,
    pub max: u64,
    pub count: u64,
    pub sum: u64,
}

/// A consistent snapshot of the collected statistics.
#[derive(Debug)]
pub struct StatsSummary {
    /// Seconds since the collector was created.
    pub elapsed_secs: u64,
    pub total_spots: u64,
    pub cw_spots: u64,
    pub parse_failures: u64,
    pub non_spot_lines: u64,
    pub bytes_processed: u64,
    /// Size distribution in bytes.
    pub size_percentiles: Option<HistogramPercentiles>,
    /// SNR distribution in dB (shifted back from the recording offset).
    pub snr_percentiles: Option<HistogramPercentiles>,
    /// WPM distribution.
    pub wpm_percentiles: Option<HistogramPercentiles>,
    /// Spots per band label, in first-seen order.
    pub spots_by_band: Vec<(String, u64)>,
    /// Spots per mode label, in first-seen order.
    pub spots_by_mode: Vec<(String, u64)>,
    /// Spots per spot-type label, in first-seen order.
    pub spots_by_type: Vec<(String, u64)>,
    /// The ten most seen spotters: count descending, ties by name.
    pub top_spotters: Vec<(String, u64)>,
}

/// Bound on how many spots one collector can count; keeps every derived
/// sum inside `u64`.
pub const STATS_MAX_SPOTS: u64 = 0x1_0000_0000_0000;

/// Statistics collector for the spot stream.
#[derive(Debug)]
pub struct SpotStats {
    total_spots: u64,
    cw_spots: u64,
    parse_failures: u64,
    non_spot_lines: u64,
    bytes_processed: u64,
    size_hist: Histogram,
    snr_hist: Histogram,
    wpm_hist: Histogram,
    by_band: StringTally,
    by_mode: ModeTally,
    by_type: TypeTally,
    spotters: StringTally,
    start_unix: u64,
}

/// The mathematical content of a [`SpotStats`].
pub struct StatsView {
    pub total_spots: u64,
    pub start_unix: u64,
    pub cw_spots: u64,
    pub parse_failures: u64,
    pub non_spot_lines: u64,
    pub bytes_processed: u64,
    pub size_hist: HistogramView,
    pub snr_hist: HistogramView,
    pub wpm_hist: HistogramView,
    pub by_band: StringTallyView,
    pub by_mode: ModeTallyView,
    pub by_type: TypeTallyView,
    pub spotters: StringTallyView,
}

impl View for SpotStats {
    type V = StatsView;

    closed spec fn view(&self) -> StatsView {
        StatsView {
            total_spots: self.total_spots,
            start_unix: self.start_unix,
            cw_spots: self.cw_spots,
            parse_failures: self.parse_failures,
            non_spot_lines: self.non_spot_lines,
            bytes_processed: self.bytes_processed,
            size_hist: self.size_hist@,
            snr_hist: self.snr_hist@,
            wpm_hist: self.wpm_hist@,
            by_band: self.by_band@,
            by_mode: self.by_mode@,
            by_type: self.by_type@,
            spotters: self.spotters@,
        }
    }
}

impl StatsView {
    /// The collector's invariant: histograms are well-formed with their
    /// fixed ranges, tallies are well-formed, and every count is bounded
    /// by the number of spots seen, which itself stays within
    /// [`STATS_MAX_SPOTS`].
    pub open spec fn wf(self) -> bool {
        &&& self.total_spots <= STATS_MAX_SPOTS
        &&& self.cw_spots <= self.total_spots
        &&& self.size_hist.wf() && self.size_hist.high() == 10000
        &&& self.snr_hist.wf() && self.snr_hist.high() == 99
        &&& self.wpm_hist.wf() && self.wpm_hist.high() == 99
        &&& self.size_hist.total <= self.total_spots
        &&& self.snr_hist.total <= self.total_spots
        &&& self.wpm_hist.total <= self.total_spots
        &&& self.size_hist.value_sum <= 10000 * self.size_hist.total
        &&& self.snr_hist.value_sum <= 99 * self.snr_hist.total
        &&& self.wpm_hist.value_sum <= 99 * self.wpm_hist.total
        &&& self.by_band.wf()
        &&& self.by_mode.wf()
        &&& self.by_type.wf()
        &&& self.spotters.wf()
        &&& forall|i: int|
            0 <= i < self.by_band.counts.len() ==> #[trigger] self.by_band.counts[i]
                <= self.total_spots
        &&& forall|i: int|
            0 <= i < self.by_mode.counts.len() ==> #[trigger] self.by_mode.counts[i]
                <= self.total_spots
        &&& forall|i: int|
            0 <= i < self.by_type.counts.len() ==> #[trigger] self.by_type.counts[i]
                <= self.total_spots
        &&& forall|i: int|
            0 <= i < self.spotters.counts.len() ==> #[trigger] self.spotters.counts[i]
                <= self.total_spots
    }
}

/// The SNR value a spot records into the offset histogram: shifted by
/// +30 into the positive range and clamped to `1..=99`.
pub open spec fn spec_snr_offset(snr: int) -> int {
    if snr + 30 < 1 {
        1
    } else if snr + 30 > 99 {
        99
    } else {
        snr + 30
    }
}

/// The WPM value a spot records: clamped to `1..=99`.
pub open spec fn spec_wpm_clamped(wpm: int) -> int {
    if wpm < 1 {
        1
    } else if wpm > 99 {
        99
    } else {
        wpm
    }
}

impl SpotStats {
    /// A fresh collector: all counters zero, histograms empty, start time
    /// taken from the system clock.
    pub fn new() -> (r: SpotStats)
        ensures
            r@.wf(),
            r@.total_spots == 0,
            r@.cw_spots == 0,
            r@.parse_failures == 0,
            r@.non_spot_lines == 0,
            r@.bytes_processed == 0,
            r@.by_band.keys.len() == 0,
            r@.by_mode.keys.len() == 0,
            r@.by_type.keys.len() == 0,
            r@.spotters.keys.len() == 0,
            r@.size_hist.total == 0,
            r@.snr_hist.total == 0,
            r@.wpm_hist.total == 0,
    {
        SpotStats {
            total_spots: 0,
            cw_spots: 0,
            parse_failures: 0,
            non_spot_lines: 0,
            bytes_processed: 0,
            size_hist: Histogram::new(10000),
            snr_hist: Histogram::new(99),
            wpm_hist: Histogram::new(99),
            by_band: StringTally::new(),
            by_mode: ModeTally::new(),
            by_type: TypeTally::new(),
            spotters: StringTally::new(),
            start_unix: crate::clock::now_unix_secs(),
        }
    }

    /// Record one successfully parsed spot: totals, the CW counter, the
    /// three histograms (size if within range, SNR shifted and clamped,
    /// WPM clamped) and the four tallies.
    pub fn record_spot(&mut self, spot: &CwSpot)
        requires
            old(self)@.wf(),
            spot@.wf(),
            old(self)@.total_spots < STATS_MAX_SPOTS,
        ensures
            final(self)@.wf(),
            final(self)@.total_spots == old(self)@.total_spots + 1,
            final(self)@.cw_spots == old(self)@.cw_spots + (if spot@.mode == Mode::Cw {
                1int
            } else {
                0int
            }),
            final(self)@.parse_failures == old(self)@.parse_failures,
            final(self)@.non_spot_lines == old(self)@.non_spot_lines,
            final(self)@.bytes_processed == old(self)@.bytes_processed,
            final(self)@.snr_hist.total == old(self)@.snr_hist.total + 1,
            final(self)@.wpm_hist.total == old(self)@.wpm_hist.total + 1,
            spec_json_size(spot@) <= 10000 ==> final(self)@.size_hist.counts == old(self)@.size_hist.counts.update(
                spec_json_size(spot@) as int,
                (old(self)@.size_hist.counts[spec_json_size(spot@) as int] + 1) as u64,
            ) && final(self)@.size_hist.total == old(self)@.size_hist.total + 1 && final(self)@.size_hist.value_sum == old(self)@.size_hist.value_sum + spec_json_size(spot@),
            spec_json_size(spot@) > 10000 ==> final(self)@.size_hist == old(self)@.size_hist,
            final(self)@.snr_hist.counts == old(self)@.snr_hist.counts.update(
                spec_snr_offset(spot@.snr_db as int),
                (old(self)@.snr_hist.counts[spec_snr_offset(spot@.snr_db as int)] + 1) as u64,
            ),
            final(self)@.snr_hist.value_sum == old(self)@.snr_hist.value_sum + spec_snr_offset(
                spot@.snr_db as int,
            ),
            final(self)@.wpm_hist.counts == old(self)@.wpm_hist.counts.update(
                spec_wpm_clamped(spot@.wpm as int),
                (old(self)@.wpm_hist.counts[spec_wpm_clamped(spot@.wpm as int)] + 1) as u64,
            ),
            final(self)@.wpm_hist.value_sum == old(self)@.wpm_hist.value_sum + spec_wpm_clamped(
                spot@.wpm as int,
            ),
            (match crate::spot::spec_band(spot@.frequency_millikhz as int / 1000) {
                Some(b) => string_tally_bumped(old(self)@.by_band, final(self)@.by_band, b),
                None => final(self)@.by_band == old(self)@.by_band,
            }),
            mode_tally_bumped(old(self)@.by_mode, final(self)@.by_mode, spot@.mode),
            type_tally_bumped(old(self)@.by_type, final(self)@.by_type, spot@.spot_type),
            string_tally_bumped(old(self)@.spotters, final(self)@.spotters, spot@.spotter),
    {
        self.total_spots = self.total_spots + 1;
        if is_cw_mode(spot.mode) {
            self.cw_spots = self.cw_spots + 1;
        }
        let size = spot.json_size();
        if size <= 10000 {
            let v = if size < 1 {
                1u64
            } else {
                size as u64
            };
            proof {
                assert(spec_json_size(spot@) >= 100);
                assert(v == spec_json_size(spot@));
            }
            self.size_hist.record(v);
        }
        let snr = spot.snr_db;
        let snr_off: u64 = if snr < -29 {
            1
        } else if snr > 69 {
            99
        } else {
            (snr + 30) as u64
        };
        proof {
            assert(snr_off == spec_snr_offset(spot@.snr_db as int));
        }
        self.snr_hist.record(snr_off);
        let wpm: u64 = if spot.wpm < 1 {
            1
        } else if spot.wpm > 99 {
            99
        } else {
            spot.wpm as u64
        };
        proof {
            assert(wpm == spec_wpm_clamped(spot@.wpm as int));
        }
        self.wpm_hist.record(wpm);
        match spot.band() {
            Some(b) => {
                self.by_band.bump(b);
            },
            None => (),
        }
        self.by_mode.bump(spot.mode);
        self.by_type.bump(spot.spot_type);
        self.spotters.bump(spot.spotter.as_str());
    }

    /// Record a line that failed to parse.
    pub fn record_parse_failure(&mut self)
        requires
            old(self)@.wf(),
            old(self)@.parse_failures < u64::MAX,
        ensures
            final(self)@.wf(),
            final(self)@ == (StatsView {
                parse_failures: (old(self)@.parse_failures + 1) as u64,
                ..old(self)@
            }),
    {
        self.parse_failures = self.parse_failures + 1;
    }

    /// Record a line that was not a spot.
    pub fn record_non_spot(&mut self)
        requires
            old(self)@.wf(),
            old(self)@.non_spot_lines < u64::MAX,
        ensures
            final(self)@.wf(),
            final(self)@ == (StatsView {
                non_spot_lines: (old(self)@.non_spot_lines + 1) as u64,
                ..old(self)@
            }),
    {
        self.non_spot_lines = self.non_spot_lines + 1;
    }

    /// Record raw input bytes.
    pub fn record_bytes(&mut self, bytes: u64)
        requires
            old(self)@.wf(),
            old(self)@.bytes_processed + bytes <= u64::MAX,
        ensures
            final(self)@.wf(),
            final(self)@ == (StatsView {
                bytes_processed: (old(self)@.bytes_processed + bytes) as u64,
                ..old(self)@
            }),
    {
        self.bytes_processed = self.bytes_processed + bytes;
    }

    /// Seconds elapsed between the collector's creation and the given
    /// clock reading; readings before the start read as zero.
    pub fn elapsed_at(&self, now: u64) -> (r: u64)
        ensures
            r == if now >= self@.start_unix {
                now - self@.start_unix
            } else {
                0int
            },
    {
        if now >= self.start_unix {
            now - self.start_unix
        } else {
            0
        }
    }

    /// Seconds elapsed since the collector was created, by the system
    /// clock. The clock's reading is environment-dependent; the relation
    /// to any given reading is [`Self::elapsed_at`]'s contract.
    pub fn elapsed_secs(&self) -> u64 {
        let now = crate::clock::now_unix_secs();
        self.elapsed_at(now)
    }

    /// Total spots counted so far.
    pub fn total_spots(&self) -> (r: u64)
        ensures
            r == self@.total_spots,
    {
        self.total_spots
    }

    /// Lines that failed to parse so far.
    pub fn parse_failures(&self) -> (r: u64)
        ensures
            r == self@.parse_failures,
    {
        self.parse_failures
    }

    /// Non-spot lines seen so far.
    pub fn non_spot_lines(&self) -> (r: u64)
        ensures
            r == self@.non_spot_lines,
    {
        self.non_spot_lines
    }

    /// Raw input bytes counted so far.
    pub fn bytes_processed(&self) -> (r: u64)
        ensures
            r == self@.bytes_processed,
    {
        self.bytes_processed
    }
}

/// Whether the mode is CW.
fn is_cw_mode(m: Mode) -> (r: bool)
    ensures
        r == (m == Mode::Cw),
{
    m == Mode::Cw
}

} // verus!

verus! {

/// The ranking between spotter entries: more spots first, ties broken by
/// name in lexicographic order. Reflexive on equal entries.
pub open spec fn spotter_before(
    a: (Seq<char>, u64),
    b: (Seq<char>, u64),
) -> bool {
    a.1 > b.1 || (a.1 == b.1 && (a.0 == b.0 || crate::text::lex_lt(a.0, b.0)))
}

/// The spotter ranking is transitive.
proof fn lemma_spotter_before_trans(
    a: (Seq<char>, u64),
    b: (Seq<char>, u64),
    c: (Seq<char>, u64),
)
    requires
        spotter_before(a, b),
        spotter_before(b, c),
    ensures
        spotter_before(a, c),
{
    if a.1 == b.1 && b.1 == c.1 {
        if a.0 != b.0 && b.0 != c.0 {
            if a.0 == c.0 {
                crate::text::lemma_lex_trans(a.0, b.0, c.0);
                crate::text::lemma_lex_trans(b.0, c.0, b.0);
                lemma_lex_irrefl(b.0);
            } else {
                crate::text::lemma_lex_trans(a.0, b.0, c.0);
            }
        }
    }
}

/// Nothing precedes itself lexicographically.
proof fn lemma_lex_irrefl(a: Seq<char>)
    ensures
        !crate::text::lex_lt(a, a),
    decreases a.len(),
{
    if a.len() > 0 {
        lemma_lex_irrefl(a.drop_first());
    }
}

/// Whether an entry pair occurs in a tally.
pub open spec fn in_tally(t: StringTallyView, e: (Seq<char>, u64)) -> bool {
    exists|i: int| 0 <= i < t.keys.len() && t.keys[i] == e.0 && t.counts[i] == e.1
}

/// Whether a key occurs among the result entries.
pub open spec fn key_in_entries(r: Seq<(Seq<char>, u64)>, k: Seq<char>) -> bool {
    exists|t: int| 0 <= t < r.len() && r[t].0 == k
}

/// The view of a result vector of (name, count) pairs.
pub open spec fn entries_view(r: Seq<(String, u64)>) -> Seq<(Seq<char>, u64)> {
    Seq::new(r.len(), |i: int| (r[i].0@, r[i].1))
}

/// The ten highest-ranked spotters of a tally: every returned entry is a
/// tally entry, the result is ordered by rank, holds `min(10, n)`
/// entries, and every tally entry left out ranks at or below the last
/// returned one.
#[verifier::loop_isolation(false)]
fn top_spotters_of(tally: &StringTally) -> (r: Vec<(String, u64)>)
    requires
        tally@.wf(),
    ensures
        r@.len() == if tally@.keys.len() < 10 {
            tally@.keys.len() as int
        } else {
            10int
        },
        forall|t: int|
            0 <= t < r@.len() ==> in_tally(tally@, #[trigger] entries_view(r@)[t]),
        forall|a: int, b: int|
            0 <= a < b < r@.len() ==> spotter_before(
                entries_view(r@)[a],
                entries_view(r@)[b],
            ),
        forall|i: int|
            0 <= i < tally@.keys.len() && !key_in_entries(
                entries_view(r@),
                #[trigger] tally@.keys[i],
            ) ==> r@.len() > 0 && spotter_before(
                entries_view(r@)[r@.len() - 1],
                (tally@.keys[i], tally@.counts[i]),
            ),
{
    let n = tally.len();
    let mut rem_keys: Vec<String> = Vec::new();
    let mut rem_counts: Vec<u64> = Vec::new();
    let mut i: usize = 0;
    while i < n
        invariant
            i <= n,
            n == tally@.keys.len(),
            tally@.wf(),
            rem_keys.len() == i,
            rem_counts.len() == i,
            forall|j: int| 0 <= j < i ==> rem_keys.deep_view()[j] == tally@.keys[j]
                && rem_counts@[j] == tally@.counts[j],
        decreases n - i,
    {
        let ghost pre = rem_keys.deep_view();
        rem_keys.push(tally.key_at(i).clone());
        rem_counts.push(tally.count_at(i));
        proof {
            assert(rem_keys.deep_view() =~= pre.push(tally@.keys[i as int]));
        }
        i = i + 1;
    }
    proof {
        assert forall|i2: int| #![trigger tally@.keys[i2]]
            0 <= i2 < tally@.keys.len() implies (exists|j: int|
            0 <= j < rem_keys.deep_view().len() && #[trigger] rem_keys.deep_view()[j]
                == tally@.keys[i2] && rem_counts@[j] == tally@.counts[i2]) by {
            assert(rem_keys.deep_view()[i2] == tally@.keys[i2]);
            assert(rem_counts@[i2] == tally@.counts[i2]);
        }
    }
    proof {
        assert forall|a: int, b: int|
            0 <= a < b < rem_keys.deep_view().len() implies rem_keys.deep_view()[a]
            != rem_keys.deep_view()[b] by {
            assert(rem_keys.deep_view()[a] == tally@.keys[a]);
            assert(rem_keys.deep_view()[b] == tally@.keys[b]);
        }
    }
    let mut out: Vec<(String, u64)> = Vec::new();
    while out.len() < 10 && rem_keys.len() > 0
        invariant
            tally@.wf(),
            rem_keys.len() == rem_counts.len(),
            out.len() + rem_keys.len() == tally@.keys.len(),
            out.len() <= 10,
            // remaining names are pairwise distinct
            forall|a: int, b: int|
                0 <= a < b < rem_keys.len() ==> rem_keys.deep_view()[a]
                    != rem_keys.deep_view()[b],
            // every output entry is a tally entry
            forall|t: int|
                0 <= t < out.len() ==> in_tally(tally@, #[trigger] entries_view(out@)[t]),
            // every remaining entry is a tally entry
            forall|j: int|
                0 <= j < rem_keys.len() ==> in_tally(
                    tally@,
                    (#[trigger] rem_keys.deep_view()[j], rem_counts@[j]),
                ),
            // output is sorted by rank
            forall|a: int, b: int|
                0 <= a < b < out.len() ==> spotter_before(
                    entries_view(out@)[a],
                    entries_view(out@)[b],
                ),
            // every output entry ranks at or above every remaining entry
            forall|t: int, j: int|
                0 <= t < out.len() && 0 <= j < rem_keys.len() ==> spotter_before(
                    #[trigger] entries_view(out@)[t],
                    (#[trigger] rem_keys.deep_view()[j], rem_counts@[j]),
                ),
            // every tally key is in the output or remaining
            forall|i2: int|
                0 <= i2 < tally@.keys.len() ==> key_in_entries(
                    entries_view(out@),
                    #[trigger] tally@.keys[i2],
                ) || (exists|j: int|
                    0 <= j < rem_keys.len() && #[trigger] rem_keys.deep_view()[j]
                        == tally@.keys[i2] && rem_counts@[j] == tally@.counts[i2]),
        decreases rem_keys.len(),
    {
        let m = rem_keys.len();
        let mut best: usize = 0;
        let mut j: usize = 1;
        while j < m
            invariant
                1 <= j <= m,
                m == rem_keys.len(),
                m == rem_counts.len(),
                m >= 1,
                best < j,
                forall|k: int|
                    0 <= k < j && k != best ==> spotter_before(
                        (rem_keys.deep_view()[best as int], rem_counts@[best as int]),
                        (#[trigger] rem_keys.deep_view()[k], rem_counts@[k]),
                    ),
            decreases m - j,
        {
            proof {
                assert(rem_keys.deep_view()[j as int] == rem_keys[j as int]@);
                assert(rem_keys.deep_view()[best as int] == rem_keys[best as int]@);
            }
            let better = if rem_counts[j] > rem_counts[best] {
                true
            } else if rem_counts[j] == rem_counts[best] {
                crate::text::str_lt(rem_keys[j].as_str(), rem_keys[best].as_str())
            } else {
                false
            };
            proof {
                let je = (rem_keys.deep_view()[j as int], rem_counts@[j as int]);
                let be = (rem_keys.deep_view()[best as int], rem_counts@[best as int]);
                if better {
                    assert(spotter_before(je, be));
                    assert forall|k: int|
                        0 <= k < j + 1 && k != j implies spotter_before(
                        je,
                        (#[trigger] rem_keys.deep_view()[k], rem_counts@[k]),
                    ) by {
                        if k != best {
                            lemma_spotter_before_trans(
                                je,
                                be,
                                (rem_keys.deep_view()[k], rem_counts@[k]),
                            );
                        }
                    }
                } else {
                    if rem_counts@[j as int] == rem_counts@[best as int] {
                        crate::text::lemma_lex_total(je.0, be.0);
                    }
                    assert(spotter_before(be, je));
                }
            }
            if better {
                best = j;
            }
            j = j + 1;
        }
        let ghost rkpre = rem_keys.deep_view();
        let ghost rcpre = rem_counts@;
        let ghost outpre = out@;
        let bkey = rem_keys.remove(best);
        let bcount = rem_counts.remove(best);
        out.push((bkey, bcount));
        proof {
            assert(rem_keys.deep_view() =~= rkpre.remove(best as int));
            assert(entries_view(out@) =~= entries_view(outpre).push(
                (rkpre[best as int], rcpre[best as int]),
            ));
            assert forall|j2: int|
                0 <= j2 < rem_keys.deep_view().len() implies in_tally(
                tally@,
                (#[trigger] rem_keys.deep_view()[j2], rem_counts@[j2]),
            ) && spotter_before(
                (rkpre[best as int], rcpre[best as int]),
                (rem_keys.deep_view()[j2], rem_counts@[j2]),
            ) by {
                if j2 < best {
                    assert(rem_keys.deep_view()[j2] == rkpre[j2]);
                    assert(rem_counts@[j2] == rcpre[j2]);
                } else {
                    assert(rem_keys.deep_view()[j2] == rkpre[j2 + 1]);
                    assert(rem_counts@[j2] == rcpre[j2 + 1]);
                }
            }
            assert forall|a2: int, b2: int|
                0 <= a2 < b2 < rem_keys.deep_view().len() implies rem_keys.deep_view()[a2]
                != rem_keys.deep_view()[b2] by {
                let a3 = if a2 < best { a2 } else { a2 + 1 };
                let b3 = if b2 < best { b2 } else { b2 + 1 };
                assert(rem_keys.deep_view()[a2] == rkpre[a3]);
                assert(rem_keys.deep_view()[b2] == rkpre[b3]);
            }
            assert forall|i2: int| #![trigger tally@.keys[i2]]
                0 <= i2 < tally@.keys.len() implies key_in_entries(
                entries_view(out@),
                tally@.keys[i2],
            ) || (exists|j3: int|
                0 <= j3 < rem_keys.len() && #[trigger] rem_keys.deep_view()[j3]
                    == tally@.keys[i2] && rem_counts@[j3] == tally@.counts[i2]) by {
                if key_in_entries(entries_view(outpre), tally@.keys[i2]) {
                    let t = choose|t: int|
                        0 <= t < entries_view(outpre).len() && entries_view(outpre)[t].0
                            == tally@.keys[i2];
                    assert(entries_view(out@)[t].0 == tally@.keys[i2]);
                } else {
                    let j = choose|j: int|
                        0 <= j < rkpre.len() && #[trigger] rkpre[j] == tally@.keys[i2]
                            && rcpre[j] == tally@.counts[i2];
                    if j == best {
                        assert(entries_view(out@)[out@.len() - 1].0 == tally@.keys[i2]);
                    } else {
                        let j3 = if j < best { j } else { j - 1 };
                        assert(rem_keys.deep_view()[j3] == rkpre[j]);
                        assert(rem_counts@[j3] == rcpre[j]);
                    }
                }
            }
        }
    }
    proof {
        if out@.len() < 10 {
            assert(rem_keys.len() == 0);
        }
        assert forall|i2: int|
            0 <= i2 < tally@.keys.len() && !key_in_entries(
                entries_view(out@),
                #[trigger] tally@.keys[i2],
            ) implies out@.len() > 0 && spotter_before(
            entries_view(out@)[out@.len() - 1],
            (tally@.keys[i2], tally@.counts[i2]),
        ) by {
            let j = choose|j: int|
                0 <= j < rem_keys.deep_view().len() && rem_keys.deep_view()[j] == tally@.keys[
                    i2
                ] && rem_counts@[j] == tally@.counts[i2];
            assert(spotter_before(
                entries_view(out@)[out@.len() - 1],
                (rem_keys.deep_view()[j], rem_counts@[j]),
            ));
        }
    }
    out
}

impl SpotStats {
    /// A consistent snapshot: the counters; the three percentile
    /// summaries, the SNR one with every value field shifted back by the
    /// recording offset of 30 (saturating at zero; its sum stays in
    /// offset terms); the per-band, per-mode and per-type tallies under
    /// their labels; and the top ten spotters ranked by count then name.
    pub fn summary(&self) -> (r: StatsSummary)
        requires
            self@.wf(),
        ensures
            r.total_spots == self@.total_spots,
            r.cw_spots == self@.cw_spots,
            r.parse_failures == self@.parse_failures,
            r.non_spot_lines == self@.non_spot_lines,
            r.bytes_processed == self@.bytes_processed,
            r.size_percentiles matches Some(p) && p.count == self@.size_hist.total && p.sum
                == self@.size_hist.value_sum && p.p50 == self@.size_hist.spec_value_at_percentile(
                50,
            ) && p.p90 == self@.size_hist.spec_value_at_percentile(90) && p.p99
                == self@.size_hist.spec_value_at_percentile(99) && p.min
                == self@.size_hist.spec_min_value() && p.max == self@.size_hist.spec_max_value(),
            r.snr_percentiles matches Some(p) && p.count == self@.snr_hist.total && p.sum
                == self@.snr_hist.value_sum && p.p50 == spec_sub30(
                self@.snr_hist.spec_value_at_percentile(50),
            ) && p.p90 == spec_sub30(self@.snr_hist.spec_value_at_percentile(90)) && p.p99
                == spec_sub30(self@.snr_hist.spec_value_at_percentile(99)) && p.min == spec_sub30(
                self@.snr_hist.spec_min_value(),
            ) && p.max == spec_sub30(self@.snr_hist.spec_max_value()),
            r.wpm_percentiles matches Some(p) && p.count == self@.wpm_hist.total && p.sum
                == self@.wpm_hist.value_sum && p.p50 == self@.wpm_hist.spec_value_at_percentile(
                50,
            ) && p.p90 == self@.wpm_hist.spec_value_at_percentile(90) && p.p99
                == self@.wpm_hist.spec_value_at_percentile(99) && p.min
                == self@.wpm_hist.spec_min_value() && p.max == self@.wpm_hist.spec_max_value(),
            r.spots_by_band@.len() == self@.by_band.keys.len(),
            forall|i: int|
                0 <= i < r.spots_by_band@.len() ==> (#[trigger] r.spots_by_band@[i]).0@
                    == self@.by_band.keys[i] && r.spots_by_band@[i].1 == self@.by_band.counts[i],
            r.spots_by_mode@.len() == self@.by_mode.keys.len(),
            forall|i: int|
                0 <= i < r.spots_by_mode@.len() ==> (#[trigger] r.spots_by_mode@[i]).0@
                    == self@.by_mode.keys[i].spec_label() && r.spots_by_mode@[i].1
                    == self@.by_mode.counts[i],
            r.spots_by_type@.len() == self@.by_type.keys.len(),
            forall|i: int|
                0 <= i < r.spots_by_type@.len() ==> (#[trigger] r.spots_by_type@[i]).0@
                    == self@.by_type.keys[i].spec_label() && r.spots_by_type@[i].1
                    == self@.by_type.counts[i],
            r.top_spotters@.len() == if self@.spotters.keys.len() < 10 {
                self@.spotters.keys.len() as int
            } else {
                10int
            },
            forall|t: int|
                0 <= t < r.top_spotters@.len() ==> in_tally(
                    self@.spotters,
                    #[trigger] entries_view(r.top_spotters@)[t],
                ),
            forall|a: int, b: int|
                0 <= a < b < r.top_spotters@.len() ==> spotter_before(
                    entries_view(r.top_spotters@)[a],
                    entries_view(r.top_spotters@)[b],
                ),
            forall|i: int|
                0 <= i < self@.spotters.keys.len() && !key_in_entries(
                    entries_view(r.top_spotters@),
                    #[trigger] self@.spotters.keys[i],
                ) ==> r.top_spotters@.len() > 0 && spotter_before(
                    entries_view(r.top_spotters@)[r.top_spotters@.len() - 1],
                    (self@.spotters.keys[i], self@.spotters.counts[i]),
                ),
    {
        let size_p = HistogramPercentiles {
            p50: self.size_hist.value_at_percentile(50),
            p90: self.size_hist.value_at_percentile(90),
            p99: self.size_hist.value_at_percentile(99),
            min: self.size_hist.min_value(),
            max: self.size_hist.max_value(),
            count: self.size_hist.total(),
            sum: self.size_hist.value_sum(),
        };
        // SNR values are recorded with a +30 offset; shift them back,
        // saturating at zero.
        let snr_p = HistogramPercentiles {
            p50: sat_sub30(self.snr_hist.value_at_percentile(50)),
            p90: sat_sub30(self.snr_hist.value_at_percentile(90)),
            p99: sat_sub30(self.snr_hist.value_at_percentile(99)),
            min: sat_sub30(self.snr_hist.min_value()),
            max: sat_sub30(self.snr_hist.max_value()),
            count: self.snr_hist.total(),
            sum: self.snr_hist.value_sum(),
        };
        let wpm_p = HistogramPercentiles {
            p50: self.wpm_hist.value_at_percentile(50),
            p90: self.wpm_hist.value_at_percentile(90),
            p99: self.wpm_hist.value_at_percentile(99),
            min: self.wpm_hist.min_value(),
            max: self.wpm_hist.max_value(),
            count: self.wpm_hist.total(),
            sum: self.wpm_hist.value_sum(),
        };
        let nb = self.by_band.len();
        let mut bands: Vec<(String, u64)> = Vec::new();
        let mut i: usize = 0;
        while i < nb
            invariant
                i <= nb,
                nb == self@.by_band.keys.len(),
                self@.wf(),
                bands.len() == i,
                forall|j: int|
                    0 <= j < i ==> (#[trigger] bands@[j]).0@ == self@.by_band.keys[j]
                        && bands@[j].1 == self@.by_band.counts[j],
            decreases nb - i,
        {
            bands.push((self.by_band.key_at(i).clone(), self.by_band.count_at(i)));
            i = i + 1;
        }
        let nm = self.by_mode.len();
        let mut modes: Vec<(String, u64)> = Vec::new();
        let mut i: usize = 0;
        while i < nm
            invariant
                i <= nm,
                nm == self@.by_mode.keys.len(),
                self@.wf(),
                modes.len() == i,
                forall|j: int|
                    0 <= j < i ==> (#[trigger] modes@[j]).0@ == self@.by_mode.keys[
                        j
                    ].spec_label() && modes@[j].1 == self@.by_mode.counts[j],
            decreases nm - i,
        {
            let label = String::from_str(self.by_mode.key_at(i).label());
            modes.push((label, self.by_mode.count_at(i)));
            i = i + 1;
        }
        let nt = self.by_type.len();
        let mut types: Vec<(String, u64)> = Vec::new();
        let mut i: usize = 0;
        while i < nt
            invariant
                i <= nt,
                nt == self@.by_type.keys.len(),
                self@.wf(),
                types.len() == i,
                forall|j: int|
                    0 <= j < i ==> (#[trigger] types@[j]).0@ == self@.by_type.keys[
                        j
                    ].spec_label() && types@[j].1 == self@.by_type.counts[j],
            decreases nt - i,
        {
            let label = String::from_str(self.by_type.key_at(i).label());
            types.push((label, self.by_type.count_at(i)));
            i = i + 1;
        }
        let top = top_spotters_of(&self.spotters);
        StatsSummary {
            elapsed_secs: self.elapsed_secs(),
            total_spots: self.total_spots,
            cw_spots: self.cw_spots,
            parse_failures: self.parse_failures,
            non_spot_lines: self.non_spot_lines,
            bytes_processed: self.bytes_processed,
            size_percentiles: Some(size_p),
            snr_percentiles: Some(snr_p),
            wpm_percentiles: Some(wpm_p),
            spots_by_band: bands,
            spots_by_mode: modes,
            spots_by_type: types,
            top_spotters: top,
        }
    }
}

/// Subtract the SNR recording offset of 30, saturating at zero.
pub open spec fn spec_sub30(v: int) -> int {
    if v >= 30 {
        v - 30
    } else {
        0
    }
}

/// Subtract the SNR recording offset of 30, saturating at zero.
fn sat_sub30(v: u64) -> (r: u64)
    ensures
        r == spec_sub30(v as int),
{
    if v >= 30 {
        v - 30
    } else {
        0
    }
}

} // verus!
