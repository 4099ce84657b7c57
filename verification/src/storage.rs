//! Bounded per-filter spot queues with sequence numbers and eviction.
//!
//! Each filter owns a FIFO queue of stored spots. A per-queue entry cap
//! and a global byte budget bound memory; eviction removes oldest entries
//! first, so the retained sequence numbers always form a contiguous range
//! ending at the most recently assigned one. Sequence numbers are never
//! reused, and cursor reads return entries in ascending sequence order.

use vstd::prelude::*;

use crate::config::StorageConfig;
use crate::filter::{FilterView, SpotFilter};
use crate::spot::{spec_json_size, CwSpot, SpotView};
use crate::text::{spec_u64_digits, u64_to_string};

verus! {

/// A spot with its per-queue sequence number.
#[derive(Debug)]
pub struct StoredSpot {
    /// Per-queue sequence number: strictly positive, monotonically
    /// increasing, possibly with gaps after eviction.
    pub seq: u64,
    /// The stored spot.
    pub spot: CwSpot,
}

/// The mathematical content of a [`StoredSpot`].
pub struct StoredSpotView {
    pub seq: u64,
    pub spot: SpotView,
}

impl View for StoredSpot {
    type V = StoredSpotView;

    open spec fn view(&self) -> StoredSpotView {
        StoredSpotView { seq: self.seq, spot: self.spot@ }
    }
}

impl DeepView for StoredSpot {
    type V = StoredSpotView;

    open spec fn deep_view(&self) -> StoredSpotView {
        self.view()
    }
}

impl Clone for StoredSpot {
    /// A clone carries the same sequence number and spot.
    fn clone(&self) -> (r: Self)
        ensures
            r@ == self@,
    {
        StoredSpot { seq: self.seq, spot: self.spot.clone() }
    }
}

/// The mathematical content of a [`FilterStorage`] queue.
pub struct QueueView {
    /// The queue's name.
    pub name: Seq<char>,
    /// Cap on retained entries.
    pub cap: usize,
    /// The retained entries, oldest first.
    pub entries: Seq<StoredSpotView>,
    /// The next sequence number to assign.
    pub next_seq: u64,
    /// How many entries have ever been evicted from this queue.
    pub evicted: u64,
    /// Total byte size of the retained entries.
    pub bytes: usize,
}

/// Total byte size of a sequence of stored spots, under the canonical
/// serialization measure.
pub open spec fn sum_sizes(es: Seq<StoredSpotView>) -> nat
    decreases es.len(),
{
    if es.len() == 0 {
        0
    } else {
        sum_sizes(es.drop_last()) + spec_json_size(es.last().spot)
    }
}

/// The size of the whole sequence splits off the size of its first entry.
pub proof fn lemma_sum_sizes_drop_first(es: Seq<StoredSpotView>)
    requires
        es.len() > 0,
    ensures
        sum_sizes(es) == spec_json_size(es[0].spot) + sum_sizes(es.drop_first()),
    decreases es.len(),
{
    if es.len() == 1 {
        assert(es.drop_first() =~= es.drop_last());
    } else {
        let dl = es.drop_last();
        lemma_sum_sizes_drop_first(dl);
        assert(es.drop_first().drop_last() =~= dl.drop_first());
        assert(es.drop_first().last() == es.last());
    }
}

impl QueueView {
    /// The queue's structural invariant: the cap is positive, sequence
    /// numbers are the contiguous range ending just before `next_seq`,
    /// every retained spot is well-formed, the byte counter equals the
    /// sum of retained sizes, and the eviction counter equals the number
    /// of sequence numbers assigned but no longer retained.
    pub open spec fn wf(self) -> bool {
        &&& self.cap >= 1
        &&& 1 <= self.next_seq
        &&& self.entries.len() < self.next_seq
        &&& forall|i: int|
            0 <= i < self.entries.len() ==> (#[trigger] self.entries[i]).seq == self.next_seq
                - self.entries.len() + i
        &&& forall|i: int| 0 <= i < self.entries.len() ==> (#[trigger] self.entries[i]).spot.wf()
        &&& self.bytes == sum_sizes(self.entries)
        &&& self.evicted == self.next_seq - 1 - self.entries.len()
    }

    /// The sequence number of the most recently enqueued entry, `0` when
    /// none is retained.
    pub open spec fn spec_latest_seq(self) -> u64 {
        if self.entries.len() == 0 {
            0
        } else {
            self.entries.last().seq
        }
    }
}

/// The eviction counter of a well-formed queue equals the number of
/// entries ever evicted: every assigned sequence number below `next_seq`
/// entered the queue exactly once, and those not retained have left.
pub proof fn lemma_overflow_counts_evictions(q: QueueView)
    requires
        q.wf(),
    ensures
        q.evicted == (q.next_seq - 1) - q.entries.len(),
{
}

/// In a non-empty well-formed queue the latest sequence number is the
/// last one assigned.
pub proof fn lemma_latest_seq(q: QueueView)
    requires
        q.wf(),
        q.entries.len() > 0,
    ensures
        q.spec_latest_seq() == q.next_seq - 1,
{
    assert(q.entries.last() == q.entries[q.entries.len() - 1]);
}

/// Per-filter bounded storage queue.
#[derive(Debug)]
pub struct FilterStorage {
    /// Queue name, from the filter or synthesized from its index.
    name: String,
    /// Cap on retained entries for this queue.
    max_kept_entries: usize,
    /// Retained entries, oldest first.
    spots: Vec<StoredSpot>,
    /// Next sequence number to assign; starts at 1.
    next_seq: u64,
    /// Count of entries evicted from this queue, for any reason.
    overflow_count: u64,
    /// Current byte size of retained entries.
    current_size_bytes: usize,
}

impl View for FilterStorage {
    type V = QueueView;

    closed spec fn view(&self) -> QueueView {
        QueueView {
            name: self.name@,
            cap: self.max_kept_entries,
            entries: self.spots.deep_view(),
            next_seq: self.next_seq,
            evicted: self.overflow_count,
            bytes: self.current_size_bytes,
        }
    }
}

impl FilterStorage {
    /// Create an empty queue with the given name and entry cap.
    pub fn new(name: String, max_kept_entries: usize) -> (r: Self)
        requires
            max_kept_entries >= 1,
        ensures
            r@.wf(),
            r@.name == name@,
            r@.cap == max_kept_entries,
            r@.entries.len() == 0,
            r@.next_seq == 1,
            r@.evicted == 0,
            r@.bytes == 0,
    {
        let r = FilterStorage {
            name,
            max_kept_entries,
            spots: Vec::new(),
            next_seq: 1,
            overflow_count: 0,
            current_size_bytes: 0,
        };
        proof {
            assert(r.spots.deep_view() =~= Seq::<StoredSpotView>::empty());
        }
        r
    }

    /// The queue's name.
    pub fn name(&self) -> (r: &String)
        ensures
            r@ == self@.name,
    {
        &self.name
    }

    /// The configured cap on retained entries.
    pub fn max_kept_entries(&self) -> (r: usize)
        ensures
            r == self@.cap,
    {
        self.max_kept_entries
    }

    /// Number of spots currently retained.
    pub fn len(&self) -> (r: usize)
        ensures
            r == self@.entries.len(),
    {
        self.spots.len()
    }

    /// Whether the queue holds no spots.
    pub fn is_empty(&self) -> (r: bool)
        ensures
            r == (self@.entries.len() == 0),
    {
        self.spots.len() == 0
    }

    /// The sequence number of the most recently enqueued spot, `0` when
    /// the queue is empty.
    pub fn latest_seq(&self) -> (r: u64)
        ensures
            r == self@.spec_latest_seq(),
    {
        let n = self.spots.len();
        if n == 0 {
            0
        } else {
            self.spots[n - 1].seq
        }
    }

    /// The sequence number the next enqueued spot will receive.
    pub fn next_seq(&self) -> (r: u64)
        ensures
            r == self@.next_seq,
    {
        self.next_seq
    }

    /// How many entries have ever been evicted from this queue.
    pub fn overflow_count(&self) -> (r: u64)
        ensures
            r == self@.evicted,
    {
        self.overflow_count
    }

    /// Current byte size of the retained entries.
    pub fn current_size_bytes(&self) -> (r: usize)
        ensures
            r == self@.bytes,
    {
        self.current_size_bytes
    }

    /// All retained spots with sequence number greater than `since`,
    /// oldest first.
    pub fn get_spots_since(&self, since: u64) -> (r: Vec<StoredSpot>)
        ensures
            r.deep_view() == self@.entries.filter(|e: StoredSpotView| e.seq > since),
    {
        proof {
            reveal(Seq::filter);
        }
        let mut out: Vec<StoredSpot> = Vec::new();
        let n = self.spots.len();
        let mut i: usize = 0;
        while i < n
            invariant
                i <= n,
                n == self.spots.len(),
                self@.entries == self.spots.deep_view(),
                out.deep_view() == self.spots.deep_view().subrange(0, i as int).filter(
                    |e: StoredSpotView| e.seq > since,
                ),
            decreases n - i,
        {
            let ghost pre = self.spots.deep_view().subrange(0, i as int);
            let ghost cur = self.spots.deep_view().subrange(0, i + 1);
            let ghost out_pre = out.deep_view();
            proof {
                reveal(Seq::filter);
                assert(cur.drop_last() =~= pre);
                assert(cur.last() == self.spots.deep_view()[i as int]);
                assert(self.spots.deep_view()[i as int] == self.spots[i as int]@);
            }
            if self.spots[i].seq > since {
                let c = self.spots[i].clone();
                let ghost cv = c@;
                out.push(c);
                proof {
                    reveal(Seq::filter);
                    assert(cv == cur.last());
                    assert(out.deep_view() =~= out_pre.push(cv));
                    assert(out.deep_view() == cur.filter(|e: StoredSpotView| e.seq > since));
                }
            } else {
                proof {
                    reveal(Seq::filter);
                    assert(cur.filter(|e: StoredSpotView| e.seq > since) == pre.filter(
                        |e: StoredSpotView| e.seq > since,
                    ));
                }
            }
            i = i + 1;
        }
        proof {
            assert(self.spots.deep_view().subrange(0, n as int) =~= self.spots.deep_view());
        }
        out
    }

    /// Append a spot, assigning it the next sequence number; returns its
    /// size in bytes. The entry cap is not enforced here — the storage
    /// manager evicts before appending.
    pub fn push(&mut self, spot: CwSpot) -> (size: usize)
        requires
            old(self)@.wf(),
            old(self)@.next_seq < u64::MAX,
            spot@.wf(),
            old(self)@.bytes + spec_json_size(spot@) <= usize::MAX,
        ensures
            final(self)@.wf(),
            size == spec_json_size(spot@),
            final(self)@.entries == old(self)@.entries.push(
                StoredSpotView { seq: old(self)@.next_seq, spot: spot@ },
            ),
            final(self)@.next_seq == old(self)@.next_seq + 1,
            final(self)@.bytes == old(self)@.bytes + size,
            final(self)@.evicted == old(self)@.evicted,
            final(self)@.name == old(self)@.name,
            final(self)@.cap == old(self)@.cap,
    {
        let size = spot.json_size();
        let seq = self.next_seq;
        self.next_seq = self.next_seq + 1;
        self.spots.push(StoredSpot { seq, spot });
        self.current_size_bytes = self.current_size_bytes + size;
        proof {
            let newv = StoredSpotView { seq: old(self)@.next_seq, spot: spot@ };
            assert(self.spots.deep_view() =~= old(self)@.entries.push(newv));
            assert(self.spots.deep_view().drop_last() =~= old(self)@.entries);
        }
        size
    }

    /// Remove the oldest entry, returning its size in bytes, or `None`
    /// when the queue is empty. Removal counts as an eviction.
    pub fn pop_oldest(&mut self) -> (r: Option<usize>)
        requires
            old(self)@.wf(),
        ensures
            final(self)@.wf(),
            final(self)@.name == old(self)@.name,
            final(self)@.cap == old(self)@.cap,
            final(self)@.next_seq == old(self)@.next_seq,
            match r {
                Some(size) => {
                    &&& old(self)@.entries.len() > 0
                    &&& size == spec_json_size(old(self)@.entries[0].spot)
                    &&& final(self)@.entries == old(self)@.entries.drop_first()
                    &&& final(self)@.bytes == old(self)@.bytes - size
                    &&& final(self)@.evicted == old(self)@.evicted + 1
                },
                None => {
                    &&& old(self)@.entries.len() == 0
                    &&& final(self)@ == old(self)@
                },
            },
    {
        if self.spots.len() == 0 {
            return None;
        }
        proof {
            lemma_sum_sizes_drop_first(old(self)@.entries);
            assert(old(self)@.entries[0] == self.spots[0]@);
        }
        let stored = self.spots.remove(0);
        let size = stored.spot.json_size();
        self.current_size_bytes = self.current_size_bytes - size;
        self.overflow_count = self.overflow_count + 1;
        proof {
            assert(self.spots.deep_view() =~= old(self)@.entries.drop_first());
        }
        Some(size)
    }
}

} // verus!

verus! {

/// One filter together with its storage queue.
#[derive(Debug)]
pub struct FilterEntry {
    /// The filter whose matches this queue retains.
    pub filter: SpotFilter,
    /// The queue of retained matches.
    pub storage: FilterStorage,
}

/// The mathematical content of a [`FilterEntry`].
pub struct EntryView {
    pub filter: FilterView,
    pub queue: QueueView,
}

impl View for FilterEntry {
    type V = EntryView;

    open spec fn view(&self) -> EntryView {
        EntryView { filter: self.filter@, queue: self.storage@ }
    }
}

impl DeepView for FilterEntry {
    type V = EntryView;

    open spec fn deep_view(&self) -> EntryView {
        self.view()
    }
}

/// Total byte size over all queues.
pub open spec fn total_of(es: Seq<EntryView>) -> nat
    decreases es.len(),
{
    if es.len() == 0 {
        0
    } else {
        total_of(es.drop_last()) + (es.last().queue.bytes as nat)
    }
}

/// Total entry count over all queues.
pub open spec fn count_of(es: Seq<EntryView>) -> nat
    decreases es.len(),
{
    if es.len() == 0 {
        0
    } else {
        count_of(es.drop_last()) + (es.last().queue.entries.len() as nat)
    }
}

/// Replacing one entry changes the aggregates by the difference at that
/// index.
pub proof fn lemma_agg_update(es: Seq<EntryView>, i: int, e: EntryView)
    requires
        0 <= i < es.len(),
    ensures
        total_of(es.update(i, e)) == total_of(es) - es[i].queue.bytes + e.queue.bytes,
        count_of(es.update(i, e)) == count_of(es) - es[i].queue.entries.len()
            + e.queue.entries.len(),
    decreases es.len(),
{
    let up = es.update(i, e);
    if i == es.len() - 1 {
        assert(up.drop_last() =~= es.drop_last());
        assert(up.last() == e);
    } else {
        assert(up.drop_last() =~= es.drop_last().update(i, e));
        assert(up.last() == es.last());
        lemma_agg_update(es.drop_last(), i, e);
    }
}

/// Each queue's contribution is bounded by the aggregate.
pub proof fn lemma_agg_member(es: Seq<EntryView>, i: int)
    requires
        0 <= i < es.len(),
    ensures
        es[i].queue.bytes <= total_of(es),
        es[i].queue.entries.len() <= count_of(es),
    decreases es.len(),
{
    if i < es.len() - 1 {
        lemma_agg_member(es.drop_last(), i);
    }
}

/// When every well-formed queue is empty, both aggregates are zero.
pub proof fn lemma_agg_all_empty(es: Seq<EntryView>)
    requires
        forall|j: int| 0 <= j < es.len() ==> (#[trigger] es[j]).queue.wf(),
        forall|j: int| 0 <= j < es.len() ==> (#[trigger] es[j]).queue.entries.len() == 0,
    ensures
        total_of(es) == 0,
        count_of(es) == 0,
    decreases es.len(),
{
    if es.len() > 0 {
        let dl = es.drop_last();
        assert(forall|j: int| 0 <= j < dl.len() ==> dl[j] == es[j]);
        lemma_agg_all_empty(dl);
        assert(es.last().queue.entries =~= Seq::<StoredSpotView>::empty());
    }
}

/// Whether `b` is a suffix of `a`: what remains of a queue after zero or
/// more front evictions.
pub open spec fn is_suffix_of(b: Seq<StoredSpotView>, a: Seq<StoredSpotView>) -> bool {
    exists|k: int| 0 <= k <= a.len() && b == a.subrange(k, a.len() as int)
}

/// Every sequence is a suffix of itself.
pub proof fn lemma_suffix_refl(a: Seq<StoredSpotView>)
    ensures
        is_suffix_of(a, a),
{
    assert(a == a.subrange(0, a.len() as int)) by {
        assert(a.subrange(0, a.len() as int) =~= a);
    }
}

/// Dropping the front of a suffix leaves a suffix.
pub proof fn lemma_suffix_drop_first(b: Seq<StoredSpotView>, a: Seq<StoredSpotView>)
    requires
        is_suffix_of(b, a),
        b.len() > 0,
    ensures
        is_suffix_of(b.drop_first(), a),
{
    let k = choose|k: int| 0 <= k <= a.len() && b == a.subrange(k, a.len() as int);
    assert(b.drop_first() =~= a.subrange(k + 1, a.len() as int));
}

/// Appending the same entry to a suffix and to the whole keeps the
/// suffix relation.
pub proof fn lemma_suffix_push(b: Seq<StoredSpotView>, a: Seq<StoredSpotView>, n: StoredSpotView)
    requires
        is_suffix_of(b, a),
    ensures
        is_suffix_of(b.push(n), a.push(n)),
{
    let k = choose|k: int| 0 <= k <= a.len() && b == a.subrange(k, a.len() as int);
    assert(a.push(n).len() == a.len() + 1);
    assert(b.push(n) =~= a.push(n).subrange(k, a.push(n).len() as int));
    assert(0 <= k <= a.push(n).len() && b.push(n) == a.push(n).subrange(
        k,
        a.push(n).len() as int,
    ));
}

/// The name a queue takes: the filter's own name, or `filter_<index>`.
pub open spec fn spec_queue_name(name: Option<Seq<char>>, i: int) -> Seq<char> {
    match name {
        Some(n) => n,
        None => "filter_"@ + spec_u64_digits(i as nat),
    }
}

/// The mathematical content of a [`SpotStorage`].
pub struct StorageView {
    /// The global byte budget.
    pub global_max: usize,
    /// The filters with their queues, in declaration order.
    pub entries: Seq<EntryView>,
    /// Total bytes over all queues.
    pub total_bytes: usize,
    /// Count of evictions forced by the global budget (saturating).
    pub global_evictions: u64,
}

impl StorageView {
    /// The storage invariant: every queue is well-formed and within its
    /// cap, and the byte total is exact and within the global budget.
    pub open spec fn wf(self) -> bool {
        &&& forall|j: int| 0 <= j < self.entries.len() ==> (#[trigger] self.entries[j]).queue.wf()
        &&& forall|j: int|
            0 <= j < self.entries.len() ==> (#[trigger] self.entries[j]).queue.entries.len()
                <= self.entries[j].queue.cap
        &&& self.total_bytes == total_of(self.entries)
        &&& self.total_bytes <= self.global_max
    }
}

/// How many entries a store into a queue with this view must evict to
/// respect the cap before appending.
pub open spec fn spec_cap_evictions(q: QueueView) -> int {
    if q.entries.len() >= q.cap {
        q.entries.len() - q.cap + 1
    } else {
        0
    }
}

/// Central storage: one bounded queue per filter under a global byte
/// budget.
#[derive(Debug)]
pub struct SpotStorage {
    /// The global byte budget.
    global_max_size: usize,
    /// The filters with their queues, in declaration order.
    filters: Vec<FilterEntry>,
    /// Total bytes over all queues.
    total_size_bytes: usize,
    /// Count of evictions forced by the global budget; saturates at
    /// `u64::MAX`.
    global_evictions: u64,
}

impl View for SpotStorage {
    type V = StorageView;

    closed spec fn view(&self) -> StorageView {
        StorageView {
            global_max: self.global_max_size,
            entries: self.filters.deep_view(),
            total_bytes: self.total_size_bytes,
            global_evictions: self.global_evictions,
        }
    }
}

impl SpotStorage {
    /// Create storage for the given filters: each gets an empty queue
    /// whose cap is the filter's own `max_kept_entries` or the configured
    /// default, and whose name is the filter's name or `filter_<index>`.
    pub fn new(config: &StorageConfig, filters: Vec<SpotFilter>) -> (r: Self)
        requires
            config.wf(),
            forall|i: int|
                0 <= i < filters.deep_view().len() ==> ((#[trigger] filters.deep_view()[i]).max_kept_entries matches Some(m) ==> m >= 1),
        ensures
            r@.wf(),
            r@.global_max == config.global_max_size,
            r@.total_bytes == 0,
            r@.global_evictions == 0,
            r@.entries.len() == filters.deep_view().len(),
            forall|i: int|
                0 <= i < r@.entries.len() ==> (#[trigger] r@.entries[i]).filter
                    == filters.deep_view()[i],
            forall|i: int|
                0 <= i < r@.entries.len() ==> (#[trigger] r@.entries[i]).queue.name
                    == spec_queue_name(filters.deep_view()[i].name, i),
            forall|i: int|
                0 <= i < r@.entries.len() ==> (#[trigger] r@.entries[i]).queue.cap == (
                match filters.deep_view()[i].max_kept_entries {
                    Some(m) => m,
                    None => config.default_max_kept_entries,
                }),
            forall|i: int|
                0 <= i < r@.entries.len() ==> (#[trigger] r@.entries[i]).queue.entries.len()
                    == 0 && r@.entries[i].queue.next_seq == 1 && r@.entries[i].queue.evicted == 0
                    && r@.entries[i].queue.bytes == 0,
    {
        let n = filters.len();
        let mut built: Vec<FilterEntry> = Vec::new();
        let mut i: usize = 0;
        while i < n
            invariant
                i <= n,
                n == filters.len(),
                filters.deep_view().len() == n,
                built.len() == i,
                built.deep_view().len() == i,
                forall|j: int|
                    0 <= j < i ==> (#[trigger] built.deep_view()[j]).filter
                        == filters.deep_view()[j],
                forall|j: int|
                    0 <= j < i ==> (#[trigger] built.deep_view()[j]).queue.name
                        == spec_queue_name(filters.deep_view()[j].name, j),
                forall|j: int|
                    0 <= j < i ==> (#[trigger] built.deep_view()[j]).queue.cap == (
                    match filters.deep_view()[j].max_kept_entries {
                        Some(m) => m,
                        None => config.default_max_kept_entries,
                    }),
                forall|j: int|
                    0 <= j < i ==> (#[trigger] built.deep_view()[j]).queue.wf()
                        && built.deep_view()[j].queue.entries.len() == 0
                        && built.deep_view()[j].queue.next_seq == 1
                        && built.deep_view()[j].queue.evicted == 0
                        && built.deep_view()[j].queue.bytes == 0,
                config.wf(),
                forall|j: int|
                    0 <= j < n ==> ((#[trigger] filters.deep_view()[j]).max_kept_entries
                        matches Some(m) ==> m >= 1),
            decreases n - i,
        {
            proof {
                assert(filters.deep_view()[i as int] == filters[i as int]@);
            }
            let f = filters[i].clone();
            let name: String = match &f.name {
                Some(s) => s.clone(),
                None => {
                    let mut nm = String::from_str("filter_");
                    nm.append(u64_to_string(i as u64).as_str());
                    nm
                },
            };
            let cap: usize = match f.max_kept_entries {
                Some(m) => m,
                None => config.default_max_kept_entries,
            };
            let queue = FilterStorage::new(name, cap);
            let entry = FilterEntry { filter: f, storage: queue };
            let ghost ev = entry@;
            let ghost pre = built.deep_view();
            built.push(entry);
            proof {
                assert(built.deep_view() =~= pre.push(ev));
            }
            i = i + 1;
        }
        let r = SpotStorage {
            global_max_size: config.global_max_size,
            filters: built,
            total_size_bytes: 0,
            global_evictions: 0,
        };
        proof {
            lemma_agg_all_empty(r@.entries);
        }
        r
    }

    /// Number of filters.
    pub fn filter_count(&self) -> (r: usize)
        ensures
            r == self@.entries.len(),
    {
        self.filters.len()
    }

    /// The configured global byte budget.
    pub fn global_max_size(&self) -> (r: usize)
        ensures
            r == self@.global_max,
    {
        self.global_max_size
    }

    /// Total bytes currently retained over all queues.
    pub fn total_size_bytes(&self) -> (r: usize)
        ensures
            r == self@.total_bytes,
    {
        self.total_size_bytes
    }

    /// Count of evictions forced by the global budget.
    pub fn global_evictions(&self) -> (r: u64)
        ensures
            r == self@.global_evictions,
    {
        self.global_evictions
    }

    /// The filter at an index.
    pub fn filter_at(&self, i: usize) -> (r: &SpotFilter)
        requires
            i < self@.entries.len(),
        ensures
            r@ == self@.entries[i as int].filter,
    {
        &self.filters[i].filter
    }

    /// The storage queue at an index.
    pub fn storage_at(&self, i: usize) -> (r: &FilterStorage)
        requires
            i < self@.entries.len(),
        ensures
            r@ == self@.entries[i as int].queue,
    {
        &self.filters[i].storage
    }
}

} // verus!

verus! {

/// A suffix of a suffix is a suffix.
pub proof fn lemma_suffix_trans(c: Seq<StoredSpotView>, b: Seq<StoredSpotView>, a: Seq<StoredSpotView>)
    requires
        is_suffix_of(c, b),
        is_suffix_of(b, a),
    ensures
        is_suffix_of(c, a),
{
    let k1 = choose|k: int| 0 <= k <= b.len() && c == b.subrange(k, b.len() as int);
    let k2 = choose|k: int| 0 <= k <= a.len() && b == a.subrange(k, a.len() as int);
    assert(c =~= a.subrange(k2 + k1, a.len() as int));
}

/// One step of the global eviction protocol: in the step from `o` to
/// `f`, queue `v` is the victim — a non-empty queue of maximal length,
/// the lowest such index — and it loses its oldest entry, with the byte
/// totals and its eviction counter adjusted accordingly.
pub open spec fn evict_step(o: StorageView, f: StorageView, v: int) -> bool {
    &&& 0 <= v < o.entries.len()
    &&& o.entries[v].queue.entries.len() > 0
    &&& forall|j: int|
        0 <= j < o.entries.len() ==> (#[trigger] o.entries[j]).queue.entries.len()
            <= o.entries[v].queue.entries.len()
    &&& forall|j: int|
        0 <= j < v ==> (#[trigger] o.entries[j]).queue.entries.len()
            < o.entries[v].queue.entries.len()
    &&& f.entries == o.entries.update(
        v,
        (EntryView {
            filter: o.entries[v].filter,
            queue: (QueueView {
                entries: o.entries[v].queue.entries.drop_first(),
                evicted: (o.entries[v].queue.evicted + 1) as u64,
                bytes: (o.entries[v].queue.bytes - spec_json_size(
                    o.entries[v].queue.entries[0].spot,
                )) as usize,
                ..o.entries[v].queue
            }),
        }),
    )
    &&& f.total_bytes == o.total_bytes - spec_json_size(o.entries[v].queue.entries[0].spot)
    &&& f.global_max == o.global_max
    &&& f.global_evictions == (if o.global_evictions < u64::MAX {
        (o.global_evictions + 1) as u64
    } else {
        o.global_evictions
    })
}

/// A chain of `k` global eviction steps, each taken only while the
/// incoming spot of the given size did not fit the budget.
pub open spec fn evict_chain(o: StorageView, f: StorageView, size: int, k: nat) -> bool
    decreases k,
{
    if k == 0 {
        f == o
    } else {
        o.total_bytes + size > o.global_max && (exists|mid: StorageView, v: int|
            #[trigger] evict_step(o, mid, v) && evict_chain(mid, f, size, (k - 1) as nat))
    }
}

/// A pressured chain extends by one more step.
proof fn lemma_evict_chain_extend(
    o: StorageView,
    m: StorageView,
    f: StorageView,
    size: int,
    k: nat,
)
    requires
        evict_chain(o, m, size, k),
        m.total_bytes + size > m.global_max,
        exists|v: int| #[trigger] evict_step(m, f, v),
    ensures
        evict_chain(o, f, size, (k + 1) as nat),
    decreases k,
{
    if k == 0 {
        let v = choose|v: int| #[trigger] evict_step(m, f, v);
        assert(evict_step(o, f, v));
        assert(evict_chain(f, f, size, 0));
    } else {
        let (mid1, v1) = choose|mid1: StorageView, v1: int|
            #[trigger] evict_step(o, mid1, v1) && evict_chain(mid1, m, size, (k - 1) as nat);
        lemma_evict_chain_extend(mid1, m, f, size, (k - 1) as nat);
        assert(evict_step(o, mid1, v1) && evict_chain(mid1, f, size, k));
    }
}

/// The cap-enforcing append that ends a store: the target queue drops its
/// oldest entries down to one below its cap and receives the spot under
/// the next sequence number; nothing else changes.
pub open spec fn cap_store_step(mid: StorageView, f: StorageView, fi: int, s: SpotView) -> bool {
    let q = mid.entries[fi].queue;
    let kept = q.entries.subrange(spec_cap_evictions(q), q.entries.len() as int);
    let newv = (StoredSpotView { seq: q.next_seq, spot: s });
    &&& 0 <= fi < mid.entries.len()
    &&& s.wf()
    &&& q.next_seq < u64::MAX
    &&& f.entries == mid.entries.update(
        fi,
        (EntryView {
            filter: mid.entries[fi].filter,
            queue: (QueueView {
                entries: kept.push(newv),
                next_seq: (q.next_seq + 1) as u64,
                evicted: (q.evicted + spec_cap_evictions(q)) as u64,
                bytes: (sum_sizes(kept) + spec_json_size(s)) as usize,
                ..q
            }),
        }),
    )
    &&& f.total_bytes == mid.total_bytes - (sum_sizes(q.entries) - sum_sizes(kept))
        + spec_json_size(s)
    &&& f.global_evictions == mid.global_evictions
    &&& f.global_max == mid.global_max
}

impl SpotStorage {
    /// Evict the oldest entry of the longest queue, the lowest index
    /// deciding ties — one step of the global budget's protocol. Returns
    /// `false`, changing nothing, when every queue is empty. Each step
    /// counts one global eviction, saturating at `u64::MAX`.
    #[verifier::loop_isolation(false)]
    fn evict_from_largest(&mut self) -> (r: bool)
        requires
            old(self)@.wf(),
        ensures
            final(self)@.wf(),
            r ==> exists|v: int| #[trigger] evict_step(old(self)@, final(self)@, v),
            !r ==> final(self)@ == old(self)@ && old(self)@.total_bytes == 0 && (forall|j: int|
                0 <= j < old(self)@.entries.len() ==> (#[trigger] old(self)@.entries[
                    j
                ]).queue.entries.len() == 0),
            final(self)@.global_evictions == (
            if r && old(self)@.global_evictions < u64::MAX {
                (old(self)@.global_evictions + 1) as u64
            } else {
                old(self)@.global_evictions
            }),
    {
        let ghost osv = self@;
        let n = self.filters.len();
        let mut max_len: usize = 0;
        let mut max_idx: usize = 0;
        let mut i: usize = 0;
        while i < n
            invariant
                i <= n,
                max_len > 0 ==> max_idx < i && osv.entries[max_idx as int].queue.entries.len()
                    == max_len,
                forall|j: int|
                    0 <= j < i ==> (#[trigger] osv.entries[j]).queue.entries.len() <= max_len,
                forall|j: int|
                    0 <= j < max_idx ==> (#[trigger] osv.entries[j]).queue.entries.len()
                        < max_len,
            decreases n - i,
        {
            proof {
                assert(self@.entries[i as int] == self.filters[i as int]@);
            }
            let l = self.filters[i].storage.len();
            if l > max_len {
                max_len = l;
                max_idx = i;
            }
            i = i + 1;
        }
        if max_len == 0 {
            proof {
                lemma_agg_all_empty(self@.entries);
            }
            return false;
        }
        proof {
            assert(osv.entries[max_idx as int] == self.filters[max_idx as int]@);
            lemma_agg_member(osv.entries, max_idx as int);
        }
        let mut entry = self.filters.remove(max_idx);
        let sz = match entry.storage.pop_oldest() {
            Some(sz) => sz,
            None => {
                proof {
                    assert(false);
                }
                0
            },
        };
        let ghost e2 = entry@;
        self.filters.insert(max_idx, entry);
        proof {
            assert(self.filters.deep_view() =~= osv.entries.update(max_idx as int, e2));
            lemma_agg_update(osv.entries, max_idx as int, e2);
            lemma_sum_sizes_drop_first(osv.entries[max_idx as int].queue.entries);
        }
        self.total_size_bytes = self.total_size_bytes - sz;
        if self.global_evictions < u64::MAX {
            self.global_evictions = self.global_evictions + 1;
        }
        proof {
            let oq = osv.entries[max_idx as int].queue;
            assert(e2.queue == (QueueView {
                entries: oq.entries.drop_first(),
                evicted: (oq.evicted + 1) as u64,
                bytes: (oq.bytes - spec_json_size(oq.entries[0].spot)) as usize,
                ..oq
            }));
            assert(evict_step(osv, self@, max_idx as int));
        }
        true
    }

    /// Store a spot that matched the filter at the given index.
    ///
    /// First the global budget is enforced: while the new spot would not
    /// fit, one [`evict_step`] runs — the oldest entry of the currently
    /// longest queue (lowest index on ties) is evicted and counted as a
    /// global eviction; if every queue empties and the spot alone exceeds
    /// the budget, nothing is stored. Then the target queue's cap is
    /// enforced by evicting its oldest entries, and the spot is appended
    /// with the next sequence number. The global eviction counter
    /// saturates at `u64::MAX`.
    #[verifier::rlimit(100)]
    #[verifier::loop_isolation(false)]
    pub fn store_spot(&mut self, filter_index: usize, spot: CwSpot)
        requires
            old(self)@.wf(),
            filter_index < old(self)@.entries.len(),
            spot@.wf(),
            old(self)@.entries[filter_index as int].queue.next_seq < u64::MAX,
        ensures
            ({
                let osv = old(self)@;
                let fsv = final(self)@;
                let oq = osv.entries[filter_index as int].queue;
                let fq = fsv.entries[filter_index as int].queue;
                let size = spec_json_size(spot@);
                let newv = (StoredSpotView { seq: oq.next_seq, spot: spot@ });
                &&& fsv.wf()
                &&& fsv.global_max == osv.global_max
                &&& fsv.entries.len() == osv.entries.len()
                &&& fsv.global_evictions >= osv.global_evictions
                &&& forall|j: int|
                    0 <= j < osv.entries.len() ==> (#[trigger] fsv.entries[j]).filter
                        == osv.entries[j].filter && fsv.entries[j].queue.name == osv.entries[
                        j
                    ].queue.name && fsv.entries[j].queue.cap == osv.entries[j].queue.cap
                &&& forall|j: int|
                    0 <= j < osv.entries.len() && j != filter_index ==> (#[trigger] fsv.entries[
                        j
                    ]).queue.next_seq == osv.entries[j].queue.next_seq
                &&& forall|j: int|
                    0 <= j < osv.entries.len() && j != filter_index ==> is_suffix_of(
                        (#[trigger] fsv.entries[j]).queue.entries,
                        osv.entries[j].queue.entries,
                    )
                &&& size <= osv.global_max ==> {
                    &&& fq.next_seq == oq.next_seq + 1
                    &&& fq.entries.len() > 0
                    &&& fq.entries.last() == newv
                    &&& is_suffix_of(fq.entries.drop_last(), oq.entries)
                }
                &&& size > osv.global_max ==> {
                    &&& fq.next_seq == oq.next_seq
                    &&& forall|j: int|
                        0 <= j < osv.entries.len() ==> (#[trigger] fsv.entries[
                            j
                        ]).queue.entries.len() == 0
                }
                &&& osv.total_bytes + size <= osv.global_max ==> {
                    &&& fsv.global_evictions == osv.global_evictions
                    &&& forall|j: int|
                        0 <= j < osv.entries.len() && j != filter_index ==> (
                        #[trigger] fsv.entries[j]).queue == osv.entries[j].queue
                    &&& fq.entries == oq.entries.subrange(
                        spec_cap_evictions(oq),
                        oq.entries.len() as int,
                    ).push(newv)
                    &&& fq.evicted == oq.evicted + spec_cap_evictions(oq)
                }
                // The whole protocol: a chain of pressured global eviction
                // steps ([`evict_step`]: oldest entry of the longest queue,
                // lowest index on ties, one counted global eviction each)
                // runs until the spot fits, then the cap-enforcing append
                // stores it; when the spot alone exceeds the budget, the
                // chain drains every queue and nothing is stored.
                &&& size <= osv.global_max ==> exists|k: nat, m: StorageView|
                    #[trigger] evict_chain(osv, m, size as int, k) && m.total_bytes + size
                        <= osv.global_max && cap_store_step(m, fsv, filter_index as int, spot@)
                &&& size > osv.global_max ==> exists|k: nat, m: StorageView|
                    #[trigger] evict_chain(osv, m, size as int, k) && fsv == m && (forall|j: int|
                        0 <= j < m.entries.len() ==> (#[trigger] m.entries[
                            j
                        ]).queue.entries.len() == 0)
                &&& store_outcome(osv, fsv, filter_index as int, spot@)
            }),
    {
        let ghost osv = old(self)@;
        let spot_size = spot.json_size();
        let fi = filter_index;
        proof {
            assert forall|j: int|
                0 <= j < osv.entries.len() implies is_suffix_of(
                (#[trigger] self@.entries[j]).queue.entries,
                osv.entries[j].queue.entries,
            ) by {
                lemma_suffix_refl(osv.entries[j].queue.entries);
            }
        }

        proof {
            assert(evict_chain(osv, self@, spec_json_size(spot@) as int, 0));
        }

        // Phase 1: enforce the global budget, one eviction step at a
        // time, until the spot fits.
        while spot_size > self.global_max_size - self.total_size_bytes
            invariant
                self@.wf(),
                self@.global_max == osv.global_max,
                self@.entries.len() == osv.entries.len(),
                fi < osv.entries.len(),
                spot_size == spec_json_size(spot@),
                spot@.wf(),
                osv.wf(),
                osv.entries[fi as int].queue.next_seq < u64::MAX,
                forall|j: int|
                    0 <= j < osv.entries.len() ==> (#[trigger] self@.entries[j]).filter
                        == osv.entries[j].filter && self@.entries[j].queue.name == osv.entries[
                        j
                    ].queue.name && self@.entries[j].queue.cap == osv.entries[j].queue.cap
                        && self@.entries[j].queue.next_seq == osv.entries[j].queue.next_seq,
                forall|j: int|
                    0 <= j < osv.entries.len() ==> is_suffix_of(
                        (#[trigger] self@.entries[j]).queue.entries,
                        osv.entries[j].queue.entries,
                    ),
                osv.total_bytes + spec_json_size(spot@) <= osv.global_max ==> self@ == osv,
                self@.global_evictions >= osv.global_evictions,
                exists|k: nat| #[trigger] evict_chain(
                    osv,
                    self@,
                    spec_json_size(spot@) as int,
                    k,
                ),
            decreases count_of(self@.entries),
        {
            let ghost pre = self@;
            let evicted = self.evict_from_largest();
            if !evicted {
                // Every queue is empty and the spot still does not fit:
                // it alone exceeds the budget. Store nothing.
                proof {
                    assert(spot_size > osv.global_max);
                    let k0 = choose|k: nat|
                        evict_chain(osv, pre, spec_json_size(spot@) as int, k);
                    assert(evict_chain(osv, self@, spec_json_size(spot@) as int, k0));
                }
                return;
            }
            proof {
                let sz = spec_json_size(spot@) as int;
                let k0 = choose|k: nat| evict_chain(osv, pre, sz, k);
                lemma_evict_chain_extend(osv, pre, self@, sz, k0);
                assert(evict_chain(osv, self@, sz, (k0 + 1) as nat));
                let v = choose|v: int| #[trigger] evict_step(pre, self@, v);
                lemma_agg_update(pre.entries, v, self@.entries[v]);
                assert forall|j: int|
                    0 <= j < osv.entries.len() implies is_suffix_of(
                        (#[trigger] self@.entries[j]).queue.entries,
                        osv.entries[j].queue.entries,
                    ) by {
                    if j == v {
                        lemma_suffix_drop_first(
                            pre.entries[j].queue.entries,
                            osv.entries[j].queue.entries,
                        );
                    }
                }
            }
        }

        // Phase 2: enforce the target queue's entry cap, then append.
        let ghost mid = self@;
        proof {
            assert(mid.entries[fi as int] == self.filters[fi as int]@);
            lemma_agg_member(mid.entries, fi as int);
        }
        let ghost midq = mid.entries[fi as int].queue;
        let mut entry = self.filters.remove(fi);
        while entry.storage.len() >= entry.storage.max_kept_entries()
            invariant
                self.filters.deep_view() == mid.entries.remove(fi as int),
                self.filters.len() == mid.entries.len() - 1,
                fi < mid.entries.len(),
                self.global_max_size == mid.global_max,
                self.global_evictions == mid.global_evictions,
                spot_size == spec_json_size(spot@),
                spot@.wf(),
                midq == mid.entries[fi as int].queue,
                midq.next_seq < u64::MAX,
                entry.filter@ == mid.entries[fi as int].filter,
                entry.storage@.wf(),
                entry.storage@.name == midq.name,
                entry.storage@.cap == midq.cap,
                entry.storage@.next_seq == midq.next_seq,
                entry.storage@.entries == midq.entries.subrange(
                    midq.entries.len() - entry.storage@.entries.len(),
                    midq.entries.len() as int,
                ),
                entry.storage@.entries.len() <= midq.entries.len(),
                entry.storage@.evicted == midq.evicted + (midq.entries.len()
                    - entry.storage@.entries.len()),
                entry.storage@.bytes <= self.total_size_bytes,
                midq.entries.len() - entry.storage@.entries.len() <= spec_cap_evictions(midq),
                self.total_size_bytes as int == total_of(mid.entries) - midq.bytes
                    + entry.storage@.bytes,
                self.total_size_bytes + spot_size <= mid.global_max,
            decreases entry.storage@.entries.len(),
        {
            proof {
                lemma_sum_sizes_drop_first(entry.storage@.entries);
            }
            let ghost epre = entry.storage@.entries;
            let sz = match entry.storage.pop_oldest() {
                Some(sz) => sz,
                None => {
                    proof {
                        assert(false);
                    }
                    0
                },
            };
            self.total_size_bytes = self.total_size_bytes - sz;
            proof {
                assert(entry.storage@.entries =~= midq.entries.subrange(
                    midq.entries.len() - entry.storage@.entries.len(),
                    midq.entries.len() as int,
                ));
            }
        }
        let ghost popped = midq.entries.len() - entry.storage@.entries.len();
        let added = entry.storage.push(spot);
        let ghost e2 = entry@;
        self.filters.insert(fi, entry);
        self.total_size_bytes = self.total_size_bytes + added;
        proof {
            let dvb = mid.entries.remove(fi as int);
            assert(self.filters.deep_view().len() == mid.entries.len());
            assert forall|j: int|
                0 <= j < self.filters.deep_view().len() implies self.filters.deep_view()[j]
                == mid.entries.update(fi as int, e2)[j] by {
                assert(self.filters.deep_view()[j] == self.filters@[j].deep_view());
                if j < fi {
                    assert(self.filters@[j].deep_view() == dvb[j]);
                } else if j == fi {
                    assert(self.filters@[j].deep_view() == e2);
                } else {
                    assert(self.filters@[j].deep_view() == dvb[j - 1]);
                }
            }
            assert(self.filters.deep_view() =~= mid.entries.update(fi as int, e2));
            lemma_agg_update(mid.entries, fi as int, e2);
            // The stored-spot clause: the new last entry sits on a suffix
            // of the queue as it stood at entry.
            let oq = osv.entries[fi as int].queue;
            assert(is_suffix_of(e2.queue.entries.drop_last(), midq.entries)) by {
                assert(e2.queue.entries.drop_last() =~= midq.entries.subrange(
                    popped,
                    midq.entries.len() as int,
                ));
            }
            lemma_suffix_trans(e2.queue.entries.drop_last(), midq.entries, oq.entries);
            assert forall|j: int|
                0 <= j < osv.entries.len() && j != fi implies is_suffix_of(
                    (#[trigger] self@.entries[j]).queue.entries,
                    osv.entries[j].queue.entries,
                ) by {
                assert(self@.entries[j] == mid.entries[j]);
            }
            assert(popped == spec_cap_evictions(midq));
            if osv.total_bytes + spot_size <= osv.global_max {
                assert(mid == osv);
            }
            // The protocol clauses: the state at the end of phase 1 is the
            // chain's endpoint, and phase 2 is one cap-enforcing append.
            let kept = midq.entries.subrange(
                spec_cap_evictions(midq),
                midq.entries.len() as int,
            );
            let newv = (StoredSpotView { seq: midq.next_seq, spot: spot@ });
            assert(kept =~= midq.entries.subrange(popped, midq.entries.len() as int));
            assert(sum_sizes(kept.push(newv)) == sum_sizes(kept) + spec_json_size(spot@)) by {
                assert(kept.push(newv).drop_last() =~= kept);
                assert(kept.push(newv).last() == newv);
            }
            assert(e2.queue.bytes == sum_sizes(kept) + spec_json_size(spot@));
            assert(e2.queue == (QueueView {
                entries: kept.push(newv),
                next_seq: (midq.next_seq + 1) as u64,
                evicted: (midq.evicted + spec_cap_evictions(midq)) as u64,
                bytes: (sum_sizes(kept) + spec_json_size(spot@)) as usize,
                ..midq
            }));
            assert(cap_store_step(mid, self@, fi as int, spot@));
            let k0 = choose|k: nat| evict_chain(osv, mid, spec_json_size(spot@) as int, k);
            assert(evict_chain(osv, mid, spec_json_size(spot@) as int, k0)
                && mid.total_bytes + spec_json_size(spot@) <= osv.global_max
                && cap_store_step(mid, self@, fi as int, spot@));
        }
    }
}

} // verus!

verus! {

/// Whether a sequence of indices contains `j`.
pub open spec fn spec_contains_index(s: Seq<usize>, j: int) -> bool {
    exists|t: int| 0 <= t < s.len() && s[t] == j
}

impl SpotStorage {
    /// The names of all queues, in declaration order.
    pub fn filter_names(&self) -> (r: Vec<String>)
        ensures
            r.deep_view().len() == self@.entries.len(),
            forall|i: int|
                0 <= i < self@.entries.len() ==> r.deep_view()[i] == (
                #[trigger] self@.entries[i]).queue.name,
    {
        let n = self.filters.len();
        let mut out: Vec<String> = Vec::new();
        let mut i: usize = 0;
        while i < n
            invariant
                i <= n,
                n == self.filters.len(),
                n == self@.entries.len(),
                out.len() == i,
                out.deep_view().len() == i,
                forall|j: int|
                    0 <= j < i ==> out.deep_view()[j] == (#[trigger] self@.entries[
                        j
                    ]).queue.name,
            decreases n - i,
        {
            proof {
                assert(self@.entries[i as int] == self.filters[i as int]@);
            }
            let ghost pre = out.deep_view();
            let name = self.filters[i].storage.name().clone();
            out.push(name);
            proof {
                assert(out.deep_view() =~= pre.push(self@.entries[i as int].queue.name));
            }
            i = i + 1;
        }
        out
    }

    /// The storage queue with the given name, or `None` when no queue has
    /// it. When several queues share the name, the first one answers.
    pub fn get_filter_by_name(&self, name: &str) -> (r: Option<&FilterStorage>)
        ensures
            match r {
                Some(q) => exists|i: int|
                    0 <= i < self@.entries.len() && q@ == (#[trigger] self@.entries[i]).queue
                        && q@.name == name@ && (forall|j: int|
                        0 <= j < i ==> (#[trigger] self@.entries[j]).queue.name != name@),
                None => forall|i: int|
                    0 <= i < self@.entries.len() ==> (#[trigger] self@.entries[i]).queue.name
                        != name@,
            },
    {
        let n = self.filters.len();
        let mut i: usize = 0;
        while i < n
            invariant
                i <= n,
                n == self.filters.len(),
                n == self@.entries.len(),
                forall|j: int|
                    0 <= j < i ==> (#[trigger] self@.entries[j]).queue.name != name@,
            decreases n - i,
        {
            proof {
                assert(self@.entries[i as int] == self.filters[i as int]@);
            }
            if crate::text::str_eq(self.filters[i].storage.name().as_str(), name) {
                return Some(&self.filters[i].storage);
            }
            i = i + 1;
        }
        None
    }

    /// Match the spot against every filter in declaration order, storing
    /// it in each queue whose filter matches; returns the indices of the
    /// filters that matched, in ascending order.
    #[verifier::rlimit(100)]
    #[verifier::loop_isolation(false)]
    pub fn try_store(&mut self, spot: &CwSpot) -> (r: Vec<usize>)
        requires
            old(self)@.wf(),
            spot@.wf(),
            forall|i: int|
                0 <= i < old(self)@.entries.len() ==> (#[trigger] old(self)@.entries[
                    i
                ]).queue.next_seq < u64::MAX,
        ensures
            final(self)@.wf(),
            final(self)@.global_max == old(self)@.global_max,
            final(self)@.entries.len() == old(self)@.entries.len(),
            forall|j: int|
                0 <= j < old(self)@.entries.len() ==> (#[trigger] final(self)@.entries[j]).filter
                    == old(self)@.entries[j].filter && final(self)@.entries[j].queue.name == old(
                    self,
                )@.entries[j].queue.name && final(self)@.entries[j].queue.cap == old(
                    self,
                )@.entries[j].queue.cap,
            forall|t: int| 0 <= t < r@.len() ==> (#[trigger] r@[t]) < old(self)@.entries.len(),
            forall|t1: int, t2: int| 0 <= t1 < t2 < r@.len() ==> r@[t1] < r@[t2],
            forall|j: int|
                0 <= j < old(self)@.entries.len() ==> (spec_contains_index(r@, j)
                    <==> crate::filter::spec_filter_matches(
                    (#[trigger] old(self)@.entries[j]).filter,
                    spot@,
                )),
            // A matching queue receives the spot under its next sequence
            // number, as long as the spot fits the global budget at all;
            // later stores may already have evicted it again from the
            // front, so what remains is a suffix.
            forall|j: int|
                0 <= j < old(self)@.entries.len() && crate::filter::spec_filter_matches(
                    (#[trigger] old(self)@.entries[j]).filter,
                    spot@,
                ) && spec_json_size(spot@) <= old(self)@.global_max ==> final(self)@.entries[
                    j
                ].queue.next_seq == old(self)@.entries[j].queue.next_seq + 1 && is_suffix_of(
                    final(self)@.entries[j].queue.entries,
                    old(self)@.entries[j].queue.entries.push(
                        (StoredSpotView {
                            seq: old(self)@.entries[j].queue.next_seq,
                            spot: spot@,
                        }),
                    ),
                ),
            // A queue whose filter does not match receives nothing: its
            // counter stands and its entries are a suffix of what it held.
            forall|j: int|
                0 <= j < old(self)@.entries.len() && !crate::filter::spec_filter_matches(
                    (#[trigger] old(self)@.entries[j]).filter,
                    spot@,
                ) ==> final(self)@.entries[j].queue.next_seq == old(self)@.entries[
                    j
                ].queue.next_seq && is_suffix_of(
                    final(self)@.entries[j].queue.entries,
                    old(self)@.entries[j].queue.entries,
                ),
    {
        let n = self.filters.len();
        proof {
            assert forall|j: int|
                0 <= j < old(self)@.entries.len() implies is_suffix_of(
                (#[trigger] self@.entries[j]).queue.entries,
                old(self)@.entries[j].queue.entries,
            ) by {
                lemma_suffix_refl(old(self)@.entries[j].queue.entries);
            }
        }
        let mut matched: Vec<usize> = Vec::new();
        let mut i: usize = 0;
        while i < n
            invariant
                i <= n,
                n == old(self)@.entries.len(),
                self@.wf(),
                self@.global_max == old(self)@.global_max,
                self@.entries.len() == old(self)@.entries.len(),
                n == self.filters.len(),
                forall|j: int|
                    0 <= j < n ==> (#[trigger] self@.entries[j]).filter == old(self)@.entries[
                        j
                    ].filter && self@.entries[j].queue.name == old(self)@.entries[j].queue.name
                        && self@.entries[j].queue.cap == old(self)@.entries[j].queue.cap,
                forall|j: int|
                    i <= j < n ==> (#[trigger] self@.entries[j]).queue.next_seq == old(
                        self,
                    )@.entries[j].queue.next_seq,
                forall|j: int|
                    i <= j < n ==> is_suffix_of(
                        (#[trigger] self@.entries[j]).queue.entries,
                        old(self)@.entries[j].queue.entries,
                    ),
                forall|j: int|
                    0 <= j < i && crate::filter::spec_filter_matches(
                        (#[trigger] old(self)@.entries[j]).filter,
                        spot@,
                    ) && spec_json_size(spot@) <= old(self)@.global_max ==> self@.entries[
                        j
                    ].queue.next_seq == old(self)@.entries[j].queue.next_seq + 1 && is_suffix_of(
                        self@.entries[j].queue.entries,
                        old(self)@.entries[j].queue.entries.push(
                            (StoredSpotView {
                                seq: old(self)@.entries[j].queue.next_seq,
                                spot: spot@,
                            }),
                        ),
                    ),
                forall|j: int|
                    0 <= j < i && !crate::filter::spec_filter_matches(
                        (#[trigger] old(self)@.entries[j]).filter,
                        spot@,
                    ) ==> self@.entries[j].queue.next_seq == old(self)@.entries[
                        j
                    ].queue.next_seq && is_suffix_of(
                        self@.entries[j].queue.entries,
                        old(self)@.entries[j].queue.entries,
                    ),
                forall|t: int| 0 <= t < matched@.len() ==> (#[trigger] matched@[t]) < i,
                forall|t1: int, t2: int| 0 <= t1 < t2 < matched@.len() ==> matched@[t1]
                    < matched@[t2],
                forall|j: int|
                    0 <= j < i ==> (spec_contains_index(matched@, j)
                        <==> crate::filter::spec_filter_matches(
                        (#[trigger] old(self)@.entries[j]).filter,
                        spot@,
                    )),
            decreases n - i,
        {
            proof {
                assert(self@.entries[i as int] == self.filters[i as int]@);
            }
            let hit = self.filters[i].filter.matches(spot);
            if hit {
                let ghost ps = self@;
                self.store_spot(i, spot.clone());
                proof {
                    let osvj = old(self)@;
                    if spec_json_size(spot@) <= osvj.global_max {
                        let fq = self@.entries[i as int].queue;
                        let newv = (StoredSpotView {
                            seq: osvj.entries[i as int].queue.next_seq,
                            spot: spot@,
                        });
                        assert(fq.entries =~= fq.entries.drop_last().push(fq.entries.last()));
                        lemma_suffix_trans(
                            fq.entries.drop_last(),
                            ps.entries[i as int].queue.entries,
                            osvj.entries[i as int].queue.entries,
                        );
                        lemma_suffix_push(
                            fq.entries.drop_last(),
                            osvj.entries[i as int].queue.entries,
                            newv,
                        );
                    }
                    assert forall|j: int|
                        0 <= j < n && j != i implies is_suffix_of(
                        (#[trigger] self@.entries[j]).queue.entries,
                        ps.entries[j].queue.entries,
                    ) && self@.entries[j].queue.next_seq == ps.entries[j].queue.next_seq by {}
                    assert forall|j: int|
                        0 <= j < i && crate::filter::spec_filter_matches(
                        (#[trigger] osvj.entries[j]).filter,
                        spot@,
                    ) && spec_json_size(spot@) <= osvj.global_max implies is_suffix_of(
                        self@.entries[j].queue.entries,
                        osvj.entries[j].queue.entries.push(
                            (StoredSpotView {
                                seq: osvj.entries[j].queue.next_seq,
                                spot: spot@,
                            }),
                        ),
                    ) by {
                        lemma_suffix_trans(
                            self@.entries[j].queue.entries,
                            ps.entries[j].queue.entries,
                            osvj.entries[j].queue.entries.push(
                                (StoredSpotView {
                                    seq: osvj.entries[j].queue.next_seq,
                                    spot: spot@,
                                }),
                            ),
                        );
                    }
                    assert forall|j: int|
                        0 <= j < n && j != i && (j >= i || !crate::filter::spec_filter_matches(
                        (#[trigger] osvj.entries[j]).filter,
                        spot@,
                    )) implies is_suffix_of(
                        self@.entries[j].queue.entries,
                        osvj.entries[j].queue.entries,
                    ) by {
                        lemma_suffix_trans(
                            self@.entries[j].queue.entries,
                            ps.entries[j].queue.entries,
                            osvj.entries[j].queue.entries,
                        );
                    }
                }
                let ghost mpre = matched@;
                matched.push(i);
                proof {
                    assert forall|j: int|
                        0 <= j < i + 1 implies (spec_contains_index(matched@, j)
                        <==> crate::filter::spec_filter_matches(
                        (#[trigger] old(self)@.entries[j]).filter,
                        spot@,
                    )) by {
                        if j < i {
                            assert(spec_contains_index(mpre, j) <==> spec_contains_index(
                                matched@,
                                j,
                            )) by {
                                if spec_contains_index(mpre, j) {
                                    let t = choose|t: int|
                                        0 <= t < mpre.len() && mpre[t] == j;
                                    assert(matched@[t] == j);
                                }
                                if spec_contains_index(matched@, j) {
                                    let t = choose|t: int|
                                        0 <= t < matched@.len() && matched@[t] == j;
                                    assert(t < mpre.len());
                                    assert(mpre[t] == j);
                                }
                            }
                        } else {
                            assert(matched@[matched@.len() - 1] == i);
                        }
                    }
                }
            } else {
                proof {
                    assert forall|j: int|
                        0 <= j < i + 1 implies (spec_contains_index(matched@, j)
                        <==> crate::filter::spec_filter_matches(
                        (#[trigger] old(self)@.entries[j]).filter,
                        spot@,
                    )) by {
                        if j == i {
                            if spec_contains_index(matched@, j) {
                                let t = choose|t: int|
                                    0 <= t < matched@.len() && matched@[t] == j;
                                assert(matched@[t] < i);
                            }
                        }
                    }
                }
            }
            i = i + 1;
        }
        matched
    }
}

} // verus!

verus! {

/// Every element of a filtered sequence occurs in the original.
proof fn lemma_filter_member(
    es: Seq<StoredSpotView>,
    p: spec_fn(StoredSpotView) -> bool,
    i: int,
)
    requires
        0 <= i < es.filter(p).len(),
    ensures
        exists|j: int| 0 <= j < es.len() && es[j] == es.filter(p)[i],
    decreases es.len(),
{
    reveal(Seq::filter);
    let dl = es.drop_last();
    if p(es.last()) && i == es.filter(p).len() - 1 {
        assert(es[es.len() - 1] == es.filter(p)[i]);
    } else {
        lemma_filter_member(dl, p, i);
        let j = choose|j: int| 0 <= j < dl.len() && dl[j] == dl.filter(p)[i];
        assert(es[j] == es.filter(p)[i]);
    }
}

/// Filtering a sequence with strictly increasing sequence numbers yields
/// a sequence with strictly increasing sequence numbers.
proof fn lemma_filter_increasing(es: Seq<StoredSpotView>, p: spec_fn(StoredSpotView) -> bool)
    requires
        forall|a: int, b: int| 0 <= a < b < es.len() ==> es[a].seq < es[b].seq,
    ensures
        forall|a: int, b: int|
            0 <= a < b < es.filter(p).len() ==> es.filter(p)[a].seq < es.filter(p)[b].seq,
    decreases es.len(),
{
    reveal(Seq::filter);
    if es.len() > 0 {
        let dl = es.drop_last();
        assert(forall|a: int, b: int| 0 <= a < b < dl.len() ==> dl[a].seq < dl[b].seq);
        lemma_filter_increasing(dl, p);
        let f = es.filter(p);
        assert forall|a: int, b: int| 0 <= a < b < f.len() implies f[a].seq < f[b].seq by {
            if p(es.last()) && b == f.len() - 1 && f.len() - 1 == dl.filter(p).len() {
                lemma_filter_member(dl, p, a);
                let j = choose|j: int| 0 <= j < dl.len() && dl[j] == dl.filter(p)[a];
                assert(es[j].seq < es[es.len() - 1].seq);
            } else {
                assert(dl.filter(p)[a] == f[a]);
                assert(dl.filter(p)[b] == f[b]);
            }
        }
    }
}

/// Filtering with a predicate that no element satisfies yields nothing.
proof fn lemma_filter_none(es: Seq<StoredSpotView>, p: spec_fn(StoredSpotView) -> bool)
    requires
        forall|i: int| 0 <= i < es.len() ==> !p(#[trigger] es[i]),
    ensures
        es.filter(p).len() == 0,
    decreases es.len(),
{
    reveal(Seq::filter);
    if es.len() > 0 {
        let dl = es.drop_last();
        assert(forall|i: int| 0 <= i < dl.len() ==> !p(#[trigger] dl[i]));
        lemma_filter_none(dl, p);
    }
}

/// Cursor reads are ordered: everything `get_spots_since(since)` returns
/// has a sequence number greater than `since`, and the returned entries
/// come in strictly ascending sequence order.
pub proof fn lemma_spots_since_ordered(q: QueueView, since: u64, r: Seq<StoredSpotView>)
    requires
        q.wf(),
        r == q.entries.filter(|e: StoredSpotView| e.seq > since),
    ensures
        forall|i: int| 0 <= i < r.len() ==> (#[trigger] r[i]).seq > since,
        forall|a: int, b: int| 0 <= a < b < r.len() ==> r[a].seq < r[b].seq,
{
    let p = |e: StoredSpotView| e.seq > since;
    assert forall|i: int| 0 <= i < r.len() implies (#[trigger] r[i]).seq > since by {
        Seq::lemma_filter_pred(q.entries, p, i);
    }
    lemma_filter_increasing(q.entries, p);
}

/// A cursor standing at the latest sequence number reads nothing: no
/// retained entry has a greater sequence number.
pub proof fn lemma_spots_since_latest_empty(q: QueueView, r: Seq<StoredSpotView>)
    requires
        q.wf(),
        r == q.entries.filter(|e: StoredSpotView| e.seq > q.spec_latest_seq()),
    ensures
        r.len() == 0,
{
    let p = |e: StoredSpotView| e.seq > q.spec_latest_seq();
    assert(forall|i: int| 0 <= i < q.entries.len() ==> !p(#[trigger] q.entries[i]));
    lemma_filter_none(q.entries, p);
}

/// The storage bounds: in a well-formed storage state — and store
/// operations keep the state well-formed — every queue is within its
/// entry cap and the byte total over all queues is within the global
/// budget.
pub proof fn lemma_storage_bounds(sv: StorageView)
    requires
        sv.wf(),
    ensures
        sv.total_bytes <= sv.global_max,
        forall|j: int|
            0 <= j < sv.entries.len() ==> (#[trigger] sv.entries[j]).queue.entries.len()
                <= sv.entries[j].queue.cap,
{
}

/// The latest sequence number after an append is the sequence number of
/// the entry just appended.
pub proof fn lemma_latest_seq_after_append(q: QueueView, e: StoredSpotView)
    requires
        q.entries.len() > 0,
        q.entries.last() == e,
    ensures
        q.spec_latest_seq() == e.seq,
{
}

} // verus!

verus! {

/// The byte total of a suffix never exceeds the whole sequence's.
proof fn lemma_sum_sizes_suffix(es: Seq<StoredSpotView>, k: int)
    requires
        0 <= k <= es.len(),
    ensures
        sum_sizes(es.subrange(k, es.len() as int)) <= sum_sizes(es),
    decreases k,
{
    if k == 0 {
        assert(es.subrange(0, es.len() as int) =~= es);
    } else {
        lemma_sum_sizes_drop_first(es);
        let t = es.drop_first();
        lemma_sum_sizes_suffix(t, k - 1);
        assert(es.subrange(k, es.len() as int) =~= t.subrange(k - 1, t.len() as int));
    }
}

/// One global eviction step preserves the storage invariant and removes
/// exactly one entry.
proof fn lemma_evict_step_wf(o: StorageView, f: StorageView, v: int)
    requires
        o.wf(),
        evict_step(o, f, v),
    ensures
        f.wf(),
        f.global_max == o.global_max,
        f.entries.len() == o.entries.len(),
        count_of(f.entries) == count_of(o.entries) - 1,
        f.global_evictions >= o.global_evictions,
{
    let q = o.entries[v].queue;
    lemma_sum_sizes_drop_first(q.entries);
    lemma_agg_update(o.entries, v, f.entries[v]);
    lemma_agg_member(o.entries, v);
    assert(f.entries[v].queue.wf()) by {
        let nq = f.entries[v].queue;
        assert(nq.entries == q.entries.drop_first());
        assert(forall|i: int|
            0 <= i < nq.entries.len() ==> (#[trigger] nq.entries[i]) == q.entries[i + 1]);
    }
}

/// A chain of pressured eviction steps preserves the storage invariant;
/// the eviction counter never shrinks, and an unpressured start means the
/// chain is empty.
proof fn lemma_evict_chain_wf(o: StorageView, f: StorageView, size: int, k: nat)
    requires
        o.wf(),
        evict_chain(o, f, size, k),
    ensures
        f.wf(),
        f.global_max == o.global_max,
        f.entries.len() == o.entries.len(),
        f.global_evictions >= o.global_evictions,
        o.total_bytes + size <= o.global_max ==> f == o,
    decreases k,
{
    if k != 0 {
        let (mid, v) = choose|mid: StorageView, v: int|
            #[trigger] evict_step(o, mid, v) && evict_chain(mid, f, size, (k - 1) as nat);
        lemma_evict_step_wf(o, mid, v);
        lemma_evict_chain_wf(mid, f, size, (k - 1) as nat);
    }
}

/// The cap-enforcing append preserves the storage invariant when the spot
/// fits the budget.
proof fn lemma_cap_store_wf(m: StorageView, f: StorageView, fi: int, s: SpotView)
    requires
        m.wf(),
        cap_store_step(m, f, fi, s),
        m.total_bytes + spec_json_size(s) <= m.global_max,
    ensures
        f.wf(),
        f.global_max == m.global_max,
        f.entries.len() == m.entries.len(),
{
    let q = m.entries[fi].queue;
    let k0 = spec_cap_evictions(q);
    let kept = q.entries.subrange(k0, q.entries.len() as int);
    let newv = (StoredSpotView { seq: q.next_seq, spot: s });
    lemma_sum_sizes_suffix(q.entries, k0);
    lemma_agg_member(m.entries, fi);
    lemma_agg_update(m.entries, fi, f.entries[fi]);
    assert(sum_sizes(kept.push(newv)) == sum_sizes(kept) + spec_json_size(s)) by {
        assert(kept.push(newv).drop_last() =~= kept);
        assert(kept.push(newv).last() == newv);
    }
    assert(f.entries[fi].queue.wf()) by {
        let nq = f.entries[fi].queue;
        assert(nq.entries == kept.push(newv));
        assert(forall|i: int|
            0 <= i < kept.len() ==> (#[trigger] kept[i]) == q.entries[k0 + i]);
        assert(forall|i: int|
            0 <= i < nq.entries.len() - 1 ==> (#[trigger] nq.entries[i]) == q.entries[k0 + i]);
        assert(nq.entries[nq.entries.len() - 1] == newv);
    }
}

/// What one store promises, as a relation between storage states: the
/// pressured eviction chain runs until the spot fits and the
/// cap-enforcing append stores it, or — for a spot larger than the whole
/// budget — the chain drains every queue and nothing is stored.
pub open spec fn store_outcome(o: StorageView, f: StorageView, fi: int, s: SpotView) -> bool {
    if spec_json_size(s) <= o.global_max {
        exists|k: nat, m: StorageView|
            #[trigger] evict_chain(o, m, spec_json_size(s) as int, k) && m.total_bytes
                + spec_json_size(s) <= o.global_max && cap_store_step(m, f, fi, s)
    } else {
        exists|k: nat, m: StorageView|
            #[trigger] evict_chain(o, m, spec_json_size(s) as int, k) && f == m && (forall|j: int|
                0 <= j < m.entries.len() ==> (#[trigger] m.entries[j]).queue.entries.len() == 0)
    }
}

/// One store preserves the storage invariant.
proof fn lemma_store_outcome_wf(o: StorageView, f: StorageView, fi: int, s: SpotView)
    requires
        o.wf(),
        store_outcome(o, f, fi, s),
    ensures
        f.wf(),
        f.global_max == o.global_max,
        f.entries.len() == o.entries.len(),
{
    if spec_json_size(s) <= o.global_max {
        let (k, m) = choose|k: nat, m: StorageView|
            #[trigger] evict_chain(o, m, spec_json_size(s) as int, k) && m.total_bytes
                + spec_json_size(s) <= o.global_max && cap_store_step(m, f, fi, s);
        lemma_evict_chain_wf(o, m, spec_json_size(s) as int, k);
        lemma_cap_store_wf(m, f, fi, s);
    } else {
        let (k, m) = choose|k: nat, m: StorageView|
            #[trigger] evict_chain(o, m, spec_json_size(s) as int, k) && f == m && (forall|j: int|
                0 <= j < m.entries.len() ==> (#[trigger] m.entries[j]).queue.entries.len() == 0);
        lemma_evict_chain_wf(o, m, spec_json_size(s) as int, k);
    }
}

/// A whole run of stores: each request in turn relates consecutive states
/// by the store protocol.
pub open spec fn stores_run(o: StorageView, f: StorageView, reqs: Seq<(int, SpotView)>) -> bool
    decreases reqs.len(),
{
    if reqs.len() == 0 {
        f == o
    } else {
        exists|m: StorageView|
            #[trigger] store_outcome(o, m, reqs[0].0, reqs[0].1) && stores_run(
                m,
                f,
                reqs.drop_first(),
            )
    }
}

/// The storage bounds hold after any run of stores: every queue stays
/// within its entry cap and the byte total within the global budget.
pub proof fn lemma_run_storage_bounds(o: StorageView, f: StorageView, reqs: Seq<(int, SpotView)>)
    requires
        o.wf(),
        stores_run(o, f, reqs),
    ensures
        f.wf(),
        f.total_bytes <= f.global_max,
        forall|j: int|
            0 <= j < f.entries.len() ==> (#[trigger] f.entries[j]).queue.entries.len()
                <= f.entries[j].queue.cap,
        f.global_max == o.global_max,
    decreases reqs.len(),
{
    if reqs.len() != 0 {
        let m = choose|m: StorageView|
            #[trigger] store_outcome(o, m, reqs[0].0, reqs[0].1) && stores_run(
                m,
                f,
                reqs.drop_first(),
            );
        lemma_store_outcome_wf(o, m, reqs[0].0, reqs[0].1);
        lemma_run_storage_bounds(m, f, reqs.drop_first());
    }
}

/// A run in which every incoming spot fits the budget as it arrives: no
/// store ever pressures the global limit.
pub open spec fn calm_stores_run(o: StorageView, f: StorageView, reqs: Seq<(int, SpotView)>) -> bool
    decreases reqs.len(),
{
    if reqs.len() == 0 {
        f == o
    } else {
        o.total_bytes + spec_json_size(reqs[0].1) <= o.global_max && (exists|m: StorageView|
            #[trigger] store_outcome(o, m, reqs[0].0, reqs[0].1) && calm_stores_run(
                m,
                f,
                reqs.drop_first(),
            ))
    }
}

/// An unpressured store is exactly one cap-enforcing append.
proof fn lemma_calm_store(o: StorageView, f: StorageView, fi: int, s: SpotView)
    requires
        o.wf(),
        store_outcome(o, f, fi, s),
        o.total_bytes + spec_json_size(s) <= o.global_max,
    ensures
        cap_store_step(o, f, fi, s),
        f.global_evictions == o.global_evictions,
        f.wf(),
{
    let (k, m) = choose|k: nat, m: StorageView|
        #[trigger] evict_chain(o, m, spec_json_size(s) as int, k) && m.total_bytes
            + spec_json_size(s) <= o.global_max && cap_store_step(m, f, fi, s);
    lemma_evict_chain_wf(o, m, spec_json_size(s) as int, k);
    lemma_cap_store_wf(m, f, fi, s);
}

/// When the global budget is never pressured over a whole run, the global
/// eviction counter never moves.
pub proof fn lemma_run_no_global_evictions(
    o: StorageView,
    f: StorageView,
    reqs: Seq<(int, SpotView)>,
)
    requires
        o.wf(),
        calm_stores_run(o, f, reqs),
    ensures
        f.wf(),
        f.global_evictions == o.global_evictions,
    decreases reqs.len(),
{
    if reqs.len() != 0 {
        let m = choose|m: StorageView|
            #[trigger] store_outcome(o, m, reqs[0].0, reqs[0].1) && calm_stores_run(
                m,
                f,
                reqs.drop_first(),
            );
        lemma_calm_store(o, m, reqs[0].0, reqs[0].1);
        lemma_run_no_global_evictions(m, f, reqs.drop_first());
    }
}

/// How many requests of a run target queue `i`.
pub open spec fn stores_into(reqs: Seq<(int, SpotView)>, i: int) -> int
    decreases reqs.len(),
{
    if reqs.len() == 0 {
        0
    } else {
        (if reqs[0].0 == i {
            1int
        } else {
            0int
        }) + stores_into(reqs.drop_first(), i)
    }
}

/// The inductive core of the cap-eviction count: a queue that so far
/// absorbed `si` stores holds `min(si, cap)` entries and has evicted
/// `max(0, si - cap)`, and every further unpressured store keeps it so.
proof fn lemma_run_cap_evictions_inner(
    o: StorageView,
    f: StorageView,
    reqs: Seq<(int, SpotView)>,
    i: int,
    si: int,
)
    requires
        o.wf(),
        calm_stores_run(o, f, reqs),
        0 <= i < o.entries.len(),
        si >= 0,
        o.entries[i].queue.entries.len() == (if si <= o.entries[i].queue.cap {
            si
        } else {
            o.entries[i].queue.cap as int
        }),
        o.entries[i].queue.evicted == (if si <= o.entries[i].queue.cap {
            0int
        } else {
            si - o.entries[i].queue.cap
        }),
    ensures
        f.entries[i].queue.cap == o.entries[i].queue.cap,
        f.entries[i].queue.evicted == (
        if si + stores_into(reqs, i) <= o.entries[i].queue.cap {
            0int
        } else {
            si + stores_into(reqs, i) - o.entries[i].queue.cap
        }),
    decreases reqs.len(),
{
    if reqs.len() != 0 {
        let m = choose|m: StorageView|
            #[trigger] store_outcome(o, m, reqs[0].0, reqs[0].1) && calm_stores_run(
                m,
                f,
                reqs.drop_first(),
            );
        lemma_calm_store(o, m, reqs[0].0, reqs[0].1);
        let si2 = if reqs[0].0 == i {
            si + 1
        } else {
            si
        };
        lemma_run_cap_evictions_inner(m, f, reqs.drop_first(), i, si2);
    }
}

/// When the global budget is never pressured, a queue that starts empty
/// ends having evicted exactly the overflow of the stores aimed at it:
/// `max(0, stores - cap)`.
pub proof fn lemma_run_cap_evictions(
    o: StorageView,
    f: StorageView,
    reqs: Seq<(int, SpotView)>,
    i: int,
)
    requires
        o.wf(),
        calm_stores_run(o, f, reqs),
        0 <= i < o.entries.len(),
        o.entries[i].queue.entries.len() == 0,
        o.entries[i].queue.evicted == 0,
    ensures
        f.entries[i].queue.evicted == (if stores_into(reqs, i) <= o.entries[i].queue.cap {
            0int
        } else {
            stores_into(reqs, i) - o.entries[i].queue.cap
        }),
{
    lemma_run_cap_evictions_inner(o, f, reqs, i, 0);
}

} // verus!
