//! The read-ahead prefetch pipeline.
//!
//! `DataLoader` owns an ordered path list, a cursor pair (dispatched count,
//! delivered count), the set of in-flight dispatch indices and a reorder
//! buffer keyed by dispatch position. Background workers are driven from the
//! outside: `prefetch_images` hands out dispatch orders (bounded by the
//! window), `harvest` files a finished worker's result into the reorder
//! buffer, and `read_current` delivers the next item in original path order,
//! or nothing while that item is still being decoded or the list is
//! exhausted.

use vstd::prelude::*;

verus! {

/// One completed item: the source path paired with either the decoded
/// payload or a marker that decoding failed. A failed path is consumed like
/// any other but yields no displayable image; the consumer skips it and
/// pulls again.
pub struct Image<T> {
    pub source: String,
    pub buffer: Result<T, ()>,
}

/// An order to start one background decode. The worker that takes it owns
/// the path and must eventually report a `Completion` with the same index.
pub struct Dispatch {
    pub index: usize,
    pub source: String,
}

/// The result of one finished background decode, keyed by the dispatch
/// index it was ordered under.
pub struct Completion<T> {
    pub index: usize,
    pub outcome: Result<T, ()>,
}

/// The prefetch orchestrator. Single-owner: all shared state of the
/// pipeline lives here, and workers communicate only through the
/// `Dispatch` / `Completion` values that cross its boundary.
pub struct DataLoader<T> {
    paths: Vec<String>,
    index: usize,
    current_index: usize,
    capacity: usize,
    in_flight: Vec<usize>,
    ready_cnt: usize,
    slots: Vec<Option<Image<T>>>,
}

impl<T> DataLoader<T> {
    /// Total number of paths in the fixed list.
    pub closed spec fn total(&self) -> int {
        self.paths@.len() as int
    }

    /// Number of items already delivered to the consumer.
    pub closed spec fn delivered(&self) -> int {
        self.current_index as int
    }

    /// Number of paths already handed out as dispatch orders.
    pub closed spec fn dispatched(&self) -> int {
        self.index as int
    }

    /// The fixed prefetch window.
    pub closed spec fn window(&self) -> int {
        self.capacity as int
    }

    /// The path at position `i` of the original list.
    pub closed spec fn source_at(&self, i: int) -> Seq<char>
        recommends
            0 <= i < self.total(),
    {
        self.paths@[i]@
    }

    /// Number of dispatch orders handed out but not yet harvested.
    pub closed spec fn in_flight_count(&self) -> int {
        self.in_flight@.len() as int
    }

    /// Whether the path at dispatch position `i` is currently being decoded.
    pub closed spec fn is_in_flight(&self, i: int) -> bool {
        exists|k: int|
            0 <= k < self.in_flight@.len() && #[trigger] self.in_flight@[k] as int == i
    }

    /// Whether the item for dispatch position `i` sits in the reorder
    /// buffer, harvested but not yet delivered.
    pub closed spec fn ready_at(&self, i: int) -> bool {
        0 <= i < self.slots@.len() && self.slots@[i] is Some
    }

    /// The item held in the reorder buffer for dispatch position `i`.
    pub closed spec fn ready_item(&self, i: int) -> Image<T>
        recommends
            self.ready_at(i),
    {
        self.slots@[i]->0
    }

    /// Number of items harvested into the reorder buffer and not yet
    /// delivered.
    pub open spec fn ready_count(&self) -> int {
        self.dispatched() - self.delivered() - self.in_flight_count()
    }

    /// The pipeline's invariant: the cursors are ordered, at most a window
    /// of work is past the delivery cursor, in-flight indices are distinct
    /// and lie between the cursors, and every dispatched-undelivered
    /// position is either in flight or ready — never both, never neither.
    /// A ready slot holds the item for exactly its own path.
    pub closed spec fn wf(&self) -> bool {
        &&& self.capacity >= 1
        &&& self.current_index <= self.index
        &&& self.index as int <= self.paths@.len()
        &&& self.index - self.current_index <= self.capacity
        &&& self.slots@.len() == self.paths@.len()
        &&& self.ready_cnt as int == self.index - self.current_index - self.in_flight@.len()
        &&& forall|k: int|
            0 <= k < self.in_flight@.len() ==> self.current_index
                <= #[trigger] self.in_flight@[k] < self.index
        &&& forall|k1: int, k2: int|
            0 <= k1 < self.in_flight@.len() && 0 <= k2 < self.in_flight@.len() && k1 != k2
                ==> #[trigger] self.in_flight@[k1] != #[trigger] self.in_flight@[k2]
        &&& forall|i: int|
            0 <= i < self.slots@.len() ==> ((#[trigger] self.slots@[i]) is Some <==> (
            self.current_index <= i < self.index && !self.is_in_flight(i)))
        &&& forall|i: int|
            0 <= i < self.slots@.len() && (#[trigger] self.slots@[i]) is Some
                ==> self.slots@[i]->0.source@ == self.paths@[i]@
    }

    /// Creates the pipeline over a fixed, ordered, already-filtered path
    /// list with a positive prefetch window. Nothing is dispatched yet.
    pub fn new(capacity: usize, paths: Vec<String>) -> (loader: Self)
        requires
            capacity >= 1,
        ensures
            loader.wf(),
            loader.window() == capacity,
            loader.total() == paths@.len(),
            loader.delivered() == 0,
            loader.dispatched() == 0,
            loader.in_flight_count() == 0,
            forall|i: int| !(#[trigger] loader.ready_at(i)),
            forall|i: int|
                0 <= i < paths@.len() ==> #[trigger] loader.source_at(i) == paths@[i]@,
    {
        let n = paths.len();
        let mut slots: Vec<Option<Image<T>>> = Vec::new();
        let mut i: usize = 0;
        while i < n
            invariant
                i <= n,
                slots@.len() == i as int,
                forall|j: int| 0 <= j < i as int ==> (#[trigger] slots@[j]) is None,
            decreases n - i,
        {
            slots.push(None);
            i += 1;
        }
        Self {
            paths,
            index: 0,
            current_index: 0,
            capacity,
            in_flight: Vec::new(),
            ready_cnt: 0,
            slots,
        }
    }

    /// Tops the window up: hands out dispatch orders for the next paths in
    /// list order until a full window of work (ready or in flight) is past
    /// the delivery cursor, or the list is exhausted. The orders carry
    /// consecutive indices starting at the old dispatch cursor.
    pub fn prefetch_images(&mut self) -> (orders: Vec<Dispatch>)
        requires
            old(self).wf(),
        ensures
            final(self).wf(),
            final(self).window() == old(self).window(),
            final(self).total() == old(self).total(),
            final(self).delivered() == old(self).delivered(),
            final(self).dispatched() == if old(self).delivered() + old(self).window() <= old(self).total() {
                old(self).delivered() + old(self).window()
            } else {
                old(self).total()
            },
            forall|i: int|
                0 <= i < old(self).total() ==> final(self).source_at(i) == old(self).source_at(i),
            forall|i: int| (#[trigger] final(self).ready_at(i)) <==> old(self).ready_at(i),
            forall|i: int|
                old(self).ready_at(i) ==> #[trigger] final(self).ready_item(i) == old(self).ready_item(i),
            forall|i: int|
                (#[trigger] final(self).is_in_flight(i)) <==> (old(self).is_in_flight(i) || old(self).dispatched() <= i < final(self).dispatched()),
            orders@.len() == final(self).dispatched() - old(self).dispatched(),
            forall|k: int|
                0 <= k < orders@.len() ==> (#[trigger] orders@[k]).index as int == old(self).dispatched() + k && orders@[k].source@ == old(self).source_at(
                    old(self).dispatched() + k,
                ),
    {
        let ghost pre = *self;
        let mut orders: Vec<Dispatch> = Vec::new();
        let in_use = self.ready_cnt + self.in_flight.len();
        let mut free = self.capacity - in_use;
        while free > 0 && self.index < self.paths.len()
            invariant
                self.wf(),
                self.capacity == pre.capacity,
                self.current_index == pre.current_index,
                self.paths == pre.paths,
                self.slots == pre.slots,
                self.ready_cnt == pre.ready_cnt,
                pre.index <= self.index,
                free as int == self.capacity - (self.index - self.current_index),
                orders@.len() == self.index - pre.index,
                forall|k: int|
                    0 <= k < orders@.len() ==> (#[trigger] orders@[k]).index as int == pre.index
                        + k && orders@[k].source@ == pre.paths@[pre.index + k]@,
                self.in_flight@.len() == pre.in_flight@.len() + (self.index - pre.index),
                forall|k: int|
                    0 <= k < pre.in_flight@.len() ==> #[trigger] self.in_flight@[k]
                        == pre.in_flight@[k],
                forall|k: int|
                    pre.in_flight@.len() <= k < self.in_flight@.len()
                        ==> #[trigger] self.in_flight@[k] as int == pre.index + (
                    k - pre.in_flight@.len()),
            decreases free,
        {
            let ghost prev = *self;
            let j = self.index;
            let path = self.paths[j].clone();
            orders.push(Dispatch { index: j, source: path });
            self.in_flight.push(j);
            self.index = j + 1;
            free = free - 1;
            proof {
                assert forall|i: int| #[trigger]
                    self.is_in_flight(i) implies (prev.is_in_flight(i) || i == j as int) by {
                    let q = choose|q: int|
                        0 <= q < self.in_flight@.len() && #[trigger] self.in_flight@[q] as int
                            == i;
                    if q < prev.in_flight@.len() {
                        assert(prev.in_flight@[q] as int == i);
                    }
                }
                assert forall|i: int|
                    (prev.is_in_flight(i) || i == j as int) implies #[trigger] self.is_in_flight(
                    i) by {
                    if prev.is_in_flight(i) {
                        let q = choose|q: int|
                            0 <= q < prev.in_flight@.len() && #[trigger] prev.in_flight@[q] as int
                                == i;
                        assert(self.in_flight@[q] as int == i);
                    } else {
                        assert(self.in_flight@[prev.in_flight@.len() as int] as int == i);
                    }
                }
                assert forall|i: int| 0 <= i < self.slots@.len() implies ((
                #[trigger] self.slots@[i]) is Some <==> (self.current_index <= i < self.index
                    && !self.is_in_flight(i))) by {
                    assert(self.slots@[i] == prev.slots@[i]);
                    if i == j as int {
                        assert(!(prev.current_index <= i < prev.index));
                    }
                }
            }
        }
        proof {
            assert forall|i: int| #[trigger]
                self.is_in_flight(i) implies (pre.is_in_flight(i) || pre.index <= i
                < self.index) by {
                let k = choose|k: int|
                    0 <= k < self.in_flight@.len() && #[trigger] self.in_flight@[k] as int == i;
                if k < pre.in_flight@.len() {
                    assert(pre.in_flight@[k] as int == i);
                }
            }
            assert forall|i: int|
                (pre.is_in_flight(i) || pre.index <= i < self.index) implies #[trigger] self
                .is_in_flight(i) by {
                if pre.is_in_flight(i) {
                    let k = choose|k: int|
                        0 <= k < pre.in_flight@.len() && #[trigger] pre.in_flight@[k] as int == i;
                    assert(self.in_flight@[k] as int == i);
                } else {
                    let k = pre.in_flight@.len() + (i - pre.index);
                    assert(self.in_flight@[k] as int == i);
                }
            }
        }
        orders
    }

    /// Files one finished worker's result into the reorder buffer at its
    /// dispatch position. The slot records exactly the worker's outcome,
    /// paired with the path that was dispatched under that index.
    pub fn harvest(&mut self, done: Completion<T>)
        requires
            old(self).wf(),
            old(self).is_in_flight(done.index as int),
        ensures
            final(self).wf(),
            final(self).window() == old(self).window(),
            final(self).total() == old(self).total(),
            final(self).delivered() == old(self).delivered(),
            final(self).dispatched() == old(self).dispatched(),
            final(self).in_flight_count() == old(self).in_flight_count() - 1,
            forall|i: int|
                0 <= i < old(self).total() ==> final(self).source_at(i) == old(self).source_at(i),
            !final(self).is_in_flight(done.index as int),
            forall|i: int|
                i != done.index as int ==> ((#[trigger] final(self).is_in_flight(i)) <==> old(self).is_in_flight(i)),
            final(self).ready_at(done.index as int),
            final(self).ready_item(done.index as int).source@ == old(self).source_at(
                done.index as int,
            ),
            final(self).ready_item(done.index as int).buffer == done.outcome,
            forall|i: int|
                i != done.index as int ==> ((#[trigger] final(self).ready_at(i)) <==> old(self).ready_at(i)),
            forall|i: int|
                i != done.index as int && old(self).ready_at(i) ==> #[trigger] final(self).ready_item(i) == old(self).ready_item(i),
    {
        let ghost pre = *self;
        let idx = done.index;
        let n = self.in_flight.len();
        let mut k: usize = 0;
        while k < n && self.in_flight[k] != idx
            invariant
                n == self.in_flight@.len(),
                k <= n,
                self.in_flight == pre.in_flight,
                forall|j: int| 0 <= j < k as int ==> #[trigger] self.in_flight@[j] != idx,
            decreases n - k,
        {
            k += 1;
        }
        proof {
            let w = choose|w: int|
                0 <= w < pre.in_flight@.len() && #[trigger] pre.in_flight@[w] as int
                    == done.index as int;
            assert(k < n);
        }
        self.in_flight.remove(k);
        let source = self.paths[idx].clone();
        let item = Image { source, buffer: done.outcome };
        let _vacant = self.slots.remove(idx);
        self.slots.insert(idx, Some(item));
        self.ready_cnt = self.ready_cnt + 1;
        proof {
            assert(self.slots@ =~= pre.slots@.update(idx as int, self.slots@[idx as int]));
            assert forall|i: int|
                i != done.index as int implies ((#[trigger] self.is_in_flight(i)) <==> pre
                .is_in_flight(i)) by {
                if self.is_in_flight(i) {
                    let q = choose|q: int|
                        0 <= q < self.in_flight@.len() && #[trigger] self.in_flight@[q] as int
                            == i;
                    if q < k as int {
                        assert(pre.in_flight@[q] as int == i);
                    } else {
                        assert(pre.in_flight@[q + 1] as int == i);
                    }
                }
                if pre.is_in_flight(i) {
                    let q = choose|q: int|
                        0 <= q < pre.in_flight@.len() && #[trigger] pre.in_flight@[q] as int == i;
                    if q < k as int {
                        assert(self.in_flight@[q] as int == i);
                    } else {
                        assert(q != k as int);
                        assert(self.in_flight@[q - 1] as int == i);
                    }
                }
            }
            assert(!self.is_in_flight(done.index as int)) by {
                if self.is_in_flight(done.index as int) {
                    let q = choose|q: int|
                        0 <= q < self.in_flight@.len() && #[trigger] self.in_flight@[q] as int
                            == done.index as int;
                    if q < k as int {
                        assert(pre.in_flight@[q] as int == done.index as int);
                    } else {
                        assert(pre.in_flight@[q + 1] as int == done.index as int);
                        assert(pre.in_flight@[q + 1] != pre.in_flight@[k as int]);
                    }
                }
            }
        }
    }

    /// Delivers the next item in original path order, if its decode has
    /// been harvested: the returned item is exactly the one the reorder
    /// buffer held for the delivery cursor, and the cursor advances by one.
    /// Returns nothing — and changes nothing — while that item is still
    /// outstanding, and forever after the list is exhausted.
    pub fn read_current(&mut self) -> (item: Option<Image<T>>)
        requires
            old(self).wf(),
        ensures
            final(self).wf(),
            final(self).window() == old(self).window(),
            final(self).total() == old(self).total(),
            final(self).dispatched() == old(self).dispatched(),
            forall|i: int|
                (#[trigger] final(self).is_in_flight(i)) <==> old(self).is_in_flight(i),
            forall|i: int|
                0 <= i < old(self).total() ==> final(self).source_at(i) == old(self).source_at(i),
            old(self).delivered() <= final(self).delivered() <= old(self).delivered() + 1,
            old(self).ready_at(old(self).delivered()) ==> item == Some(
                old(self).ready_item(old(self).delivered()),
            ) && final(self).delivered() == old(self).delivered() + 1,
            !old(self).ready_at(old(self).delivered()) ==> item is None && final(self).delivered()
                == old(self).delivered(),
            old(self).delivered() == old(self).total() ==> item is None && final(self).delivered()
                == old(self).delivered(),
            !final(self).ready_at(old(self).delivered()),
            forall|i: int|
                i != old(self).delivered() ==> ((#[trigger] final(self).ready_at(i)) <==> old(self).ready_at(i)),
            forall|i: int|
                i != old(self).delivered() && old(self).ready_at(i) ==> #[trigger] final(self).ready_item(i) == old(self).ready_item(i),
    {
        let ghost pre = *self;
        let cur = self.current_index;
        if cur < self.slots.len() && self.slots[cur].is_some() {
            proof {
                lemma_distinct_in_range(
                    self.in_flight@,
                    self.current_index as int + 1,
                    self.index as int,
                );
            }
            let entry = self.slots.remove(cur);
            self.slots.insert(cur, None);
            self.current_index = cur + 1;
            self.ready_cnt = self.ready_cnt - 1;
            proof {
                assert(self.slots@ =~= pre.slots@.update(cur as int, None));
            }
            entry
        } else {
            None
        }
    }

    /// Number of items delivered so far.
    pub fn current(&self) -> (n: usize)
        ensures
            n == self.delivered(),
    {
        self.current_index
    }

    /// Total number of paths in the list.
    pub fn len(&self) -> (n: usize)
        ensures
            n == self.total(),
    {
        self.paths.len()
    }

    /// The pull-side progress pair: items delivered against the total.
    pub fn progress(&self) -> (p: (usize, usize))
        ensures
            p.0 == self.delivered(),
            p.1 == self.total(),
    {
        (self.current_index, self.paths.len())
    }

    /// Whether the item due next is already in the reorder buffer.
    pub fn can_deliver(&self) -> (b: bool)
        requires
            self.wf(),
        ensures
            b == self.ready_at(self.delivered()),
    {
        self.current_index < self.slots.len() && self.slots[self.current_index].is_some()
    }

    /// Whether every path has been delivered (the terminal state).
    pub fn is_exhausted(&self) -> (b: bool)
        ensures
            b == (self.delivered() == self.total()),
    {
        self.current_index == self.paths.len()
    }

    /// Whether a dispatch order with this index is still outstanding.
    pub fn is_pending(&self, index: usize) -> (b: bool)
        ensures
            b == self.is_in_flight(index as int),
    {
        let n = self.in_flight.len();
        let mut k: usize = 0;
        while k < n
            invariant
                n == self.in_flight@.len(),
                k <= n,
                forall|j: int| 0 <= j < k as int ==> #[trigger] self.in_flight@[j] != index,
            decreases n - k,
        {
            if self.in_flight[k] == index {
                return true;
            }
            k += 1;
        }
        false
    }

    /// Number of dispatch orders currently outstanding.
    pub fn in_flight_len(&self) -> (n: usize)
        ensures
            n == self.in_flight_count(),
    {
        self.in_flight.len()
    }

    /// Number of harvested items waiting in the reorder buffer.
    pub fn ready_len(&self) -> (n: usize)
        requires
            self.wf(),
        ensures
            n == self.ready_count(),
    {
        self.ready_cnt
    }

    /// Whether the consumer's pull must block: the item due next is not
    /// ready, yet at least one worker is still decoding.
    pub fn needs_wait(&self) -> (b: bool)
        requires
            self.wf(),
        ensures
            b == (!self.ready_at(self.delivered()) && self.in_flight_count() > 0),
    {
        !self.can_deliver() && self.in_flight.len() > 0
    }
}

/// Bounded concurrency: work past the delivery cursor — in flight plus
/// ready — never exceeds the window, however long the path list is.
pub proof fn lemma_bounded_window<T>(loader: &DataLoader<T>)
    requires
        loader.wf(),
    ensures
        loader.ready_count() >= 0,
        loader.in_flight_count() + loader.ready_count() <= loader.window(),
        loader.in_flight_count() <= loader.window(),
        loader.dispatched() - loader.delivered() <= loader.window(),
{
}

/// The cursors are always ordered: delivered never exceeds dispatched,
/// which never exceeds the total.
pub proof fn lemma_counters_ordered<T>(loader: &DataLoader<T>)
    requires
        loader.wf(),
    ensures
        0 <= loader.delivered() <= loader.dispatched() <= loader.total(),
{
}

/// Forward progress: whenever dispatch has moved past the delivery cursor,
/// the item due next is either already ready or being decoded right now —
/// so a blocking wait for one completion can never deadlock, even with a
/// window of one.
pub proof fn lemma_progress<T>(loader: &DataLoader<T>)
    requires
        loader.wf(),
        loader.delivered() < loader.dispatched(),
    ensures
        loader.ready_at(loader.delivered()) || loader.is_in_flight(loader.delivered()),
        loader.is_in_flight(loader.delivered()) ==> loader.in_flight_count() > 0,
{
}

/// Exhaustion: once every path has been delivered the pipeline is
/// quiescent — nothing in flight, nothing ready, nothing left to dispatch.
pub proof fn lemma_exhausted_quiescent<T>(loader: &DataLoader<T>)
    requires
        loader.wf(),
        loader.delivered() == loader.total(),
    ensures
        loader.dispatched() == loader.total(),
        loader.in_flight_count() == 0,
        forall|i: int| !(#[trigger] loader.ready_at(i)),
{
    if loader.in_flight_count() > 0 {
        assert(loader.delivered() <= loader.in_flight@[0] < loader.dispatched());
    }
}

/// Order preservation: a ready item always carries the path at its own
/// dispatch position, so items are delivered in the original path order.
pub proof fn lemma_order_preserved<T>(loader: &DataLoader<T>, i: int)
    requires
        loader.wf(),
        loader.ready_at(i),
    ensures
        0 <= i < loader.total(),
        loader.ready_item(i).source@ == loader.source_at(i),
{
}

/// A sequence of distinct values drawn from an integer range is no longer
/// than the range.
proof fn lemma_distinct_in_range(s: Seq<usize>, lo: int, hi: int)
    requires
        lo <= hi,
        forall|k: int| 0 <= k < s.len() ==> lo <= #[trigger] s[k] < hi,
        forall|k1: int, k2: int|
            0 <= k1 < s.len() && 0 <= k2 < s.len() && k1 != k2 ==> #[trigger] s[k1]
                != #[trigger] s[k2],
    ensures
        s.len() <= hi - lo,
    decreases hi - lo,
{
    if hi == lo {
        if s.len() > 0 {
            assert(lo <= s[0] < hi);
        }
    } else {
        if exists|p: int| 0 <= p < s.len() && #[trigger] s[p] as int == hi - 1 {
            let p = choose|p: int| 0 <= p < s.len() && #[trigger] s[p] as int == hi - 1;
            let t = s.remove(p);
            assert forall|k: int| 0 <= k < t.len() implies lo <= #[trigger] t[k] < hi - 1 by {
                if k < p {
                    assert(t[k] == s[k]);
                    assert(s[k] != s[p]);
                } else {
                    assert(t[k] == s[k + 1]);
                    assert(s[k + 1] != s[p]);
                }
            }
            assert forall|k1: int, k2: int|
                0 <= k1 < t.len() && 0 <= k2 < t.len() && k1 != k2 implies #[trigger] t[k1]
                != #[trigger] t[k2] by {
                let j1 = if k1 < p { k1 } else { k1 + 1 };
                let j2 = if k2 < p { k2 } else { k2 + 1 };
                assert(t[k1] == s[j1]);
                assert(t[k2] == s[j2]);
            }
            lemma_distinct_in_range(t, lo, hi - 1);
        } else {
            assert forall|k: int| 0 <= k < s.len() implies lo <= #[trigger] s[k] < hi - 1 by {
                assert(s[k] as int != hi - 1);
            }
            lemma_distinct_in_range(s, lo, hi - 1);
        }
    }
}

} // verus!
