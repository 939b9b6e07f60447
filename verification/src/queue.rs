//! The per-channel capped queue: an ordered list of retained, non-pinned
//! messages bounded by `limit`, a time-ordered list of pinned messages
//! that is exempt from the limit, and the operations that keep both lists
//! within the invariants — FIFO eviction on insert, removal from either
//! list, targeted pin insertion, limit resizing, and the reconciliation
//! of the pin list against a fresh remote snapshot.
//!
//! Every operation returns the identifiers it evicted; issuing the
//! best-effort remote deletions for them is the caller's task, so the
//! transitions here stay pure.

use std::collections::VecDeque;
use vstd::prelude::*;

use crate::msg::MessageRef;
use crate::msg::contains_id;
use crate::msg::disjoint_ids;
use crate::msg::distinct_ids;
use crate::msg::ids_of;
use crate::msg::lemma_filter_all;
use crate::msg::lemma_filter_contains_id;
use crate::msg::lemma_filter_none;
use crate::msg::lemma_filter_distinct_ids;
use crate::msg::lemma_filter_sorted;
use crate::msg::lemma_skip_ids;
use crate::msg::lemma_sort_contains_id;
use crate::msg::lemma_sort_distinct;
use crate::msg::lemma_sort_len;
use crate::msg::lemma_sort_of_sorted;
use crate::msg::lemma_sort_sorted;
use crate::msg::lemma_sorted_insert_contains_id;
use crate::msg::lemma_sorted_insert_distinct;
use crate::msg::not_id;
use crate::msg::id_absent_from;
use crate::msg::lemma_sorted_insert_sorted;
use crate::msg::sort_msgs;
use crate::msg::sorted_insert;
use crate::msg::sorted_by_ts;
use crate::msg::spec_sort_by_ts;
use crate::msg::spec_sorted_insert;

verus! {

/// How many front entries an insertion into a queue of length `len` with
/// the given `limit` evicts: enough to leave room for one more.
pub open spec fn insert_evict_count(len: int, limit: int) -> int {
    if len >= limit {
        len - limit + 1
    } else {
        0
    }
}

/// How many front entries a resize to `limit` of a queue of length `len`
/// evicts: `max(0, len - limit)`.
pub open spec fn shrink_evict_count(len: int, limit: int) -> int {
    if len > limit {
        len - limit
    } else {
        0
    }
}

/// The candidate list reconciliation builds before eviction: pins whose
/// pin was lifted, then the queue entries that are still unpinned, the
/// whole time-ordered.
pub open spec fn spec_reconcile_candidates(
    queue: Seq<MessageRef>,
    pins: Seq<MessageRef>,
    snap: Seq<MessageRef>,
) -> Seq<MessageRef> {
    spec_sort_by_ts(pins.filter(id_absent_from(snap)) + queue.filter(id_absent_from(snap)))
}

/// The queue reconciliation leaves behind: the candidates with the
/// oldest entries evicted down to `limit`.
pub open spec fn spec_reconcile_queue(
    queue: Seq<MessageRef>,
    pins: Seq<MessageRef>,
    limit: int,
    snap: Seq<MessageRef>,
) -> Seq<MessageRef> {
    let cand = spec_reconcile_candidates(queue, pins, snap);
    cand.skip(shrink_evict_count(cand.len() as int, limit))
}

/// The identifiers reconciliation evicts, oldest first.
pub open spec fn spec_reconcile_evicted(
    queue: Seq<MessageRef>,
    pins: Seq<MessageRef>,
    limit: int,
    snap: Seq<MessageRef>,
) -> Seq<u64> {
    let cand = spec_reconcile_candidates(queue, pins, snap);
    ids_of(cand.take(shrink_evict_count(cand.len() as int, limit)))
}

/// One channel's retention state.
pub struct CappedQueue {
    /// Retained, non-pinned messages, oldest at the front.
    pub queue: VecDeque<MessageRef>,
    /// Pinned messages, ascending by timestamp; exempt from the limit.
    pub pins: VecDeque<MessageRef>,
    /// Maximum size of `queue`; always positive.
    pub limit: usize,
}

impl CappedQueue {
    /// The resting invariants: the queue is within its positive limit,
    /// no identifier repeats, the two lists share no identifier, and the
    /// pin list is time-ordered.
    pub open spec fn wf(&self) -> bool {
        &&& self.limit >= 1
        &&& self.queue@.len() <= self.limit
        &&& distinct_ids(self.queue@)
        &&& distinct_ids(self.pins@)
        &&& disjoint_ids(self.queue@, self.pins@)
        &&& sorted_by_ts(self.pins@)
    }

    /// A fresh, empty queue with the given limit.
    pub fn new(limit: usize) -> (r: Self)
        requires
            limit >= 1,
        ensures
            r.wf(),
            r.queue@ == Seq::<MessageRef>::empty(),
            r.pins@ == Seq::<MessageRef>::empty(),
            r.limit == limit,
    {
        CappedQueue { queue: VecDeque::new(), pins: VecDeque::new(), limit }
    }

    /// Append (live traffic) or prepend (historical backfill) one retained
    /// message, first evicting from the front while the queue is full.
    /// The evicted identifiers come back in eviction order for the caller
    /// to delete remotely.
    pub fn insert(&mut self, m: MessageRef, push_back: bool) -> (evicted: Vec<u64>)
        requires
            old(self).wf(),
            !contains_id(old(self).queue@, m.id),
            !contains_id(old(self).pins@, m.id),
        ensures
            final(self).wf(),
            final(self).limit == old(self).limit,
            final(self).pins@ == old(self).pins@,
            ({
                let k = insert_evict_count(old(self).queue@.len() as int, old(self).limit as int);
                &&& evicted@ == ids_of(old(self).queue@.take(k))
                &&& final(self).queue@ == if push_back {
                    old(self).queue@.skip(k).push(m)
                } else {
                    seq![m] + old(self).queue@.skip(k)
                }
            }),
    {
        let ghost q0 = self.queue@;
        let ghost k = insert_evict_count(q0.len() as int, self.limit as int);
        let mut evicted: Vec<u64> = Vec::new();
        while self.queue.len() >= self.limit
            invariant
                self.limit == old(self).limit,
                self.limit >= 1,
                self.pins@ == old(self).pins@,
                k == insert_evict_count(q0.len() as int, self.limit as int),
                evicted@.len() <= k <= q0.len(),
                self.queue@ == q0.skip(evicted@.len() as int),
                evicted@ == ids_of(q0.take(evicted@.len() as int)),
            decreases self.queue@.len(),
        {
            let ghost e = evicted@.len() as int;
            proof {
                assert(self.queue@.len() == q0.len() - e);
                assert(q0.len() - e >= self.limit);
                assert(e < k);
            }
            match self.queue.pop_front() {
                Some(old_msg) => {
                    evicted.push(old_msg.id);
                    proof {
                        assert(self.queue@ =~= q0.skip(e + 1));
                        assert(ids_of(q0.take(e + 1)) =~= ids_of(q0.take(e)).push(q0[e].id));
                    }
                },
                None => {
                    proof {
                        assert(false);
                    }
                },
            }
        }
        proof {
            assert(evicted@.len() == k);
        }
        let ghost rest = q0.skip(k);
        if push_back {
            self.queue.push_back(m);
        } else {
            self.queue.push_front(m);
        }
        proof {
            lemma_skip_ids(q0, k);
            let q1 = self.queue@;
            assert forall|i: int, j: int| 0 <= i < j < q1.len() implies q1[i].id != q1[j].id by {
                if push_back {
                    if j == q1.len() - 1 {
                        assert(contains_id(rest, q1[i].id));
                    }
                } else {
                    if i == 0 {
                        assert(contains_id(rest, q1[j].id));
                    }
                }
            }
            assert forall|id: u64| contains_id(q1, id) implies !contains_id(
                self.pins@,
                id,
            ) by {
                let i = choose|i: int| 0 <= i < q1.len() && q1[i].id == id;
                if push_back {
                    if i < q1.len() - 1 {
                        assert(contains_id(rest, id));
                    }
                } else {
                    if i > 0 {
                        assert(contains_id(rest, id));
                    }
                }
            }
        }
        evicted
    }

    /// Insert one pinned message at its chronological position among the
    /// pins. This is the targeted insert used while backfilling a newly
    /// configured channel; live pin changes go through `reconcile_pins`.
    pub fn insert_pin(&mut self, m: MessageRef)
        requires
            old(self).wf(),
            !contains_id(old(self).queue@, m.id),
            !contains_id(old(self).pins@, m.id),
        ensures
            final(self).wf(),
            final(self).limit == old(self).limit,
            final(self).queue@ == old(self).queue@,
            final(self).pins@ == spec_sorted_insert(old(self).pins@, m),
    {
        proof {
            lemma_sorted_insert_sorted(self.pins@, m);
            lemma_sorted_insert_distinct(self.pins@, m);
            assert forall|id: u64| contains_id(self.queue@, id) implies !contains_id(
                spec_sorted_insert(self.pins@, m),
                id,
            ) by {
                lemma_sorted_insert_contains_id(self.pins@, m, id);
            }
        }
        sorted_insert(&mut self.pins, m);
    }

    /// Change the limit. Shrinking below the current occupancy evicts the
    /// oldest entries down to the new limit; raising (or holding) the
    /// limit never evicts anything.
    pub fn apply_limit(&mut self, new_limit: usize) -> (evicted: Vec<u64>)
        requires
            old(self).wf(),
            new_limit >= 1,
        ensures
            final(self).wf(),
            final(self).limit == new_limit,
            final(self).pins@ == old(self).pins@,
            ({
                let k = shrink_evict_count(old(self).queue@.len() as int, new_limit as int);
                &&& evicted@ == ids_of(old(self).queue@.take(k))
                &&& final(self).queue@ == old(self).queue@.skip(k)
            }),
            old(self).limit <= new_limit ==> final(self).queue@ == old(self).queue@
                && evicted@ == Seq::<u64>::empty(),
    {
        let ghost q0 = self.queue@;
        let ghost k = shrink_evict_count(q0.len() as int, new_limit as int);
        let mut evicted: Vec<u64> = Vec::new();
        while self.queue.len() > new_limit
            invariant
                k == shrink_evict_count(q0.len() as int, new_limit as int),
                self.limit == old(self).limit,
                self.pins@ == old(self).pins@,
                evicted@.len() <= k <= q0.len(),
                self.queue@ == q0.skip(evicted@.len() as int),
                evicted@ == ids_of(q0.take(evicted@.len() as int)),
            decreases self.queue@.len(),
        {
            let ghost e = evicted@.len() as int;
            proof {
                assert(self.queue@.len() == q0.len() - e);
                assert(e < k);
            }
            match self.queue.pop_front() {
                Some(old_msg) => {
                    evicted.push(old_msg.id);
                    proof {
                        assert(self.queue@ =~= q0.skip(e + 1));
                        assert(ids_of(q0.take(e + 1)) =~= ids_of(q0.take(e)).push(q0[e].id));
                    }
                },
                None => {
                    proof {
                        assert(false);
                    }
                },
            }
        }
        self.limit = new_limit;
        proof {
            assert(evicted@.len() == k);
            lemma_skip_ids(q0, k);
            if old(self).limit <= new_limit {
                assert(k == 0);
                assert(q0.skip(0) =~= q0);
            }
        }
        evicted
    }

    /// Reconcile the local pin view with a fresh remote snapshot: newly
    /// pinned messages leave the queue (now exempt from the limit),
    /// messages whose pin was lifted re-enter it at their chronological
    /// position, the queue is evicted from the front down to the limit,
    /// and the pin list becomes the snapshot in time order.
    pub fn reconcile_pins(&mut self, snapshot: &Vec<MessageRef>) -> (evicted: Vec<u64>)
        requires
            old(self).wf(),
            distinct_ids(snapshot@),
        ensures
            final(self).wf(),
            final(self).limit == old(self).limit,
            final(self).queue@ == spec_reconcile_queue(
                old(self).queue@,
                old(self).pins@,
                old(self).limit as int,
                snapshot@,
            ),
            evicted@ == spec_reconcile_evicted(
                old(self).queue@,
                old(self).pins@,
                old(self).limit as int,
                snapshot@,
            ),
            final(self).pins@ == spec_sort_by_ts(snapshot@),
    {
        let ghost pred = id_absent_from(snapshot@);
        let ghost p0 = self.pins@;
        let ghost q0 = self.queue@;

        // candidate list: pins that were lifted, then the still-unpinned
        // queue entries, in their existing orders
        let mut cand: VecDeque<MessageRef> = VecDeque::new();
        proof {
            reveal(Seq::filter);
            assert(p0.take(0).filter(pred) =~= Seq::<MessageRef>::empty());
        }
        let mut i: usize = 0;
        while i < self.pins.len()
            invariant
                i <= p0.len(),
                self.pins@ == p0,
                self.queue@ == q0,
                self.limit == old(self).limit,
                cand@ == p0.take(i as int).filter(id_absent_from(snapshot@)),
            decreases p0.len() - i,
        {
            let m = self.pins[i];
            if !vec_contains_id(snapshot, m.id) {
                cand.push_back(m);
            }
            proof {
                assert(p0.take(i as int + 1) =~= p0.take(i as int).push(p0[i as int]));
                p0.take(i as int).lemma_filter_push(p0[i as int], id_absent_from(snapshot@));
            }
            i += 1;
        }
        let ghost freed = p0.filter(pred);
        proof {
            assert(p0.take(p0.len() as int) =~= p0);
            assert(freed + q0.take(0).filter(pred) =~= freed) by {
                reveal(Seq::filter);
                assert(q0.take(0).filter(pred) =~= Seq::<MessageRef>::empty());
            }
        }
        let mut j: usize = 0;
        while j < self.queue.len()
            invariant
                j <= q0.len(),
                self.pins@ == p0,
                self.queue@ == q0,
                self.limit == old(self).limit,
                cand@ == p0.filter(id_absent_from(snapshot@)) + q0.take(j as int).filter(
                    id_absent_from(snapshot@),
                ),
            decreases q0.len() - j,
        {
            let m = self.queue[j];
            if !vec_contains_id(snapshot, m.id) {
                cand.push_back(m);
            }
            proof {
                let p = id_absent_from(snapshot@);
                assert(q0.take(j as int + 1) =~= q0.take(j as int).push(q0[j as int]));
                q0.take(j as int).lemma_filter_push(q0[j as int], p);
                if p(q0[j as int]) {
                    assert((p0.filter(p) + q0.take(j as int).filter(p)).push(q0[j as int])
                        =~= p0.filter(p) + q0.take(j as int).filter(p).push(q0[j as int]));
                }
            }
            j += 1;
        }
        proof {
            assert(q0.take(q0.len() as int) =~= q0);
        }
        let ghost kept = q0.filter(pred);

        // time-order the candidates, then evict from the front down to the
        // limit
        let mut merged = sort_msgs(&cand);
        let ghost c0 = merged@;
        let ghost k = shrink_evict_count(c0.len() as int, self.limit as int);
        let mut evicted: Vec<u64> = Vec::new();
        while merged.len() > self.limit
            invariant
                k == shrink_evict_count(c0.len() as int, self.limit as int),
                self.limit == old(self).limit,
                self.pins@ == p0,
                evicted@.len() <= k <= c0.len(),
                merged@ == c0.skip(evicted@.len() as int),
                evicted@ == ids_of(c0.take(evicted@.len() as int)),
            decreases merged@.len(),
        {
            let ghost e = evicted@.len() as int;
            proof {
                assert(merged@.len() == c0.len() - e);
                assert(e < k);
            }
            match merged.pop_front() {
                Some(old_msg) => {
                    evicted.push(old_msg.id);
                    proof {
                        assert(merged@ =~= c0.skip(e + 1));
                        assert(ids_of(c0.take(e + 1)) =~= ids_of(c0.take(e)).push(c0[e].id));
                    }
                },
                None => {
                    proof {
                        assert(false);
                    }
                },
            }
        }
        proof {
            assert(evicted@.len() == k);
        }
        self.queue = merged;

        // the pin list becomes the snapshot, time-ordered
        let snap_deque = to_deque(snapshot);
        self.pins = sort_msgs(&snap_deque);

        proof {
            lemma_reconcile_candidates_wf(q0, p0, snapshot@);
            lemma_sort_sorted(freed + kept);
            lemma_sort_distinct(freed + kept);
            lemma_skip_ids(c0, k);
            lemma_sort_len(freed + kept);

            lemma_sort_sorted(snapshot@);
            lemma_sort_distinct(snapshot@);

            // the new queue and new pins share no identifier: queue
            // entries survived the "still unpinned" filters, pin entries
            // all come from the snapshot
            assert forall|id: u64| contains_id(self.queue@, id) implies !contains_id(
                self.pins@,
                id,
            ) by {
                lemma_sort_contains_id(freed + kept, id);
                lemma_sort_contains_id(snapshot@, id);
                if contains_id(self.queue@, id) {
                    assert(contains_id(c0, id));
                    assert(contains_id(freed + kept, id));
                    lemma_candidates_absent_from_snapshot(q0, p0, snapshot@, id);
                }
            }
        }
        evicted
    }

    /// Drop the message carrying `id` from both lists, wherever it sits;
    /// a no-op when the identifier is unknown.
    pub fn remove_id(&mut self, id: u64)
        requires
            old(self).wf(),
        ensures
            final(self).wf(),
            final(self).limit == old(self).limit,
            final(self).queue@ == old(self).queue@.filter(not_id(id)),
            final(self).pins@ == old(self).pins@.filter(not_id(id)),
    {
        let new_queue = filter_out_id(&self.queue, id);
        let new_pins = filter_out_id(&self.pins, id);
        proof {
            let pred = not_id(id);
            broadcast use Seq::lemma_filter_len;

            lemma_filter_distinct_ids(old(self).queue@, pred);
            lemma_filter_distinct_ids(old(self).pins@, pred);
            lemma_filter_sorted(old(self).pins@, pred);
            assert forall|x: u64| contains_id(old(self).queue@.filter(pred), x) implies
                !contains_id(old(self).pins@.filter(pred), x) by {
                lemma_filter_contains_id(old(self).queue@, pred, x);
                lemma_filter_contains_id(old(self).pins@, pred, x);
            }
        }
        self.queue = new_queue;
        self.pins = new_pins;
    }
}

/// Reconciliation is idempotent: a second reconciliation against an
/// unchanged remote snapshot finds nothing newly pinned and nothing
/// lifted, leaves the queue and the pin list exactly as they stand, and
/// evicts nothing — so no further remote delete calls are issued.
#[verifier::rlimit(50)]
pub proof fn lemma_reconcile_idempotent(
    queue: Seq<MessageRef>,
    pins: Seq<MessageRef>,
    limit: int,
    snap: Seq<MessageRef>,
)
    requires
        limit >= 1,
    ensures
        ({
            let q1 = spec_reconcile_queue(queue, pins, limit, snap);
            let p1 = spec_sort_by_ts(snap);
            &&& spec_reconcile_queue(q1, p1, limit, snap) == q1
            &&& spec_reconcile_evicted(q1, p1, limit, snap) == Seq::<u64>::empty()
        }),
{
    let pred = id_absent_from(snap);
    let cand1 = spec_reconcile_candidates(queue, pins, snap);
    let k1 = shrink_evict_count(cand1.len() as int, limit);
    let q1 = cand1.skip(k1);
    let p1 = spec_sort_by_ts(snap);

    // nothing is lifted the second time: every pin now stems from the
    // snapshot itself
    assert forall|i: int| 0 <= i < p1.len() implies !pred(p1[i]) by {
        assert(contains_id(p1, p1[i].id));
        lemma_sort_contains_id(snap, p1[i].id);
    }
    lemma_filter_none(p1, pred);

    // nothing is newly pinned the second time: every queue entry
    // survived the first filter, so its identifier is absent from the
    // snapshot
    lemma_sort_len(pins.filter(pred) + queue.filter(pred));
    assert forall|i: int| 0 <= i < q1.len() implies pred(q1[i]) by {
        assert(contains_id(q1, q1[i].id));
        lemma_skip_ids(cand1, k1);
        lemma_sort_contains_id(pins.filter(pred) + queue.filter(pred), q1[i].id);
        lemma_candidates_absent_from_snapshot(queue, pins, snap, q1[i].id);
    }
    lemma_filter_all(q1, pred);

    // the second candidate list is the first result, already time-ordered
    assert(p1.filter(pred) + q1.filter(pred) =~= q1);
    lemma_sort_sorted(pins.filter(pred) + queue.filter(pred));
    lemma_skip_ids(cand1, k1);
    lemma_sort_of_sorted(q1);
    let cand2 = spec_reconcile_candidates(q1, p1, snap);
    assert(cand2 == q1);

    // and it already fits the limit, so nothing is evicted
    assert(q1.len() <= limit);
    let k2 = shrink_evict_count(cand2.len() as int, limit);
    assert(k2 == 0);
    assert(cand2.skip(0) =~= cand2);
    assert(ids_of(cand2.take(0)) =~= Seq::<u64>::empty());
}

/// The reconciliation candidates carry distinct identifiers: both parts
/// are filters of lists with distinct identifiers, and the parts draw
/// from the disjoint pin and queue lists.
proof fn lemma_reconcile_candidates_wf(
    queue: Seq<MessageRef>,
    pins: Seq<MessageRef>,
    snap: Seq<MessageRef>,
)
    requires
        distinct_ids(queue),
        distinct_ids(pins),
        disjoint_ids(queue, pins),
    ensures
        distinct_ids(pins.filter(id_absent_from(snap)) + queue.filter(id_absent_from(snap))),
{
    let pred = id_absent_from(snap);
    let freed = pins.filter(pred);
    let kept = queue.filter(pred);
    lemma_filter_distinct_ids(pins, pred);
    lemma_filter_distinct_ids(queue, pred);
    let cand = freed + kept;
    assert forall|i: int, j: int| 0 <= i < j < cand.len() implies cand[i].id != cand[j].id by {
        if i < freed.len() && j >= freed.len() {
            assert(cand[i] == freed[i]);
            assert(cand[j] == kept[j - freed.len()]);
            assert(contains_id(freed, freed[i].id));
            assert(contains_id(kept, kept[j - freed.len()].id));
            lemma_filter_contains_id(pins, pred, freed[i].id);
            lemma_filter_contains_id(queue, pred, kept[j - freed.len()].id);
        }
    }
}

/// Every candidate's identifier is absent from the snapshot: both parts
/// were filtered on exactly that.
proof fn lemma_candidates_absent_from_snapshot(
    queue: Seq<MessageRef>,
    pins: Seq<MessageRef>,
    snap: Seq<MessageRef>,
    id: u64,
)
    requires
        contains_id(pins.filter(id_absent_from(snap)) + queue.filter(id_absent_from(snap)), id),
    ensures
        !contains_id(snap, id),
{
    broadcast use Seq::lemma_filter_pred;

    let pred = id_absent_from(snap);
    let freed = pins.filter(pred);
    let kept = queue.filter(pred);
    let cand = freed + kept;
    let i = choose|i: int| 0 <= i < cand.len() && cand[i].id == id;
    if i < freed.len() {
        assert(cand[i] == freed[i]);
        assert(pred(freed[i]));
    } else {
        assert(cand[i] == kept[i - freed.len()]);
        assert(pred(kept[i - freed.len()]));
    }
}

/// Whether some entry of `v` carries the identifier `id`.
fn vec_contains_id(v: &Vec<MessageRef>, id: u64) -> (r: bool)
    ensures
        r == contains_id(v@, id),
{
    let mut i: usize = 0;
    while i < v.len()
        invariant
            i <= v@.len(),
            forall|j: int| 0 <= j < i ==> v@[j].id != id,
        decreases v@.len() - i,
    {
        if v[i].id == id {
            return true;
        }
        i += 1;
    }
    false
}

/// The entries of `v` as a deque, in order.
fn to_deque(v: &Vec<MessageRef>) -> (r: VecDeque<MessageRef>)
    ensures
        r@ == v@,
{
    let mut r: VecDeque<MessageRef> = VecDeque::new();
    let mut i: usize = 0;
    while i < v.len()
        invariant
            i <= v@.len(),
            r@ == v@.take(i as int),
        decreases v@.len() - i,
    {
        r.push_back(v[i]);
        proof {
            assert(v@.take(i as int + 1) =~= v@.take(i as int).push(v@[i as int]));
        }
        i += 1;
    }
    proof {
        assert(v@.take(v@.len() as int) =~= v@);
    }
    r
}

/// A copy of `v` without the entries carrying `id`.
fn filter_out_id(v: &VecDeque<MessageRef>, id: u64) -> (r: VecDeque<MessageRef>)
    ensures
        r@ == v@.filter(not_id(id)),
{
    let ghost pred = not_id(id);
    let mut r: VecDeque<MessageRef> = VecDeque::new();
    proof {
        reveal(Seq::filter);
        assert(v@.take(0).filter(pred) =~= Seq::<MessageRef>::empty());
    }
    let mut i: usize = 0;
    while i < v.len()
        invariant
            i <= v@.len(),
            r@ == v@.take(i as int).filter(not_id(id)),
        decreases v@.len() - i,
    {
        let m = v[i];
        if m.id != id {
            r.push_back(m);
        }
        proof {
            assert(v@.take(i as int + 1) =~= v@.take(i as int).push(v@[i as int]));
            v@.take(i as int).lemma_filter_push(v@[i as int], not_id(id));
        }
        i += 1;
    }
    proof {
        assert(v@.take(v@.len() as int) =~= v@);
    }
    r
}

} // verus!
