//! The message model: what the retention logic reads of a chat message,
//! together with the ordering specifications and the timestamp-sorted
//! insertion that the pin list and the reconciliation rely on.

use std::collections::VecDeque;
use vstd::prelude::*;

verus! {

/// What the retention logic reads of a chat message: its identifier and
/// its creation time in milliseconds. The message body itself never
/// enters the retention state.
#[derive(Clone, Copy, PartialEq, Eq, Structural, Debug)]
pub struct MessageRef {
    pub id: u64,
    pub timestamp: i64,
}

/// The identifiers of a sequence of messages, in order.
pub open spec fn ids_of(s: Seq<MessageRef>) -> Seq<u64> {
    s.map_values(|m: MessageRef| m.id)
}

/// Some message of `s` carries the identifier `id`.
pub open spec fn contains_id(s: Seq<MessageRef>, id: u64) -> bool {
    exists|i: int| 0 <= i < s.len() && s[i].id == id
}

/// No two messages of `s` share an identifier.
pub open spec fn distinct_ids(s: Seq<MessageRef>) -> bool {
    forall|i: int, j: int| 0 <= i < j < s.len() ==> s[i].id != s[j].id
}

/// `a` and `b` share no message identifier.
pub open spec fn disjoint_ids(a: Seq<MessageRef>, b: Seq<MessageRef>) -> bool {
    forall|id: u64| contains_id(a, id) ==> !contains_id(b, id)
}

/// Ascending by timestamp, ties allowed.
pub open spec fn sorted_by_ts(s: Seq<MessageRef>) -> bool {
    forall|i: int, j: int| 0 <= i <= j < s.len() ==> s[i].timestamp <= s[j].timestamp
}

/// Where a new message lands in a time-ordered list: after every entry
/// with an equal or earlier timestamp, before the first strictly later
/// one. Later arrivals therefore stand after existing entries of the
/// same timestamp, which keeps the insertion stable.
pub open spec fn spec_sorted_insert(s: Seq<MessageRef>, m: MessageRef) -> Seq<MessageRef>
    decreases s.len(),
{
    if s.len() == 0 {
        seq![m]
    } else if s[0].timestamp > m.timestamp {
        seq![m] + s
    } else {
        seq![s[0]] + spec_sorted_insert(s.drop_first(), m)
    }
}

/// The time-ordered rearrangement of `s`: every element inserted in turn
/// by `spec_sorted_insert`, so the order is stable for equal timestamps.
pub open spec fn spec_sort_by_ts(s: Seq<MessageRef>) -> Seq<MessageRef>
    decreases s.len(),
{
    if s.len() == 0 {
        Seq::empty()
    } else {
        spec_sorted_insert(spec_sort_by_ts(s.drop_last()), s.last())
    }
}

pub proof fn lemma_sorted_insert_len(s: Seq<MessageRef>, m: MessageRef)
    ensures
        spec_sorted_insert(s, m).len() == s.len() + 1,
    decreases s.len(),
{
    if s.len() == 0 {
    } else if s[0].timestamp > m.timestamp {
    } else {
        lemma_sorted_insert_len(s.drop_first(), m);
    }
}

/// Inserting `m` adds exactly the identifier `m.id` to the identifiers present.
pub proof fn lemma_sorted_insert_contains_id(s: Seq<MessageRef>, m: MessageRef, id: u64)
    ensures
        contains_id(spec_sorted_insert(s, m), id) <==> (contains_id(s, id) || id == m.id),
    decreases s.len(),
{
    let out = spec_sorted_insert(s, m);
    if s.len() == 0 {
        assert(out[0] == m);
        if contains_id(out, id) {
            let i = choose|i: int| 0 <= i < out.len() && out[i].id == id;
            assert(i == 0);
        }
    } else if s[0].timestamp > m.timestamp {
        assert(out == seq![m] + s);
        if contains_id(out, id) {
            let i = choose|i: int| 0 <= i < out.len() && out[i].id == id;
            if i > 0 {
                assert(s[i - 1].id == id);
            }
        }
        if contains_id(s, id) {
            let i = choose|i: int| 0 <= i < s.len() && s[i].id == id;
            assert(out[i + 1].id == id);
        }
        if id == m.id {
            assert(out[0].id == id);
        }
    } else {
        let rest = s.drop_first();
        lemma_sorted_insert_contains_id(rest, m, id);
        let sub = spec_sorted_insert(rest, m);
        assert(out == seq![s[0]] + sub);
        if contains_id(out, id) {
            let i = choose|i: int| 0 <= i < out.len() && out[i].id == id;
            if i > 0 {
                assert(sub[i - 1].id == id);
            }
            if i == 0 {
                assert(s[0].id == id);
            }
        }
        if contains_id(s, id) {
            let i = choose|i: int| 0 <= i < s.len() && s[i].id == id;
            if i > 0 {
                assert(rest[i - 1].id == id);
                let j = choose|j: int| 0 <= j < sub.len() && sub[j].id == id;
                assert(out[j + 1].id == id);
            } else {
                assert(out[0].id == id);
            }
        }
        if id == m.id {
            let j = choose|j: int| 0 <= j < sub.len() && sub[j].id == id;
            assert(out[j + 1].id == id);
        }
    }
}

/// A time-ordered list stays time-ordered under sorted insertion.
pub proof fn lemma_sorted_insert_sorted(s: Seq<MessageRef>, m: MessageRef)
    requires
        sorted_by_ts(s),
    ensures
        sorted_by_ts(spec_sorted_insert(s, m)),
    decreases s.len(),
{
    let out = spec_sorted_insert(s, m);
    if s.len() == 0 {
    } else if s[0].timestamp > m.timestamp {
        assert(out == seq![m] + s);
    } else {
        let rest = s.drop_first();
        assert(sorted_by_ts(rest));
        lemma_sorted_insert_sorted(rest, m);
        let sub = spec_sorted_insert(rest, m);
        lemma_sorted_insert_len(rest, m);
        assert(out == seq![s[0]] + sub);
        // every element of `sub` is an element of `rest` or is `m`,
        // so none has a timestamp below `s[0].timestamp`
        assert forall|i: int, j: int| 0 <= i <= j < out.len() implies
            out[i].timestamp <= out[j].timestamp by {
            if i == 0 && j > 0 {
                lemma_sorted_insert_ts_lower_bound(rest, m, s[0].timestamp, j - 1);
            }
        }
    }
}

/// If every element of `s` and `m` itself have timestamps at or above `lo`,
/// so does every element of the insertion result.
proof fn lemma_sorted_insert_ts_lower_bound(s: Seq<MessageRef>, m: MessageRef, lo: i64, k: int)
    requires
        forall|i: int| 0 <= i < s.len() ==> lo <= s[i].timestamp,
        lo <= m.timestamp,
        0 <= k < spec_sorted_insert(s, m).len(),
    ensures
        lo <= spec_sorted_insert(s, m)[k].timestamp,
    decreases s.len(),
{
    if s.len() == 0 {
    } else if s[0].timestamp > m.timestamp {
    } else {
        if k > 0 {
            let rest = s.drop_first();
            lemma_sorted_insert_ts_lower_bound(rest, m, lo, k - 1);
        }
    }
}

/// Sorted insertion of a fresh identifier keeps identifiers distinct.
pub proof fn lemma_sorted_insert_distinct(s: Seq<MessageRef>, m: MessageRef)
    requires
        distinct_ids(s),
        !contains_id(s, m.id),
    ensures
        distinct_ids(spec_sorted_insert(s, m)),
    decreases s.len(),
{
    let out = spec_sorted_insert(s, m);
    if s.len() == 0 {
    } else if s[0].timestamp > m.timestamp {
        assert(out == seq![m] + s);
        assert forall|i: int, j: int| 0 <= i < j < out.len() implies out[i].id != out[j].id by {
            if i == 0 {
                assert(s[j - 1].id == out[j].id);
                assert(contains_id(s, s[j - 1].id));
            }
        }
    } else {
        let rest = s.drop_first();
        assert(distinct_ids(rest));
        assert forall|id: u64| contains_id(rest, id) implies contains_id(s, id) by {
            let i = choose|i: int| 0 <= i < rest.len() && rest[i].id == id;
            assert(s[i + 1].id == id);
        }
        lemma_sorted_insert_distinct(rest, m);
        let sub = spec_sorted_insert(rest, m);
        assert(out == seq![s[0]] + sub);
        assert forall|i: int, j: int| 0 <= i < j < out.len() implies out[i].id != out[j].id by {
            if i == 0 {
                lemma_sorted_insert_contains_id(rest, m, s[0].id);
                assert(sub[j - 1].id == out[j].id);
                assert(contains_id(sub, sub[j - 1].id));
                if out[0].id == out[j].id {
                    assert(contains_id(rest, s[0].id) || s[0].id == m.id);
                    assert(contains_id(s, s[0].id) || contains_id(s, m.id));
                }
            }
        }
    }
}

/// Where the first `k` elements are at or before `m` in time and the
/// element at `k` (if any) is strictly later, sorted insertion is exactly
/// insertion at position `k`.
pub proof fn lemma_sorted_insert_split(s: Seq<MessageRef>, m: MessageRef, k: int)
    requires
        0 <= k <= s.len(),
        forall|j: int| 0 <= j < k ==> s[j].timestamp <= m.timestamp,
        k < s.len() ==> s[k].timestamp > m.timestamp,
    ensures
        spec_sorted_insert(s, m) == s.insert(k, m),
    decreases s.len(),
{
    let out = spec_sorted_insert(s, m);
    if s.len() == 0 {
        assert(out =~= s.insert(0, m));
    } else if s[0].timestamp > m.timestamp {
        assert(k == 0);
        assert(out =~= s.insert(0, m));
    } else {
        assert(k > 0);
        let rest = s.drop_first();
        lemma_sorted_insert_split(rest, m, k - 1);
        assert(out =~= s.insert(k, m));
    }
}

pub proof fn lemma_sort_len(s: Seq<MessageRef>)
    ensures
        spec_sort_by_ts(s).len() == s.len(),
    decreases s.len(),
{
    if s.len() > 0 {
        lemma_sort_len(s.drop_last());
        lemma_sorted_insert_len(spec_sort_by_ts(s.drop_last()), s.last());
    }
}

/// Sorting keeps exactly the identifiers that were present.
pub proof fn lemma_sort_contains_id(s: Seq<MessageRef>, id: u64)
    ensures
        contains_id(spec_sort_by_ts(s), id) <==> contains_id(s, id),
    decreases s.len(),
{
    if s.len() == 0 {
    } else {
        let front = s.drop_last();
        lemma_sort_contains_id(front, id);
        lemma_sorted_insert_contains_id(spec_sort_by_ts(front), s.last(), id);
        assert(contains_id(s, id) <==> (contains_id(front, id) || id == s.last().id)) by {
            if contains_id(s, id) {
                let i = choose|i: int| 0 <= i < s.len() && s[i].id == id;
                if i < s.len() - 1 {
                    assert(front[i].id == id);
                }
            }
            if contains_id(front, id) {
                let i = choose|i: int| 0 <= i < front.len() && front[i].id == id;
                assert(s[i].id == id);
            }
        }
    }
}

pub proof fn lemma_sort_sorted(s: Seq<MessageRef>)
    ensures
        sorted_by_ts(spec_sort_by_ts(s)),
    decreases s.len(),
{
    if s.len() > 0 {
        lemma_sort_sorted(s.drop_last());
        lemma_sorted_insert_sorted(spec_sort_by_ts(s.drop_last()), s.last());
    }
}

/// Sorting a list of distinct identifiers yields distinct identifiers.
pub proof fn lemma_sort_distinct(s: Seq<MessageRef>)
    requires
        distinct_ids(s),
    ensures
        distinct_ids(spec_sort_by_ts(s)),
    decreases s.len(),
{
    if s.len() > 0 {
        let front = s.drop_last();
        assert(distinct_ids(front));
        lemma_sort_distinct(front);
        lemma_sort_contains_id(front, s.last().id);
        assert(!contains_id(front, s.last().id)) by {
            if contains_id(front, s.last().id) {
                let i = choose|i: int| 0 <= i < front.len() && front[i].id == s.last().id;
                assert(s[i].id == s[s.len() - 1].id);
            }
        }
        lemma_sorted_insert_distinct(spec_sort_by_ts(front), s.last());
    }
}

/// Sorting an already time-ordered list changes nothing.
pub proof fn lemma_sort_of_sorted(s: Seq<MessageRef>)
    requires
        sorted_by_ts(s),
    ensures
        spec_sort_by_ts(s) == s,
    decreases s.len(),
{
    if s.len() > 0 {
        let front = s.drop_last();
        assert(sorted_by_ts(front));
        lemma_sort_of_sorted(front);
        lemma_sorted_insert_split(front, s.last(), front.len() as int);
        assert(front.insert(front.len() as int, s.last()) =~= s);
    }
}

/// The predicate that keeps every message but the one carrying `id`.
pub open spec fn not_id(id: u64) -> spec_fn(MessageRef) -> bool {
    |m: MessageRef| m.id != id
}

/// The predicate that keeps a message only when its identifier is absent
/// from `snap`.
pub open spec fn id_absent_from(snap: Seq<MessageRef>) -> spec_fn(MessageRef) -> bool {
    |m: MessageRef| !contains_id(snap, m.id)
}

/// Filtering keeps no identifier that was absent before.
pub proof fn lemma_filter_contains_id(
    s: Seq<MessageRef>,
    pred: spec_fn(MessageRef) -> bool,
    id: u64,
)
    ensures
        contains_id(s.filter(pred), id) ==> contains_id(s, id),
{
    broadcast use Seq::lemma_filter_contains_rev;

    if contains_id(s.filter(pred), id) {
        let i = choose|i: int| 0 <= i < s.filter(pred).len() && s.filter(pred)[i].id == id;
        let x = s.filter(pred)[i];
        assert(s.filter(pred).contains(x));
        assert(s.contains(x));
        let j = choose|j: int| 0 <= j < s.len() && s[j] == x;
        assert(s[j].id == id);
    }
}

/// A filter that rejects every element leaves nothing.
pub proof fn lemma_filter_none(s: Seq<MessageRef>, pred: spec_fn(MessageRef) -> bool)
    requires
        forall|i: int| 0 <= i < s.len() ==> !pred(s[i]),
    ensures
        s.filter(pred) == Seq::<MessageRef>::empty(),
    decreases s.len(),
{
    reveal(Seq::filter);
    if s.len() > 0 {
        let front = s.drop_last();
        lemma_filter_none(front, pred);
    }
}

/// A filter that accepts every element changes nothing.
pub proof fn lemma_filter_all(s: Seq<MessageRef>, pred: spec_fn(MessageRef) -> bool)
    requires
        forall|i: int| 0 <= i < s.len() ==> pred(s[i]),
    ensures
        s.filter(pred) == s,
    decreases s.len(),
{
    reveal(Seq::filter);
    if s.len() > 0 {
        let front = s.drop_last();
        lemma_filter_all(front, pred);
        assert(front.push(s.last()) =~= s);
    }
}

/// Filtering a list of distinct identifiers leaves them distinct.
pub proof fn lemma_filter_distinct_ids(s: Seq<MessageRef>, pred: spec_fn(MessageRef) -> bool)
    requires
        distinct_ids(s),
    ensures
        distinct_ids(s.filter(pred)),
    decreases s.len(),
{
    reveal(Seq::filter);
    if s.len() > 0 {
        let front = s.drop_last();
        assert(distinct_ids(front));
        lemma_filter_distinct_ids(front, pred);
        let f = front.filter(pred);
        if pred(s.last()) {
            assert(s.filter(pred) == f.push(s.last()));
            lemma_filter_contains_id(front, pred, s.last().id);
            assert(!contains_id(front, s.last().id)) by {
                if contains_id(front, s.last().id) {
                    let i = choose|i: int| 0 <= i < front.len() && front[i].id == s.last().id;
                    assert(s[i].id == s[s.len() - 1].id);
                }
            }
            let out = f.push(s.last());
            assert forall|i: int, j: int| 0 <= i < j < out.len() implies out[i].id != out[j].id by {
                if j == f.len() {
                    assert(contains_id(f, f[i].id));
                }
            }
        } else {
            assert(s.filter(pred) == f);
        }
    }
}

/// Filtering a time-ordered list leaves it time-ordered.
pub proof fn lemma_filter_sorted(s: Seq<MessageRef>, pred: spec_fn(MessageRef) -> bool)
    requires
        sorted_by_ts(s),
    ensures
        sorted_by_ts(s.filter(pred)),
    decreases s.len(),
{
    reveal(Seq::filter);
    broadcast use Seq::lemma_filter_contains_rev;

    if s.len() > 0 {
        let front = s.drop_last();
        assert(sorted_by_ts(front));
        lemma_filter_sorted(front, pred);
        let f = front.filter(pred);
        if pred(s.last()) {
            let out = f.push(s.last());
            assert(s.filter(pred) == out);
            assert forall|i: int, j: int| 0 <= i <= j < out.len() implies
                out[i].timestamp <= out[j].timestamp by {
                if j == f.len() && i < j {
                    let x = f[i];
                    assert(f.contains(x));
                    assert(front.contains(x));
                    let k = choose|k: int| 0 <= k < front.len() && front[k] == x;
                    assert(s[k].timestamp <= s[s.len() - 1].timestamp);
                }
            }
        }
    }
}

/// Dropping a front segment keeps identifiers distinct and keeps only
/// identifiers that were present.
pub proof fn lemma_skip_ids(s: Seq<MessageRef>, k: int)
    requires
        0 <= k <= s.len(),
    ensures
        distinct_ids(s) ==> distinct_ids(s.skip(k)),
        forall|id: u64| contains_id(s.skip(k), id) ==> contains_id(s, id),
        sorted_by_ts(s) ==> sorted_by_ts(s.skip(k)),
{
    assert forall|id: u64| contains_id(s.skip(k), id) implies contains_id(s, id) by {
        let i = choose|i: int| 0 <= i < s.skip(k).len() && s.skip(k)[i].id == id;
        assert(s[i + k].id == id);
    }
}

/// Puts `m` at its chronological position: after every entry with an
/// equal or earlier timestamp, before the first strictly later one.
pub fn sorted_insert(v: &mut VecDeque<MessageRef>, m: MessageRef)
    ensures
        final(v)@ == spec_sorted_insert(old(v)@, m),
{
    let ghost s = v@;
    let mut i: usize = 0;
    while i < v.len() && v[i].timestamp <= m.timestamp
        invariant
            i <= v@.len(),
            v@ == s,
            forall|j: int| 0 <= j < i ==> s[j].timestamp <= m.timestamp,
        decreases v@.len() - i,
    {
        i += 1;
    }
    proof {
        lemma_sorted_insert_split(s, m, i as int);
    }
    v.insert(i, m);
}

/// The time-ordered rearrangement of `v`, built by repeated sorted insertion.
pub fn sort_msgs(v: &VecDeque<MessageRef>) -> (r: VecDeque<MessageRef>)
    ensures
        r@ == spec_sort_by_ts(v@),
{
    let mut r: VecDeque<MessageRef> = VecDeque::new();
    let mut i: usize = 0;
    while i < v.len()
        invariant
            i <= v@.len(),
            r@ == spec_sort_by_ts(v@.take(i as int)),
        decreases v@.len() - i,
    {
        let m = v[i];
        sorted_insert(&mut r, m);
        proof {
            let t = v@.take(i as int + 1);
            assert(t.drop_last() =~= v@.take(i as int));
            assert(t.last() == v@[i as int]);
        }
        i += 1;
    }
    proof {
        assert(v@.take(v@.len() as int) =~= v@);
    }
    r
}

} // verus!
