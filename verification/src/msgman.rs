//! The retention manager: the registry mapping each monitored channel to
//! its capped queue, and the operations a command applies to it. Every
//! operation is a pure transition on the registry; the identifiers to
//! delete remotely and the rows to persist come back in its result, so a
//! caller can perform the remote work afterwards, in command order.

use vstd::prelude::*;

use crate::msg::MessageRef;
use crate::msg::contains_id;
use crate::msg::disjoint_ids;
use crate::msg::distinct_ids;
use crate::msg::ids_of;
use crate::msg::not_id;
use crate::msg::sorted_by_ts;
use crate::msg::spec_sort_by_ts;
use crate::msg::spec_sorted_insert;
use crate::queue::CappedQueue;
use crate::queue::insert_evict_count;
use crate::queue::shrink_evict_count;
use crate::queue::spec_reconcile_evicted;
use crate::queue::spec_reconcile_queue;
use crate::render::already_reply;
use crate::render::created_reply;
use crate::render::decreased_reply;
use crate::render::increased_reply;
use crate::render::init_reply;
use crate::render::no_limit_reply;
use crate::render::removed_reply;
use crate::render::render_already;
use crate::render::render_created;
use crate::render::render_decreased;
use crate::render::render_increased;
use crate::render::render_init;
use crate::render::render_no_limit;
use crate::render::render_removed;
use crate::render::render_status_line;
use crate::render::status_line;
use vstd::string::StringExecFns;

verus! {

/// One registry slot: a monitored channel and its capped queue.
pub struct ChannelEntry {
    pub channel_id: u64,
    pub cq: CappedQueue,
}

/// The mathematical model of one registry slot.
pub struct ChannelView {
    pub channel_id: u64,
    pub queue: Seq<MessageRef>,
    pub pins: Seq<MessageRef>,
    pub limit: nat,
}

impl View for ChannelEntry {
    type V = ChannelView;

    open spec fn view(&self) -> ChannelView {
        ChannelView {
            channel_id: self.channel_id,
            queue: self.cq.queue@,
            pins: self.cq.pins@,
            limit: self.cq.limit as nat,
        }
    }
}

/// The models of a sequence of registry slots, in order.
pub open spec fn entries_view(s: Seq<ChannelEntry>) -> Seq<ChannelView> {
    s.map_values(|e: ChannelEntry| e@)
}

/// The resting invariants of one modelled slot; they mirror
/// `CappedQueue::wf`.
pub open spec fn channel_view_wf(cv: ChannelView) -> bool {
    &&& cv.limit >= 1
    &&& cv.queue.len() <= cv.limit
    &&& distinct_ids(cv.queue)
    &&& distinct_ids(cv.pins)
    &&& disjoint_ids(cv.queue, cv.pins)
    &&& sorted_by_ts(cv.pins)
}

/// The registry invariant: each slot is well formed and no channel
/// appears twice.
pub open spec fn registry_wf(s: Seq<ChannelView>) -> bool {
    &&& forall|i: int| 0 <= i < s.len() ==> channel_view_wf(#[trigger] s[i])
    &&& forall|i: int, j: int| 0 <= i < j < s.len() ==> s[i].channel_id != s[j].channel_id
}

/// The index of the slot for `ch`, or `-1` when the channel is not
/// monitored.
pub open spec fn find_channel(s: Seq<ChannelView>, ch: u64) -> int
    decreases s.len(),
{
    if s.len() == 0 {
        -1
    } else if s[0].channel_id == ch {
        0
    } else {
        let r = find_channel(s.drop_first(), ch);
        if r < 0 {
            -1
        } else {
            r + 1
        }
    }
}

/// Whether retention is configured for `ch`; existence of a slot is the
/// definition of "monitored".
pub open spec fn has_channel(s: Seq<ChannelView>, ch: u64) -> bool {
    find_channel(s, ch) >= 0
}

pub proof fn lemma_find_channel(s: Seq<ChannelView>, ch: u64)
    ensures
        -1 <= find_channel(s, ch) < s.len(),
        find_channel(s, ch) >= 0 ==> s[find_channel(s, ch)].channel_id == ch,
        find_channel(s, ch) < 0 ==> forall|i: int| 0 <= i < s.len() ==> s[i].channel_id != ch,
    decreases s.len(),
{
    if s.len() > 0 && s[0].channel_id != ch {
        lemma_find_channel(s.drop_first(), ch);
        assert forall|i: int| 1 <= i < s.len() implies s.drop_first()[i - 1] == s[i] by {}
    }
}

/// Where the first `i` slots do not match, `find_channel` finds exactly a
/// match at `i` or nothing.
pub proof fn lemma_find_channel_at(s: Seq<ChannelView>, ch: u64, i: int)
    requires
        0 <= i <= s.len(),
        forall|j: int| 0 <= j < i ==> s[j].channel_id != ch,
        i < s.len() ==> s[i].channel_id == ch,
    ensures
        find_channel(s, ch) == if i == s.len() {
            -1
        } else {
            i
        },
    decreases s.len(),
{
    if s.len() > 0 {
        if i == 0 {
        } else {
            assert(s[0].channel_id != ch);
            let rest = s.drop_first();
            assert forall|j: int| 0 <= j < i - 1 implies rest[j].channel_id != ch by {
                assert(rest[j] == s[j + 1]);
            }
            lemma_find_channel_at(rest, ch, i - 1);
        }
    }
}

/// What the registry becomes when a message arrives in `ch`, and which
/// identifiers are evicted for it: a no-op for an unmonitored channel;
/// otherwise eviction from the front down to a free slot, then the
/// message at the requested end.
pub open spec fn spec_insert_message(
    s: Seq<ChannelView>,
    ch: u64,
    m: MessageRef,
    push_back: bool,
) -> (Seq<ChannelView>, Seq<u64>) {
    let i = find_channel(s, ch);
    if i < 0 {
        (s, Seq::<u64>::empty())
    } else {
        let cv = s[i];
        let k = insert_evict_count(cv.queue.len() as int, cv.limit as int);
        let newq = if push_back {
            cv.queue.skip(k).push(m)
        } else {
            seq![m] + cv.queue.skip(k)
        };
        (
            s.update(
                i,
                ChannelView { channel_id: cv.channel_id, queue: newq, pins: cv.pins, limit: cv.limit },
            ),
            ids_of(cv.queue.take(k)),
        )
    }
}

/// What the registry becomes when the message carrying `id` is deleted
/// remotely: the identifier leaves both lists of its channel's slot.
pub open spec fn spec_remove_message(s: Seq<ChannelView>, ch: u64, id: u64) -> Seq<ChannelView> {
    let i = find_channel(s, ch);
    if i < 0 {
        s
    } else {
        let cv = s[i];
        s.update(
            i,
            ChannelView {
                channel_id: cv.channel_id,
                queue: cv.queue.filter(not_id(id)),
                pins: cv.pins.filter(not_id(id)),
                limit: cv.limit,
            },
        )
    }
}

/// What the registry becomes when one pin is inserted at its
/// chronological position.
pub open spec fn spec_insert_pin(s: Seq<ChannelView>, ch: u64, m: MessageRef) -> Seq<ChannelView> {
    let i = find_channel(s, ch);
    if i < 0 {
        s
    } else {
        let cv = s[i];
        s.update(
            i,
            ChannelView {
                channel_id: cv.channel_id,
                queue: cv.queue,
                pins: spec_sorted_insert(cv.pins, m),
                limit: cv.limit,
            },
        )
    }
}

/// What the registry becomes when the remote pin snapshot for `ch` is
/// reconciled, and which identifiers are evicted for it.
pub open spec fn spec_pins_updated(
    s: Seq<ChannelView>,
    ch: u64,
    snap: Seq<MessageRef>,
) -> (Seq<ChannelView>, Seq<u64>) {
    let i = find_channel(s, ch);
    if i < 0 {
        (s, Seq::<u64>::empty())
    } else {
        let cv = s[i];
        (
            s.update(
                i,
                ChannelView {
                    channel_id: cv.channel_id,
                    queue: spec_reconcile_queue(cv.queue, cv.pins, cv.limit as int, snap),
                    pins: spec_sort_by_ts(snap),
                    limit: cv.limit,
                },
            ),
            spec_reconcile_evicted(cv.queue, cv.pins, cv.limit as int, snap),
        )
    }
}

/// What one step of the historical backfill scan does. The scan walks
/// the channel's history newest first: pinned messages are skipped,
/// unpinned ones are kept at the front while the queue is under its
/// limit and purged remotely once it is full.
pub open spec fn spec_backfill_message(
    s: Seq<ChannelView>,
    ch: u64,
    m: MessageRef,
    pinned: bool,
) -> (Seq<ChannelView>, HistoryAction) {
    let i = find_channel(s, ch);
    if i < 0 || pinned {
        (s, HistoryAction::Skipped)
    } else {
        let cv = s[i];
        if cv.queue.len() < cv.limit {
            (
                s.update(
                    i,
                    ChannelView {
                        channel_id: cv.channel_id,
                        queue: seq![m] + cv.queue,
                        pins: cv.pins,
                        limit: cv.limit,
                    },
                ),
                HistoryAction::Kept,
            )
        } else {
            (s, HistoryAction::Purge)
        }
    }
}

/// What the registry becomes when the limit of `ch` is set to
/// `new_limit`, and which identifiers are evicted for it: a fresh empty
/// slot when the channel was unmonitored (the caller then backfills);
/// otherwise the same slot with the new limit, its oldest entries
/// evicted when the queue exceeds it.
pub open spec fn spec_update_limit(s: Seq<ChannelView>, ch: u64, new_limit: nat) -> (
    Seq<ChannelView>,
    Seq<u64>,
) {
    let i = find_channel(s, ch);
    if i < 0 {
        (
            s.push(
                ChannelView {
                    channel_id: ch,
                    queue: Seq::<MessageRef>::empty(),
                    pins: Seq::<MessageRef>::empty(),
                    limit: new_limit,
                },
            ),
            Seq::<u64>::empty(),
        )
    } else {
        let cv = s[i];
        let k = shrink_evict_count(cv.queue.len() as int, new_limit as int);
        (
            s.update(
                i,
                ChannelView {
                    channel_id: cv.channel_id,
                    queue: cv.queue.skip(k),
                    pins: cv.pins,
                    limit: new_limit,
                },
            ),
            ids_of(cv.queue.take(k)),
        )
    }
}

/// The reply a limit update produces.
pub open spec fn spec_update_limit_reply(
    s: Seq<ChannelView>,
    ch: u64,
    new_limit: nat,
    is_init: bool,
) -> Seq<char> {
    let i = find_channel(s, ch);
    if i < 0 {
        if is_init {
            init_reply(ch as nat, new_limit)
        } else {
            created_reply(new_limit, ch as nat)
        }
    } else {
        let old_limit = s[i].limit;
        if old_limit == new_limit {
            already_reply(new_limit, ch as nat)
        } else if old_limit < new_limit {
            increased_reply(ch as nat, old_limit, new_limit)
        } else {
            decreased_reply(ch as nat, old_limit, new_limit)
        }
    }
}

/// What the registry becomes when retention is removed for `ch`: its
/// slot leaves the registry, queue contents and all; no remote deletes
/// are issued for messages that merely stop being tracked.
pub open spec fn spec_remove_limit(s: Seq<ChannelView>, ch: u64) -> Seq<ChannelView> {
    let i = find_channel(s, ch);
    if i < 0 {
        s
    } else {
        s.remove(i)
    }
}

/// The occupancy percentage a status line reports: `len / limit * 100`
/// to the nearest integer, ties to even — what a zero-precision
/// formatter makes of the exact quotient — and zero-filled for a zero
/// limit (unreachable in practice: limits are positive by
/// construction).
pub open spec fn occupancy_pct(len: nat, limit: nat) -> nat {
    if limit == 0 {
        0
    } else {
        let q = len * 100 / limit;
        let r = len * 100 % limit;
        if 2 * r > limit || (2 * r == limit && q % 2 == 1) {
            q + 1
        } else {
            q
        }
    }
}

/// The status lines for the slots of `s`, one per slot, in registry
/// order.
pub open spec fn status_body(s: Seq<ChannelView>) -> Seq<char>
    decreases s.len(),
{
    if s.len() == 0 {
        Seq::<char>::empty()
    } else {
        let cv = s.last();
        status_body(s.drop_last()) + status_line(
            cv.channel_id as nat,
            cv.queue.len(),
            cv.limit,
            occupancy_pct(cv.queue.len(), cv.limit),
        )
    }
}

/// The whole status report.
pub open spec fn spec_status_reply(s: Seq<ChannelView>) -> Seq<char> {
    if s.len() == 0 {
        "There are no channels being autodeleted"@
    } else {
        "The following channels are being autodeleted:\n"@ + status_body(s)
    }
}

/// One audit-log row to append: who set which channel to what limit.
/// Zero as the limit denotes removal; an absent actor denotes a
/// system-driven change. The caller adds the wall-clock timestamp when
/// it writes the row.
#[derive(Clone, Debug, PartialEq, Eq)]
pub struct AuditEntry {
    pub actor_id: Option<u64>,
    pub channel_id: u64,
    pub new_limit: usize,
}

/// The outcome of a limit update: the reply for the requester and the
/// work the caller must now do.
pub struct LimitUpdate {
    /// The user-facing reply.
    pub reply: String,
    /// Identifiers to delete remotely, oldest first (shrinking only).
    pub evicted: Vec<u64>,
    /// A queue was created: the caller should now backfill the
    /// channel's history (`backfill_message` per message, newest first)
    /// and its pins (`insert_pin` each).
    pub created: bool,
    /// Persist the limit row and append `audit`: every update except a
    /// startup replay, where the row already exists.
    pub persist: bool,
    /// The audit row to append when persisting.
    pub audit: Option<AuditEntry>,
}

/// The outcome of a limit removal.
pub struct RemoveOutcome {
    /// The user-facing reply.
    pub reply: String,
    /// The channel was monitored: the caller must delete the persisted
    /// limit row and append `audit`.
    pub removed: bool,
    /// The removal audit row (limit zero) to append.
    pub audit: Option<AuditEntry>,
}

/// A typed command for the actor. Producers — gateway events and slash
/// commands — only enqueue these; the single consumer applies them in
/// strict arrival order against the registry, which gives a total order
/// across all mutating operations, whichever channel they target.
pub enum Command {
    /// Start up: load every persisted limit row and replay it through
    /// the limit adjuster before normal traffic counts as caught up.
    Initialize,
    /// A message arrived in a monitored (or unmonitored) channel.
    MessageReceived { channel_id: u64, message: MessageRef },
    /// A message was deleted remotely.
    MessageDeleted { channel_id: u64, message_id: u64, guild_id: Option<u64> },
    /// An admin set a retention limit for the current channel.
    SetLimit { channel_id: u64, limit: usize, user_id: u64 },
    /// An admin cleared the retention limit of the current channel.
    RemoveLimit { channel_id: u64, user_id: u64 },
    /// An admin asked for the status summary.
    GetStatus,
    /// The remote pin set of a channel changed.
    ChannelPinsUpdated { channel_id: u64 },
}

/// What one command asks the caller to do after the registry
/// transition. All of it happens synchronously within the command's
/// turn: the remote deletions and store writes first, then the reply.
pub struct CommandEffects {
    /// The reply to the requester, for the slash commands.
    pub reply: Option<String>,
    /// Message identifiers to delete remotely, best effort, oldest
    /// first, all in the command's channel.
    pub deletes: Vec<u64>,
    /// Load every persisted limit row and replay each through
    /// `update_limit` with `is_init` set.
    pub replay: bool,
    /// A queue was created for this channel: walk its history newest
    /// first through `backfill_message`, then fetch the pin set and
    /// insert each pin through `insert_pin`.
    pub backfill: Option<u64>,
    /// Upsert this channel's persisted limit row.
    pub persist_limit: Option<(u64, usize)>,
    /// Delete this channel's persisted limit row.
    pub delete_limit_row: Option<u64>,
    /// Append this audit row, stamped with the wall clock.
    pub audit: Option<AuditEntry>,
    /// Fetch this channel's pin snapshot and hand it to
    /// `on_pins_updated`.
    pub fetch_pins: Option<u64>,
}

/// The decision of one historical-backfill step.
#[derive(Clone, Copy, PartialEq, Eq, Structural, Debug)]
pub enum HistoryAction {
    /// The message stays: it was inserted at the front of the queue.
    Kept,
    /// The queue is full: the caller should delete the message remotely.
    Purge,
    /// Pinned message, or unmonitored channel: nothing to do.
    Skipped,
}

/// Replacing a slot, keeping its channel, leaves every lookup where it
/// was.
proof fn lemma_find_channel_update(s: Seq<ChannelView>, i: int, cv: ChannelView, ch: u64)
    requires
        0 <= i < s.len(),
        cv.channel_id == s[i].channel_id,
    ensures
        find_channel(s.update(i, cv), ch) == find_channel(s, ch),
    decreases s.len(),
{
    let t = s.update(i, cv);
    if i == 0 {
        if s[0].channel_id != ch {
            assert(t.drop_first() =~= s.drop_first());
        }
    } else {
        assert(t[0] == s[0]);
        if s[0].channel_id != ch {
            assert(t.drop_first() =~= s.drop_first().update(i - 1, cv));
            lemma_find_channel_update(s.drop_first(), i - 1, cv, ch);
        }
    }
}

/// Pin reconciliation is idempotent at the registry level: a second
/// reconciliation of the same channel against an unchanged remote
/// snapshot changes nothing and asks for no further remote deletions.
pub proof fn lemma_pins_updated_idempotent(s: Seq<ChannelView>, ch: u64, snap: Seq<MessageRef>)
    requires
        registry_wf(s),
    ensures
        spec_pins_updated(spec_pins_updated(s, ch, snap).0, ch, snap).0 == spec_pins_updated(
            s,
            ch,
            snap,
        ).0,
        spec_pins_updated(spec_pins_updated(s, ch, snap).0, ch, snap).1 == Seq::<u64>::empty(),
{
    let i = find_channel(s, ch);
    lemma_find_channel(s, ch);
    if i < 0 {
        assert(spec_pins_updated(s, ch, snap).0 == s);
    } else {
        let cv = s[i];
        let cv1 = ChannelView {
            channel_id: cv.channel_id,
            queue: spec_reconcile_queue(cv.queue, cv.pins, cv.limit as int, snap),
            pins: spec_sort_by_ts(snap),
            limit: cv.limit,
        };
        let s1 = s.update(i, cv1);
        lemma_find_channel_update(s, i, cv1, ch);
        assert(channel_view_wf(cv));
        crate::queue::lemma_reconcile_idempotent(cv.queue, cv.pins, cv.limit as int, snap);
        let cv2 = ChannelView {
            channel_id: cv1.channel_id,
            queue: spec_reconcile_queue(cv1.queue, cv1.pins, cv1.limit as int, snap),
            pins: spec_sort_by_ts(snap),
            limit: cv1.limit,
        };
        assert(cv2 == cv1);
        assert(s1.update(i, cv2) =~= s1);
    }
}

/// Growth monotonicity of the limit adjuster: raising (or restating) a
/// limit never evicts a message and leaves the queue as it stands,
/// while shrinking evicts exactly `max(0, len - new_limit)` entries —
/// the oldest ones, from the front.
pub proof fn lemma_update_limit_monotone(s: Seq<ChannelView>, ch: u64, new_limit: nat)
    requires
        registry_wf(s),
        has_channel(s, ch),
    ensures
        ({
            let i = find_channel(s, ch);
            let cv = s[i];
            let k = shrink_evict_count(cv.queue.len() as int, new_limit as int);
            &&& cv.limit <= new_limit ==> spec_update_limit(s, ch, new_limit).0[i].queue
                == cv.queue && spec_update_limit(s, ch, new_limit).1 == Seq::<u64>::empty()
            &&& spec_update_limit(s, ch, new_limit).1.len() == k
            &&& spec_update_limit(s, ch, new_limit).1 == ids_of(cv.queue.take(k))
            &&& spec_update_limit(s, ch, new_limit).0[i].queue.len() == cv.queue.len() - k
        }),
{
    let i = find_channel(s, ch);
    lemma_find_channel(s, ch);
    let cv = s[i];
    assert(channel_view_wf(cv));
    let k = shrink_evict_count(cv.queue.len() as int, new_limit as int);
    if cv.limit <= new_limit {
        assert(k == 0);
        assert(cv.queue.skip(0) =~= cv.queue);
        assert(ids_of(cv.queue.take(0)) =~= Seq::<u64>::empty());
    }
}

/// Replacing a slot with a well-formed slot for the same channel keeps
/// the registry well formed.
proof fn lemma_registry_wf_update(s: Seq<ChannelView>, i: int, cv: ChannelView)
    requires
        registry_wf(s),
        0 <= i < s.len(),
        channel_view_wf(cv),
        cv.channel_id == s[i].channel_id,
    ensures
        registry_wf(s.update(i, cv)),
{
}

/// The retention registry. There is one instance, owned by the command
/// actor; every mutating operation goes through it in arrival order.
pub struct MessageManager {
    pub channels: Vec<ChannelEntry>,
}

impl View for MessageManager {
    type V = Seq<ChannelView>;

    open spec fn view(&self) -> Seq<ChannelView> {
        entries_view(self.channels@)
    }
}

/// Replacing the slot at `i` replaces exactly the modelled slot at `i`.
proof fn lemma_entries_view_update(
    pre: Seq<ChannelEntry>,
    post: Seq<ChannelEntry>,
    i: int,
    e: ChannelEntry,
)
    requires
        0 <= i < pre.len(),
        post == pre.remove(i).insert(i, e),
    ensures
        entries_view(post) == entries_view(pre).update(i, e@),
{
    broadcast use vstd::seq_lib::lemma_update_is_remove_insert;

    assert(pre.update(i, e) =~= post);
    assert(entries_view(pre.update(i, e)) =~= entries_view(pre).update(i, e@));
}

/// Appending a slot appends exactly its model.
proof fn lemma_entries_view_push(pre: Seq<ChannelEntry>, e: ChannelEntry)
    ensures
        entries_view(pre.push(e)) == entries_view(pre).push(e@),
{
    assert(entries_view(pre.push(e)) =~= entries_view(pre).push(e@));
}

/// Removing a slot removes exactly its model.
proof fn lemma_entries_view_remove(pre: Seq<ChannelEntry>, i: int)
    requires
        0 <= i < pre.len(),
    ensures
        entries_view(pre.remove(i)) == entries_view(pre).remove(i),
{
    pre.remove_ensures(i);
    entries_view(pre).remove_ensures(i);
    assert(entries_view(pre.remove(i)) =~= entries_view(pre).remove(i));
}

/// Removing a slot keeps the registry well formed.
proof fn lemma_registry_wf_remove(s: Seq<ChannelView>, i: int)
    requires
        registry_wf(s),
        0 <= i < s.len(),
    ensures
        registry_wf(s.remove(i)),
{
    s.remove_ensures(i);
    let out = s.remove(i);
    assert forall|a: int| 0 <= a < out.len() implies channel_view_wf(#[trigger] out[a]) by {
        if a < i {
            assert(out[a] == s[a]);
        } else {
            assert(out[a] == s[a + 1]);
        }
    }
    assert forall|a: int, b: int| 0 <= a < b < out.len() implies out[a].channel_id
        != out[b].channel_id by {
        if b < i {
        } else if a < i {
            assert(out[a] == s[a] && out[b] == s[b + 1]);
        } else {
            assert(out[a] == s[a + 1] && out[b] == s[b + 1]);
        }
    }
}

impl Default for MessageManager {
    /// The empty registry.
    fn default() -> (r: Self)
        ensures
            r.wf(),
            r@ == Seq::<ChannelView>::empty(),
    {
        MessageManager::new()
    }
}

impl MessageManager {
    /// The registry invariant, preserved by every operation.
    pub open spec fn wf(&self) -> bool {
        registry_wf(self@)
    }

    /// An empty registry: no channel is monitored.
    pub fn new() -> (r: Self)
        ensures
            r.wf(),
            r@ == Seq::<ChannelView>::empty(),
    {
        let r = MessageManager { channels: Vec::new() };
        proof {
            assert(entries_view(r.channels@) =~= Seq::<ChannelView>::empty());
        }
        r
    }

    /// The slot index for `channel_id`, or `None` when unmonitored.
    fn find_index(&self, channel_id: u64) -> (r: Option<usize>)
        ensures
            match r {
                Some(i) => i < self.channels@.len() && i as int == find_channel(
                    self@,
                    channel_id,
                ),
                None => find_channel(self@, channel_id) == -1,
            },
    {
        let mut i: usize = 0;
        while i < self.channels.len()
            invariant
                i <= self.channels@.len(),
                forall|j: int| 0 <= j < i ==> entries_view(self.channels@)[j].channel_id
                    != channel_id,
            decreases self.channels@.len() - i,
        {
            if self.channels[i].channel_id == channel_id {
                proof {
                    assert(self@[i as int].channel_id == channel_id);
                    lemma_find_channel_at(self@, channel_id, i as int);
                }
                return Some(i);
            }
            proof {
                assert(self@[i as int].channel_id != channel_id);
            }
            i += 1;
        }
        proof {
            lemma_find_channel_at(self@, channel_id, self.channels@.len() as int);
        }
        None
    }

    /// Whether retention is configured for `channel_id`.
    pub fn is_monitored(&self, channel_id: u64) -> (r: bool)
        ensures
            r == has_channel(self@, channel_id),
    {
        proof {
            lemma_find_channel(self@, channel_id);
        }
        self.find_index(channel_id).is_some()
    }

    /// A message arrived in (or is being backfilled into) `channel_id`:
    /// append it (live traffic) or prepend it (backfill), evicting the
    /// oldest entries first while the queue is full. The returned
    /// identifiers are to be deleted remotely, best effort; the channel
    /// being unmonitored makes the whole operation a no-op.
    pub fn insert_message(&mut self, channel_id: u64, msg: MessageRef, push_back: bool) -> (evicted:
        Vec<u64>)
        requires
            old(self).wf(),
            has_channel(old(self)@, channel_id) ==> ({
                let cv = old(self)@[find_channel(old(self)@, channel_id)];
                !contains_id(cv.queue, msg.id) && !contains_id(cv.pins, msg.id)
            }),
        ensures
            final(self).wf(),
            final(self)@ == spec_insert_message(old(self)@, channel_id, msg, push_back).0,
            evicted@ == spec_insert_message(old(self)@, channel_id, msg, push_back).1,
    {
        match self.find_index(channel_id) {
            None => Vec::new(),
            Some(i) => {
                proof {
                    assert(self@[i as int] == self.channels@[i as int]@);
                }
                let mut entry = self.channels.remove(i);
                let evicted = entry.cq.insert(msg, push_back);
                self.channels.insert(i, entry);
                proof {
                    lemma_entries_view_update(old(self).channels@, self.channels@, i as int, entry);
                    lemma_registry_wf_update(old(self)@, i as int, entry@);
                }
                evicted
            },
        }
    }

    /// The message carrying `msg_id` was deleted remotely: forget it,
    /// whichever list of `channel_id`'s slot holds it; a no-op when it is
    /// unknown or the channel is unmonitored.
    pub fn remove_message(&mut self, msg_id: u64, channel_id: u64)
        requires
            old(self).wf(),
        ensures
            final(self).wf(),
            final(self)@ == spec_remove_message(old(self)@, channel_id, msg_id),
    {
        match self.find_index(channel_id) {
            None => {},
            Some(i) => {
                proof {
                    assert(self@[i as int] == self.channels@[i as int]@);
                }
                let mut entry = self.channels.remove(i);
                entry.cq.remove_id(msg_id);
                self.channels.insert(i, entry);
                proof {
                    lemma_entries_view_update(old(self).channels@, self.channels@, i as int, entry);
                    lemma_registry_wf_update(old(self)@, i as int, entry@);
                }
            },
        }
    }

    /// One message of `channel_id` was pinned: put it at its
    /// chronological position in the pin list. This is the targeted
    /// insert used while backfilling; live pin changes arrive as full
    /// snapshots through `on_pins_updated`.
    pub fn insert_pin(&mut self, channel_id: u64, msg: MessageRef)
        requires
            old(self).wf(),
            has_channel(old(self)@, channel_id) ==> ({
                let cv = old(self)@[find_channel(old(self)@, channel_id)];
                !contains_id(cv.queue, msg.id) && !contains_id(cv.pins, msg.id)
            }),
        ensures
            final(self).wf(),
            final(self)@ == spec_insert_pin(old(self)@, channel_id, msg),
    {
        match self.find_index(channel_id) {
            None => {},
            Some(i) => {
                proof {
                    assert(self@[i as int] == self.channels@[i as int]@);
                }
                let mut entry = self.channels.remove(i);
                entry.cq.insert_pin(msg);
                self.channels.insert(i, entry);
                proof {
                    lemma_entries_view_update(old(self).channels@, self.channels@, i as int, entry);
                    lemma_registry_wf_update(old(self)@, i as int, entry@);
                }
            },
        }
    }

    /// The remote pin set of `channel_id` changed; `snapshot` is the
    /// fresh remote pin list. Newly pinned messages leave the queue,
    /// messages whose pin was lifted re-enter it chronologically, the
    /// queue is evicted down to the limit, and the pin list becomes the
    /// snapshot in time order. The returned identifiers are to be
    /// deleted remotely.
    pub fn on_pins_updated(&mut self, channel_id: u64, snapshot: &Vec<MessageRef>) -> (evicted: Vec<
        u64,
    >)
        requires
            old(self).wf(),
            distinct_ids(snapshot@),
        ensures
            final(self).wf(),
            final(self)@ == spec_pins_updated(old(self)@, channel_id, snapshot@).0,
            evicted@ == spec_pins_updated(old(self)@, channel_id, snapshot@).1,
    {
        match self.find_index(channel_id) {
            None => Vec::new(),
            Some(i) => {
                proof {
                    assert(self@[i as int] == self.channels@[i as int]@);
                }
                let mut entry = self.channels.remove(i);
                let evicted = entry.cq.reconcile_pins(snapshot);
                self.channels.insert(i, entry);
                proof {
                    lemma_entries_view_update(old(self).channels@, self.channels@, i as int, entry);
                    lemma_registry_wf_update(old(self)@, i as int, entry@);
                }
                evicted
            },
        }
    }

    /// One step of the historical backfill scan (newest message first):
    /// skip pinned messages, keep unpinned ones at the front while the
    /// queue is under its limit, and ask the caller to purge the rest.
    pub fn backfill_message(&mut self, channel_id: u64, msg: MessageRef, pinned: bool) -> (r:
        HistoryAction)
        requires
            old(self).wf(),
            has_channel(old(self)@, channel_id) && !pinned ==> ({
                let cv = old(self)@[find_channel(old(self)@, channel_id)];
                !contains_id(cv.queue, msg.id) && !contains_id(cv.pins, msg.id)
            }),
        ensures
            final(self).wf(),
            final(self)@ == spec_backfill_message(old(self)@, channel_id, msg, pinned).0,
            r == spec_backfill_message(old(self)@, channel_id, msg, pinned).1,
    {
        if pinned {
            return HistoryAction::Skipped;
        }
        match self.find_index(channel_id) {
            None => HistoryAction::Skipped,
            Some(i) => {
                proof {
                    assert(self@[i as int] == self.channels@[i as int]@);
                }
                if self.channels[i].cq.queue.len() >= self.channels[i].cq.limit {
                    return HistoryAction::Purge;
                }
                let mut entry = self.channels.remove(i);
                let evicted = entry.cq.insert(msg, false);
                self.channels.insert(i, entry);
                proof {
                    let cv = old(self)@[i as int];
                    assert(insert_evict_count(cv.queue.len() as int, cv.limit as int) == 0);
                    assert(cv.queue.skip(0) =~= cv.queue);
                    lemma_entries_view_update(old(self).channels@, self.channels@, i as int, entry);
                    lemma_registry_wf_update(old(self)@, i as int, entry@);
                }
                HistoryAction::Kept
            },
        }
    }

    /// Set (or create) the retention limit of `channel_id`. An
    /// unmonitored channel gets a fresh empty queue — the caller then
    /// backfills it as `created` asks — while an existing queue keeps
    /// its contents, evicting the oldest entries when the limit shrinks
    /// below the occupancy. Everything except a startup replay is
    /// persisted and audited, an unchanged limit included.
    pub fn update_limit(
        &mut self,
        channel_id: u64,
        new_limit: usize,
        is_init: bool,
        user_id: Option<u64>,
    ) -> (r: LimitUpdate)
        requires
            old(self).wf(),
            new_limit >= 1,
            // whenever the change is persisted, an audit row is written, and
            // the store requires its actor
            (has_channel(old(self)@, channel_id) || !is_init) ==> user_id.is_some(),
        ensures
            final(self).wf(),
            final(self)@ == spec_update_limit(old(self)@, channel_id, new_limit as nat).0,
            r.evicted@ == spec_update_limit(old(self)@, channel_id, new_limit as nat).1,
            r.reply@ == spec_update_limit_reply(old(self)@, channel_id, new_limit as nat, is_init),
            r.created == !has_channel(old(self)@, channel_id),
            r.persist == (has_channel(old(self)@, channel_id) || !is_init),
            r.audit == if r.persist {
                Some(AuditEntry { actor_id: user_id, channel_id, new_limit })
            } else {
                None::<AuditEntry>
            },
            // raising (or re-stating) a limit never evicts anything
            has_channel(old(self)@, channel_id) && old(self)@[find_channel(
                old(self)@,
                channel_id,
            )].limit <= new_limit ==> r.evicted@ == Seq::<u64>::empty(),
    {
        match self.find_index(channel_id) {
            None => {
                proof {
                    lemma_find_channel(self@, channel_id);
                }
                let cq = CappedQueue::new(new_limit);
                self.channels.push(ChannelEntry { channel_id, cq });
                proof {
                    lemma_entries_view_push(old(self).channels@, self.channels@.last());
                    assert(self.channels@.drop_last() =~= old(self).channels@);
                    let s1 = self@;
                    let i = s1.len() - 1;
                    assert forall|a: int, b: int| 0 <= a < b < s1.len() implies s1[a].channel_id
                        != s1[b].channel_id by {
                        if b == i {
                            assert(s1[a] == old(self)@[a]);
                        }
                    }
                }
                let reply = if is_init {
                    render_init(channel_id, new_limit as u64)
                } else {
                    render_created(new_limit as u64, channel_id)
                };
                let audit = if is_init {
                    None
                } else {
                    Some(AuditEntry { actor_id: user_id, channel_id, new_limit })
                };
                LimitUpdate { reply, evicted: Vec::new(), created: true, persist: !is_init, audit }
            },
            Some(i) => {
                proof {
                    assert(self@[i as int] == self.channels@[i as int]@);
                }
                let old_limit = self.channels[i].cq.limit;
                let mut entry = self.channels.remove(i);
                let evicted = entry.cq.apply_limit(new_limit);
                self.channels.insert(i, entry);
                proof {
                    lemma_entries_view_update(old(self).channels@, self.channels@, i as int, entry);
                    lemma_registry_wf_update(old(self)@, i as int, entry@);
                }
                let reply = if old_limit == new_limit {
                    render_already(new_limit as u64, channel_id)
                } else if old_limit < new_limit {
                    render_increased(channel_id, old_limit as u64, new_limit as u64)
                } else {
                    render_decreased(channel_id, old_limit as u64, new_limit as u64)
                };
                LimitUpdate {
                    reply,
                    evicted,
                    created: false,
                    persist: true,
                    audit: Some(AuditEntry { actor_id: user_id, channel_id, new_limit }),
                }
            },
        }
    }

    /// Clear retention for `channel_id`: its slot leaves the registry
    /// and the queue contents are discarded without remote deletions.
    /// When the channel was monitored, the caller must delete the
    /// persisted limit row and append the removal audit row; an
    /// unmonitored channel sees a "doesn't have a limit" reply and no
    /// persisted-store work at all.
    pub fn remove_limit(&mut self, channel_id: u64, user_id: u64) -> (r: RemoveOutcome)
        requires
            old(self).wf(),
        ensures
            final(self).wf(),
            final(self)@ == spec_remove_limit(old(self)@, channel_id),
            r.removed == has_channel(old(self)@, channel_id),
            r.removed ==> r.reply@ == removed_reply(
                old(self)@[find_channel(old(self)@, channel_id)].limit,
                channel_id as nat,
            ),
            !r.removed ==> r.reply@ == no_limit_reply(channel_id as nat),
            r.audit == if r.removed {
                Some(AuditEntry { actor_id: Some(user_id), channel_id, new_limit: 0 })
            } else {
                None::<AuditEntry>
            },
    {
        match self.find_index(channel_id) {
            None => RemoveOutcome { reply: render_no_limit(channel_id), removed: false, audit: None },
            Some(i) => {
                proof {
                    assert(self@[i as int] == self.channels@[i as int]@);
                }
                let entry = self.channels.remove(i);
                proof {
                    lemma_entries_view_remove(old(self).channels@, i as int);
                    lemma_registry_wf_remove(old(self)@, i as int);
                }
                let reply = render_removed(entry.cq.limit as u64, channel_id);
                RemoveOutcome {
                    reply,
                    removed: true,
                    audit: Some(AuditEntry { actor_id: Some(user_id), channel_id, new_limit: 0 }),
                }
            },
        }
    }

    /// The read-only status summary: one line per monitored channel with
    /// its occupancy, in registry order, or a note that nothing is
    /// monitored.
    pub fn get_status(&self) -> (r: String)
        requires
            self.wf(),
        ensures
            r@ == spec_status_reply(self@),
    {
        if self.channels.len() == 0 {
            return "There are no channels being autodeleted".to_owned();
        }
        let mut s = "The following channels are being autodeleted:\n".to_owned();
        let ghost header = "The following channels are being autodeleted:\n"@;
        proof {
            assert(status_body(self@.take(0)) =~= Seq::<char>::empty());
            assert(s@ =~= header + status_body(self@.take(0)));
        }
        let mut i: usize = 0;
        while i < self.channels.len()
            invariant
                self.wf(),
                i <= self.channels@.len(),
                s@ == header + status_body(self@.take(i as int)),
                header == "The following channels are being autodeleted:\n"@,
            decreases self.channels@.len() - i,
        {
            proof {
                assert(self@[i as int] == self.channels@[i as int]@);
                assert(channel_view_wf(self@[i as int]));
            }
            let ch = self.channels[i].channel_id;
            let len = self.channels[i].cq.queue.len();
            let limit = self.channels[i].cq.limit;
            let pct: u64 = if limit == 0 {
                0
            } else {
                let wide: u128 = (len as u128) * 100;
                let q: u128 = wide / (limit as u128);
                let r: u128 = wide % (limit as u128);
                proof {
                    assert((len as int) * 100 / (limit as int) <= 100) by (nonlinear_arith)
                        requires
                            len <= limit,
                            limit >= 1,
                    ;
                    assert(r < limit as u128);
                }
                let rounded: u128 = if 2 * r > limit as u128 || (2 * r == limit as u128 && q % 2
                    == 1) {
                    q + 1
                } else {
                    q
                };
                proof {
                    assert(rounded == occupancy_pct(len as nat, limit as nat));
                }
                rounded as u64
            };
            let line = render_status_line(ch, len as u64, limit as u64, pct);
            s.append(line.as_str());
            proof {
                let t = self@.take(i as int + 1);
                assert(t.drop_last() =~= self@.take(i as int));
                assert(t.last() == self@[i as int]);
                assert(s@ =~= header + status_body(t));
            }
            i += 1;
        }
        proof {
            assert(self@.take(self@.len() as int) =~= self@);
        }
        s
    }

    /// Apply one command to the registry and say what remote and
    /// persisted work it asks for. This is the whole decision of one
    /// actor turn: the caller performs the effects, synchronously,
    /// before taking the next command.
    pub fn handle_command(&mut self, cmd: Command) -> (r: CommandEffects)
        requires
            old(self).wf(),
            cmd matches Command::MessageReceived { channel_id, message } ==> (has_channel(
                old(self)@,
                channel_id,
            ) ==> ({
                let cv = old(self)@[find_channel(old(self)@, channel_id)];
                !contains_id(cv.queue, message.id) && !contains_id(cv.pins, message.id)
            })),
            cmd matches Command::SetLimit { limit, .. } ==> limit >= 1,
        ensures
            final(self).wf(),
            match cmd {
                Command::Initialize => {
                    &&& final(self)@ == old(self)@
                    &&& r.replay
                    &&& r.reply is None
                    &&& r.deletes@ == Seq::<u64>::empty()
                },
                Command::MessageReceived { channel_id, message } => {
                    &&& final(self)@ == spec_insert_message(old(self)@, channel_id, message, true).0
                    &&& r.deletes@ == spec_insert_message(old(self)@, channel_id, message, true).1
                    &&& r.reply is None
                    &&& !r.replay
                },
                Command::MessageDeleted { channel_id, message_id, .. } => {
                    &&& final(self)@ == spec_remove_message(old(self)@, channel_id, message_id)
                    &&& r.reply is None
                    &&& r.deletes@ == Seq::<u64>::empty()
                },
                Command::SetLimit { channel_id, limit, user_id } => {
                    &&& final(self)@ == spec_update_limit(old(self)@, channel_id, limit as nat).0
                    &&& r.deletes@ == spec_update_limit(old(self)@, channel_id, limit as nat).1
                    &&& (r.reply matches Some(rep) && rep@ == spec_update_limit_reply(
                        old(self)@,
                        channel_id,
                        limit as nat,
                        false,
                    ))
                    &&& r.backfill == if !has_channel(old(self)@, channel_id) {
                        Some(channel_id)
                    } else {
                        None::<u64>
                    }
                    &&& r.persist_limit == Some((channel_id, limit))
                    &&& r.audit == Some(
                        AuditEntry { actor_id: Some(user_id), channel_id, new_limit: limit },
                    )
                },
                Command::RemoveLimit { channel_id, user_id } => {
                    &&& final(self)@ == spec_remove_limit(old(self)@, channel_id)
                    &&& (r.reply matches Some(rep) && rep@ == (if has_channel(
                        old(self)@,
                        channel_id,
                    ) {
                        removed_reply(
                            old(self)@[find_channel(old(self)@, channel_id)].limit,
                            channel_id as nat,
                        )
                    } else {
                        no_limit_reply(channel_id as nat)
                    }))
                    &&& r.delete_limit_row == if has_channel(old(self)@, channel_id) {
                        Some(channel_id)
                    } else {
                        None::<u64>
                    }
                    &&& r.audit == if has_channel(old(self)@, channel_id) {
                        Some(AuditEntry { actor_id: Some(user_id), channel_id, new_limit: 0 })
                    } else {
                        None::<AuditEntry>
                    }
                    &&& r.deletes@ == Seq::<u64>::empty()
                },
                Command::GetStatus => {
                    &&& final(self)@ == old(self)@
                    &&& (r.reply matches Some(rep) && rep@ == spec_status_reply(old(self)@))
                    &&& r.deletes@ == Seq::<u64>::empty()
                },
                Command::ChannelPinsUpdated { channel_id } => {
                    &&& final(self)@ == old(self)@
                    &&& r.fetch_pins == if has_channel(old(self)@, channel_id) {
                        Some(channel_id)
                    } else {
                        None::<u64>
                    }
                    &&& r.reply is None
                    &&& r.deletes@ == Seq::<u64>::empty()
                },
            },
    {
        match cmd {
            Command::Initialize => CommandEffects {
                reply: None,
                deletes: Vec::new(),
                replay: true,
                backfill: None,
                persist_limit: None,
                delete_limit_row: None,
                audit: None,
                fetch_pins: None,
            },
            Command::MessageReceived { channel_id, message } => {
                let deletes = self.insert_message(channel_id, message, true);
                CommandEffects {
                    reply: None,
                    deletes,
                    replay: false,
                    backfill: None,
                    persist_limit: None,
                    delete_limit_row: None,
                    audit: None,
                    fetch_pins: None,
                }
            },
            Command::MessageDeleted { channel_id, message_id, guild_id: _ } => {
                self.remove_message(message_id, channel_id);
                CommandEffects {
                    reply: None,
                    deletes: Vec::new(),
                    replay: false,
                    backfill: None,
                    persist_limit: None,
                    delete_limit_row: None,
                    audit: None,
                    fetch_pins: None,
                }
            },
            Command::SetLimit { channel_id, limit, user_id } => {
                let outcome = self.update_limit(channel_id, limit, false, Some(user_id));
                CommandEffects {
                    reply: Some(outcome.reply),
                    deletes: outcome.evicted,
                    replay: false,
                    backfill: if outcome.created {
                        Some(channel_id)
                    } else {
                        None
                    },
                    persist_limit: Some((channel_id, limit)),
                    delete_limit_row: None,
                    audit: outcome.audit,
                    fetch_pins: None,
                }
            },
            Command::RemoveLimit { channel_id, user_id } => {
                let outcome = self.remove_limit(channel_id, user_id);
                CommandEffects {
                    reply: Some(outcome.reply),
                    deletes: Vec::new(),
                    replay: false,
                    backfill: None,
                    persist_limit: None,
                    delete_limit_row: if outcome.removed {
                        Some(channel_id)
                    } else {
                        None
                    },
                    audit: outcome.audit,
                    fetch_pins: None,
                }
            },
            Command::GetStatus => {
                let reply = self.get_status();
                CommandEffects {
                    reply: Some(reply),
                    deletes: Vec::new(),
                    replay: false,
                    backfill: None,
                    persist_limit: None,
                    delete_limit_row: None,
                    audit: None,
                    fetch_pins: None,
                }
            },
            Command::ChannelPinsUpdated { channel_id } => {
                let fetch_pins = if self.is_monitored(channel_id) {
                    Some(channel_id)
                } else {
                    None
                };
                CommandEffects {
                    reply: None,
                    deletes: Vec::new(),
                    replay: false,
                    backfill: None,
                    persist_limit: None,
                    delete_limit_row: None,
                    audit: None,
                    fetch_pins,
                }
            },
        }
    }
}

} // verus!
