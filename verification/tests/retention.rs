use autodelete::configure_limit_valid;
use autodelete::msg::MessageRef;
use autodelete::msgman::AuditEntry;
use autodelete::msgman::Command;
use autodelete::msgman::HistoryAction;
use autodelete::msgman::MessageManager;
use autodelete::numfmt::u64_to_string;

fn m(id: u64, timestamp: i64) -> MessageRef {
    MessageRef { id, timestamp }
}

fn queue_ids(mm: &MessageManager, ch: u64) -> Vec<u64> {
    let entry = mm.channels.iter().find(|e| e.channel_id == ch).expect("channel not configured");
    entry.cq.queue.iter().map(|x| x.id).collect()
}

fn pin_ids(mm: &MessageManager, ch: u64) -> Vec<u64> {
    let entry = mm.channels.iter().find(|e| e.channel_id == ch).expect("channel not configured");
    entry.cq.pins.iter().map(|x| x.id).collect()
}

#[test]
fn insert_six_with_limit_five_evicts_exactly_the_oldest() {
    // limit = 5; insert m1..m6 in order: exactly m1 is evicted and the
    // queue ends as [m2, m3, m4, m5, m6]
    let mut mm = MessageManager::new();
    let outcome = mm.update_limit(42, 5, false, Some(9));
    assert!(outcome.created);
    let mut delete_calls = 0;
    for i in 1..=6u64 {
        let evicted = mm.insert_message(42, m(i, i as i64), true);
        delete_calls += evicted.len();
        if i == 6 {
            assert_eq!(evicted, vec![1]);
        } else {
            assert!(evicted.is_empty());
        }
        // the queue never rests above its limit
        assert!(queue_ids(&mm, 42).len() <= 5);
    }
    assert_eq!(delete_calls, 1);
    assert_eq!(queue_ids(&mm, 42), vec![2, 3, 4, 5, 6]);
}

#[test]
fn unmonitored_channel_insert_is_a_no_op() {
    let mut mm = MessageManager::new();
    let evicted = mm.insert_message(7, m(1, 1), true);
    assert!(evicted.is_empty());
    assert!(!mm.is_monitored(7));
}

#[test]
fn pinned_message_moves_from_queue_to_pins_without_eviction() {
    // a message in `queue` becomes pinned: it moves to `pins`, the queue
    // shrinks by one, nothing is evicted
    let mut mm = MessageManager::new();
    mm.update_limit(42, 5, false, Some(9));
    for i in 1..=4u64 {
        mm.insert_message(42, m(i, i as i64), true);
    }
    let snapshot = vec![m(3, 3)];
    let evicted = mm.on_pins_updated(42, &snapshot);
    assert!(evicted.is_empty());
    assert_eq!(queue_ids(&mm, 42), vec![1, 2, 4]);
    assert_eq!(pin_ids(&mm, 42), vec![3]);
}

#[test]
fn unpinned_message_reenters_chronologically_and_can_force_eviction() {
    // the pinned message is later unpinned: it re-enters the queue at
    // its chronological position; as this pushes the queue above the
    // limit, the oldest entry is evicted
    let mut mm = MessageManager::new();
    mm.update_limit(42, 5, false, Some(9));
    for i in 1..=4u64 {
        mm.insert_message(42, m(i, i as i64), true);
    }
    mm.on_pins_updated(42, &vec![m(3, 3)]);
    // fill the queue back up to the limit while m3 stays pinned
    mm.insert_message(42, m(5, 5), true);
    mm.insert_message(42, m(6, 6), true);
    assert_eq!(queue_ids(&mm, 42), vec![1, 2, 4, 5, 6]);
    // the pin is lifted: m3 re-enters between m2 and m4, m1 is evicted
    let evicted = mm.on_pins_updated(42, &Vec::new());
    assert_eq!(evicted, vec![1]);
    assert_eq!(queue_ids(&mm, 42), vec![2, 3, 4, 5, 6]);
    assert_eq!(pin_ids(&mm, 42), Vec::<u64>::new());
}

#[test]
fn reconciling_twice_with_the_same_snapshot_is_a_no_op() {
    let mut mm = MessageManager::new();
    mm.update_limit(42, 3, false, Some(9));
    for i in 1..=3u64 {
        mm.insert_message(42, m(i, i as i64), true);
    }
    mm.insert_pin(42, m(10, 0));
    let snapshot = vec![m(2, 2), m(11, 11)];
    let first = mm.on_pins_updated(42, &snapshot);
    // the lifted pin m10 re-enters at the front, m2 leaves the queue:
    // queue [m10, m1, m3], pins [m2, m11]
    assert!(first.is_empty());
    let queue_after_first = queue_ids(&mm, 42);
    let pins_after_first = pin_ids(&mm, 42);
    assert_eq!(queue_after_first, vec![10, 1, 3]);
    assert_eq!(pins_after_first, vec![2, 11]);
    // the second pass mutates nothing and issues no deletes
    let second = mm.on_pins_updated(42, &snapshot);
    assert!(second.is_empty());
    assert_eq!(queue_ids(&mm, 42), queue_after_first);
    assert_eq!(pin_ids(&mm, 42), pins_after_first);
}

#[test]
fn queue_and_pins_never_share_an_identifier() {
    let mut mm = MessageManager::new();
    mm.update_limit(42, 5, false, Some(9));
    for i in 1..=5u64 {
        mm.insert_message(42, m(i, i as i64), true);
    }
    mm.on_pins_updated(42, &vec![m(2, 2), m(4, 4)]);
    mm.insert_message(42, m(6, 6), true);
    mm.on_pins_updated(42, &vec![m(4, 4), m(6, 6)]);
    let q = queue_ids(&mm, 42);
    let p = pin_ids(&mm, 42);
    for id in &q {
        assert!(!p.contains(id));
    }
}

#[test]
fn raising_a_limit_never_evicts() {
    let mut mm = MessageManager::new();
    mm.update_limit(42, 10, false, Some(9));
    for i in 1..=8u64 {
        mm.insert_message(42, m(i, i as i64), true);
    }
    let outcome = mm.update_limit(42, 12, false, Some(9));
    assert!(outcome.evicted.is_empty());
    assert!(!outcome.created);
    assert!(outcome.persist);
    assert_eq!(queue_ids(&mm, 42).len(), 8);
    assert_eq!(
        outcome.reply,
        "Okay, I increased the limit of <#42> from 10 to 12!"
    );
}

#[test]
fn shrinking_from_ten_to_three_evicts_exactly_the_five_oldest() {
    // queue holds 8 messages; set_limit from 10 to 3 evicts exactly 5,
    // the oldest ones, and leaves limit = 3 with 3 messages
    let mut mm = MessageManager::new();
    mm.update_limit(42, 10, false, Some(9));
    for i in 1..=8u64 {
        mm.insert_message(42, m(i, i as i64), true);
    }
    let outcome = mm.update_limit(42, 3, false, Some(9));
    assert_eq!(outcome.evicted, vec![1, 2, 3, 4, 5]);
    assert_eq!(queue_ids(&mm, 42), vec![6, 7, 8]);
    let entry = mm.channels.iter().find(|e| e.channel_id == 42).unwrap();
    assert_eq!(entry.cq.limit, 3);
    assert_eq!(
        outcome.reply,
        "Okay, I decreased the limit of <#42> from 10 to 3, and I'm already purging older messages!"
    );
}

#[test]
fn setting_the_same_limit_changes_nothing_but_still_persists() {
    let mut mm = MessageManager::new();
    mm.update_limit(42, 5, false, Some(9));
    mm.insert_message(42, m(1, 1), true);
    let outcome = mm.update_limit(42, 5, false, Some(9));
    assert!(outcome.evicted.is_empty());
    assert!(outcome.persist);
    assert_eq!(outcome.reply, "5 already is the limit for <#42>!");
    assert_eq!(queue_ids(&mm, 42), vec![1]);
}

#[test]
fn creating_a_limit_reports_and_audits() {
    let mut mm = MessageManager::new();
    let outcome = mm.update_limit(42, 5, false, Some(9));
    assert!(outcome.created);
    assert!(outcome.persist);
    assert_eq!(
        outcome.audit,
        Some(AuditEntry { actor_id: Some(9), channel_id: 42, new_limit: 5 })
    );
    assert_eq!(
        outcome.reply,
        "Created limit 5 for channel <#42>, and I'm already purging older messages!"
    );
}

#[test]
fn startup_replay_skips_persistence_and_audit() {
    let mut mm = MessageManager::new();
    let outcome = mm.update_limit(42, 5, true, None);
    assert!(outcome.created);
    assert!(!outcome.persist);
    assert_eq!(outcome.audit, None);
    assert_eq!(outcome.reply, "Initialized channel 42 limit to 5");
}

#[test]
fn removal_clears_memory_and_asks_for_both_persisted_writes() {
    // removal clears the in-memory queue regardless of occupancy and
    // asks the caller to delete the limit row and append the
    // removal audit record (limit zero)
    let mut mm = MessageManager::new();
    mm.update_limit(42, 5, false, Some(9));
    for i in 1..=5u64 {
        mm.insert_message(42, m(i, i as i64), true);
    }
    let outcome = mm.remove_limit(42, 9);
    assert!(outcome.removed);
    assert_eq!(
        outcome.audit,
        Some(AuditEntry { actor_id: Some(9), channel_id: 42, new_limit: 0 })
    );
    assert_eq!(outcome.reply, "Removed limit (5) from <#42>");
    assert!(!mm.is_monitored(42));
    assert!(mm.channels.is_empty());
}

#[test]
fn removal_of_an_unconfigured_channel_touches_nothing() {
    // remove_limit without a configured queue: a "not configured" reply
    // and zero persisted-store work
    let mut mm = MessageManager::new();
    let outcome = mm.remove_limit(7, 9);
    assert!(!outcome.removed);
    assert_eq!(outcome.audit, None);
    assert_eq!(outcome.reply, "<#7> doesn't have a limit!");
}

#[test]
fn configure_accepts_only_five_to_five_hundred() {
    assert!(!configure_limit_valid(4));
    assert!(configure_limit_valid(5));
    assert!(configure_limit_valid(500));
    assert!(!configure_limit_valid(501));
    assert!(!configure_limit_valid(0));
    assert!(!configure_limit_valid(-3));
}

#[test]
fn status_reports_every_channel_with_its_occupancy() {
    let mut mm = MessageManager::new();
    assert_eq!(mm.get_status(), "There are no channels being autodeleted");
    mm.update_limit(42, 5, false, Some(9));
    mm.insert_message(42, m(1, 1), true);
    mm.insert_message(42, m(2, 2), true);
    mm.update_limit(50, 8, false, Some(9));
    assert_eq!(
        mm.get_status(),
        "The following channels are being autodeleted:\n\
         - <#42> | 2 / 5 (40% full)\n\
         - <#50> | 0 / 8 (0% full)\n"
    );
}

#[test]
fn status_occupancy_rounds_to_nearest_with_ties_to_even() {
    // 2 of 3 slots is 66.67% and reports 67; 3 of 8 is exactly 37.5 and
    // rounds to the even side's neighbour 38; 1 of 8 is exactly 12.5
    // and stays at the even 12
    let mut mm = MessageManager::new();
    mm.update_limit(1, 3, true, None);
    mm.insert_message(1, m(101, 1), true);
    mm.insert_message(1, m(102, 2), true);
    mm.update_limit(2, 8, true, None);
    mm.insert_message(2, m(201, 1), true);
    mm.insert_message(2, m(202, 2), true);
    mm.insert_message(2, m(203, 3), true);
    mm.update_limit(3, 8, true, None);
    mm.insert_message(3, m(301, 1), true);
    assert_eq!(
        mm.get_status(),
        "The following channels are being autodeleted:\n\
         - <#1> | 2 / 3 (67% full)\n\
         - <#2> | 3 / 8 (38% full)\n\
         - <#3> | 1 / 8 (12% full)\n"
    );
}

#[test]
fn backfill_keeps_the_newest_and_purges_the_rest() {
    // the history scan walks newest first: unpinned messages fill the
    // queue from the front up to the limit; pinned ones are skipped;
    // older ones are purged
    let mut mm = MessageManager::new();
    mm.update_limit(42, 2, true, None);
    assert_eq!(mm.backfill_message(42, m(5, 5), false), HistoryAction::Kept);
    assert_eq!(mm.backfill_message(42, m(4, 4), false), HistoryAction::Kept);
    assert_eq!(mm.backfill_message(42, m(3, 3), true), HistoryAction::Skipped);
    assert_eq!(mm.backfill_message(42, m(2, 2), false), HistoryAction::Purge);
    assert_eq!(mm.backfill_message(42, m(1, 1), false), HistoryAction::Purge);
    assert_eq!(queue_ids(&mm, 42), vec![4, 5]);
    mm.insert_pin(42, m(3, 3));
    assert_eq!(pin_ids(&mm, 42), vec![3]);
}

#[test]
fn pins_insert_at_their_chronological_position() {
    let mut mm = MessageManager::new();
    mm.update_limit(42, 5, true, None);
    mm.insert_pin(42, m(20, 200));
    mm.insert_pin(42, m(10, 100));
    mm.insert_pin(42, m(30, 300));
    mm.insert_pin(42, m(15, 100)); // equal timestamp goes after the earlier pin
    assert_eq!(pin_ids(&mm, 42), vec![10, 15, 20, 30]);
}

#[test]
fn remove_message_drops_it_from_either_list() {
    let mut mm = MessageManager::new();
    mm.update_limit(42, 5, false, Some(9));
    mm.insert_message(42, m(1, 1), true);
    mm.insert_message(42, m(2, 2), true);
    mm.insert_pin(42, m(3, 3));
    mm.remove_message(1, 42);
    mm.remove_message(3, 42);
    mm.remove_message(99, 42); // unknown identifier: no-op
    mm.remove_message(2, 7); // unmonitored channel: no-op
    assert_eq!(queue_ids(&mm, 42), vec![2]);
    assert_eq!(pin_ids(&mm, 42), Vec::<u64>::new());
}

#[test]
fn limit_of_one_keeps_only_the_newest_message() {
    let mut mm = MessageManager::new();
    mm.update_limit(42, 1, true, None);
    assert!(mm.insert_message(42, m(1, 1), true).is_empty());
    assert_eq!(mm.insert_message(42, m(2, 2), true), vec![1]);
    assert_eq!(queue_ids(&mm, 42), vec![2]);
}

#[test]
fn decimal_rendering_is_exact() {
    assert_eq!(u64_to_string(0), "0");
    assert_eq!(u64_to_string(7), "7");
    assert_eq!(u64_to_string(10), "10");
    assert_eq!(u64_to_string(105), "105");
    assert_eq!(u64_to_string(u64::MAX), "18446744073709551615");
}

#[test]
fn commands_produce_their_effects() {
    let mut mm = MessageManager::new();

    let eff = mm.handle_command(Command::Initialize);
    assert!(eff.replay);
    assert!(eff.reply.is_none());

    let eff = mm.handle_command(Command::SetLimit { channel_id: 42, limit: 5, user_id: 9 });
    assert_eq!(eff.backfill, Some(42));
    assert_eq!(eff.persist_limit, Some((42, 5)));
    assert_eq!(
        eff.audit,
        Some(AuditEntry { actor_id: Some(9), channel_id: 42, new_limit: 5 })
    );
    assert_eq!(
        eff.reply.as_deref(),
        Some("Created limit 5 for channel <#42>, and I'm already purging older messages!")
    );

    let eff = mm.handle_command(Command::MessageReceived { channel_id: 42, message: m(1, 1) });
    assert!(eff.deletes.is_empty());
    assert!(eff.reply.is_none());

    let eff = mm.handle_command(Command::ChannelPinsUpdated { channel_id: 42 });
    assert_eq!(eff.fetch_pins, Some(42));
    let eff = mm.handle_command(Command::ChannelPinsUpdated { channel_id: 7 });
    assert_eq!(eff.fetch_pins, None);

    let eff = mm.handle_command(Command::MessageDeleted {
        channel_id: 42,
        message_id: 1,
        guild_id: None,
    });
    assert!(eff.deletes.is_empty());
    assert_eq!(queue_ids(&mm, 42), Vec::<u64>::new());

    let eff = mm.handle_command(Command::GetStatus);
    assert_eq!(
        eff.reply.as_deref(),
        Some("The following channels are being autodeleted:\n- <#42> | 0 / 5 (0% full)\n")
    );

    let eff = mm.handle_command(Command::RemoveLimit { channel_id: 42, user_id: 9 });
    assert_eq!(eff.delete_limit_row, Some(42));
    assert_eq!(eff.reply.as_deref(), Some("Removed limit (5) from <#42>"));
    assert!(!mm.is_monitored(42));
}
