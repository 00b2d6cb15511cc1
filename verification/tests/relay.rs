use std::collections::HashMap;

use ferrisbot::relay::{
    contains_id, edit_prompt, in_posting_order, keep_waiting_for_lock, messages_to_move,
    move_notice, moved_reply, posted_within_max_time_span, relay_text, should_refetch_messages,
    snowflake_created_at, stop_rule, users_by_message_count, webhook_name, ChannelLocks,
    MessageInfo, ReactionStep, RelayedMessages, StopAt, MAX_TIME_SPAN_MICROS, MESSAGE_LIMIT,
};

const HOUR: i64 = 3_600_000_000;

fn msg(id: u64, author: u64, timestamp_micros: i64) -> MessageInfo {
    MessageInfo { id, author, timestamp_micros }
}

#[test]
fn time_span_is_two_hours() {
    assert_eq!(MAX_TIME_SPAN_MICROS, 2 * HOUR);
    assert!(posted_within_max_time_span(0, 0));
    assert!(posted_within_max_time_span(2 * HOUR - 1, 0));
    assert!(!posted_within_max_time_span(2 * HOUR, 0));
    assert!(posted_within_max_time_span(-5 * HOUR, 0));
    assert!(posted_within_max_time_span(i64::MIN, i64::MAX));
    assert!(!posted_within_max_time_span(i64::MAX, i64::MIN));
}

#[test]
fn refetch_while_last_message_is_recent() {
    assert!(should_refetch_messages(&vec![], 0));
    assert!(should_refetch_messages(&vec![msg(1, 1, 3 * HOUR), msg(2, 1, HOUR)], 0));
    assert!(!should_refetch_messages(&vec![msg(1, 1, HOUR), msg(2, 1, 3 * HOUR)], 0));
}

#[test]
fn snowflake_timestamp() {
    assert_eq!(snowflake_created_at(175928847299117063), 1462015105796);
    assert_eq!(snowflake_created_at(0), 1_420_070_400_000);
}

#[test]
fn stop_rule_prefers_fetched_id() {
    let ms = vec![msg(5, 1, 0), msg(9, 1, 0)];
    assert_eq!(stop_rule(None, &ms), StopAt::Unlimited);
    assert_eq!(stop_rule(Some(9), &ms), StopAt::AtId(9));
    let id: u64 = 175928847299117063;
    assert_eq!(stop_rule(Some(id), &ms), StopAt::AtTime(1462015105796));
}

#[test]
fn move_takes_selected_users_within_time_span() {
    let ms = vec![
        msg(1, 10, 0),
        msg(2, 20, HOUR),
        msg(3, 10, HOUR),
        msg(4, 10, 3 * HOUR),
        msg(5, 30, HOUR),
    ];
    assert_eq!(messages_to_move(&ms, &vec![10, 30], 0, StopAt::Unlimited), vec![0, 2, 4]);
    assert_eq!(messages_to_move(&ms, &vec![10, 30], 0, StopAt::AtId(3)), vec![0, 2]);
    assert_eq!(messages_to_move(&ms, &vec![], 0, StopAt::Unlimited), Vec::<usize>::new());
}

#[test]
fn move_stops_at_creation_time() {
    let ms = vec![msg(4_194_304 * 10, 1, 0), msg(4_194_304 * 20, 1, 0), msg(4_194_304 * 30, 1, 0)];
    let stop = StopAt::AtTime(1_420_070_400_000 + 15);
    assert_eq!(messages_to_move(&ms, &vec![1], 0, stop), vec![0, 1]);
}

#[test]
fn move_relays_at_most_the_limit() {
    let ms: Vec<MessageInfo> = (0..150).map(|i| msg(i, 1, 0)).collect();
    let moved = messages_to_move(&ms, &vec![1], 0, StopAt::Unlimited);
    assert_eq!(moved.len(), MESSAGE_LIMIT);
    assert_eq!(moved, (0..100).collect::<Vec<usize>>());
}

#[test]
fn ids_are_found() {
    assert!(contains_id(&vec![1, 2, 3], 2));
    assert!(!contains_id(&vec![1, 2, 3], 4));
    assert!(!contains_id(&vec![], 4));
}

#[test]
fn fewest_messages_first() {
    assert_eq!(users_by_message_count(&vec![3, 1, 3, 2, 2, 3]), vec![1, 2, 3]);
    assert_eq!(users_by_message_count(&vec![]), Vec::<u64>::new());
    let tied = users_by_message_count(&vec![7, 8, 8, 7]);
    assert_eq!(tied.len(), 2);
    assert!(tied.contains(&7) && tied.contains(&8));
}

#[test]
fn notices_mention_users_and_channels() {
    assert_eq!(
        move_notice(1, 2, &vec![3, 4]),
        "<@1> moved the conversation from <#2> to here.\nParticipants: <@3><@4>"
    );
    assert_eq!(
        move_notice(1, 2, &vec![]),
        "<@1> moved the conversation from <#2> to here.\nParticipants: "
    );
    assert_eq!(moved_reply(1, 99), "<@1> moved a conversation from here to <#99>.");
    assert_eq!(webhook_name(12345), "move conversation 12345");
}

#[test]
fn empty_messages_are_relayed_as_placeholder() {
    assert_eq!(relay_text(""), "_ _");
    assert_eq!(relay_text("hi"), "hi");
}

#[test]
fn edit_prompt_quotes_each_line() {
    assert_eq!(
        edit_prompt("first\nsecond"),
        "**Original message:**\n> first\n> second\n**\nPlease respond with your edit within the next five minutes:**\n"
    );
    assert_eq!(
        edit_prompt(""),
        "**Original message:**\n**\nPlease respond with your edit within the next five minutes:**\n"
    );
}

#[test]
fn edit_prompt_is_cut_to_limit() {
    let long = "b".repeat(5000);
    let prompt = edit_prompt(&long);
    assert_eq!(prompt.len(), 2048);
    assert!(prompt.starts_with("**Original message:**\n> bbb"));
}

fn relayed() -> RelayedMessages {
    let mut original_users = HashMap::new();
    original_users.insert(100, 1);
    original_users.insert(101, 2);
    original_users.insert(102, 1);
    RelayedMessages { original_users, relayed: vec![100, 101, 102] }
}

#[test]
fn author_can_delete_relayed_message() {
    let mut r = relayed();
    assert_eq!(r.reaction_received(100, Some(1), Some("\u{274C}")), ReactionStep::DeleteRelayed(0));
    assert_eq!(r.relayed, vec![102, 101]);
    assert!(!r.original_users.contains_key(&100));
    assert_eq!(r.reaction_received(100, Some(1), Some("\u{274C}")), ReactionStep::Ignore);
}

#[test]
fn author_can_ask_for_edit() {
    let mut r = relayed();
    assert_eq!(
        r.reaction_received(101, Some(2), Some("\u{1F4DD}")),
        ReactionStep::PromptEdit { user: 2, position: 1 }
    );
    assert_eq!(
        r.reaction_received(102, Some(1), Some("\u{270F}\u{FE0F}")),
        ReactionStep::PromptEdit { user: 1, position: 2 }
    );
    assert_eq!(r.relayed, vec![100, 101, 102]);
}

#[test]
fn other_reactions_are_ignored() {
    let mut r = relayed();
    assert_eq!(r.reaction_received(101, Some(1), Some("\u{274C}")), ReactionStep::Ignore);
    assert_eq!(r.reaction_received(101, None, Some("\u{274C}")), ReactionStep::Ignore);
    assert_eq!(r.reaction_received(101, Some(2), None), ReactionStep::Ignore);
    assert_eq!(r.reaction_received(101, Some(2), Some("\u{1F44D}")), ReactionStep::Ignore);
    assert_eq!(r.reaction_received(555, Some(2), Some("\u{274C}")), ReactionStep::Ignore);
    assert_eq!(r.relayed, vec![100, 101, 102]);
    assert_eq!(r.original_users.len(), 3);
}

#[test]
fn channel_locks_are_exclusive() {
    let mut locks = ChannelLocks::new();
    assert!(locks.try_lock(5));
    assert!(!locks.try_lock(5));
    assert!(locks.try_lock(6));
    locks.unlock(5);
    assert!(locks.try_lock(5));
    locks.unlock(7);
    assert!(locks.try_lock(7));
}

#[test]
fn lock_wait_is_two_minutes() {
    assert!(keep_waiting_for_lock(0));
    assert!(keep_waiting_for_lock(119_999_999_999));
    assert!(!keep_waiting_for_lock(120_000_000_000));
}

#[test]
fn messages_in_posting_order() {
    assert_eq!(in_posting_order(vec![3, 2], 1), vec![1, 2, 3]);
    assert_eq!(in_posting_order(Vec::new(), 1), vec![1]);
}

#[test]
fn recorded_messages_can_be_deleted_by_their_author() {
    let mut r = RelayedMessages::new();
    assert!(r.relayed.is_empty() && r.original_users.is_empty());
    r.record(500, 9);
    r.record(501, 8);
    assert_eq!(r.relayed, vec![500, 501]);
    assert_eq!(r.original_users.get(&500), Some(&9));
    assert_eq!(r.reaction_received(500, Some(9), Some("\u{274C}")), ReactionStep::DeleteRelayed(0));
    assert_eq!(r.relayed, vec![501]);
}
