use ferrisbot::moving::ChannelKind;
use ferrisbot::utilities::{
    ban, ban_request, cleanup, conradluget, count_channels, edit_after_audit, edit_content, go,
    selftimeout_message, selftimeout_seconds, selftimeout_until, server, solved, solved_parent,
    source, uptime, user, EditOutcome, SolvedError,
};

const DAY: i64 = 86_400_000_000;

#[test]
fn go_answers() {
    assert_eq!(go(true), "Yes");
    assert_eq!(go(false), "No");
}

#[test]
fn source_link() {
    assert_eq!(source(), "https://github.com/rust-community-discord/ferrisbot-for-discord");
}

#[test]
fn uptime_in_units() {
    assert_eq!(uptime(0), "Uptime: 0d 0h 0m 0s");
    assert_eq!(uptime(90_061), "Uptime: 1d 1h 1m 1s");
    assert_eq!(uptime(86_399), "Uptime: 0d 23h 59m 59s");
    assert_eq!(uptime(u64::MAX), "Uptime: 213503982334601d 7h 0m 15s");
}

#[test]
fn uptime_parts_add_up() {
    for seconds in [0u64, 59, 60, 3_599, 3_600, 86_400, 1_000_000] {
        let reply = uptime(seconds);
        let parts: Vec<u64> = reply
            .trim_start_matches("Uptime: ")
            .split(' ')
            .map(|p| p[..p.len() - 1].parse().unwrap())
            .collect();
        assert_eq!(parts[0] * 86_400 + parts[1] * 3_600 + parts[2] * 60 + parts[3], seconds);
        assert!(parts[1] < 24 && parts[2] < 60 && parts[3] < 60);
    }
}

#[test]
fn conradluget_caption_and_file() {
    let (caption, file) = conradluget("a better computer");
    assert_eq!(caption, "Get a better computer");
    assert_eq!(file, "Get a better computer.png");
}

#[test]
fn cleanup_takes_recent_own_messages() {
    let bot = 7;
    let now = 10 * DAY;
    let messages = vec![
        (7, now - 1),
        (8, now - 1),
        (7, now - 2 * DAY),
        (7, now - DAY + 1),
        (7, now - DAY),
        (7, now),
    ];
    assert_eq!(cleanup(&messages, bot, now, None), vec![0]);
    assert_eq!(cleanup(&messages, bot, now, Some(2)), vec![0, 3]);
    assert_eq!(cleanup(&messages, bot, now, Some(10)), vec![0, 3, 5]);
    assert_eq!(cleanup(&messages, bot, now, Some(0)), Vec::<usize>::new());
    assert_eq!(cleanup(&vec![], bot, now, Some(3)), Vec::<usize>::new());
}

#[test]
fn ban_reply() {
    assert_eq!(ban("ferris", ":crab:"), "Banned user ferris  :crab:");
}

#[test]
fn selftimeout_length() {
    assert_eq!(selftimeout_seconds(None, None), 3_600);
    assert_eq!(selftimeout_seconds(Some(2), None), 7_200);
    assert_eq!(selftimeout_seconds(None, Some(30)), 1_800);
    assert_eq!(selftimeout_seconds(Some(1), Some(1)), 3_660);
    assert_eq!(selftimeout_seconds(Some(0), Some(0)), 0);
}

#[test]
fn selftimeout_end_and_message() {
    assert_eq!(selftimeout_until(1_700_000_000, 3_600), Ok(1_700_003_600));
    assert_eq!(selftimeout_until(-1_000, 0), Ok(-1_000));
    assert_eq!(
        selftimeout_until(0, 9_000_000_000_000_000),
        Err("invalid UNIX timestamp value".to_string())
    );
    // The seconds are taken as an `i64`, which wraps.
    assert_eq!(selftimeout_until(1_000, u64::MAX), Ok(999));
    assert_eq!(
        selftimeout_message("ferris", 1_700_003_600),
        "Self-timeout for ferris. They'll be able to interact with the server again <t:1700003600:R>. If this was a mistake, please contact a moderator or try to enjoy the time off."
    );
    assert!(selftimeout_message("x", -5).contains("<t:-5:R>"));
}

#[test]
fn solved_adds_the_solved_tag() {
    let available = vec![(1, "Help".to_string()), (2, "Solved".to_string()), (3, "Solved".to_string())];
    assert_eq!(solved(&vec![1], Some(&available)), Ok(vec![1, 2]));
    assert_eq!(solved(&vec![], Some(&available)), Ok(vec![2]));
}

#[test]
fn solved_errors() {
    let available = vec![(1, "Help".to_string()), (2, "Solved".to_string())];
    assert_eq!(solved(&vec![2, 1], Some(&available)), Err(SolvedError::AlreadySolved));
    assert_eq!(solved(&vec![1], Some(&vec![(1, "solved".to_string())])), Err(SolvedError::NoSolvedTag));
    assert_eq!(solved(&vec![1], None), Err(SolvedError::ParentNotGuildChannel));
    assert_eq!(SolvedError::AlreadySolved.message(), "thread is already solved");
    assert_eq!(SolvedError::NoSolvedTag.message(), "no 'Solved' tag available here");
    assert_eq!(SolvedError::NotApplicable.message(), "not applicable here");
    assert_eq!(SolvedError::NoParent.message(), "thread lacks parent channel (¿dafuq?)");
    assert_eq!(
        SolvedError::ParentNotGuildChannel.message(),
        "parent is not a guild channel (¿dafuq?)"
    );
}

#[test]
fn edit_outcomes() {
    assert!(matches!(edit_content(Some("new text")), EditOutcome::NewContent(c) if c == "new text"));
    assert!(matches!(
        edit_content(Some("")),
        EditOutcome::Cancel("\u{274C} Empty message received. Edit cancelled.")
    ));
    assert!(matches!(
        edit_content(None),
        EditOutcome::Cancel("\u{23F0} Timeout: No message received within 60 seconds. Edit cancelled.")
    ));
}

#[test]
fn server_summary() {
    let kinds = vec![ChannelKind::Text, ChannelKind::Voice, ChannelKind::Text, ChannelKind::Forum];
    assert_eq!(count_channels(&kinds, ChannelKind::Text), 2);
    assert_eq!(count_channels(&kinds, ChannelKind::PublicThread), 0);
    let fields = server(120, 45, 3, &kinds);
    assert_eq!(
        fields,
        vec![
            ("Members", "45/120".to_string()),
            ("Boost Count", "3".to_string()),
            ("Text Channels", "2".to_string()),
            ("Voice Channels", "1".to_string()),
        ]
    );
}

#[test]
fn user_summary() {
    let (title, description, footer) =
        user("Ferris", "ferris_the_crab", 42, &vec!["Moderator".to_string(), "Rustacean".to_string()]);
    assert_eq!(title, "Ferris (ferris_the_crab)");
    assert_eq!(description, "User ID: 42");
    assert_eq!(footer, "Moderator | Rustacean");
    let (_, _, none) = user("a", "b", 0, &vec![]);
    assert_eq!(none, "");
}

#[test]
fn solved_only_in_public_threads() {
    assert_eq!(solved_parent(Some(ChannelKind::PublicThread), Some(9)), Ok(9));
    assert_eq!(solved_parent(Some(ChannelKind::PublicThread), None), Err(SolvedError::NoParent));
    assert_eq!(solved_parent(Some(ChannelKind::Text), Some(9)), Err(SolvedError::NotApplicable));
    assert_eq!(solved_parent(Some(ChannelKind::Forum), Some(9)), Err(SolvedError::NotApplicable));
    assert_eq!(solved_parent(None, Some(9)), Err(SolvedError::NotApplicable));
}

#[test]
fn edit_waits_for_the_audit_log() {
    assert!(matches!(
        edit_after_audit("new".to_string(), Ok(())),
        EditOutcome::NewContent(c) if c == "new"
    ));
    assert!(matches!(
        edit_after_audit("new".to_string(), Err("channel not found".to_string())),
        EditOutcome::AuditFailed(m) if m == "\u{274C} Failed to log audit information: channel not found"
    ));
}

#[test]
fn ban_requests() {
    let r = ban_request(42, Some("spam"));
    assert_eq!((r.user, r.delete_message_days, r.reason.as_deref()), (42, 0, Some("spam")));
    let r = ban_request(7, None);
    assert_eq!((r.user, r.delete_message_days, r.reason), (7, 0, None));
}
