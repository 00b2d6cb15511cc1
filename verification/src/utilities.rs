//! What the utility commands decide and reply: uptime, cleanup, timeouts,
//! marking threads solved, editing messages, and server and user summaries.

use vstd::prelude::*;
use crate::moving::ChannelKind;
use crate::relay::first_at_most;
use crate::text::{
    chars_of, decimal, join_with, push_decimal, push_signed_decimal, push_str, same_chars,
    signed_decimal,
};

verus! {

/// The answer to "Evaluates Go code", given the outcome of the one-in-a-hundred draw.
pub fn go(drawn: bool) -> (res: &'static str)
    ensures
        res@ == if drawn {
            "Yes"@
        } else {
            "No"@
        },
{
    if drawn {
        "Yes"
    } else {
        "No"
    }
}

/// The link to the bot's source code.
pub fn source() -> (res: &'static str)
    ensures
        res@ == "https://github.com/rust-community-discord/ferrisbot-for-discord"@,
{
    "https://github.com/rust-community-discord/ferrisbot-for-discord"
}

/// The uptime reply for `seconds` of uptime.
pub open spec fn spec_uptime(seconds: nat) -> Seq<char> {
    "Uptime: "@ + decimal(seconds / 86400) + "d "@ + decimal((seconds / 3600) % 24) + "h "@
        + decimal((seconds / 60) % 60) + "m "@ + decimal(seconds % 60) + "s"@
}

/// How long the bot has been up, in days, hours, minutes and seconds.
pub fn uptime(seconds: u64) -> (res: String)
    ensures
        res@ == spec_uptime(seconds as nat),
{
    let minutes = seconds / 60;
    let secs = seconds % 60;
    let hours = minutes / 60;
    let mins = minutes % 60;
    let days = hours / 24;
    let hrs = hours % 24;
    assert(days == seconds / 86400) by (nonlinear_arith)
        requires
            minutes == seconds / 60,
            hours == minutes / 60,
            days == hours / 24,
    {
        assert(seconds / 60 / 60 == seconds / 3600);
        assert(seconds / 3600 / 24 == seconds / 86400);
    }
    assert(hours == seconds / 3600) by (nonlinear_arith)
        requires
            minutes == seconds / 60,
            hours == minutes / 60,
    ;
    let mut s = String::new();
    push_str(&mut s, "Uptime: ");
    push_decimal(&mut s, days);
    push_str(&mut s, "d ");
    push_decimal(&mut s, hrs);
    push_str(&mut s, "h ");
    push_decimal(&mut s, mins);
    push_str(&mut s, "m ");
    push_decimal(&mut s, secs);
    push_str(&mut s, "s");
    s
}

/// The caption drawn on the image and the image's file name.
pub fn conradluget(text: &str) -> (res: (String, String))
    ensures
        res.0@ == "Get "@ + text@,
        res.1@ == "Get "@ + text@ + ".png"@,
{
    let mut caption = String::new();
    push_str(&mut caption, "Get ");
    push_str(&mut caption, text);
    let mut filename = String::new();
    push_str(&mut filename, caption.as_str());
    push_str(&mut filename, ".png");
    (caption, filename)
}

/// The message was written by the bot less than a day before `now`.
pub open spec fn cleanable(author: u64, timestamp_micros: i64, bot: u64, now_micros: i64) -> bool {
    author == bot && now_micros - timestamp_micros < 86_400_000_000
}

/// The positions, in order, of the cleanable messages.
pub open spec fn cleanable_indices(messages: Seq<(u64, i64)>, bot: u64, now_micros: i64) -> Seq<int>
    decreases messages.len(),
{
    if messages.len() == 0 {
        seq![]
    } else {
        cleanable_indices(messages.drop_last(), bot, now_micros) + if cleanable(
            messages.last().0,
            messages.last().1,
            bot,
            now_micros,
        ) {
            seq![messages.len() - 1]
        } else {
            seq![]
        }
    }
}

/// Which of the recent messages (author, time posted in microseconds) the
/// cleanup deletes: the bot's own messages of the last 24 hours, the first
/// `num_messages` of them (one when not given).
pub fn cleanup(
    messages: &Vec<(u64, i64)>,
    bot: u64,
    now_micros: i64,
    num_messages: Option<usize>,
) -> (res: Vec<usize>)
    ensures
        ({
            let n = match num_messages {
                Some(n) => n as int,
                None => 1int,
            };
            let chosen = first_at_most(cleanable_indices(messages@, bot, now_micros), n);
            &&& res@.len() == chosen.len()
            &&& forall|k: int| 0 <= k < res@.len() ==> #[trigger] res@[k] as int == chosen[k]
        }),
{
    let n: usize = match num_messages {
        Some(n) => n,
        None => 1,
    };
    let ghost ms = messages@;
    let mut all: Vec<usize> = Vec::new();
    let mut i: usize = 0;
    while i < messages.len()
        invariant
            ms == messages@,
            0 <= i <= ms.len(),
            all@.len() == cleanable_indices(ms.take(i as int), bot, now_micros).len(),
            forall|k: int|
                0 <= k < all@.len() ==> #[trigger] all@[k] as int == cleanable_indices(
                    ms.take(i as int),
                    bot,
                    now_micros,
                )[k],
        decreases ms.len() - i,
    {
        assert(ms.take(i + 1).drop_last() =~= ms.take(i as int));
        assert(ms.take(i + 1).last() == ms[i as int]);
        let (author, ts) = messages[i];
        if author == bot && (now_micros as i128) - (ts as i128) < 86_400_000_000 {
            all.push(i);
        }
        i = i + 1;
    }
    assert(ms.take(i as int) =~= ms);
    let limit = if all.len() <= n {
        all.len()
    } else {
        n
    };
    let mut res: Vec<usize> = Vec::new();
    let mut j: usize = 0;
    while j < limit
        invariant
            limit <= all@.len(),
            0 <= j <= limit,
            res@.len() == j,
            forall|k: int| 0 <= k < j ==> #[trigger] res@[k] == all@[k],
        decreases limit - j,
    {
        res.push(all[j]);
        j = j + 1;
    }
    res
}

/// The ban reply: the banned user's name and the ban emoji.
pub fn ban(user_name: &str, emoji: &str) -> (res: String)
    ensures
        res@ == "Banned user "@ + user_name@ + "  "@ + emoji@,
{
    let mut s = String::new();
    push_str(&mut s, "Banned user ");
    push_str(&mut s, user_name);
    push_str(&mut s, "  ");
    push_str(&mut s, emoji);
    s
}

/// How many seconds a self-timeout lasts: an hour when nothing is given,
/// else the given hours and minutes added up.
pub open spec fn spec_selftimeout_seconds(hours: Option<u64>, minutes: Option<u64>) -> int {
    match (hours, minutes) {
        (None, None) => 3600,
        (h, m) => (match h {
            Some(h) => h as int,
            None => 0,
        }) * 3600 + (match m {
            Some(m) => m as int,
            None => 0,
        }) * 60,
    }
}

/// The length of a self-timeout in seconds.
pub fn selftimeout_seconds(hours: Option<u64>, minutes: Option<u64>) -> (res: u64)
    requires
        spec_selftimeout_seconds(hours, minutes) <= u64::MAX,
    ensures
        res == spec_selftimeout_seconds(hours, minutes),
{
    match (hours, minutes) {
        (None, None) => 3600,
        (h, m) => {
            let h: u64 = match h {
                Some(h) => h,
                None => 0,
            };
            let m: u64 = match m {
                Some(m) => m,
                None => 0,
            };
            h * 3600 + m * 60
        },
    }
}

/// Whether serenity's `Timestamp::from_unix_timestamp` accepts `secs`: the
/// time lies in the range of chrono's `DateTime<Utc>`.
pub uninterp spec fn unix_seconds_in_range(secs: i64) -> bool;

/// Trusted: serenity's `Timestamp::from_unix_timestamp`, read back with
/// `Timestamp::unix_timestamp`. It builds the time from `secs * 1000`
/// milliseconds, so `secs` must keep that product in range. It succeeds
/// exactly when the time lies in chrono's range (named by
/// `unix_seconds_in_range`, whose bounds are not written out); a time it
/// accepts gives back `secs`; one it refuses gives `InvalidTimestamp`, whose
/// text is "invalid UNIX timestamp value".
#[verifier::external_body]
fn unix_timestamp_checked(secs: i64) -> (res: Result<i64, String>)
    requires
        -9_223_372_036_854_775 <= secs <= 9_223_372_036_854_775,
    ensures
        (res is Ok) == unix_seconds_in_range(secs),
        match res {
            Ok(t) => t == secs,
            Err(e) => e@ == "invalid UNIX timestamp value"@,
        },
{
    poise::serenity_prelude::Timestamp::from_unix_timestamp(secs)
        .map(|t| t.unix_timestamp())
        .map_err(|e| e.to_string())
}

/// The Unix time at which a self-timeout of `seconds` that starts at `now`
/// ends, the seconds taken as an `i64` (`seconds as i64`, which wraps), or
/// the error of a time that Discord timestamps cannot hold.
pub fn selftimeout_until(now: i64, seconds: u64) -> (res: Result<i64, String>)
    requires
        -9_223_372_036_854_775 <= now + (seconds as i64) <= 9_223_372_036_854_775,
    ensures
        (res is Ok) == unix_seconds_in_range((now + (seconds as i64)) as i64),
        match res {
            Ok(t) => t == now + (seconds as i64),
            Err(e) => e@ == "invalid UNIX timestamp value"@,
        },
{
    #[verifier::truncate]
    let secs = seconds as i64;
    unix_timestamp_checked(now + secs)
}

/// Who a ban removes from the server, how many days of their messages go
/// with them, and the reason recorded in the audit log.
#[derive(Clone, Debug)]
pub struct BanRequest {
    pub user: u64,
    pub delete_message_days: u8,
    pub reason: Option<String>,
}

/// The ban of user `user` for `reason`, keeping their messages.
pub fn ban_request(user: u64, reason: Option<&str>) -> (res: BanRequest)
    ensures
        res.user == user,
        res.delete_message_days == 0,
        match reason {
            Some(r) => res.reason matches Some(t) && t@ == r@,
            None => res.reason is None,
        },
{
    let reason = match reason {
        Some(r) => {
            let mut t = String::new();
            push_str(&mut t, r);
            Some(t)
        },
        None => None,
    };
    BanRequest { user, delete_message_days: 0, reason }
}

/// The self-timeout reply.
pub open spec fn spec_selftimeout_message(name: Seq<char>, until: i64) -> Seq<char> {
    "Self-timeout for "@ + name + ". They'll be able to interact with the server again <t:"@
        + signed_decimal(until as int)
        + ":R>. If this was a mistake, please contact a moderator or try to enjoy the time off."@
}

/// Who timed themselves out and until when.
pub fn selftimeout_message(name: &str, until: i64) -> (res: String)
    ensures
        res@ == spec_selftimeout_message(name@, until),
{
    let mut s = String::new();
    push_str(&mut s, "Self-timeout for ");
    push_str(&mut s, name);
    push_str(&mut s, ". They'll be able to interact with the server again <t:");
    push_signed_decimal(&mut s, until);
    push_str(&mut s, ":R>. If this was a mistake, please contact a moderator or try to enjoy the time off.");
    s
}

/// Why a thread cannot be marked solved.
#[derive(Clone, Copy, Debug, PartialEq, Eq, Structural)]
pub enum SolvedError {
    NotApplicable,
    NoParent,
    ParentNotGuildChannel,
    NoSolvedTag,
    AlreadySolved,
}

impl SolvedError {
    /// The error's message.
    pub fn message(&self) -> (res: &'static str)
        ensures
            res@ == match self {
                SolvedError::NotApplicable => "not applicable here"@,
                SolvedError::NoParent => "thread lacks parent channel (¿dafuq?)"@,
                SolvedError::ParentNotGuildChannel => "parent is not a guild channel (¿dafuq?)"@,
                SolvedError::NoSolvedTag => "no 'Solved' tag available here"@,
                SolvedError::AlreadySolved => "thread is already solved"@,
            },
    {
        match self {
            SolvedError::NotApplicable => "not applicable here",
            SolvedError::NoParent => "thread lacks parent channel (¿dafuq?)",
            SolvedError::ParentNotGuildChannel => "parent is not a guild channel (¿dafuq?)",
            SolvedError::NoSolvedTag => "no 'Solved' tag available here",
            SolvedError::AlreadySolved => "thread is already solved",
        }
    }
}

/// The position of the first tag named `Solved`.
pub open spec fn solved_tag_position(available: Seq<(u64, String)>) -> Option<int> {
    if exists|i: int| 0 <= i < available.len() && available[i].1@ == "Solved"@ {
        Some(
            choose|i: int|
                0 <= i < available.len() && available[i].1@ == "Solved"@ && forall|j: int|
                    0 <= j < i ==> available[j].1@ != "Solved"@,
        )
    } else {
        None
    }
}

/// The channel whose tags a thread marked solved takes from: the parent of
/// the channel the command was used in, which must be a public thread
/// (`channel_kind` is `None` outside a guild channel).
pub fn solved_parent(channel_kind: Option<ChannelKind>, parent: Option<u64>) -> (res: Result<u64, SolvedError>)
    ensures
        match channel_kind {
            Some(ChannelKind::PublicThread) => match parent {
                Some(p) => res == Ok::<u64, SolvedError>(p),
                None => res == Err::<u64, SolvedError>(SolvedError::NoParent),
            },
            _ => res == Err::<u64, SolvedError>(SolvedError::NotApplicable),
        },
{
    match channel_kind {
        Some(ChannelKind::PublicThread) => match parent {
            Some(p) => Ok(p),
            None => Err(SolvedError::NoParent),
        },
        _ => Err(SolvedError::NotApplicable),
    }
}

/// The tags of a thread once it is marked solved: its tags with the first
/// tag named `Solved` of its parent (the parent's tags by ID and name;
/// `None` when the parent is not a guild channel) added.
pub fn solved(applied: &Vec<u64>, parent_tags: Option<&Vec<(u64, String)>>) -> (res: Result<Vec<u64>, SolvedError>)
    ensures
        match parent_tags {
            None => res == Err::<Vec<u64>, SolvedError>(SolvedError::ParentNotGuildChannel),
            Some(available) => solved_with_tags(applied@, available@, res),
        },
{
    match parent_tags {
        None => Err(SolvedError::ParentNotGuildChannel),
        Some(available) => add_solved_tag(applied, available),
    }
}

/// `res` is what marking a thread with tags `applied` solved gives, with
/// the parent's tags `available`.
pub open spec fn solved_with_tags(
    applied: Seq<u64>,
    available: Seq<(u64, String)>,
    res: Result<Vec<u64>, SolvedError>,
) -> bool {
    match solved_tag_position(available) {
        None => res == Err::<Vec<u64>, SolvedError>(SolvedError::NoSolvedTag),
        Some(p) => if applied.contains(available[p].0) {
            res == Err::<Vec<u64>, SolvedError>(SolvedError::AlreadySolved)
        } else {
            res matches Ok(tags) && tags@ == applied.push(available[p].0)
        },
    }
}

/// Adds the first tag named `Solved` of `available` to `applied`.
fn add_solved_tag(applied: &Vec<u64>, available: &Vec<(u64, String)>) -> (res: Result<Vec<u64>, SolvedError>)
    ensures
        match solved_tag_position(available@) {
            None => res == Err::<Vec<u64>, SolvedError>(SolvedError::NoSolvedTag),
            Some(p) => if applied@.contains(available@[p].0) {
                res == Err::<Vec<u64>, SolvedError>(SolvedError::AlreadySolved)
            } else {
                res matches Ok(tags) && tags@ == applied@.push(available@[p].0)
            },
        },
{
    let target = chars_of("Solved");
    let mut i: usize = 0;
    while i < available.len()
        invariant
            target@ == "Solved"@,
            0 <= i <= available@.len(),
            forall|j: int| 0 <= j < i ==> available@[j].1@ != "Solved"@,
        ensures
            0 <= i <= available@.len(),
            forall|j: int| 0 <= j < i ==> available@[j].1@ != "Solved"@,
            i == available@.len() || available@[i as int].1@ == "Solved"@,
        decreases available@.len() - i,
    {
        if same_chars(&chars_of(available[i].1.as_str()), &target) {
            break;
        }
        i = i + 1;
    }
    if i == available.len() {
        assert(solved_tag_position(available@) is None);
        return Err(SolvedError::NoSolvedTag);
    }
    proof {
        let p = solved_tag_position(available@)->0;
        assert(p == i as int) by {
            if p < i {
                assert(available@[p].1@ != "Solved"@);
            }
            if p > i {
                assert(available@[i as int].1@ == "Solved"@);
            }
        }
    }
    let tag = available[i].0;
    let ghost p = solved_tag_position(available@)->0;
    assert(tag == available@[p].0);
    let mut k: usize = 0;
    while k < applied.len()
        invariant
            solved_tag_position(available@) == Some(p),
            0 <= p < available@.len(),
            tag == available@[p].0,
            0 <= k <= applied@.len(),
            forall|j: int| 0 <= j < k ==> applied@[j] != tag,
        decreases applied@.len() - k,
    {
        if applied[k] == tag {
            assert(applied@[k as int] == tag);
            return Err(SolvedError::AlreadySolved);
        }
        k = k + 1;
    }
    let mut tags = applied.clone();
    tags.push(tag);
    Ok(tags)
}

/// What the edit command does with the message it waited for.
#[derive(Clone, Debug)]
pub enum EditOutcome {
    /// Edit the target message to this content.
    NewContent(String),
    /// Cancel with this reply.
    Cancel(&'static str),
    /// Cancel with this reply: the old content could not be logged.
    AuditFailed(String),
}

/// The new content for an edit, given the next message of the moderator
/// (`None` when none came within a minute).
pub fn edit_content(reply: Option<&str>) -> (res: EditOutcome)
    ensures
        match reply {
            Some(r) => if r@.len() > 0 {
                res matches EditOutcome::NewContent(c) && c@ == r@
            } else {
                res matches EditOutcome::Cancel(m) && m@
                    == "\u{274C} Empty message received. Edit cancelled."@
            },
            None => res matches EditOutcome::Cancel(m) && m@
                == "\u{23F0} Timeout: No message received within 60 seconds. Edit cancelled."@,
        },
{
    match reply {
        Some(r) => if r.is_empty() {
            EditOutcome::Cancel("\u{274C} Empty message received. Edit cancelled.")
        } else {
            let mut c = String::new();
            push_str(&mut c, r);
            EditOutcome::NewContent(c)
        },
        None => EditOutcome::Cancel(
            "\u{23F0} Timeout: No message received within 60 seconds. Edit cancelled.",
        ),
    }
}

/// Whether the edit to `content` goes ahead, given the outcome of writing
/// the old content to the audit log (its error text when it failed).
pub fn edit_after_audit(content: String, audit: Result<(), String>) -> (res: EditOutcome)
    ensures
        match audit {
            Ok(()) => res matches EditOutcome::NewContent(c) && c@ == content@,
            Err(e) => res matches EditOutcome::AuditFailed(m) && m@
                == "\u{274C} Failed to log audit information: "@ + e@,
        },
{
    match audit {
        Ok(()) => EditOutcome::NewContent(content),
        Err(e) => {
            let mut m = String::new();
            push_str(&mut m, "\u{274C} Failed to log audit information: ");
            push_str(&mut m, e.as_str());
            EditOutcome::AuditFailed(m)
        },
    }
}

/// How many of `kinds` are `kind`.
pub open spec fn count_kind(kinds: Seq<ChannelKind>, kind: ChannelKind) -> nat
    decreases kinds.len(),
{
    if kinds.len() == 0 {
        0
    } else {
        count_kind(kinds.drop_last(), kind) + if kinds.last() == kind {
            1nat
        } else {
            0nat
        }
    }
}

/// How many of the channels are of `kind`.
pub fn count_channels(kinds: &Vec<ChannelKind>, kind: ChannelKind) -> (res: u64)
    ensures
        res == count_kind(kinds@, kind),
{
    let mut n: u64 = 0;
    let mut i: usize = 0;
    assert(kinds@.take(0) =~= Seq::<ChannelKind>::empty());
    while i < kinds.len()
        invariant
            0 <= i <= kinds@.len(),
            n == count_kind(kinds@.take(i as int), kind),
            n <= i,
        decreases kinds@.len() - i,
    {
        assert(kinds@.take(i + 1).drop_last() =~= kinds@.take(i as int));
        if kinds[i] == kind {
            n = n + 1;
        }
        i = i + 1;
    }
    assert(kinds@.take(i as int) =~= kinds@);
    n
}

/// The fields of the server summary, as (name, value) pairs: members online
/// out of all members, boosts, and the numbers of text and voice channels.
pub fn server(member_count: u64, online_member_count: u64, boost_count: u64, channel_kinds: &Vec<
    ChannelKind,
>) -> (res: Vec<(&'static str, String)>)
    ensures
        res@.len() == 4,
        res@[0].0@ == "Members"@,
        res@[0].1@ == decimal(online_member_count as nat) + "/"@ + decimal(member_count as nat),
        res@[1].0@ == "Boost Count"@,
        res@[1].1@ == decimal(boost_count as nat),
        res@[2].0@ == "Text Channels"@,
        res@[2].1@ == decimal(count_kind(channel_kinds@, ChannelKind::Text)),
        res@[3].0@ == "Voice Channels"@,
        res@[3].1@ == decimal(count_kind(channel_kinds@, ChannelKind::Voice)),
{
    let mut members = String::new();
    push_decimal(&mut members, online_member_count);
    push_str(&mut members, "/");
    push_decimal(&mut members, member_count);
    let mut boosts = String::new();
    push_decimal(&mut boosts, boost_count);
    let mut text = String::new();
    push_decimal(&mut text, count_channels(channel_kinds, ChannelKind::Text));
    let mut voice = String::new();
    push_decimal(&mut voice, count_channels(channel_kinds, ChannelKind::Voice));
    let mut res: Vec<(&'static str, String)> = Vec::new();
    res.push(("Members", members));
    res.push(("Boost Count", boosts));
    res.push(("Text Channels", text));
    res.push(("Voice Channels", voice));
    res
}

/// The title, description and footer of the user summary: display name
/// with handle, user ID, and the user's role names joined by ` | `.
pub fn user(display_name: &str, handle: &str, user_id: u64, role_names: &Vec<String>) -> (res: (
    String,
    String,
    String,
))
    ensures
        res.0@ == display_name@ + " ("@ + handle@ + ")"@,
        res.1@ == "User ID: "@ + decimal(user_id as nat),
        res.2@ == join_with(role_names@.map_values(|r: String| r@), " | "@),
{
    let mut title = String::new();
    push_str(&mut title, display_name);
    push_str(&mut title, " (");
    push_str(&mut title, handle);
    push_str(&mut title, ")");
    let mut description = String::new();
    push_str(&mut description, "User ID: ");
    push_decimal(&mut description, user_id);
    let ghost names = role_names@.map_values(|r: String| r@);
    let mut footer = String::new();
    let mut i: usize = 0;
    assert(names.take(0) =~= Seq::<Seq<char>>::empty());
    while i < role_names.len()
        invariant
            names == role_names@.map_values(|r: String| r@),
            0 <= i <= role_names@.len(),
            footer@ == join_with(names.take(i as int), " | "@),
        decreases role_names@.len() - i,
    {
        assert(names.take(i + 1).drop_last() =~= names.take(i as int));
        assert(names.take(i + 1).last() == role_names@[i as int]@);
        if i > 0 {
            push_str(&mut footer, " | ");
        } else {
            assert(names.take(1) =~= seq![names[0]]);
        }
        push_str(&mut footer, role_names[i].as_str());
        i = i + 1;
    }
    assert(names.take(i as int) =~= names);
    (title, description, footer)
}

/// The days, hours, minutes and seconds of the uptime reply add back up to
/// the uptime, and each but the days is below its unit's next.
pub proof fn lemma_uptime_parts_recombine(seconds: nat)
    ensures
        (seconds / 86400) * 86400 + ((seconds / 3600) % 24) * 3600 + ((seconds / 60) % 60) * 60
            + seconds % 60 == seconds,
        (seconds / 3600) % 24 < 24,
        (seconds / 60) % 60 < 60,
        seconds % 60 < 60,
{
    let m = seconds / 60;
    let h = m / 60;
    assert(seconds == m * 60 + seconds % 60) by (nonlinear_arith)
        requires
            m == seconds / 60,
    ;
    assert(m == h * 60 + m % 60) by (nonlinear_arith)
        requires
            h == m / 60,
    ;
    assert(h == (h / 24) * 24 + h % 24) by (nonlinear_arith);
    assert(h == seconds / 3600) by (nonlinear_arith)
        requires
            m == seconds / 60,
            h == m / 60,
    ;
    assert(h / 24 == seconds / 86400) by (nonlinear_arith)
        requires
            h == seconds / 3600,
    ;
    assert(seconds == (h / 24) * 86400 + (h % 24) * 3600 + (m % 60) * 60 + seconds % 60)
        by (nonlinear_arith)
        requires
            seconds == m * 60 + seconds % 60,
            m == h * 60 + m % 60,
            h == (h / 24) * 24 + h % 24,
    ;
}

/// Lemma: the cleanable positions are increasing positions of cleanable
/// messages.
pub proof fn lemma_cleanable_indices(messages: Seq<(u64, i64)>, bot: u64, now_micros: i64)
    ensures
        ({
            let c = cleanable_indices(messages, bot, now_micros);
            &&& c.len() <= messages.len()
            &&& forall|k: int|
                0 <= k < c.len() ==> 0 <= #[trigger] c[k] < messages.len() && cleanable(
                    messages[c[k]].0,
                    messages[c[k]].1,
                    bot,
                    now_micros,
                )
            &&& forall|k: int, l: int| 0 <= k < l < c.len() ==> c[k] < c[l]
        }),
    decreases messages.len(),
{
    if messages.len() > 0 {
        let prev = messages.drop_last();
        lemma_cleanable_indices(prev, bot, now_micros);
        let c0 = cleanable_indices(prev, bot, now_micros);
        let c = cleanable_indices(messages, bot, now_micros);
        assert forall|k: int| 0 <= k < c0.len() implies messages[c0[k]] == prev[c0[k]] by {}
        if c.len() > c0.len() {
            assert(c == c0.push(messages.len() - 1));
        } else {
            assert(c == c0);
        }
    }
}

/// The cleanup deletes at most the number of messages asked for (one when
/// none is given), only messages of the bot from the last 24 hours, each
/// once and in the order they were fetched.
pub proof fn lemma_cleanup_deletes_only_recent_own_messages(
    messages: Seq<(u64, i64)>,
    bot: u64,
    now_micros: i64,
    n: nat,
)
    ensures
        ({
            let chosen = first_at_most(cleanable_indices(messages, bot, now_micros), n as int);
            &&& chosen.len() <= n
            &&& forall|k: int|
                0 <= k < chosen.len() ==> 0 <= #[trigger] chosen[k] < messages.len() && cleanable(
                    messages[chosen[k]].0,
                    messages[chosen[k]].1,
                    bot,
                    now_micros,
                )
            &&& forall|k: int, l: int| 0 <= k < l < chosen.len() ==> chosen[k] < chosen[l]
        }),
{
    lemma_cleanable_indices(messages, bot, now_micros);
    let c = cleanable_indices(messages, bot, now_micros);
    let chosen = first_at_most(c, n as int);
    assert forall|k: int| 0 <= k < chosen.len() implies chosen[k] == c[k] by {}
}

} // verus!
