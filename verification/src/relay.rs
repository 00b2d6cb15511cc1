//! Which messages a move relays, in which order the authors are offered,
//! the notices it posts, and what happens afterwards: reactions on relayed
//! messages, and the locks that keep two moves out of one channel.

use vstd::prelude::*;
use std::collections::HashMap;
use std::collections::HashSet;
use crate::text::{
    byte_len, chars_of, decimal, is_byte_truncation, line_ranges, lines, push_char, push_decimal,
    push_range, push_str, same_chars, truncatable_at, truncate_bytes,
};

verus! {

/// The longest time, in microseconds, between the first moved message and
/// any other moved message (two hours).
pub const MAX_TIME_SPAN_MICROS: i64 = 7_200_000_000;

/// The most messages one move relays.
pub const MESSAGE_LIMIT: usize = 100;

/// Milliseconds between the Unix epoch and the Discord epoch.
pub const DISCORD_EPOCH_MILLIS: u64 = 1_420_070_400_000;

/// What the move logic reads of a message.
#[derive(Clone, Copy, Debug)]
pub struct MessageInfo {
    pub id: u64,
    pub author: u64,
    /// When the message was posted, in microseconds since the Unix epoch.
    pub timestamp_micros: i64,
}

/// A message posted at `ts` lies within the time span of a move starting
/// at a message posted at `start` (a message posted earlier always does).
pub open spec fn spec_within_max_time_span(ts: i64, start: i64) -> bool {
    ts - start < MAX_TIME_SPAN_MICROS
}

/// Whether a message posted at `ts` lies within the time span of a move
/// starting at a message posted at `start`.
pub fn posted_within_max_time_span(ts: i64, start: i64) -> (res: bool)
    ensures
        res == spec_within_max_time_span(ts, start),
{
    (ts as i128) - (start as i128) < MAX_TIME_SPAN_MICROS as i128
}

/// The messages have to be fetched again before relaying: the last one
/// fetched still lies within the time span, so more may have been posted.
pub open spec fn spec_should_refetch(messages: Seq<MessageInfo>, start: i64) -> bool {
    messages.len() == 0 || spec_within_max_time_span(messages.last().timestamp_micros, start)
}

/// Whether the messages have to be fetched again before relaying.
pub fn should_refetch_messages(messages: &Vec<MessageInfo>, start: i64) -> (res: bool)
    ensures
        res == spec_should_refetch(messages@, start),
{
    if messages.len() == 0 {
        true
    } else {
        posted_within_max_time_span(messages[messages.len() - 1].timestamp_micros, start)
    }
}

/// The creation time, in milliseconds since the Unix epoch, that a Discord
/// ID (snowflake) encodes.
pub open spec fn snowflake_millis(id: u64) -> int {
    (id as int) / 4194304 + DISCORD_EPOCH_MILLIS as int
}

/// The creation time, in milliseconds since the Unix epoch, of the object
/// with Discord ID `id`.
pub fn snowflake_created_at(id: u64) -> (res: i64)
    ensures
        res as int == snowflake_millis(id),
{
    ((id / 4194304) + DISCORD_EPOCH_MILLIS) as i64
}

/// Where relaying stops.
#[derive(Clone, Copy, Debug, PartialEq, Eq, Structural)]
pub enum StopAt {
    /// Nothing was set: relay as much as the limits allow.
    Unlimited,
    /// Stop after the message with this ID.
    AtId(u64),
    /// Stop after the first message created at this time (milliseconds) or later.
    AtTime(i64),
}

/// The stop rule for a last message ID set in the dialog: the ID itself if
/// such a message was fetched, else the creation time that the ID encodes.
pub open spec fn spec_stop_rule(last_message_id: Option<u64>, messages: Seq<MessageInfo>) -> StopAt {
    match last_message_id {
        None => StopAt::Unlimited,
        Some(id) => if exists|i: int| 0 <= i < messages.len() && messages[i].id == id {
            StopAt::AtId(id)
        } else {
            StopAt::AtTime(snowflake_millis(id) as i64)
        },
    }
}

/// The stop rule for a last message ID set in the dialog.
pub fn stop_rule(last_message_id: Option<u64>, messages: &Vec<MessageInfo>) -> (res: StopAt)
    ensures
        res == spec_stop_rule(last_message_id, messages@),
{
    match last_message_id {
        None => StopAt::Unlimited,
        Some(id) => {
            let mut i: usize = 0;
            while i < messages.len()
                invariant
                    last_message_id == Some(id),
                    0 <= i <= messages@.len(),
                    forall|j: int| 0 <= j < i ==> messages@[j].id != id,
                decreases messages@.len() - i,
            {
                if messages[i].id == id {
                    assert(messages@[i as int].id == id);
                    return StopAt::AtId(id);
                }
                i = i + 1;
            }
            StopAt::AtTime(snowflake_created_at(id))
        },
    }
}

/// Relaying goes on after the message with ID `id`.
pub open spec fn spec_continues(stop: StopAt, id: u64) -> bool {
    match stop {
        StopAt::Unlimited => true,
        StopAt::AtId(s) => id != s,
        StopAt::AtTime(t) => snowflake_millis(id) < t,
    }
}

/// The message is by a selected user and within the time span.
pub open spec fn selected_for_move(m: MessageInfo, users: Seq<u64>, start: i64) -> bool {
    users.contains(m.author) && spec_within_max_time_span(m.timestamp_micros, start)
}

/// The indices of the messages by selected users within the time span.
pub open spec fn candidate_indices(ms: Seq<MessageInfo>, users: Seq<u64>, start: i64) -> Seq<int>
    decreases ms.len(),
{
    if ms.len() == 0 {
        seq![]
    } else {
        candidate_indices(ms.drop_last(), users, start) + if selected_for_move(
            ms.last(),
            users,
            start,
        ) {
            seq![ms.len() - 1]
        } else {
            seq![]
        }
    }
}

/// The first `n` elements of `s` (all of them if there are fewer).
pub open spec fn first_at_most(s: Seq<int>, n: int) -> Seq<int> {
    if s.len() <= n {
        s
    } else {
        s.take(n)
    }
}

/// The indices up to and including the first message after which relaying
/// stops (`Itertools::take_while_inclusive`).
pub open spec fn take_until_stop(idx: Seq<int>, ms: Seq<MessageInfo>, stop: StopAt) -> Seq<int>
    decreases idx.len(),
{
    if idx.len() == 0 {
        seq![]
    } else if spec_continues(stop, ms[idx[0]].id) {
        seq![idx[0]] + take_until_stop(idx.drop_first(), ms, stop)
    } else {
        seq![idx[0]]
    }
}

/// The indices, in order, of the messages that a move relays.
pub open spec fn spec_messages_to_move(
    ms: Seq<MessageInfo>,
    users: Seq<u64>,
    start: i64,
    stop: StopAt,
) -> Seq<int> {
    take_until_stop(first_at_most(candidate_indices(ms, users, start), MESSAGE_LIMIT as int), ms, stop)
}

/// Lemma: candidate indices are valid indices.
pub proof fn lemma_candidates_in_range(ms: Seq<MessageInfo>, users: Seq<u64>, start: i64)
    ensures
        forall|k: int|
            0 <= k < candidate_indices(ms, users, start).len() ==> 0 <= #[trigger] candidate_indices(
                ms,
                users,
                start,
            )[k] < ms.len(),
    decreases ms.len(),
{
    if ms.len() > 0 {
        lemma_candidates_in_range(ms.drop_last(), users, start);
        let prev = candidate_indices(ms.drop_last(), users, start);
        let all = candidate_indices(ms, users, start);
        assert forall|k: int| 0 <= k < all.len() implies 0 <= #[trigger] all[k] < ms.len() by {
            if k < prev.len() {
                assert(all[k] == prev[k]);
            }
        }
    }
}

/// Whether `x` is among `v`.
pub fn contains_id(v: &Vec<u64>, x: u64) -> (res: bool)
    ensures
        res == v@.contains(x),
{
    let mut i: usize = 0;
    while i < v.len()
        invariant
            0 <= i <= v@.len(),
            forall|j: int| 0 <= j < i ==> v@[j] != x,
        decreases v@.len() - i,
    {
        if v[i] == x {
            return true;
        }
        i = i + 1;
    }
    false
}

/// The indices, in order, of the messages that a move relays: messages by
/// `selected_users` posted within the time span after `start`, at most
/// `MESSAGE_LIMIT` of them, up to and including the one at which `stop`
/// says to stop.
pub fn messages_to_move(
    messages: &Vec<MessageInfo>,
    selected_users: &Vec<u64>,
    start: i64,
    stop: StopAt,
) -> (res: Vec<usize>)
    ensures
        res@.len() == spec_messages_to_move(messages@, selected_users@, start, stop).len(),
        forall|k: int|
            0 <= k < res@.len() ==> #[trigger] res@[k] as int == spec_messages_to_move(
                messages@,
                selected_users@,
                start,
                stop,
            )[k],
{
    let ghost ms = messages@;
    let ghost users = selected_users@;
    // Messages by selected users within the time span.
    let mut candidates: Vec<usize> = Vec::new();
    let mut i: usize = 0;
    while i < messages.len()
        invariant
            ms == messages@,
            users == selected_users@,
            0 <= i <= ms.len(),
            candidates@.len() == candidate_indices(ms.take(i as int), users, start).len(),
            forall|k: int|
                0 <= k < candidates@.len() ==> #[trigger] candidates@[k] as int
                    == candidate_indices(ms.take(i as int), users, start)[k],
        decreases ms.len() - i,
    {
        assert(ms.take(i + 1).drop_last() =~= ms.take(i as int));
        assert(ms.take(i + 1).last() == ms[i as int]);
        let m = messages[i];
        if contains_id(selected_users, m.author) && posted_within_max_time_span(
            m.timestamp_micros,
            start,
        ) {
            candidates.push(i);
        }
        i = i + 1;
    }
    assert(ms.take(i as int) =~= ms);
    proof {
        lemma_candidates_in_range(ms, users, start);
    }
    let ghost cand = candidate_indices(ms, users, start);
    let ghost limited = first_at_most(cand, MESSAGE_LIMIT as int);
    let n = if candidates.len() <= MESSAGE_LIMIT {
        candidates.len()
    } else {
        MESSAGE_LIMIT
    };
    // Up to and including the message where relaying stops.
    let mut res: Vec<usize> = Vec::new();
    let mut j: usize = 0;
    assert(limited.skip(0) =~= limited);
    while j < n
        invariant_except_break
            take_until_stop(limited, ms, stop) == res@.map_values(|x: usize| x as int)
                + take_until_stop(limited.skip(j as int), ms, stop),
        invariant
            ms == messages@,
            limited == first_at_most(cand, MESSAGE_LIMIT as int),
            n == limited.len(),
            candidates@.len() == cand.len(),
            forall|k: int| 0 <= k < candidates@.len() ==> #[trigger] candidates@[k] as int == cand[k],
            forall|k: int| 0 <= k < cand.len() ==> 0 <= #[trigger] cand[k] < ms.len(),
            0 <= j <= n,
            res@.len() == j,
            forall|k: int| 0 <= k < j ==> #[trigger] res@[k] as int == limited[k],
        ensures
            res@.len() == take_until_stop(limited, ms, stop).len(),
            forall|k: int|
                0 <= k < res@.len() ==> #[trigger] res@[k] as int == take_until_stop(limited, ms, stop)[k],
        decreases n - j,
    {
        let idx = candidates[j];
        assert(limited[j as int] == cand[j as int]);
        let ghost rest = limited.skip(j as int);
        assert(rest[0] == idx as int);
        assert(rest.drop_first() =~= limited.skip(j + 1));
        let ghost before = res@;
        res.push(idx);
        assert(res@.map_values(|x: usize| x as int) =~= before.map_values(|x: usize| x as int)
            + seq![idx as int]);
        let id = messages[idx].id;
        let go_on = match stop {
            StopAt::Unlimited => true,
            StopAt::AtId(s) => id != s,
            StopAt::AtTime(t) => (snowflake_created_at(id) as i128) < (t as i128),
        };
        j = j + 1;
        if !go_on {
            assert(take_until_stop(limited, ms, stop) =~= res@.map_values(|x: usize| x as int));
            break;
        }
    }
    if j == n {
        assert(limited.skip(j as int) =~= Seq::<int>::empty());
        assert(take_until_stop(limited, ms, stop) =~= res@.map_values(|x: usize| x as int));
    }
    res
}


/// How often `x` occurs in `s`.
pub open spec fn count_of(s: Seq<u64>, x: u64) -> nat
    decreases s.len(),
{
    if s.len() == 0 {
        0
    } else {
        count_of(s.drop_last(), x) + if s.last() == x {
            1nat
        } else {
            0nat
        }
    }
}

/// Lemma: nothing occurs more often than the sequence is long.
pub proof fn lemma_count_of_bound(s: Seq<u64>, x: u64)
    ensures
        count_of(s, x) <= s.len(),
        s.contains(x) ==> count_of(s, x) >= 1,
    decreases s.len(),
{
    if s.len() > 0 {
        lemma_count_of_bound(s.drop_last(), x);
        if s.contains(x) && s.last() != x {
            let i = choose|i: int| 0 <= i < s.len() && s[i] == x;
            assert(s.drop_last()[i] == x);
        }
    }
}

/// `order` holds each author of `authors` once, the authors with the fewest
/// messages first.
pub open spec fn ordered_by_message_count(order: Seq<u64>, authors: Seq<u64>) -> bool {
    &&& order.no_duplicates()
    &&& forall|x: u64| order.contains(x) <==> authors.contains(x)
    &&& forall|i: int, j: int|
        0 <= i < j < order.len() ==> count_of(authors, order[i]) <= count_of(authors, order[j])
}

/// The authors of the messages (given by author), each once, ordered by how
/// many of the messages they wrote, fewest first. The order among authors
/// with equally many messages is left open.
pub fn users_by_message_count(authors: &Vec<u64>) -> (res: Vec<u64>)
    ensures
        ordered_by_message_count(res@, authors@),
{
    let ghost a = authors@;
    // The distinct authors and their message counts.
    let mut distinct: Vec<u64> = Vec::new();
    let mut counts: Vec<usize> = Vec::new();
    let mut i: usize = 0;
    while i < authors.len()
        invariant
            a == authors@,
            0 <= i <= a.len(),
            distinct@.no_duplicates(),
            counts@.len() == distinct@.len(),
            forall|x: u64| distinct@.contains(x) <==> a.take(i as int).contains(x),
            forall|k: int|
                0 <= k < distinct@.len() ==> #[trigger] counts@[k] as int == count_of(
                    a.take(i as int),
                    distinct@[k],
                ),
            forall|k: int| 0 <= k < counts@.len() ==> #[trigger] counts@[k] <= i,
        decreases a.len() - i,
    {
        let x = authors[i];
        let ghost prefix = a.take(i as int);
        let ghost next = a.take(i + 1);
        assert(a.take(i + 1).drop_last() =~= prefix);
        assert(a.take(i + 1).last() == x);
        let mut k: usize = 0;
        while k < distinct.len()
            invariant
                0 <= k <= distinct@.len(),
                forall|j: int| 0 <= j < k ==> distinct@[j] != x,
            ensures
                0 <= k <= distinct@.len(),
                forall|j: int| 0 <= j < k ==> distinct@[j] != x,
                k == distinct@.len() || distinct@[k as int] == x,
            decreases distinct@.len() - k,
        {
            if distinct[k] == x {
                break;
            }
            k = k + 1;
        }
        if k < distinct.len() {
            let ghost old_counts = counts@;
            let c = counts[k];
            counts.set(k, c + 1);
            assert forall|j: int| 0 <= j < distinct@.len() implies #[trigger] counts@[j] as int
                == count_of(a.take(i + 1), distinct@[j]) by {
                if j != k {
                    assert(old_counts[j] == counts@[j]);
                } else {
                    assert(distinct@[j] == x);
                }
            }
            assert forall|y: u64| distinct@.contains(y) <==> a.take(i + 1).contains(y) by {
                if a.take(i + 1).contains(y) && !prefix.contains(y) {
                    let m = choose|m: int| 0 <= m < next.len() && next[m] == y;
                    if m < i {
                        assert(prefix[m] == y);
                    }
                    assert(distinct@[k as int] == y);
                }
                if prefix.contains(y) {
                    let m = choose|m: int| 0 <= m < prefix.len() && prefix[m] == y;
                    assert(a.take(i + 1)[m] == y);
                }
            }
        } else {
            let ghost old_distinct = distinct@;
            let ghost old_counts = counts@;
            assert(!old_distinct.contains(x)) by {
                if old_distinct.contains(x) {
                    let m = choose|m: int| 0 <= m < old_distinct.len() && old_distinct[m] == x;
                    assert(old_distinct[m] != x);
                }
            }
            assert(next[i as int] == x);
            distinct.push(x);
            counts.push(1);
            proof {
                assert(!prefix.contains(x));
                lemma_count_of_absent(prefix, x);
                assert forall|j: int| 0 <= j < distinct@.len() implies #[trigger] counts@[j] as int
                    == count_of(a.take(i + 1), distinct@[j]) by {
                    if j < old_distinct.len() {
                        assert(old_counts[j] == counts@[j]);
                        assert(distinct@[j] == old_distinct[j]);
                        assert(old_distinct.contains(old_distinct[j]));
                    }
                }
                assert forall|y: u64| distinct@.contains(y) <==> next.contains(y) by {
                    if y == x {
                        assert(distinct@[old_distinct.len() as int] == x);
                    } else {
                        if distinct@.contains(y) {
                            let m = choose|m: int| 0 <= m < distinct@.len() && distinct@[m] == y;
                            assert(old_distinct[m] == y);
                        }
                        if old_distinct.contains(y) {
                            let m = choose|m: int| 0 <= m < old_distinct.len() && old_distinct[m] == y;
                            assert(distinct@[m] == y);
                        }
                        if next.contains(y) {
                            let m = choose|m: int| 0 <= m < next.len() && next[m] == y;
                            assert(prefix[m] == y);
                        }
                        if prefix.contains(y) {
                            let m = choose|m: int| 0 <= m < prefix.len() && prefix[m] == y;
                            assert(next[m] == y);
                        }
                    }
                }
                assert forall|p: int, q: int|
                    0 <= p < q < distinct@.len() implies distinct@[p] != distinct@[q] by {
                    if q == old_distinct.len() {
                        assert(old_distinct.contains(distinct@[p]));
                    }
                }
            }
        }
        i = i + 1;
    }
    assert(a.take(i as int) =~= a);

    // Output the authors level by level: first those with one message, then two, ...
    let n = authors.len();
    proof {
        assert forall|x: u64| a.contains(x) implies count_of(a, x) >= 1 by {
            lemma_count_of_bound(a, x);
        }
    }
    let mut res: Vec<u64> = Vec::new();
    let mut level: usize = 0;
    while level < n
        invariant
            a == authors@,
            n == a.len(),
            0 <= level <= n,
            distinct@.no_duplicates(),
            counts@.len() == distinct@.len(),
            forall|x: u64| distinct@.contains(x) <==> a.contains(x),
            forall|k: int|
                0 <= k < distinct@.len() ==> #[trigger] counts@[k] as int == count_of(a, distinct@[k]),
            res@.no_duplicates(),
            forall|x: u64| res@.contains(x) <==> (a.contains(x) && count_of(a, x) <= level),
            forall|p: int, q: int|
                0 <= p < q < res@.len() ==> count_of(a, res@[p]) <= count_of(a, res@[q]),
            forall|p: int| 0 <= p < res@.len() ==> count_of(a, #[trigger] res@[p]) <= level,
        decreases n - level,
    {
        let wanted = level + 1;
        let mut k: usize = 0;
        while k < distinct.len()
            invariant
                a == authors@,
                n == a.len(),
                wanted == level + 1,
                0 <= level < n,
                0 <= k <= distinct@.len(),
                distinct@.no_duplicates(),
                counts@.len() == distinct@.len(),
                forall|x: u64| distinct@.contains(x) <==> a.contains(x),
                forall|j: int|
                    0 <= j < distinct@.len() ==> #[trigger] counts@[j] as int == count_of(a, distinct@[j]),
                res@.no_duplicates(),
                forall|x: u64|
                    res@.contains(x) <==> (a.contains(x) && (count_of(a, x) <= level || (count_of(
                        a,
                        x,
                    ) == wanted && distinct@.take(k as int).contains(x)))),
                forall|p: int, q: int|
                    0 <= p < q < res@.len() ==> count_of(a, res@[p]) <= count_of(a, res@[q]),
                forall|p: int| 0 <= p < res@.len() ==> count_of(a, #[trigger] res@[p]) <= wanted,
            decreases distinct@.len() - k,
        {
            let x = distinct[k];
            let ghost old_res = res@;
            let ghost dk = distinct@.take(k as int);
            let ghost dk1 = distinct@.take(k + 1);
            assert(dk1 =~= dk.push(x));
            assert(dk1[k as int] == x);
            assert(distinct@.contains(x));
            assert(distinct@.take(k + 1) =~= distinct@.take(k as int).push(x));
            if counts[k] == wanted {
                proof {
                    if old_res.contains(x) {
                        let m = choose|m: int| 0 <= m < dk.len() && dk[m] == x;
                        assert(distinct@[m] == x);
                    }
                }
                res.push(x);
                proof {
                    assert forall|p: int, q: int|
                        0 <= p < q < res@.len() implies res@[p] != res@[q] by {
                        if q == old_res.len() {
                            assert(old_res.contains(res@[p]));
                        }
                    }
                    assert forall|y: u64| res@.contains(y) <==> (a.contains(y) && (count_of(a, y)
                        <= level || (count_of(a, y) == wanted && dk1.contains(y)))) by {
                        if y == x {
                            assert(res@[old_res.len() as int] == x);
                            assert(dk1[k as int] == x);
                        } else {
                            if res@.contains(y) {
                                let m = choose|m: int| 0 <= m < res@.len() && res@[m] == y;
                                assert(old_res[m] == y);
                            }
                            if old_res.contains(y) {
                                let m = choose|m: int| 0 <= m < old_res.len() && old_res[m] == y;
                                assert(res@[m] == y);
                            }
                            if dk.contains(y) {
                                let m = choose|m: int| 0 <= m < dk.len() && dk[m] == y;
                                assert(dk1[m] == y);
                            }
                            if dk1.contains(y) {
                                let m = choose|m: int| 0 <= m < dk1.len() && dk1[m] == y;
                                assert(dk[m] == y);
                            }
                        }
                    }
                }
            } else {
                proof {
                    assert forall|y: u64| res@.contains(y) <==> (a.contains(y) && (count_of(a, y)
                        <= level || (count_of(a, y) == wanted && distinct@.take(k + 1).contains(y)))) by {
                        if distinct@.take(k as int).contains(y) {
                            let m = choose|m: int| 0 <= m < dk.len() && dk[m] == y;
                            assert(distinct@.take(k + 1)[m] == y);
                        }
                        if distinct@.take(k + 1).contains(y) && y != x {
                            let m = choose|m: int| 0 <= m < dk1.len() && dk1[m] == y;
                            assert(distinct@.take(k as int)[m] == y);
                        }
                    }
                }
            }
            k = k + 1;
        }
        assert(distinct@.take(k as int) =~= distinct@);
        level = level + 1;
    }
    proof {
        assert forall|x: u64| res@.contains(x) <==> a.contains(x) by {
            lemma_count_of_bound(a, x);
        }
    }
    res
}

/// Lemma: something absent occurs no time.
pub proof fn lemma_count_of_absent(s: Seq<u64>, x: u64)
    requires
        !s.contains(x),
    ensures
        count_of(s, x) == 0,
    decreases s.len(),
{
    if s.len() > 0 {
        assert(!s.drop_last().contains(x)) by {
            if s.drop_last().contains(x) {
                let m = choose|m: int| 0 <= m < s.drop_last().len() && s.drop_last()[m] == x;
                assert(s[m] == x);
            }
        }
        lemma_count_of_absent(s.drop_last(), x);
    }
}


/// How Discord writes a mention of the user with ID `id`.
pub open spec fn spec_user_mention(id: u64) -> Seq<char> {
    "<@"@ + decimal(id as nat) + ">"@
}

/// How Discord writes a mention of the channel with ID `id`.
pub open spec fn spec_channel_mention(id: u64) -> Seq<char> {
    "<#"@ + decimal(id as nat) + ">"@
}

/// Appends a mention of user `id`.
pub fn push_user_mention(s: &mut String, id: u64)
    ensures
        final(s)@ == old(s)@ + spec_user_mention(id),
{
    push_str(s, "<@");
    push_decimal(s, id);
    push_str(s, ">");
}

/// Appends a mention of channel `id`.
pub fn push_channel_mention(s: &mut String, id: u64)
    ensures
        final(s)@ == old(s)@ + spec_channel_mention(id),
{
    push_str(s, "<#");
    push_decimal(s, id);
    push_str(s, ">");
}

/// Mentions of all `users`, one after the other.
pub open spec fn user_mentions(users: Seq<u64>) -> Seq<char>
    decreases users.len(),
{
    if users.len() == 0 {
        seq![]
    } else {
        user_mentions(users.drop_last()) + spec_user_mention(users.last())
    }
}

/// The notice posted in the destination after a move.
pub open spec fn spec_move_notice(mover: u64, source: u64, participants: Seq<u64>) -> Seq<char> {
    spec_user_mention(mover) + " moved the conversation from "@ + spec_channel_mention(source)
        + " to here.\nParticipants: "@ + user_mentions(participants)
}

/// The notice posted in the destination: who moved the conversation from
/// where, and whose messages moved.
pub fn move_notice(mover: u64, source: u64, participants: &Vec<u64>) -> (res: String)
    ensures
        res@ == spec_move_notice(mover, source, participants@),
{
    let mut s = String::new();
    push_user_mention(&mut s, mover);
    push_str(&mut s, " moved the conversation from ");
    push_channel_mention(&mut s, source);
    push_str(&mut s, " to here.\nParticipants: ");
    let ghost head = s@;
    let mut i: usize = 0;
    assert(participants@.take(0) =~= Seq::<u64>::empty());
    while i < participants.len()
        invariant
            0 <= i <= participants@.len(),
            s@ == head + user_mentions(participants@.take(i as int)),
        decreases participants@.len() - i,
    {
        assert(participants@.take(i + 1).drop_last() =~= participants@.take(i as int));
        push_user_mention(&mut s, participants[i]);
        i = i + 1;
    }
    assert(participants@.take(i as int) =~= participants@);
    s
}

/// The reply in the source channel after a move.
pub open spec fn spec_moved_reply(mover: u64, destination: u64) -> Seq<char> {
    spec_user_mention(mover) + " moved a conversation from here to "@ + spec_channel_mention(
        destination,
    ) + "."@
}

/// The reply in the source channel: who moved the conversation where to.
pub fn moved_reply(mover: u64, destination: u64) -> (res: String)
    ensures
        res@ == spec_moved_reply(mover, destination),
{
    let mut s = String::new();
    push_user_mention(&mut s, mover);
    push_str(&mut s, " moved a conversation from here to ");
    push_channel_mention(&mut s, destination);
    push_str(&mut s, ".");
    s
}

/// The name of the webhook that relays the messages of a move.
pub fn webhook_name(initial_message_id: u64) -> (res: String)
    ensures
        res@ == "move conversation "@ + decimal(initial_message_id as nat),
{
    let mut s = String::new();
    push_str(&mut s, "move conversation ");
    push_decimal(&mut s, initial_message_id);
    s
}

/// The text a message is relayed with: `_ _` for an empty message, which
/// cannot be sent, else its content.
pub fn relay_text(content: &str) -> (res: String)
    ensures
        res@ == if content@.len() == 0 {
            "_ _"@
        } else {
            content@
        },
{
    let mut s = String::new();
    if content.is_empty() {
        push_str(&mut s, "_ _");
    } else {
        push_str(&mut s, content);
    }
    s
}

/// Every line of `ls` as a quote line.
pub open spec fn quote_lines(ls: Seq<Seq<char>>) -> Seq<char>
    decreases ls.len(),
{
    if ls.len() == 0 {
        seq![]
    } else {
        "> "@ + ls[0] + seq!['\n'] + quote_lines(ls.drop_first())
    }
}

/// The direct message that asks for an edit of a relayed message, before
/// it is cut to its length limit.
pub open spec fn spec_edit_prompt(content: Seq<char>) -> Seq<char> {
    "**"@ + "Original message:"@ + "**"@ + seq!['\n'] + quote_lines(lines(content)) + "**"@
        + "\nPlease respond with your edit within the next five minutes:"@ + "**"@ + seq!['\n']
}

/// The direct message that asks the author of a relayed message for an
/// edit: the original message, quoted line by line, and the request; cut
/// to at most 2048 bytes.
pub fn edit_prompt(content: &str) -> (res: String)
    requires
        truncatable_at(spec_edit_prompt(content@), 2048),
    ensures
        is_byte_truncation(spec_edit_prompt(content@), 2048, res@),
{
    let s = edit_prompt_text(content);
    truncate_bytes(s.as_str(), 2048)
}

/// The direct message that asks for an edit, before it is cut to length.
pub fn edit_prompt_text(content: &str) -> (res: String)
    ensures
        res@ == spec_edit_prompt(content@),
{
    let mut s = String::new();
    push_str(&mut s, "**");
    push_str(&mut s, "Original message:");
    push_str(&mut s, "**");
    push_char(&mut s, '\n');
    let cs = chars_of(content);
    let ranges = line_ranges(&cs, 0, cs.len());
    let ghost ls = lines(cs@.subrange(0, cs@.len() as int));
    assert(cs@.subrange(0, cs@.len() as int) =~= cs@);
    let ghost head = s@;
    assert(head =~= "**"@ + "Original message:"@ + "**"@ + seq!['\n']);
    let mut k: usize = 0;
    assert(ls.skip(0) =~= ls);
    assert(s@ + quote_lines(ls) =~= head + quote_lines(ls.skip(0)));
    while k < ranges.len()
        invariant
            ls == lines(cs@),
            cs@ == content@,
            ranges@.len() == ls.len(),
            forall|j: int|
                0 <= j < ranges@.len() ==> 0 <= #[trigger] ranges@[j].0 <= ranges@[j].1 <= cs@.len()
                    && cs@.subrange(ranges@[j].0 as int, ranges@[j].1 as int) == ls[j],
            0 <= k <= ranges@.len(),
            s@ + quote_lines(ls.skip(k as int)) == head + quote_lines(ls),
        decreases ranges@.len() - k,
    {
        let (a, b) = ranges[k];
        assert(ls.skip(k as int).drop_first() =~= ls.skip(k + 1));
        assert(ls.skip(k as int)[0] == ls[k as int]);
        let ghost before = s@;
        push_str(&mut s, "> ");
        push_range(&mut s, &cs, a, b);
        push_char(&mut s, '\n');
        assert(s@ == before + ("> "@ + ls[k as int] + seq!['\n']));
        k = k + 1;
    }
    assert(ls.skip(k as int) =~= Seq::<Seq<char>>::empty());
    assert(s@ =~= s@ + quote_lines(ls.skip(k as int)));
    push_str(&mut s, "**");
    push_str(&mut s, "\nPlease respond with your edit within the next five minutes:");
    push_str(&mut s, "**");
    push_char(&mut s, '\n');
    assert(s@ =~= spec_edit_prompt(content@));
    s
}

/// What a reaction on a relayed message leads to.
#[derive(Clone, Copy, Debug, PartialEq, Eq, Structural)]
pub enum ReactionStep {
    /// Nothing happens.
    Ignore,
    /// The relayed message at this position is deleted.
    DeleteRelayed(usize),
    /// The author is asked for an edit of the relayed message at this position.
    PromptEdit { user: u64, position: usize },
}

/// The messages a move relayed and who wrote each originally.
pub struct RelayedMessages {
    /// The author of each relayed message, by the relayed message's ID.
    pub original_users: HashMap<u64, u64>,
    /// The IDs of the relayed messages still there.
    pub relayed: Vec<u64>,
}

/// The first position of `id` in `ids`, if any.
pub open spec fn first_position(ids: Seq<u64>, id: u64) -> Option<int> {
    if exists|i: int| 0 <= i < ids.len() && ids[i] == id {
        Some(choose|i: int| 0 <= i < ids.len() && ids[i] == id && forall|j: int| 0 <= j < i ==> ids[j] != id)
    } else {
        None
    }
}

/// `emoji` asks for deletion.
pub open spec fn is_delete_emoji(emoji: Seq<char>) -> bool {
    emoji == "\u{274C}"@
}

/// `emoji` asks for an edit.
pub open spec fn is_edit_emoji(emoji: Seq<char>) -> bool {
    emoji == "\u{1F4DD}"@ || emoji == "\u{270F}\u{FE0F}"@
}

impl RelayedMessages {
    /// Nothing relayed yet.
    pub fn new() -> (res: RelayedMessages)
        ensures
            res.original_users@ == Map::<u64, u64>::empty(),
            res.relayed@ == Seq::<u64>::empty(),
    {
        RelayedMessages { original_users: HashMap::new(), relayed: Vec::new() }
    }

    /// Notes that the message `relayed_id` was relayed for `author`.
    pub fn record(&mut self, relayed_id: u64, author: u64)
        ensures
            final(self).original_users@ == old(self).original_users@.insert(relayed_id, author),
            final(self).relayed@ == old(self).relayed@.push(relayed_id),
    {
        broadcast use vstd::std_specs::hash::group_hash_axioms;

        self.original_users.insert(relayed_id, author);
        self.relayed.push(relayed_id);
    }

    /// What a reaction with `emoji` (`None` for a custom emoji) by `user`
    /// on message `message` does: the original author of a relayed message
    /// may delete it or ask to edit it; every other reaction is ignored.
    /// A deleted message is forgotten.
    pub fn reaction_received(&mut self, message: u64, user: Option<u64>, emoji: Option<&str>) -> (res:
        ReactionStep)
        ensures
            ({
                let author = old(self).original_users@.get(message);
                let pos = first_position(old(self).relayed@, message);
                if author is Some && pos is Some && user == Some(author->0) && emoji is Some
                    && is_delete_emoji(emoji->0@) {
                    &&& res == ReactionStep::DeleteRelayed(pos->0 as usize)
                    &&& final(self).original_users@ == old(self).original_users@.remove(message)
                    &&& final(self).relayed@ == old(self).relayed@.update(
                        pos->0,
                        old(self).relayed@.last(),
                    ).drop_last()
                } else if author is Some && pos is Some && user == Some(author->0) && emoji is Some
                    && is_edit_emoji(emoji->0@) {
                    &&& res == (ReactionStep::PromptEdit { user: author->0, position: pos->0 as usize })
                    &&& final(self).original_users@ == old(self).original_users@
                    &&& final(self).relayed@ == old(self).relayed@
                } else {
                    &&& res == ReactionStep::Ignore
                    &&& final(self).original_users@ == old(self).original_users@
                    &&& final(self).relayed@ == old(self).relayed@
                }
            }),
    {
        broadcast use vstd::std_specs::hash::group_hash_axioms;

        let author = match self.original_users.get(&message) {
            Some(a) => *a,
            None => {
                return ReactionStep::Ignore;
            },
        };
        let mut pos: usize = 0;
        while pos < self.relayed.len()
            invariant
                0 <= pos <= self.relayed@.len(),
                forall|j: int| 0 <= j < pos ==> self.relayed@[j] != message,
            ensures
                0 <= pos <= self.relayed@.len(),
                forall|j: int| 0 <= j < pos ==> self.relayed@[j] != message,
                pos == self.relayed@.len() || self.relayed@[pos as int] == message,
            decreases self.relayed@.len() - pos,
        {
            if self.relayed[pos] == message {
                break;
            }
            pos = pos + 1;
        }
        proof {
            let ids = self.relayed@;
            if pos < ids.len() {
                assert(exists|i: int| 0 <= i < ids.len() && ids[i] == message);
                let p = first_position(ids, message)->0;
                assert(p == pos as int) by {
                    if p < pos {
                        assert(ids[p] != message);
                    }
                    if p > pos {
                        assert(ids[pos as int] == message);
                    }
                }
            } else {
                assert(!(exists|i: int| 0 <= i < ids.len() && ids[i] == message));
            }
        }
        if pos == self.relayed.len() {
            return ReactionStep::Ignore;
        }
        if user != Some(author) {
            return ReactionStep::Ignore;
        }
        let emoji = match emoji {
            Some(e) => chars_of(e),
            None => {
                return ReactionStep::Ignore;
            },
        };
        if same_chars(&emoji, &chars_of("\u{274C}")) {
            self.original_users.remove(&message);
            self.relayed.swap_remove(pos);
            ReactionStep::DeleteRelayed(pos)
        } else if same_chars(&emoji, &chars_of("\u{1F4DD}")) || same_chars(
            &emoji,
            &chars_of("\u{270F}\u{FE0F}"),
        ) {
            ReactionStep::PromptEdit { user: author, position: pos }
        } else {
            ReactionStep::Ignore
        }
    }
}

/// The channels that a move is using at the moment.
pub struct ChannelLocks {
    locked: HashSet<u64>,
}

impl View for ChannelLocks {
    type V = Set<u64>;

    closed spec fn view(&self) -> Set<u64> {
        self.locked@
    }
}

impl ChannelLocks {
    /// No channel locked.
    pub fn new() -> (res: ChannelLocks)
        ensures
            res@ == Set::<u64>::empty(),
    {
        ChannelLocks { locked: HashSet::new() }
    }

    /// Locks `channel` unless it is locked already; says whether it did.
    pub fn try_lock(&mut self, channel: u64) -> (res: bool)
        ensures
            res == !old(self)@.contains(channel),
            final(self)@ == old(self)@.insert(channel),
    {
        broadcast use vstd::std_specs::hash::group_hash_axioms;

        if self.locked.contains(&channel) {
            assert(old(self)@.insert(channel) =~= old(self)@);
            return false;
        }
        self.locked.insert(channel);
        true
    }

    /// Releases the lock on `channel`.
    pub fn unlock(&mut self, channel: u64)
        ensures
            final(self)@ == old(self)@.remove(channel),
    {
        broadcast use vstd::std_specs::hash::group_hash_axioms;

        self.locked.remove(&channel);
    }
}

/// A move waits for a locked destination for at most two minutes.
pub fn keep_waiting_for_lock(elapsed_nanos: u128) -> (res: bool)
    ensures
        res == (elapsed_nanos < 120_000_000_000),
{
    elapsed_nanos < 120_000_000_000
}


/// The messages after the first one (newest first, as fetched) and the
/// first one, in the order they were posted.
pub fn in_posting_order<T>(fetched: Vec<T>, start: T) -> (res: Vec<T>)
    ensures
        res@ == fetched@.push(start).reverse(),
{
    let mut all = fetched;
    all.push(start);
    let ghost whole = all@;
    let mut res: Vec<T> = Vec::new();
    while all.len() > 0
        invariant
            whole.len() == all@.len() + res@.len(),
            all@ == whole.take(all@.len() as int),
            res@ == whole.reverse().take(res@.len() as int),
        decreases all@.len(),
    {
        let ghost k: int = res@.len() as int;
        let x = all.pop().unwrap();
        res.push(x);
        assert(res@ =~= whole.reverse().take(k + 1));
        assert(all@ =~= whole.take(all@.len() as int));
    }
    assert(res@ =~= whole.reverse());
    res
}


// ---------------------------------------------------------------------------
// Laws
// ---------------------------------------------------------------------------

/// Lemma: the indices kept up to the stop are a prefix of those given.
pub proof fn lemma_take_until_stop_prefix(idx: Seq<int>, ms: Seq<MessageInfo>, stop: StopAt)
    ensures
        take_until_stop(idx, ms, stop).len() <= idx.len(),
        take_until_stop(idx, ms, stop) == idx.take(take_until_stop(idx, ms, stop).len() as int),
        forall|k: int|
            0 <= k < take_until_stop(idx, ms, stop).len() - 1 ==> spec_continues(
                stop,
                ms[#[trigger] take_until_stop(idx, ms, stop)[k]].id,
            ),
    decreases idx.len(),
{
    if idx.len() > 0 {
        lemma_take_until_stop_prefix(idx.drop_first(), ms, stop);
        let rest = take_until_stop(idx.drop_first(), ms, stop);
        if spec_continues(stop, ms[idx[0]].id) {
            let t = seq![idx[0]] + rest;
            assert(t =~= idx.take(t.len() as int));
            assert forall|k: int| 0 <= k < t.len() - 1 implies spec_continues(
                stop,
                ms[#[trigger] t[k]].id,
            ) by {
                if k > 0 {
                    assert(t[k] == rest[k - 1]);
                }
            }
        } else {
            assert(seq![idx[0]] =~= idx.take(1));
        }
    }
}

/// Lemma: candidate indices increase, and each marks a message by a
/// selected user within the time span.
pub proof fn lemma_candidates_sorted_and_selected(ms: Seq<MessageInfo>, users: Seq<u64>, start: i64)
    ensures
        forall|i: int, j: int|
            0 <= i < j < candidate_indices(ms, users, start).len() ==> candidate_indices(
                ms,
                users,
                start,
            )[i] < candidate_indices(ms, users, start)[j],
        forall|k: int|
            0 <= k < candidate_indices(ms, users, start).len() ==> 0 <= #[trigger] candidate_indices(
                ms,
                users,
                start,
            )[k] < ms.len() && selected_for_move(ms[candidate_indices(ms, users, start)[k]], users, start),
    decreases ms.len(),
{
    if ms.len() > 0 {
        lemma_candidates_sorted_and_selected(ms.drop_last(), users, start);
        lemma_candidates_in_range(ms.drop_last(), users, start);
        let prev = candidate_indices(ms.drop_last(), users, start);
        let all = candidate_indices(ms, users, start);
        assert forall|k: int| 0 <= k < all.len() implies 0 <= #[trigger] all[k] < ms.len()
            && selected_for_move(ms[all[k]], users, start) by {
            if k < prev.len() {
                assert(all[k] == prev[k]);
                assert(ms.drop_last()[prev[k]] == ms[prev[k]]);
            }
        }
        assert forall|i: int, j: int| 0 <= i < j < all.len() implies all[i] < all[j] by {
            if j < prev.len() {
                assert(all[i] == prev[i] && all[j] == prev[j]);
            } else {
                assert(all[i] == prev[i]);
            }
        }
    }
}

/// A move relays at most `MESSAGE_LIMIT` messages, in the order they were
/// posted, each by a selected user and within the time span, and stops at
/// the first message at which the stop rule says so.
pub proof fn lemma_messages_to_move_properties(
    ms: Seq<MessageInfo>,
    users: Seq<u64>,
    start: i64,
    stop: StopAt,
)
    ensures
        ({
            let r = spec_messages_to_move(ms, users, start, stop);
            &&& r.len() <= MESSAGE_LIMIT
            &&& forall|i: int, j: int| 0 <= i < j < r.len() ==> r[i] < r[j]
            &&& forall|k: int|
                0 <= k < r.len() ==> 0 <= #[trigger] r[k] < ms.len() && selected_for_move(
                    ms[r[k]],
                    users,
                    start,
                )
            &&& forall|k: int| 0 <= k < r.len() - 1 ==> spec_continues(stop, ms[#[trigger] r[k]].id)
        }),
{
    let cand = candidate_indices(ms, users, start);
    lemma_candidates_sorted_and_selected(ms, users, start);
    let lim = first_at_most(cand, MESSAGE_LIMIT as int);
    assert(lim =~= cand.take(lim.len() as int));
    lemma_take_until_stop_prefix(lim, ms, stop);
    let r = spec_messages_to_move(ms, users, start, stop);
    assert(r =~= lim.take(r.len() as int));
    assert forall|k: int| 0 <= k < r.len() implies 0 <= #[trigger] r[k] < ms.len() && selected_for_move(
        ms[r[k]],
        users,
        start,
    ) by {
        assert(r[k] == cand[k]);
    }
    assert forall|i: int, j: int| 0 <= i < j < r.len() implies r[i] < r[j] by {
        assert(r[i] == cand[i] && r[j] == cand[j]);
    }
}

/// The message a move starts at comes first in posting order.
pub proof fn lemma_start_comes_first<T>(fetched: Seq<T>, start: T)
    ensures
        fetched.push(start).reverse()[0] == start,
        fetched.push(start).reverse().len() == fetched.len() + 1,
{
}

/// Locks exclude each other: a locked channel cannot be locked again until
/// it is unlocked, unlocking makes it lockable, and locking or unlocking
/// one channel leaves every other channel as it was.
pub proof fn lemma_channel_locks_exclusive(locked: Set<u64>, channel: u64, other: u64)
    requires
        channel != other,
    ensures
        locked.insert(channel).contains(channel),
        !locked.insert(channel).remove(channel).contains(channel),
        locked.insert(channel).contains(other) == locked.contains(other),
        locked.remove(channel).contains(other) == locked.contains(other),
{
}

/// A deleted relayed message is forgotten: further reactions on it are
/// ignored, since it has no original author any more.
pub proof fn lemma_deleted_message_forgotten(original_users: Map<u64, u64>, message: u64)
    ensures
        original_users.remove(message).get(message) is None,
{
}

} // verus!
