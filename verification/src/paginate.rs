//! Showing a long session by its first and last turns.
//!
//! A turn begins with each message that the user wrote and runs up to the
//! next such message. Messages before the first one that the user wrote form
//! a turn of their own.

use vstd::prelude::*;
use crate::seqs::views;
use crate::types::{Message, MessageView, PaginatedMessages, PaginatedMessagesView};

verus! {

/// For each message, whether the user wrote it.
pub open spec fn real_flags(messages: Seq<MessageView>) -> Seq<bool> {
    messages.map_values(|m: MessageView| m.is_real_user)
}

/// A turn begins at message `i`.
pub open spec fn is_turn_start(flags: Seq<bool>, i: int) -> bool {
    i == 0 || flags[i]
}

/// How many turns begin at or after message `pos`.
pub open spec fn turn_count_from(flags: Seq<bool>, pos: int) -> nat
    decreases flags.len() - pos,
{
    if pos < 0 || pos >= flags.len() {
        0
    } else if is_turn_start(flags, pos) {
        1 + turn_count_from(flags, pos + 1)
    } else {
        turn_count_from(flags, pos + 1)
    }
}

/// How many turns the messages make.
pub open spec fn turn_count(flags: Seq<bool>) -> nat {
    turn_count_from(flags, 0)
}

/// Where the turn begins that is the `k`-th, counted from 0, of those that
/// begin at or after message `pos`; the number of messages where there are
/// not so many turns.
pub open spec fn turn_offset_from(flags: Seq<bool>, pos: int, k: nat) -> int
    decreases flags.len() - pos,
{
    if pos < 0 || pos >= flags.len() {
        flags.len() as int
    } else if is_turn_start(flags, pos) {
        if k == 0 {
            pos
        } else {
            turn_offset_from(flags, pos + 1, (k - 1) as nat)
        }
    } else {
        turn_offset_from(flags, pos + 1, k)
    }
}

/// Where turn `k`, counted from 0, begins.
pub open spec fn turn_offset(flags: Seq<bool>, k: nat) -> int {
    turn_offset_from(flags, 0, k)
}

/// The first `first_turns` and the last `last_turns` turns of a session. If
/// these are all its turns, every message is in the first window and nothing
/// is left out.
pub open spec fn paginated(messages: Seq<MessageView>, first_turns: usize, last_turns: usize)
    -> PaginatedMessagesView {
    let flags = real_flags(messages);
    let total = turn_count(flags);
    if first_turns + last_turns >= total {
        PaginatedMessagesView {
            first: messages,
            last: Seq::empty(),
            has_middle: false,
            total_turns: total as usize,
            total_messages: messages.len() as usize,
        }
    } else {
        PaginatedMessagesView {
            first: messages.take(turn_offset(flags, first_turns as nat)),
            last: messages.skip(turn_offset(flags, (total - last_turns) as nat)),
            has_middle: true,
            total_turns: total as usize,
            total_messages: messages.len() as usize,
        }
    }
}

/// An offset lies among the messages, and there are no more turns than
/// messages.
pub proof fn lemma_turn_bounds(flags: Seq<bool>, pos: int, k: nat)
    requires
        0 <= pos <= flags.len(),
    ensures
        pos <= turn_offset_from(flags, pos, k) <= flags.len(),
        turn_count_from(flags, pos) <= flags.len() - pos,
    decreases flags.len() - pos,
{
    if pos < flags.len() {
        lemma_turn_bounds(flags, pos + 1, k);
        if k > 0 {
            lemma_turn_bounds(flags, pos + 1, (k - 1) as nat);
        }
    }
}

/// A later turn does not begin before an earlier one.
pub proof fn lemma_turn_offsets_ascend(flags: Seq<bool>, pos: int, k1: nat, k2: nat)
    requires
        0 <= pos <= flags.len(),
        k1 <= k2,
    ensures
        turn_offset_from(flags, pos, k1) <= turn_offset_from(flags, pos, k2),
    decreases flags.len() - pos,
{
    if pos < flags.len() {
        if is_turn_start(flags, pos) {
            if k1 == 0 {
                lemma_turn_bounds(flags, pos, k2);
            } else {
                lemma_turn_offsets_ascend(flags, pos + 1, (k1 - 1) as nat, (k2 - 1) as nat);
            }
        } else {
            lemma_turn_offsets_ascend(flags, pos + 1, k1, k2);
        }
    }
}

/// A turn that exists begins at a message, and that message starts a turn.
pub proof fn lemma_turn_begins_at_start(flags: Seq<bool>, pos: int, k: nat)
    requires
        0 <= pos <= flags.len(),
        k < turn_count_from(flags, pos),
    ensures
        pos <= turn_offset_from(flags, pos, k) < flags.len(),
        is_turn_start(flags, turn_offset_from(flags, pos, k)),
    decreases flags.len() - pos,
{
    if pos < flags.len() {
        if is_turn_start(flags, pos) {
            if k > 0 {
                lemma_turn_begins_at_start(flags, pos + 1, (k - 1) as nat);
            }
        } else {
            lemma_turn_begins_at_start(flags, pos + 1, k);
        }
    }
}

/// How many turns the messages make.
pub fn count_turns(messages: &Vec<Message>) -> (n: usize)
    ensures
        n == turn_count(real_flags(views(messages@))),
        n <= messages.len(),
{
    let ghost flags = real_flags(views(messages@));
    let mut n: usize = 0;
    let mut pos: usize = 0;
    while pos < messages.len()
        invariant
            pos <= messages.len(),
            flags == real_flags(views(messages@)),
            n <= pos,
            turn_count(flags) == n + turn_count_from(flags, pos as int),
        decreases messages.len() - pos,
    {
        proof {
            assert(flags[pos as int] == messages@[pos as int].is_real_user);
        }
        if pos == 0 || messages[pos].is_real_user {
            n = n + 1;
        }
        pos = pos + 1;
    }
    n
}

/// Where turn `k`, counted from 0, begins.
pub fn offset_of_turn(messages: &Vec<Message>, k: usize) -> (at: usize)
    ensures
        at == turn_offset(real_flags(views(messages@)), k as nat),
        at <= messages.len(),
{
    let ghost flags = real_flags(views(messages@));
    let mut left: usize = k;
    let mut pos: usize = 0;
    while pos < messages.len()
        invariant
            pos <= messages.len(),
            flags == real_flags(views(messages@)),
            turn_offset(flags, k as nat) == turn_offset_from(flags, pos as int, left as nat),
        decreases messages.len() - pos,
    {
        proof {
            assert(flags[pos as int] == messages@[pos as int].is_real_user);
        }
        if pos == 0 || messages[pos].is_real_user {
            if left == 0 {
                return pos;
            }
            left = left - 1;
        }
        pos = pos + 1;
    }
    pos
}

/// The first `first_turns` and the last `last_turns` turns of a session.
pub fn paginate(messages: Vec<Message>, first_turns: usize, last_turns: usize) -> (r:
    PaginatedMessages)
    ensures
        r@ == paginated(views(messages@), first_turns, last_turns),
{
    let ghost all = views(messages@);
    let ghost flags = real_flags(all);
    let total_turns = count_turns(&messages);
    let total_messages = messages.len();
    if first_turns >= total_turns || last_turns >= total_turns - first_turns {
        let r = PaginatedMessages {
            first: messages,
            last: Vec::new(),
            has_middle: false,
            total_turns,
            total_messages,
        };
        proof {
            assert(views(r.last@) =~= Seq::<MessageView>::empty());
        }
        return r;
    }
    let head = offset_of_turn(&messages, first_turns);
    let tail = offset_of_turn(&messages, total_turns - last_turns);
    proof {
        lemma_turn_offsets_ascend(flags, 0, first_turns as nat, (total_turns - last_turns) as nat);
    }
    let mut first = messages;
    let last = first.split_off(tail);
    first.truncate(head);
    proof {
        assert(views(first@) =~= all.take(head as int));
        assert(views(last@) =~= all.skip(tail as int));
    }
    PaginatedMessages { first, last, has_middle: true, total_turns, total_messages }
}

/// With the middle left out, the first window ends where turn `first_turns`
/// begins and the last window begins with a turn; together they hold fewer
/// messages than the session.
pub proof fn lemma_windows_are_whole_turns(
    messages: Seq<MessageView>,
    first_turns: usize,
    last_turns: usize,
)
    requires
        first_turns + last_turns < turn_count(real_flags(messages)),
        messages.len() <= usize::MAX,
    ensures
        ({
            let flags = real_flags(messages);
            let total = turn_count(flags);
            let page = paginated(messages, first_turns, last_turns);
            let head = turn_offset(flags, first_turns as nat);
            let tail = turn_offset(flags, (total - last_turns) as nat);
            &&& page.has_middle
            &&& page.first == messages.take(head)
            &&& page.last == messages.skip(tail)
            &&& 0 <= head < tail <= messages.len()
            &&& is_turn_start(flags, head)
            &&& last_turns > 0 ==> is_turn_start(flags, tail)
            &&& last_turns == 0 ==> tail == messages.len()
        }),
{
    let flags = real_flags(messages);
    let total = turn_count(flags);
    let k = (total - last_turns) as nat;
    lemma_turn_begins_at_start(flags, 0, first_turns as nat);
    lemma_turn_bounds(flags, 0, k);
    lemma_turn_strictly_ascend(flags, 0, first_turns as nat, k);
    if last_turns > 0 {
        lemma_turn_begins_at_start(flags, 0, k);
    } else {
        lemma_offset_past_the_turns(flags, 0, k);
    }
}

/// Of two turns that exist, the later begins after the earlier.
pub proof fn lemma_turn_strictly_ascend(flags: Seq<bool>, pos: int, k1: nat, k2: nat)
    requires
        0 <= pos <= flags.len(),
        k1 < k2,
        k1 < turn_count_from(flags, pos),
    ensures
        turn_offset_from(flags, pos, k1) < turn_offset_from(flags, pos, k2),
    decreases flags.len() - pos,
{
    if pos < flags.len() {
        if is_turn_start(flags, pos) {
            if k1 == 0 {
                lemma_turn_bounds(flags, pos + 1, (k2 - 1) as nat);
            } else {
                lemma_turn_strictly_ascend(flags, pos + 1, (k1 - 1) as nat, (k2 - 1) as nat);
            }
        } else {
            lemma_turn_strictly_ascend(flags, pos + 1, k1, k2);
        }
    }
}

/// A turn that does not exist "begins" after the last message.
pub proof fn lemma_offset_past_the_turns(flags: Seq<bool>, pos: int, k: nat)
    requires
        0 <= pos <= flags.len(),
        k >= turn_count_from(flags, pos),
    ensures
        turn_offset_from(flags, pos, k) == flags.len(),
    decreases flags.len() - pos,
{
    if pos < flags.len() {
        if is_turn_start(flags, pos) {
            lemma_offset_past_the_turns(flags, pos + 1, (k - 1) as nat);
        } else {
            lemma_offset_past_the_turns(flags, pos + 1, k);
        }
    }
}

} // verus!
