//! The data model: projects, sessions, messages and trash records, each with
//! the mathematical view that the contracts speak of.

use vstd::prelude::*;
use vstd::string::StringExecFns;
use crate::seqs::{lemma_select_step, opt_text, select, texts, views};
use crate::text::str_eq;

verus! {

/// A project: the sessions that belong to one working directory.
#[derive(Clone, Debug, PartialEq, Eq)]
pub struct Project {
    pub id: String,
    pub cwd: Option<String>,
    /// When the project was last modified, in nanoseconds since the epoch.
    pub last_modified: u64,
    pub session_count: usize,
    pub last_activity: Option<String>,
}

pub struct ProjectView {
    pub id: Seq<char>,
    pub cwd: Option<Seq<char>>,
    pub last_modified: u64,
    pub session_count: usize,
    pub last_activity: Option<Seq<char>>,
}

impl View for Project {
    type V = ProjectView;

    open spec fn view(&self) -> ProjectView {
        ProjectView {
            id: self.id@,
            cwd: opt_text(self.cwd),
            last_modified: self.last_modified,
            session_count: self.session_count,
            last_activity: opt_text(self.last_activity),
        }
    }
}

/// What is known of a session without its messages.
#[derive(Clone, Debug, PartialEq, Eq)]
pub struct SessionInfo {
    pub id: String,
    pub file_path: String,
    pub cwd: Option<String>,
    pub first_timestamp: Option<String>,
    pub last_timestamp: Option<String>,
    pub message_count: usize,
    pub user_turn_count: usize,
    pub file_size: u64,
}

pub struct SessionInfoView {
    pub id: Seq<char>,
    pub file_path: Seq<char>,
    pub cwd: Option<Seq<char>>,
    pub first_timestamp: Option<Seq<char>>,
    pub last_timestamp: Option<Seq<char>>,
    pub message_count: usize,
    pub user_turn_count: usize,
    pub file_size: u64,
}

impl View for SessionInfo {
    type V = SessionInfoView;

    open spec fn view(&self) -> SessionInfoView {
        SessionInfoView {
            id: self.id@,
            file_path: self.file_path@,
            cwd: opt_text(self.cwd),
            first_timestamp: opt_text(self.first_timestamp),
            last_timestamp: opt_text(self.last_timestamp),
            message_count: self.message_count,
            user_turn_count: self.user_turn_count,
            file_size: self.file_size,
        }
    }
}

impl SessionInfoView {
    /// What holds of every record that survives filtering: it has a
    /// message, a real user turn and a timestamp.
    pub open spec fn is_listable(self) -> bool {
        &&& self.message_count >= 1
        &&& self.user_turn_count >= 1
        &&& (self.first_timestamp is Some || self.last_timestamp is Some)
    }

    /// The record is listable and comes from a file that is not empty.
    pub open spec fn is_of_a_session(self) -> bool {
        self.is_listable() && self.file_size > 0
    }
}

/// One block of a message's content.
#[derive(Clone, Debug, PartialEq, Eq)]
pub struct ContentBlock {
    pub block_type: String,
    pub text: Option<String>,
    pub tool_name: Option<String>,
    pub tool_input: Option<String>,
}

pub struct ContentBlockView {
    pub block_type: Seq<char>,
    pub text: Option<Seq<char>>,
    pub tool_name: Option<Seq<char>>,
    pub tool_input: Option<Seq<char>>,
}

impl View for ContentBlock {
    type V = ContentBlockView;

    open spec fn view(&self) -> ContentBlockView {
        ContentBlockView {
            block_type: self.block_type@,
            text: opt_text(self.text),
            tool_name: opt_text(self.tool_name),
            tool_input: opt_text(self.tool_input),
        }
    }
}

/// The block that a plain string stands for.
pub open spec fn text_block(text: Seq<char>) -> ContentBlockView {
    ContentBlockView { block_type: "text"@, text: Some(text), tool_name: None, tool_input: None }
}

impl ContentBlock {
    /// A block of plain text.
    pub fn of_text(text: String) -> (block: ContentBlock)
        ensures
            block@ == text_block(text@),
    {
        ContentBlock {
            block_type: "text".to_owned(),
            text: Some(text),
            tool_name: None,
            tool_input: None,
        }
    }
}

/// One message of a session.
#[derive(Clone, Debug, PartialEq, Eq)]
pub struct Message {
    pub uuid: Option<String>,
    pub timestamp: Option<String>,
    pub msg_type: String,
    pub role: String,
    pub content_blocks: Vec<ContentBlock>,
    /// True only for what the user wrote, never for an echoed tool result.
    pub is_real_user: bool,
}

pub struct MessageView {
    pub uuid: Option<Seq<char>>,
    pub timestamp: Option<Seq<char>>,
    pub msg_type: Seq<char>,
    pub role: Seq<char>,
    pub content_blocks: Seq<ContentBlockView>,
    pub is_real_user: bool,
}

impl View for Message {
    type V = MessageView;

    open spec fn view(&self) -> MessageView {
        MessageView {
            uuid: opt_text(self.uuid),
            timestamp: opt_text(self.timestamp),
            msg_type: self.msg_type@,
            role: self.role@,
            content_blocks: views(self.content_blocks@),
            is_real_user: self.is_real_user,
        }
    }
}

/// The parts joined, with `sep` between one and the next.
pub open spec fn joined(parts: Seq<Seq<char>>, sep: Seq<char>) -> Seq<char>
    decreases parts.len(),
{
    if parts.len() == 0 {
        Seq::empty()
    } else if parts.len() == 1 {
        parts[0]
    } else {
        joined(parts.drop_last(), sep) + sep + parts.last()
    }
}

pub open spec fn block_text() -> spec_fn(ContentBlockView) -> Option<Seq<char>> {
    |block: ContentBlockView| block.text
}

/// The name of the tool that a block calls, where it calls one.
pub open spec fn tool_call() -> spec_fn(ContentBlockView) -> Option<Seq<char>> {
    |block: ContentBlockView|
        if block.block_type == "tool_use"@ {
            block.tool_name
        } else {
            None
        }
}

impl MessageView {
    /// The plain text of the message: the texts of its blocks, one to a
    /// line.
    pub open spec fn text(self) -> Seq<char> {
        joined(select(self.content_blocks, block_text()), seq!['\n'])
    }

    /// The names of the tools that the message calls, in order.
    pub open spec fn tool_summary(self) -> Seq<Seq<char>> {
        select(self.content_blocks, tool_call())
    }
}

impl Message {
    /// The plain text of the message: the texts of its blocks, one to a
    /// line.
    pub fn get_text(&self) -> (r: String)
        ensures
            r@ == self@.text(),
    {
        let ghost blocks = self@.content_blocks;
        let ghost pick = block_text();
        let ghost sep = seq!['\n'];
        let mut out = String::new();
        let mut parts: usize = 0;
        let mut k: usize = 0;
        proof {
            assert(blocks.take(0) =~= Seq::<ContentBlockView>::empty());
            reveal_strlit("\n");
            assert("\n"@ =~= sep);
        }
        while k < self.content_blocks.len()
            invariant
                k <= self.content_blocks.len(),
                blocks == views(self.content_blocks@),
                pick == block_text(),
                sep == seq!['\n'],
                "\n"@ == sep,
                parts <= k,
                parts == select(blocks.take(k as int), pick).len(),
                out@ == joined(select(blocks.take(k as int), pick), sep),
            decreases self.content_blocks.len() - k,
        {
            let ghost before = select(blocks.take(k as int), pick);
            proof {
                lemma_select_step(blocks, pick, k as int);
            }
            match &self.content_blocks[k].text {
                Some(t) => {
                    if parts > 0 {
                        out.append("\n");
                    }
                    out.append(t.as_str());
                    parts = parts + 1;
                    proof {
                        let after = before.push(t@);
                        assert(after.drop_last() =~= before);
                        assert(out@ =~= joined(after, sep));
                    }
                },
                None => {},
            }
            k += 1;
        }
        proof {
            assert(blocks.take(k as int) =~= blocks);
        }
        out
    }

    /// The names of the tools that the message calls, in order.
    pub fn get_tool_summary(&self) -> (r: Vec<String>)
        ensures
            texts(r@) == self@.tool_summary(),
    {
        let ghost blocks = self@.content_blocks;
        let ghost pick = tool_call();
        let mut names: Vec<String> = Vec::new();
        let mut k: usize = 0;
        proof {
            assert(blocks.take(0) =~= Seq::<ContentBlockView>::empty());
            assert(texts(names@) =~= select(blocks.take(0), pick));
        }
        while k < self.content_blocks.len()
            invariant
                k <= self.content_blocks.len(),
                blocks == views(self.content_blocks@),
                pick == tool_call(),
                texts(names@) == select(blocks.take(k as int), pick),
            decreases self.content_blocks.len() - k,
        {
            proof {
                lemma_select_step(blocks, pick, k as int);
            }
            let block = &self.content_blocks[k];
            if str_eq(block.block_type.as_str(), "tool_use") {
                match &block.tool_name {
                    Some(name) => {
                        let name = name.clone();
                        proof {
                            assert(texts(names@.push(name)) =~= texts(names@).push(name@));
                        }
                        names.push(name);
                    },
                    None => {},
                }
            }
            k += 1;
        }
        proof {
            assert(blocks.take(k as int) =~= blocks);
        }
        names
    }
}

/// How many of the messages the user wrote.
pub open spec fn real_turns(messages: Seq<MessageView>) -> nat
    decreases messages.len(),
{
    if messages.len() == 0 {
        0
    } else if messages.last().is_real_user {
        real_turns(messages.drop_last()) + 1
    } else {
        real_turns(messages.drop_last())
    }
}

/// A session with all its messages.
#[derive(Clone, Debug, PartialEq, Eq)]
pub struct Session {
    pub info: SessionInfo,
    pub messages: Vec<Message>,
}

pub struct SessionView {
    pub info: SessionInfoView,
    pub messages: Seq<MessageView>,
}

impl View for Session {
    type V = SessionView;

    open spec fn view(&self) -> SessionView {
        SessionView { info: self.info@, messages: views(self.messages@) }
    }
}

/// The names of the tools that the messages call, in order.
pub open spec fn tool_calls(messages: Seq<MessageView>) -> Seq<Seq<char>>
    decreases messages.len(),
{
    if messages.len() == 0 {
        Seq::empty()
    } else {
        tool_calls(messages.drop_last()) + messages.last().tool_summary()
    }
}

/// How often a name occurs among the names.
pub open spec fn times(names: Seq<Seq<char>>, name: Seq<char>) -> nat
    decreases names.len(),
{
    if names.len() == 0 {
        0
    } else if names.last() == name {
        times(names.drop_last(), name) + 1
    } else {
        times(names.drop_last(), name)
    }
}

/// `usage` says of each name that occurs how often it does, and of no
/// other name.
pub open spec fn counts(usage: Seq<(String, usize)>, names: Seq<Seq<char>>) -> bool {
    &&& forall|i: int, j: int|
        #![trigger usage[i], usage[j]]
        0 <= i < j < usage.len() ==> usage[i].0@ != usage[j].0@
    &&& forall|i: int|
        0 <= i < usage.len() ==> (#[trigger] usage[i]).1 > 0 && usage[i].1 == times(
            names,
            usage[i].0@,
        )
    &&& forall|name: Seq<char>|
        #[trigger] times(names, name) > 0 ==> exists|i: int|
            0 <= i < usage.len() && (#[trigger] usage[i]).0@ == name
}

/// A name occurs no more often than there are names.
pub proof fn lemma_times_bound(names: Seq<Seq<char>>, name: Seq<char>)
    ensures
        times(names, name) <= names.len(),
    decreases names.len(),
{
    if names.len() > 0 {
        lemma_times_bound(names.drop_last(), name);
    }
}

/// Counts how often each name occurs.
pub fn count_names(names: &Vec<String>) -> (usage: Vec<(String, usize)>)
    ensures
        counts(usage@, texts(names@)),
{
    let ghost all = texts(names@);
    let mut usage: Vec<(String, usize)> = Vec::new();
    let mut k: usize = 0;
    proof {
        assert(all.take(0) =~= Seq::<Seq<char>>::empty());
    }
    while k < names.len()
        invariant
            k <= names.len(),
            all == texts(names@),
            counts(usage@, all.take(k as int)),
        decreases names.len() - k,
    {
        let name = &names[k];
        let ghost seen = all.take(k as int);
        let ghost next = all.take(k + 1);
        let ghost before = usage@;
        proof {
            assert(next.drop_last() =~= seen);
            assert(next.last() == name@);
        }
        let mut at: usize = 0;
        let mut found = false;
        while at < usage.len() && !found
            invariant
                at <= usage.len(),
                usage@ == before,
                !found ==> forall|j: int| 0 <= j < at ==> (#[trigger] usage[j]).0@ != name@,
                found ==> at < usage.len() && usage[at as int].0@ == name@,
            decreases
                    usage.len() - at,
                    if found {
                        0int
                    } else {
                        1int
                    },
        {
            if str_eq(usage[at].0.as_str(), name.as_str()) {
                found = true;
            } else {
                at += 1;
            }
        }
        if found {
            let (key, count) = usage.remove(at);
            proof {
                lemma_times_bound(seen, key@);
            }
            let entry = (key, count + 1);
            usage.insert(at, entry);
            proof {
                assert(usage@ =~= before.update(at as int, entry));
                assert forall|i: int| 0 <= i < usage.len() implies (#[trigger] usage[i]).1 > 0
                    && usage[i].1 == times(next, usage[i].0@) by {
                    if i != at {
                        assert(usage[i] == before[i]);
                        assert(before[i].0@ != before[at as int].0@);
                    }
                }
                assert forall|n: Seq<char>| #[trigger] times(next, n) > 0 implies exists|i: int|
                    0 <= i < usage.len() && (#[trigger] usage[i]).0@ == n by {
                    if n == name@ {
                        assert(usage[at as int].0@ == n);
                    } else {
                        assert(times(seen, n) > 0);
                        let i = choose|i: int| 0 <= i < before.len() && (#[trigger] before[i]).0@ == n;
                        assert(usage[i].0@ == n);
                    }
                }
                assert forall|i: int, j: int|
                    #![trigger usage[i], usage[j]]
                    0 <= i < j < usage.len() implies usage[i].0@ != usage[j].0@ by {
                    assert(usage[i].0@ == before[i].0@);
                    assert(usage[j].0@ == before[j].0@);
                }
            }
        } else {
            let entry = (name.clone(), 1usize);
            proof {
                if times(seen, name@) > 0 {
                    let i = choose|i: int|
                        0 <= i < before.len() && (#[trigger] before[i]).0@ == name@;
                    assert(false);
                }
            }
            usage.push(entry);
            proof {
                assert forall|i: int| 0 <= i < usage.len() implies (#[trigger] usage[i]).1 > 0
                    && usage[i].1 == times(next, usage[i].0@) by {
                    if i < before.len() {
                        assert(usage[i] == before[i]);
                    }
                }
                assert forall|n: Seq<char>| #[trigger] times(next, n) > 0 implies exists|i: int|
                    0 <= i < usage.len() && (#[trigger] usage[i]).0@ == n by {
                    if n == name@ {
                        assert(usage[before.len() as int].0@ == n);
                    } else {
                        assert(times(seen, n) > 0);
                        let i = choose|i: int| 0 <= i < before.len() && (#[trigger] before[i]).0@ == n;
                        assert(usage[i].0@ == n);
                    }
                }
                assert forall|i: int, j: int|
                    #![trigger usage[i], usage[j]]
                    0 <= i < j < usage.len() implies usage[i].0@ != usage[j].0@ by {
                    assert(usage[i] == before[i]);
                    if j < before.len() {
                        assert(usage[j] == before[j]);
                    }
                }
            }
        }
        k += 1;
    }
    proof {
        assert(all.take(k as int) =~= all);
    }
    usage
}

impl Session {
    /// How often the session calls each tool.
    pub fn tool_usage(&self) -> (usage: Vec<(String, usize)>)
        ensures
            counts(usage@, tool_calls(self@.messages)),
    {
        let ghost all = self@.messages;
        let mut names: Vec<String> = Vec::new();
        let mut k: usize = 0;
        proof {
            assert(all.take(0) =~= Seq::<MessageView>::empty());
            assert(texts(names@) =~= tool_calls(all.take(0)));
        }
        while k < self.messages.len()
            invariant
                k <= self.messages.len(),
                all == views(self.messages@),
                texts(names@) == tool_calls(all.take(k as int)),
            decreases self.messages.len() - k,
        {
            let mut summary = self.messages[k].get_tool_summary();
            proof {
                assert(all.take(k + 1).drop_last() =~= all.take(k as int));
                assert(all.take(k + 1).last() == self.messages@[k as int]@);
                assert(texts(names@ + summary@) =~= texts(names@) + texts(summary@));
            }
            names.append(&mut summary);
            k += 1;
        }
        proof {
            assert(all.take(k as int) =~= all);
        }
        count_names(&names)
    }

    /// How many of the session's messages the user wrote.
    pub fn real_turn_count(&self) -> (n: usize)
        ensures
            n == real_turns(self@.messages),
    {
        let ghost all = self@.messages;
        let mut n: usize = 0;
        let mut k: usize = 0;
        proof {
            assert(all.take(0) =~= Seq::<MessageView>::empty());
        }
        while k < self.messages.len()
            invariant
                k <= self.messages.len(),
                all == views(self.messages@),
                n <= k,
                n == real_turns(all.take(k as int)),
            decreases self.messages.len() - k,
        {
            proof {
                assert(all.take(k + 1).drop_last() =~= all.take(k as int));
                assert(all.take(k + 1).last() == self.messages@[k as int]@);
            }
            if self.messages[k].is_real_user {
                n = n + 1;
            }
            k += 1;
        }
        proof {
            assert(all.take(k as int) =~= all);
        }
        n
    }
}

/// The first and the last turns of a session, with the middle left out.
#[derive(Clone, Debug, PartialEq, Eq)]
pub struct PaginatedMessages {
    pub first: Vec<Message>,
    pub last: Vec<Message>,
    pub has_middle: bool,
    pub total_turns: usize,
    pub total_messages: usize,
}

pub struct PaginatedMessagesView {
    pub first: Seq<MessageView>,
    pub last: Seq<MessageView>,
    pub has_middle: bool,
    pub total_turns: usize,
    pub total_messages: usize,
}

impl View for PaginatedMessages {
    type V = PaginatedMessagesView;

    open spec fn view(&self) -> PaginatedMessagesView {
        PaginatedMessagesView {
            first: views(self.first@),
            last: views(self.last@),
            has_middle: self.has_middle,
            total_turns: self.total_turns,
            total_messages: self.total_messages,
        }
    }
}

/// One deleted session that can still be restored.
#[derive(Clone, Debug, PartialEq, Eq)]
pub struct TrashItem {
    pub session_id: String,
    pub project_name: String,
    /// When the session was deleted, in seconds since the epoch.
    pub deleted_at: i64,
    /// The item's directory inside the trash; it identifies the item.
    pub dir_name: String,
    pub original_file: String,
    pub original_file_history: Option<String>,
}

pub struct TrashItemView {
    pub session_id: Seq<char>,
    pub project_name: Seq<char>,
    pub deleted_at: i64,
    pub dir_name: Seq<char>,
    pub original_file: Seq<char>,
    pub original_file_history: Option<Seq<char>>,
}

impl View for TrashItem {
    type V = TrashItemView;

    open spec fn view(&self) -> TrashItemView {
        TrashItemView {
            session_id: self.session_id@,
            project_name: self.project_name@,
            deleted_at: self.deleted_at,
            dir_name: self.dir_name@,
            original_file: self.original_file@,
            original_file_history: opt_text(self.original_file_history),
        }
    }
}

/// Everything that is in the trash of one source type, oldest first.
#[derive(Clone, Debug, PartialEq, Eq)]
pub struct TrashManifest {
    pub items: Vec<TrashItem>,
}

impl View for TrashManifest {
    type V = Seq<TrashItemView>;

    open spec fn view(&self) -> Seq<TrashItemView> {
        views(self.items@)
    }
}

/// A copy of an optional string.
pub fn clone_opt(s: &Option<String>) -> (r: Option<String>)
    ensures
        opt_text(r) == opt_text(*s),
{
    match s {
        Some(t) => Some(t.clone()),
        None => None,
    }
}

/// An owned copy of an optional string slice.
pub fn owned_opt(s: Option<&str>) -> (r: Option<String>)
    ensures
        match s {
            Some(t) => opt_text(r) == Some(t@),
            None => r is None,
        },
{
    match s {
        Some(t) => Some(t.to_owned()),
        None => None,
    }
}

} // verus!
