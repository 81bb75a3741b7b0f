//! The block-log format: one JSON record per line, a message record being of
//! type `user` or `assistant` and holding its content either as a string or
//! as an array of typed blocks.
//!
//! A `user` record whose content holds a `tool_result` block only echoes a
//! tool's output; it is a message, but not one that the user wrote.

use vstd::prelude::*;
use crate::json::{parse_json, parsed_json, render_json, rendered_json, Json};
use crate::listing::{
    find_by_cwd, lemma_ranked_elements, lists_projects, rank_sessions, top_projects,
};
use crate::paginate::paginate;
use crate::provider::CliHistoryProvider;
use crate::search::{search_files, LogFormat};
use crate::trash::{clone_trash_item, new_trash_item};
use crate::lines::{log_lines, slice_views, split_lines};
use crate::scan::{
    lemma_tally_step, line_json, listing_of, mentions_cwd, read_line, stem_or_unknown, tally_of,
    LineFacts, LineFactsView, Tally, CWD_MARKER,
};
use crate::seqs::{
    first_index, lemma_first_index_is, lemma_first_index_none, lemma_select_step, opt_text, select,
    views,
};
use crate::store::{logs, logs_of, LogDir, LogDirView, LogFile, LogFileView, LogStore};
use crate::text::{
    contains_bytes, decode_text, is_infix, is_prefix, kind_is, starts_with_bytes, str_eq,
    text_of_bytes,
};
use crate::types::{
    owned_opt, text_block, ContentBlock, ContentBlockView, Message, MessageView,
    PaginatedMessages, Project, ProjectView, Session, SessionInfo, SessionInfoView, SessionView,
    TrashItem, TrashItemView, TrashManifest,
};
use vstd::utf8::encode_utf8;

verus! {

/// A line that holds this text records an interruption, not a message.
pub const INTERRUPT_MARKER: &'static str = "[Request interrupted by user";

/// The block that one element of a content array stands for; only an object
/// is a block.
pub open spec fn block_of(item: Json) -> Option<ContentBlockView> {
    if item is Object {
        Some(
            ContentBlockView {
                block_type: match item.member_text("type"@) {
                    Some(t) => t,
                    None => "unknown"@,
                },
                text: item.member_text("text"@),
                tool_name: item.member_text("name"@),
                tool_input: match item.member("input"@) {
                    Some(input) => Some(rendered_json(input)),
                    None => None,
                },
            },
        )
    } else {
        None
    }
}

pub open spec fn block_picker() -> spec_fn(Json) -> Option<ContentBlockView> {
    |item: Json| block_of(item)
}

/// The blocks of a message's content: one text block for a string, the
/// objects of an array, nothing for anything else.
pub open spec fn blocks_of(content: Json) -> Seq<ContentBlockView> {
    match content {
        Json::Str(s) => seq![text_block(s@)],
        Json::Array(items) => select(items@, block_picker()),
        _ => Seq::empty(),
    }
}

/// One of the blocks is a tool's result.
pub open spec fn has_tool_result(blocks: Seq<ContentBlockView>) -> bool {
    exists|i: int| 0 <= i < blocks.len() && (#[trigger] blocks[i]).block_type == "tool_result"@
}

/// The record is of type `user` or `assistant`.
pub open spec fn is_chat_type(kind: Option<Seq<char>>) -> bool {
    kind == Some("user"@) || kind == Some("assistant"@)
}

/// The content of a record's message, `null` where it has none.
pub open spec fn content_of(message: Json) -> Json {
    match message.member("content"@) {
        Some(c) => c,
        None => Json::Null,
    }
}

/// The message that a record holds, if it holds one.
pub open spec fn message_of(data: Json) -> Option<MessageView> {
    let kind = data.member_text("type"@);
    if !is_chat_type(kind) {
        None
    } else {
        match data.member("message"@) {
            None => None,
            Some(message) => {
                let blocks = blocks_of(content_of(message));
                Some(
                    MessageView {
                        uuid: data.member_text("uuid"@),
                        timestamp: data.member_text("timestamp"@),
                        msg_type: kind->0,
                        role: match message.member_text("role"@) {
                            Some(r) => r,
                            None => kind->0,
                        },
                        content_blocks: blocks,
                        is_real_user: kind == Some("user"@) && !has_tool_result(blocks),
                    },
                )
            },
        }
    }
}

/// The element is an object of type `tool_result`.
pub open spec fn is_tool_result(item: Json) -> bool {
    item.member_text("type"@) == Some("tool_result"@)
}

/// One of the elements is an object of type `tool_result`.
pub open spec fn any_is_tool_result(items: Seq<Json>) -> bool {
    exists|i: int| 0 <= i < items.len() && is_tool_result(#[trigger] items[i])
}

/// The record's content is an array that holds a tool's result.
pub open spec fn echoes_tool_result(data: Json) -> bool {
    match data.member("message"@) {
        Some(message) => match message.member("content"@) {
            Some(content) => match content.items() {
                Some(items) => any_is_tool_result(items),
                None => false,
            },
            None => false,
        },
        None => false,
    }
}

/// What a record says about its session when the session is only listed.
pub open spec fn facts_of(data: Json) -> LineFactsView {
    let kind = data.member_text("type"@);
    LineFactsView {
        cwd: data.member_text("cwd"@),
        timestamp: data.member_text("timestamp"@),
        is_message: is_chat_type(kind),
        is_real_user: kind == Some("user"@) && !echoes_tool_result(data),
    }
}

/// The line records an interruption.
pub open spec fn is_interruption(line: Seq<u8>) -> bool {
    is_infix(encode_utf8(INTERRUPT_MARKER@), line)
}

/// What a line says about its session when the session is only listed: an
/// interruption and a line that does not parse say nothing.
pub open spec fn listed_line(line: Seq<u8>) -> Option<LineFactsView> {
    if is_interruption(line) {
        None
    } else {
        match line_json(line) {
            Some(data) => Some(facts_of(data)),
            None => None,
        }
    }
}

pub open spec fn listing_reader() -> spec_fn(Seq<u8>) -> Option<LineFactsView> {
    |line: Seq<u8>| listed_line(line)
}

/// The record of a log file, if the file is a session worth listing.
pub open spec fn session_info_of(file: LogFileView) -> Option<SessionInfoView> {
    listing_of(
        file,
        stem_or_unknown(file.stem),
        tally_of(log_lines(file.content), listing_reader()),
    )
}

/// What a record says about its session when the session is loaded in full.
pub open spec fn loaded_facts_of(data: Json) -> LineFactsView {
    LineFactsView {
        cwd: data.member_text("cwd"@),
        timestamp: data.member_text("timestamp"@),
        is_message: message_of(data) is Some,
        is_real_user: message_of(data) is Some && message_of(data)->0.is_real_user,
    }
}

pub open spec fn loaded_line(line: Seq<u8>) -> Option<LineFactsView> {
    match line_json(line) {
        Some(data) => Some(loaded_facts_of(data)),
        None => None,
    }
}

pub open spec fn loading_reader() -> spec_fn(Seq<u8>) -> Option<LineFactsView> {
    |line: Seq<u8>| loaded_line(line)
}

/// The message on a line.
pub open spec fn line_message(line: Seq<u8>) -> Option<MessageView> {
    match line_json(line) {
        Some(data) => message_of(data),
        None => None,
    }
}

pub open spec fn message_picker() -> spec_fn(Seq<u8>) -> Option<MessageView> {
    |line: Seq<u8>| line_message(line)
}

/// The messages of a log, in order.
pub open spec fn messages_of(content: Seq<u8>) -> Seq<MessageView> {
    select(log_lines(content), message_picker())
}

/// The session that a log file holds; none where it holds no message.
pub open spec fn session_of(file: LogFileView) -> Option<SessionView> {
    let tally = tally_of(log_lines(file.content), loading_reader());
    let messages = messages_of(file.content);
    if messages.len() == 0 {
        None
    } else {
        Some(
            SessionView {
                info: SessionInfoView {
                    id: stem_or_unknown(file.stem),
                    file_path: file.path,
                    cwd: tally.cwd,
                    first_timestamp: tally.first_timestamp,
                    last_timestamp: tally.last_timestamp,
                    message_count: messages.len() as usize,
                    user_turn_count: tally.user_turn_count as usize,
                    file_size: file.content.len() as u64,
                },
                messages,
            },
        )
    }
}

/// The session id of a log file.
pub fn session_id(file: &LogFile) -> (id: String)
    ensures
        id@ == stem_or_unknown(file@.stem),
{
    match &file.stem {
        Some(s) => s.clone(),
        None => "unknown".to_owned(),
    }
}

/// The block that one element of a content array stands for.
pub fn parse_block(item: &Json) -> (r: Option<ContentBlock>)
    ensures
        match r {
            Some(b) => block_of(*item) == Some(b@),
            None => block_of(*item) is None,
        },
{
    match item {
        Json::Object(_) => {
            let block_type = match item.get_str("type") {
                Some(t) => t.to_owned(),
                None => "unknown".to_owned(),
            };
            let tool_input = match item.get("input") {
                Some(input) => Some(render_json(input)),
                None => None,
            };
            Some(
                ContentBlock {
                    block_type,
                    text: owned_opt(item.get_str("text")),
                    tool_name: owned_opt(item.get_str("name")),
                    tool_input,
                },
            )
        },
        _ => None,
    }
}

/// The blocks of a message's content.
pub fn parse_content_blocks(content: &Json) -> (blocks: Vec<ContentBlock>)
    ensures
        views(blocks@) == blocks_of(*content),
{
    let mut blocks: Vec<ContentBlock> = Vec::new();
    match content {
        Json::Str(s) => {
            blocks.push(ContentBlock::of_text(s.clone()));
            proof {
                assert(views(blocks@) =~= seq![text_block(s@)]);
            }
        },
        Json::Array(items) => {
            let ghost pick = block_picker();
            let mut k: usize = 0;
            proof {
                assert(items@.take(0) =~= Seq::<Json>::empty());
                assert(views(blocks@) =~= select(items@.take(0), pick));
            }
            while k < items.len()
                invariant
                    k <= items.len(),
                    pick == block_picker(),
                    views(blocks@) == select(items@.take(k as int), pick),
                decreases items.len() - k,
            {
                proof {
                    lemma_select_step(items@, pick, k as int);
                }
                match parse_block(&items[k]) {
                    Some(block) => {
                        proof {
                            assert(views(blocks@.push(block)) =~= views(blocks@).push(block@));
                        }
                        blocks.push(block);
                    },
                    None => {},
                }
                k += 1;
            }
            proof {
                assert(items@.take(k as int) =~= items@);
            }
        },
        _ => {
            proof {
                assert(views(blocks@) =~= Seq::<ContentBlockView>::empty());
            }
        },
    }
    blocks
}

/// Is one of the blocks a tool's result?
pub fn any_tool_result(blocks: &Vec<ContentBlock>) -> (r: bool)
    ensures
        r == has_tool_result(views(blocks@)),
{
    let ghost all = views(blocks@);
    let mut k: usize = 0;
    while k < blocks.len()
        invariant
            k <= blocks.len(),
            all == views(blocks@),
            forall|i: int| 0 <= i < k ==> (#[trigger] all[i]).block_type != "tool_result"@,
        decreases blocks.len() - k,
    {
        if str_eq(blocks[k].block_type.as_str(), "tool_result") {
            proof {
                assert(all[k as int].block_type == "tool_result"@);
            }
            return true;
        }
        k += 1;
    }
    false
}

/// The message that a record holds, if it holds one.
pub fn parse_message(data: &Json) -> (r: Option<Message>)
    ensures
        match r {
            Some(m) => message_of(*data) == Some(m@),
            None => message_of(*data) is None,
        },
{
    let kind = data.get_str("type");
    let is_user = kind_is(kind, "user");
    if !is_user && !kind_is(kind, "assistant") {
        return None;
    }
    let msg_type = match kind {
        Some(k) => k,
        None => {
            return None;
        },
    };
    let message = match data.get("message") {
        Some(m) => m,
        None => {
            return None;
        },
    };
    let content_blocks = match message.get("content") {
        Some(c) => parse_content_blocks(c),
        None => parse_content_blocks(&Json::Null),
    };
    let role = match message.get_str("role") {
        Some(r) => r.to_owned(),
        None => msg_type.to_owned(),
    };
    let is_real_user = is_user && !any_tool_result(&content_blocks);
    Some(
        Message {
            uuid: owned_opt(data.get_str("uuid")),
            timestamp: owned_opt(data.get_str("timestamp")),
            msg_type: msg_type.to_owned(),
            role,
            content_blocks,
            is_real_user,
        },
    )
}

/// Is one of the elements an object of type `tool_result`?
pub fn holds_tool_result(items: &Vec<Json>) -> (r: bool)
    ensures
        r == any_is_tool_result(items@),
{
    let mut k: usize = 0;
    while k < items.len()
        invariant
            k <= items.len(),
            forall|i: int| 0 <= i < k ==> !is_tool_result(#[trigger] items@[i]),
        decreases items.len() - k,
    {
        if kind_is(items[k].get_str("type"), "tool_result") {
            proof {
                assert(is_tool_result(items@[k as int]));
            }
            return true;
        }
        k += 1;
    }
    false
}

/// Does the record only echo a tool's result?
pub fn is_tool_echo(data: &Json) -> (r: bool)
    ensures
        r == echoes_tool_result(*data),
{
    match data.get("message") {
        Some(message) => match message.get("content") {
            Some(content) => match content.as_array() {
                Some(items) => holds_tool_result(items),
                None => false,
            },
            None => false,
        },
        None => false,
    }
}

/// What a record says about its session when the session is only listed.
pub fn read_facts(data: &Json) -> (facts: LineFacts)
    ensures
        facts@ == facts_of(*data),
{
    let kind = data.get_str("type");
    let is_user = kind_is(kind, "user");
    let is_message = is_user || kind_is(kind, "assistant");
    let is_real_user = is_user && !is_tool_echo(data);
    LineFacts {
        cwd: owned_opt(data.get_str("cwd")),
        timestamp: owned_opt(data.get_str("timestamp")),
        is_message,
        is_real_user,
    }
}

/// What a line says about its session when the session is only listed.
pub fn read_listed_line(line: &[u8]) -> (r: Option<LineFacts>)
    ensures
        match r {
            Some(facts) => listed_line(line@) == Some(facts@),
            None => listed_line(line@) is None,
        },
{
    if contains_bytes(line, INTERRUPT_MARKER.as_bytes()) {
        return None;
    }
    match read_line(line) {
        Some(data) => Some(read_facts(&data)),
        None => None,
    }
}

/// The record of a log file, if the file is a session worth listing: it is
/// not empty and holds a message, a timestamp and a message that the user
/// wrote.
pub fn parse_session_info(file: &LogFile) -> (r: Option<SessionInfo>)
    ensures
        match r {
            Some(info) => session_info_of(file@) == Some(info@) && info@.is_of_a_session()
                && file.content.len() > 0,
            None => session_info_of(file@) is None,
        },
{
    if file.content.len() == 0 {
        return None;
    }
    let lines = split_lines(file.content.as_slice());
    let ghost all = log_lines(file.content@);
    let ghost read = listing_reader();
    let mut tally = Tally::new();
    let mut k: usize = 0;
    proof {
        assert(all.take(0) =~= Seq::<Seq<u8>>::empty());
    }
    while k < lines.len()
        invariant
            k <= lines.len(),
            all == slice_views(lines@),
            read == listing_reader(),
            tally@ == tally_of(all.take(k as int), read),
            tally.message_count <= k,
            tally.user_turn_count <= tally.message_count,
        decreases lines.len() - k,
    {
        proof {
            lemma_tally_step(all, read, k as int);
            assert(all[k as int] == lines@[k as int]@);
        }
        match read_listed_line(lines[k]) {
            Some(facts) => {
                tally.note(facts);
            },
            None => {},
        }
        k += 1;
    }
    proof {
        assert(all.take(k as int) =~= all);
    }
    tally.into_listing(file, session_id(file))
}

/// The session that a log file holds, with all its messages; none where the
/// file holds no message.
pub fn parse_session_file(file: &LogFile) -> (r: Option<Session>)
    ensures
        match r {
            Some(session) => session_of(file@) == Some(session@),
            None => session_of(file@) is None,
        },
{
    let lines = split_lines(file.content.as_slice());
    let ghost all = log_lines(file.content@);
    let ghost read = loading_reader();
    let ghost pick = message_picker();
    let mut tally = Tally::new();
    let mut messages: Vec<Message> = Vec::new();
    let mut k: usize = 0;
    proof {
        assert(all.take(0) =~= Seq::<Seq<u8>>::empty());
        assert(views(messages@) =~= select(all.take(0), pick));
    }
    while k < lines.len()
        invariant
            k <= lines.len(),
            all == slice_views(lines@),
            read == loading_reader(),
            pick == message_picker(),
            tally@ == tally_of(all.take(k as int), read),
            views(messages@) == select(all.take(k as int), pick),
            tally.message_count <= k,
            tally.message_count == messages.len(),
            tally.user_turn_count <= tally.message_count,
        decreases lines.len() - k,
    {
        proof {
            lemma_tally_step(all, read, k as int);
            lemma_select_step(all, pick, k as int);
            assert(all[k as int] == lines@[k as int]@);
        }
        match read_line(lines[k]) {
            Some(data) => {
                let message = parse_message(&data);
                let facts = LineFacts {
                    cwd: owned_opt(data.get_str("cwd")),
                    timestamp: owned_opt(data.get_str("timestamp")),
                    is_message: message.is_some(),
                    is_real_user: match &message {
                        Some(m) => m.is_real_user,
                        None => false,
                    },
                };
                tally.note(facts);
                match message {
                    Some(m) => {
                        proof {
                            assert(views(messages@.push(m)) =~= views(messages@).push(m@));
                        }
                        messages.push(m);
                    },
                    None => {},
                }
            },
            None => {},
        }
        k += 1;
    }
    proof {
        assert(all.take(k as int) =~= all);
    }
    if messages.len() == 0 {
        return None;
    }
    let info = SessionInfo {
        id: session_id(file),
        file_path: file.path.clone(),
        cwd: tally.cwd,
        first_timestamp: tally.first_timestamp,
        last_timestamp: tally.last_timestamp,
        message_count: messages.len(),
        user_turn_count: tally.user_turn_count,
        file_size: file.content.len() as u64,
    };
    Some(Session { info, messages })
}

/// Every record has a message, a message that the user wrote and a
/// timestamp, and comes from a file that is not empty.
pub proof fn lemma_record_is_of_a_session(file: LogFileView)
    requires
        file.content.len() <= usize::MAX,
    ensures
        match session_info_of(file) {
            Some(record) => record.is_of_a_session(),
            None => true,
        },
{
    let lines = log_lines(file.content);
    crate::lines::lemma_line_count(file.content);
    crate::scan::lemma_tally_bounds(lines, listing_reader());
    crate::scan::lemma_listing_is_listable(
        file,
        stem_or_unknown(file.stem),
        tally_of(lines, listing_reader()),
    );
}

/// A file without a byte is no session.
pub proof fn lemma_empty_file_is_not_listed(file: LogFileView)
    requires
        file.content.len() == 0,
    ensures
        session_info_of(file) is None,
        listed_session(file) is None,
{
}

/// A file in which no message was written by the user is no session: a
/// file whose `user` records all echo a tool's result is never listed.
pub proof fn lemma_no_user_turn_is_not_listed(file: LogFileView)
    requires
        forall|i: int|
            0 <= i < log_lines(file.content).len() ==> match listed_line(
                #[trigger] log_lines(file.content)[i],
            ) {
                Some(facts) => !(facts.is_message && facts.is_real_user),
                None => true,
            },
    ensures
        session_info_of(file) is None,
        listed_session(file) is None,
{
    crate::scan::lemma_no_user_line_no_turn(log_lines(file.content), listing_reader());
}

/// A record of type `user` whose content holds a tool's result is not a
/// message that the user wrote.
pub proof fn lemma_tool_echo_is_no_user_turn(data: Json)
    requires
        echoes_tool_result(data),
    ensures
        !facts_of(data).is_real_user,
{
}

/// The name of a sub-task's log begins with this.
pub const SUBTASK_PREFIX: &'static str = "agent-";

/// The log belongs to a sub-task, not to a session.
pub open spec fn is_subtask(name: Seq<char>) -> bool {
    is_prefix(encode_utf8(SUBTASK_PREFIX@), encode_utf8(name))
}

/// What a log says about its project's working directory, read only as far
/// as the first line that mentions one: the directory that this line names,
/// if it names one. The search also ends, without an answer, at a line that
/// is not text and at a line that does not parse. `None` where no line of
/// the log ends the search.
pub open spec fn cwd_probe(lines: Seq<Seq<u8>>) -> Option<Option<Seq<char>>>
    decreases lines.len(),
{
    if lines.len() == 0 {
        None
    } else {
        match text_of_bytes(lines[0]) {
            None => Some(None),
            Some(text) => if mentions_cwd(lines[0]) {
                match parsed_json(text) {
                    None => Some(None),
                    Some(data) => Some(data.member_text("cwd"@)),
                }
            } else {
                cwd_probe(lines.drop_first())
            },
        }
    }
}

/// The working directory of a project: what the first of its logs that
/// ends the search says.
pub open spec fn project_cwd(files: Seq<LogFileView>) -> Option<Seq<char>>
    decreases files.len(),
{
    if files.len() == 0 {
        None
    } else {
        match cwd_probe(log_lines(files[0].content)) {
            Some(answer) => answer,
            None => project_cwd(files.drop_first()),
        }
    }
}

/// The project that a directory of logs is.
pub open spec fn project_of(dir: LogDirView) -> ProjectView {
    ProjectView {
        id: dir.name,
        cwd: project_cwd(logs(dir.files)),
        last_modified: dir.modified,
        session_count: logs(dir.files).len() as usize,
        last_activity: None,
    }
}

/// The projects of a store: one for each directory.
pub open spec fn dir_projects(dirs: Seq<LogDirView>) -> Seq<ProjectView> {
    dirs.map_values(|dir: LogDirView| project_of(dir))
}

/// The record of a log file as a project's listing shows it: no sub-task,
/// and only a session with more than one message that the user wrote.
pub open spec fn listed_session(file: LogFileView) -> Option<SessionInfoView> {
    if is_subtask(file.name) {
        None
    } else {
        match session_info_of(file) {
            Some(record) => if record.user_turn_count > 1 {
                Some(record)
            } else {
                None
            },
            None => None,
        }
    }
}

pub open spec fn listed_picker() -> spec_fn(LogFileView) -> Option<SessionInfoView> {
    |file: LogFileView| listed_session(file)
}

pub open spec fn info_reader() -> spec_fn(LogFileView) -> Option<SessionInfoView> {
    |file: LogFileView| session_info_of(file)
}

/// The directories of the given name.
pub open spec fn dir_named(name: Seq<char>) -> spec_fn(LogDirView) -> bool {
    |dir: LogDirView| dir.name == name
}

/// The sessions of a project that its listing shows, in the order of their
/// files; none where the store has no directory of that name.
pub open spec fn project_sessions(dirs: Seq<LogDirView>, project_id: Seq<char>) -> Seq<
    SessionInfoView,
> {
    match first_index(dirs, dir_named(project_id)) {
        Some(i) => select(logs(dirs[i].files), listed_picker()),
        None => Seq::empty(),
    }
}

/// What one log says about its project's working directory.
pub fn probe_cwd(file: &LogFile) -> (r: Option<Option<String>>)
    ensures
        match r {
            Some(answer) => cwd_probe(log_lines(file@.content)) == Some(opt_text(answer)),
            None => cwd_probe(log_lines(file@.content)) is None,
        },
{
    let lines = split_lines(file.content.as_slice());
    let ghost all = log_lines(file.content@);
    let mut k: usize = 0;
    proof {
        assert(all.skip(0) =~= all);
    }
    while k < lines.len()
        invariant
            k <= lines.len(),
            all == slice_views(lines@),
            all == log_lines(file@.content),
            cwd_probe(all) == cwd_probe(all.skip(k as int)),
        decreases lines.len() - k,
    {
        proof {
            let rest = all.skip(k as int);
            assert(rest[0] == lines@[k as int]@);
            assert(rest.drop_first() =~= all.skip(k + 1));
        }
        let line = lines[k];
        let text = match decode_text(line) {
            Some(t) => t,
            None => {
                return Some(None);
            },
        };
        if contains_bytes(line, CWD_MARKER.as_bytes()) {
            return match parse_json(text) {
                Some(data) => Some(owned_opt(data.get_str("cwd"))),
                None => Some(None),
            };
        }
        k += 1;
    }
    None
}

/// The working directory of a project, found without reading its logs in
/// full.
pub fn get_project_cwd(files: &Vec<&LogFile>) -> (r: Option<String>)
    ensures
        opt_text(r) == project_cwd(views(files@)),
{
    let ghost all = views(files@);
    let mut k: usize = 0;
    proof {
        assert(all.skip(0) =~= all);
    }
    while k < files.len()
        invariant
            k <= files.len(),
            all == views(files@),
            project_cwd(all) == project_cwd(all.skip(k as int)),
        decreases files.len() - k,
    {
        proof {
            let rest = all.skip(k as int);
            assert(rest[0] == files@[k as int]@);
            assert(rest.drop_first() =~= all.skip(k + 1));
        }
        match probe_cwd(files[k]) {
            Some(answer) => {
                return answer;
            },
            None => {},
        }
        k += 1;
    }
    None
}

/// The project that a directory of logs is.
pub fn project_of_dir(dir: &LogDir) -> (project: Project)
    ensures
        project@ == project_of(dir@),
{
    let files = logs_of(&dir.files);
    Project {
        id: dir.name.clone(),
        cwd: get_project_cwd(&files),
        last_modified: dir.modified,
        session_count: files.len(),
        last_activity: None,
    }
}

/// The record of a log file as a project's listing shows it.
pub fn listed_session_of(file: &LogFile) -> (r: Option<SessionInfo>)
    ensures
        match r {
            Some(record) => listed_session(file@) == Some(record@) && record@.is_of_a_session(),
            None => listed_session(file@) is None,
        },
{
    if starts_with_bytes(file.name.as_str().as_bytes(), SUBTASK_PREFIX.as_bytes()) {
        return None;
    }
    match parse_session_info(file) {
        Some(record) => if record.user_turn_count > 1 {
            Some(record)
        } else {
            None
        },
        None => None,
    }
}

/// A source of block logs: one directory of logs for each project.
#[derive(Clone, Debug, PartialEq, Eq)]
pub struct ClaudeProvider {
    cli_type: String,
    base_dir: String,
}

impl ClaudeProvider {
    /// A source with the given tag whose logs are kept under `base_dir`.
    pub fn new(cli_type: &str, base_dir: &str) -> (provider: Self)
        ensures
            provider.tag() == cli_type@,
            provider.root() == base_dir@,
    {
        ClaudeProvider { cli_type: cli_type.to_owned(), base_dir: base_dir.to_owned() }
    }

    /// Where the directory of the given name stands in the store.
    fn find_dir(store: &LogStore, name: &str) -> (r: Option<usize>)
        ensures
            match r {
                Some(i) => first_index(store@, dir_named(name@)) == Some(i as int) && i
                    < store.dirs.len(),
                None => first_index(store@, dir_named(name@)) is None,
            },
    {
        let ghost dirs = store@;
        let mut k: usize = 0;
        while k < store.dirs.len()
            invariant
                k <= store.dirs.len(),
                dirs == views(store.dirs@),
                forall|j: int| 0 <= j < k ==> !dir_named(name@)(#[trigger] dirs[j]),
            decreases store.dirs.len() - k,
        {
            if str_eq(store.dirs[k].name.as_str(), name) {
                proof {
                    assert(dir_named(name@)(dirs[k as int]));
                    lemma_first_index_is(dirs, dir_named(name@), k as int);
                }
                return Some(k);
            }
            k += 1;
        }
        proof {
            lemma_first_index_none(dirs, dir_named(name@));
        }
        None
    }
}

impl CliHistoryProvider for ClaudeProvider {
    closed spec fn tag(&self) -> Seq<char> {
        self.cli_type@
    }

    closed spec fn root(&self) -> Seq<char> {
        self.base_dir@
    }

    open spec fn info(&self) -> spec_fn(LogFileView) -> Option<SessionInfoView> {
        info_reader()
    }

    open spec fn session(&self, file: LogFileView) -> Option<SessionView> {
        session_of(file)
    }

    open spec fn projects(&self, store: Seq<LogDirView>) -> Seq<ProjectView> {
        dir_projects(store)
    }

    open spec fn sessions(&self, store: Seq<LogDirView>, project_id: Seq<char>) -> Seq<
        SessionInfoView,
    > {
        project_sessions(store, project_id)
    }

    open spec fn trashed(
        &self,
        dir_name: Seq<char>,
        file: LogFileView,
        sidecar: Option<Seq<char>>,
        now: u64,
    ) -> TrashItemView {
        crate::trash::trashed(stem_or_unknown(file.stem), dir_name, file.path, sidecar, now)
    }

    fn cli_type(&self) -> (r: &str) {
        self.cli_type.as_str()
    }

    fn base_dir(&self) -> (r: &str) {
        self.base_dir.as_str()
    }

    fn session_info(&self, file: &LogFile) -> (r: Option<SessionInfo>) {
        parse_session_info(file)
    }

    fn list_projects(&self, store: &LogStore, limit: usize) -> (r: Vec<Project>) {
        let ghost dirs = store@;
        let mut projects: Vec<Project> = Vec::new();
        let mut k: usize = 0;
        proof {
            assert(views(projects@) =~= dir_projects(dirs.take(0)));
        }
        while k < store.dirs.len()
            invariant
                k <= store.dirs.len(),
                dirs == views(store.dirs@),
                views(projects@) == dir_projects(dirs.take(k as int)),
            decreases store.dirs.len() - k,
        {
            let project = project_of_dir(&store.dirs[k]);
            proof {
                assert(views(projects@.push(project)) =~= views(projects@).push(project@));
                assert(dir_projects(dirs.take(k + 1)) =~= dir_projects(dirs.take(k as int)).push(
                    project_of(dirs[k as int]),
                ));
            }
            projects.push(project);
            k += 1;
        }
        proof {
            assert(dirs.take(k as int) =~= dirs);
        }
        top_projects(projects, limit)
    }

    fn find_project_by_cwd(&self, store: &LogStore, cwd: &str) -> (r: Option<Project>) {
        let all = self.list_projects(store, 0);
        let r = find_by_cwd(all, cwd);
        proof {
            assert(lists_projects(all@, self.projects(store@), 0));
        }
        r
    }

    fn load_project(&self, store: &LogStore, project_id: &str) -> (r: Vec<SessionInfo>) {
        let ghost pick = listed_picker();
        let mut found: Vec<SessionInfo> = Vec::new();
        match ClaudeProvider::find_dir(store, project_id) {
            Some(d) => {
                let dir = &store.dirs[d];
                let kept = logs_of(&dir.files);
                let ghost files = views(kept@);
                let mut k: usize = 0;
                proof {
                    assert(store@[d as int].files == views(dir.files@));
                    assert(files.take(0) =~= Seq::<LogFileView>::empty());
                    assert(views(found@) =~= select(files.take(0), pick));
                }
                while k < kept.len()
                    invariant
                        k <= kept.len(),
                        files == views(kept@),
                        pick == listed_picker(),
                        views(found@) == select(files.take(k as int), pick),
                        forall|i: int| 0 <= i < found.len() ==> (#[trigger] found[i])@.is_of_a_session(),
                    decreases kept.len() - k,
                {
                    proof {
                        lemma_select_step(files, pick, k as int);
                    }
                    match listed_session_of(kept[k]) {
                        Some(record) => {
                            proof {
                                assert(views(found@.push(record)) =~= views(found@).push(record@));
                            }
                            found.push(record);
                        },
                        None => {},
                    }
                    k += 1;
                }
                proof {
                    assert(files.take(k as int) =~= files);
                }
            },
            None => {
                proof {
                    assert(views(found@) =~= Seq::<SessionInfoView>::empty());
                }
            },
        }
        let ghost hits = found@;
        let r = rank_sessions(found);
        proof {
            assert forall|i: int| 0 <= i < r.len() implies (#[trigger] r[i])@.is_of_a_session() by {
                lemma_ranked_elements(r@, hits, i);
            }
        }
        r
    }

    fn load_session(&self, file: &LogFile) -> (r: Option<Session>) {
        parse_session_file(file)
    }

    fn load_session_paginated(&self, file: &LogFile, first_turns: usize, last_turns: usize) -> (r:
        Option<PaginatedMessages>) {
        match parse_session_file(file) {
            Some(session) => {
                let Session { info: _, messages } = session;
                Some(paginate(messages, first_turns, last_turns))
            },
            None => None,
        }
    }

    fn search(&self, store: &LogStore, keyword: &str, limit: usize) -> (r: Vec<SessionInfo>) {
        search_files(LogFormat::Blocks, store, keyword, limit)
    }

    fn delete_session(
        &self,
        manifest: &mut TrashManifest,
        dir_name: &str,
        file: &LogFile,
        sidecar: Option<String>,
        now: u64,
    ) -> (item: TrashItem) {
        let item = new_trash_item(
            session_id(file),
            dir_name.to_owned(),
            file.path.clone(),
            sidecar,
            now,
        );
        let listed = clone_trash_item(&item);
        manifest.add(listed);
        item
    }
}

} // verus!
