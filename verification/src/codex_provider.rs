//! The event-log format: one JSON record per line, a message being either a
//! `response_item` whose payload is of type `message`, or an `event_msg`
//! whose payload is a `user_message` or an `agent_message`.
//!
//! The logs are not kept by project. A session belongs to the working
//! directory that its log names, and that directory, normalized, is the
//! project's id.

use vstd::prelude::*;
use crate::json::{parsed_json, Json};
use crate::listing::{
    find_by_cwd, lemma_ranked_elements, lists_projects, rank_sessions, store_logs, top_projects,
};
use crate::paginate::paginate;
use crate::provider::CliHistoryProvider;
use crate::search::{search_files, LogFormat};
use crate::trash::{clone_trash_item, new_trash_item};
use crate::lines::{log_lines, slice_views, split_lines};
use crate::scan::{
    lemma_tally_step, line_json, listing_of, mentions_cwd, read_line, stem_or_unknown, tally_of,
    LineFacts, LineFactsView, Tally, CWD_MARKER,
};
use crate::seqs::{
    first_index, lemma_first_index_is, lemma_first_index_none, lemma_select_step, select, views,
};
use crate::store::{all_logs, LogDirView, LogFile, LogFileView, LogStore};
use crate::text::{
    chars_of, contains_bytes, decode_text, kind_is, remove_all, replace_char,
    replace_in, str_eq, string_of, text_of_bytes, to_ascii_upper, ascii_upper, without_pattern,
};
use crate::types::{
    owned_opt, text_block, ContentBlock, ContentBlockView, Message, MessageView,
    PaginatedMessages, Project, ProjectView, Session, SessionInfo, SessionInfoView, SessionView,
    TrashItem, TrashItemView, TrashManifest,
};

verus! {

/// What a log file's name begins with before the session's id.
pub const SESSION_PREFIX: &'static str = "rollout-";

/// The string member `key` of a record's payload.
pub open spec fn payload_text(data: Json, key: Seq<char>) -> Option<Seq<char>> {
    match data.member("payload"@) {
        Some(payload) => payload.member_text(key),
        None => None,
    }
}

/// The text block of one element of a content array: an element with a
/// string member `text` is one.
pub open spec fn text_item(item: Json) -> Option<ContentBlockView> {
    match item.member_text("text"@) {
        Some(t) => Some(text_block(t)),
        None => None,
    }
}

pub open spec fn text_picker() -> spec_fn(Json) -> Option<ContentBlockView> {
    |item: Json| text_item(item)
}

/// The text blocks of a payload's content.
pub open spec fn text_blocks(content: Option<Json>) -> Seq<ContentBlockView> {
    match content {
        Some(Json::Array(items)) => select(items@, text_picker()),
        _ => Seq::empty(),
    }
}

/// The message of a `response_item` record with the given payload.
pub open spec fn response_message(data: Json, payload: Json) -> Option<MessageView> {
    if payload.member_text("type"@) == Some("message"@) {
        Some(
            MessageView {
                uuid: None,
                timestamp: data.member_text("timestamp"@),
                msg_type: "response_item"@,
                role: match payload.member_text("role"@) {
                    Some(r) => r,
                    None => "assistant"@,
                },
                content_blocks: text_blocks(payload.member("content"@)),
                is_real_user: false,
            },
        )
    } else {
        None
    }
}

/// The message of an `event_msg` record with the given payload.
pub open spec fn event_message(data: Json, payload: Json) -> Option<MessageView> {
    let event = payload.member_text("type"@);
    if event == Some("user_message"@) || event == Some("agent_message"@) {
        let from_user = event == Some("user_message"@);
        Some(
            MessageView {
                uuid: None,
                timestamp: data.member_text("timestamp"@),
                msg_type: event->0,
                role: if from_user {
                    "user"@
                } else {
                    "assistant"@
                },
                content_blocks: seq![
                    text_block(
                        match payload.member_text("message"@) {
                            Some(m) => m,
                            None => ""@,
                        },
                    ),
                ],
                is_real_user: from_user,
            },
        )
    } else {
        None
    }
}

/// The message that a record holds, if it holds one.
pub open spec fn message_of(data: Json) -> Option<MessageView> {
    let kind = data.member_text("type"@);
    match data.member("payload"@) {
        Some(payload) => if kind == Some("response_item"@) {
            response_message(data, payload)
        } else if kind == Some("event_msg"@) {
            event_message(data, payload)
        } else {
            None
        },
        None => None,
    }
}

/// What a record says about its session.
pub open spec fn facts_of(data: Json) -> LineFactsView {
    LineFactsView {
        cwd: payload_text(data, "cwd"@),
        timestamp: data.member_text("timestamp"@),
        is_message: message_of(data) is Some,
        is_real_user: message_of(data) is Some && message_of(data)->0.is_real_user,
    }
}

/// What a line says about its session; a line that does not parse says
/// nothing.
pub open spec fn read_facts_of(line: Seq<u8>) -> Option<LineFactsView> {
    match line_json(line) {
        Some(data) => Some(facts_of(data)),
        None => None,
    }
}

pub open spec fn info_reader() -> spec_fn(LogFileView) -> Option<SessionInfoView> {
    |file: LogFileView| session_info_of(file)
}

pub open spec fn facts_reader() -> spec_fn(Seq<u8>) -> Option<LineFactsView> {
    |line: Seq<u8>| read_facts_of(line)
}

/// The session id of a log file: its name without the extension and without
/// the prefix.
pub open spec fn session_id_of(file: LogFileView) -> Seq<char> {
    without_pattern(stem_or_unknown(file.stem), SESSION_PREFIX@)
}

/// The record of a log file, if the file is a session worth listing.
pub open spec fn session_info_of(file: LogFileView) -> Option<SessionInfoView> {
    listing_of(file, session_id_of(file), tally_of(log_lines(file.content), facts_reader()))
}

/// The message on a line.
pub open spec fn line_message(line: Seq<u8>) -> Option<MessageView> {
    match line_json(line) {
        Some(data) => message_of(data),
        None => None,
    }
}

pub open spec fn message_picker() -> spec_fn(Seq<u8>) -> Option<MessageView> {
    |line: Seq<u8>| line_message(line)
}

/// The messages of a log, in order.
pub open spec fn messages_of(content: Seq<u8>) -> Seq<MessageView> {
    select(log_lines(content), message_picker())
}

/// The session that a log file holds; none where it holds no message.
pub open spec fn session_of(file: LogFileView) -> Option<SessionView> {
    let tally = tally_of(log_lines(file.content), facts_reader());
    let messages = messages_of(file.content);
    if messages.len() == 0 {
        None
    } else {
        Some(
            SessionView {
                info: SessionInfoView {
                    id: session_id_of(file),
                    file_path: file.path,
                    cwd: tally.cwd,
                    first_timestamp: tally.first_timestamp,
                    last_timestamp: tally.last_timestamp,
                    message_count: messages.len() as usize,
                    user_turn_count: tally.user_turn_count as usize,
                    file_size: file.content.len() as u64,
                },
                messages,
            },
        )
    }
}

/// The working directory that a record names: its payload's, else its own.
pub open spec fn record_cwd(data: Json) -> Option<Seq<char>> {
    match payload_text(data, "cwd"@) {
        Some(c) => Some(c),
        None => data.member_text("cwd"@),
    }
}

/// The working directory of a log, found without reading it all: that of
/// the first line that names one. The search gives up at a line that is not
/// text, and at a line that mentions a working directory but does not
/// parse.
pub open spec fn cwd_hint(lines: Seq<Seq<u8>>) -> Option<Seq<char>>
    decreases lines.len(),
{
    if lines.len() == 0 {
        None
    } else {
        match text_of_bytes(lines[0]) {
            None => None,
            Some(text) => if mentions_cwd(lines[0]) {
                match parsed_json(text) {
                    None => None,
                    Some(data) => match record_cwd(data) {
                        Some(c) => Some(c),
                        None => cwd_hint(lines.drop_first()),
                    },
                }
            } else {
                cwd_hint(lines.drop_first())
            },
        }
    }
}

/// A path with backslashes for separators and an upper-case drive letter.
pub open spec fn normalized_path(path: Seq<char>) -> Seq<char> {
    let s = replace_char(path, '/', '\\');
    if s.len() >= 2 && s[1] == ':' {
        s.update(0, ascii_upper(s[0]))
    } else {
        s
    }
}

/// Normalizes a path: every separator becomes a backslash, and the letter
/// of a drive prefix is made upper case.
pub fn normalize_path(path: &str) -> (r: String)
    ensures
        r@ == normalized_path(path@),
{
    let mut chars = chars_of(path);
    replace_in(&mut chars, '/', '\\');
    if chars.len() >= 2 && chars[1] == ':' {
        let first = to_ascii_upper(chars[0]);
        chars[0] = first;
    }
    string_of(&chars)
}

/// The session id of a log file.
pub fn session_id(file: &LogFile) -> (id: String)
    ensures
        id@ == session_id_of(file@),
{
    match &file.stem {
        Some(s) => remove_all(s.as_str(), SESSION_PREFIX),
        None => remove_all("unknown", SESSION_PREFIX),
    }
}

/// The text block of one element of a content array.
pub fn parse_text_item(item: &Json) -> (r: Option<ContentBlock>)
    ensures
        match r {
            Some(b) => text_item(*item) == Some(b@),
            None => text_item(*item) is None,
        },
{
    match item.get_str("text") {
        Some(t) => Some(ContentBlock::of_text(t.to_owned())),
        None => None,
    }
}

/// The text blocks of a content array.
pub fn parse_text_items(items: &Vec<Json>) -> (blocks: Vec<ContentBlock>)
    ensures
        views(blocks@) == select(items@, text_picker()),
{
    let ghost pick = text_picker();
    let mut blocks: Vec<ContentBlock> = Vec::new();
    let mut k: usize = 0;
    proof {
        assert(items@.take(0) =~= Seq::<Json>::empty());
        assert(views(blocks@) =~= select(items@.take(0), pick));
    }
    while k < items.len()
        invariant
            k <= items.len(),
            pick == text_picker(),
            views(blocks@) == select(items@.take(k as int), pick),
        decreases items.len() - k,
    {
        proof {
            lemma_select_step(items@, pick, k as int);
        }
        match parse_text_item(&items[k]) {
            Some(block) => {
                proof {
                    assert(views(blocks@.push(block)) =~= views(blocks@).push(block@));
                }
                blocks.push(block);
            },
            None => {},
        }
        k += 1;
    }
    proof {
        assert(items@.take(k as int) =~= items@);
    }
    blocks
}

/// The text blocks of a payload's content.
pub fn parse_text_blocks(content: Option<&Json>) -> (blocks: Vec<ContentBlock>)
    ensures
        views(blocks@) == text_blocks(
            match content {
                Some(c) => Some(*c),
                None => None,
            },
        ),
{
    match content {
        Some(Json::Array(items)) => parse_text_items(items),
        _ => {
            let blocks: Vec<ContentBlock> = Vec::new();
            proof {
                assert(views(blocks@) =~= Seq::<ContentBlockView>::empty());
            }
            blocks
        },
    }
}

/// Whether a record holds a message, and if so, whether the user wrote it.
pub fn message_kind(data: &Json) -> (r: Option<bool>)
    ensures
        match r {
            Some(by_user) => message_of(*data) is Some && message_of(*data)->0.is_real_user == by_user,
            None => message_of(*data) is None,
        },
{
    let kind = data.get_str("type");
    let payload = match data.get("payload") {
        Some(p) => p,
        None => {
            return None;
        },
    };
    let inner = payload.get_str("type");
    if kind_is(kind, "response_item") {
        if kind_is(inner, "message") {
            Some(false)
        } else {
            None
        }
    } else if kind_is(kind, "event_msg") {
        if kind_is(inner, "user_message") {
            Some(true)
        } else if kind_is(inner, "agent_message") {
            Some(false)
        } else {
            None
        }
    } else {
        None
    }
}

/// The message that a record holds, if it holds one.
pub fn parse_codex_message(data: &Json) -> (r: Option<Message>)
    ensures
        match r {
            Some(m) => message_of(*data) == Some(m@),
            None => message_of(*data) is None,
        },
{
    let kind = data.get_str("type");
    let payload = match data.get("payload") {
        Some(p) => p,
        None => {
            return None;
        },
    };
    let inner = payload.get_str("type");
    if kind_is(kind, "response_item") {
        if !kind_is(inner, "message") {
            return None;
        }
        let role = match payload.get_str("role") {
            Some(r) => r.to_owned(),
            None => "assistant".to_owned(),
        };
        Some(
            Message {
                uuid: None,
                timestamp: owned_opt(data.get_str("timestamp")),
                msg_type: "response_item".to_owned(),
                role,
                content_blocks: parse_text_blocks(payload.get("content")),
                is_real_user: false,
            },
        )
    } else if kind_is(kind, "event_msg") {
        let from_user = kind_is(inner, "user_message");
        if !from_user && !kind_is(inner, "agent_message") {
            return None;
        }
        let event = match inner {
            Some(e) => e,
            None => {
                return None;
            },
        };
        let text = match payload.get_str("message") {
            Some(m) => m.to_owned(),
            None => "".to_owned(),
        };
        let mut content_blocks: Vec<ContentBlock> = Vec::new();
        let block = ContentBlock::of_text(text);
        proof {
            assert(views(content_blocks@.push(block)) =~= seq![block@]);
        }
        content_blocks.push(block);
        let role = if from_user {
            "user".to_owned()
        } else {
            "assistant".to_owned()
        };
        Some(
            Message {
                uuid: None,
                timestamp: owned_opt(data.get_str("timestamp")),
                msg_type: event.to_owned(),
                role,
                content_blocks,
                is_real_user: from_user,
            },
        )
    } else {
        None
    }
}

/// What a record says about its session.
pub fn read_facts(data: &Json) -> (facts: LineFacts)
    ensures
        facts@ == facts_of(*data),
{
    let kind = message_kind(data);
    let cwd = match data.get("payload") {
        Some(payload) => owned_opt(payload.get_str("cwd")),
        None => None,
    };
    LineFacts {
        cwd,
        timestamp: owned_opt(data.get_str("timestamp")),
        is_message: kind.is_some(),
        is_real_user: match kind {
            Some(by_user) => by_user,
            None => false,
        },
    }
}

/// The record of a log file, if the file is a session worth listing: it is
/// not empty and holds a message, a timestamp and a message that the user
/// wrote.
pub fn parse_session_info(file: &LogFile) -> (r: Option<SessionInfo>)
    ensures
        match r {
            Some(info) => session_info_of(file@) == Some(info@) && info@.is_of_a_session()
                && file.content.len() > 0,
            None => session_info_of(file@) is None,
        },
{
    if file.content.len() == 0 {
        return None;
    }
    let lines = split_lines(file.content.as_slice());
    let ghost all = log_lines(file.content@);
    let ghost read = facts_reader();
    let mut tally = Tally::new();
    let mut k: usize = 0;
    proof {
        assert(all.take(0) =~= Seq::<Seq<u8>>::empty());
    }
    while k < lines.len()
        invariant
            k <= lines.len(),
            all == slice_views(lines@),
            read == facts_reader(),
            tally@ == tally_of(all.take(k as int), read),
            tally.message_count <= k,
            tally.user_turn_count <= tally.message_count,
        decreases lines.len() - k,
    {
        proof {
            lemma_tally_step(all, read, k as int);
            assert(all[k as int] == lines@[k as int]@);
        }
        match read_line(lines[k]) {
            Some(data) => {
                tally.note(read_facts(&data));
            },
            None => {},
        }
        k += 1;
    }
    proof {
        assert(all.take(k as int) =~= all);
    }
    tally.into_listing(file, session_id(file))
}

/// The session that a log file holds, with all its messages; none where the
/// file holds no message.
pub fn parse_session_file(file: &LogFile) -> (r: Option<Session>)
    ensures
        match r {
            Some(session) => session_of(file@) == Some(session@),
            None => session_of(file@) is None,
        },
{
    let lines = split_lines(file.content.as_slice());
    let ghost all = log_lines(file.content@);
    let ghost read = facts_reader();
    let ghost pick = message_picker();
    let mut tally = Tally::new();
    let mut messages: Vec<Message> = Vec::new();
    let mut k: usize = 0;
    proof {
        assert(all.take(0) =~= Seq::<Seq<u8>>::empty());
        assert(views(messages@) =~= select(all.take(0), pick));
    }
    while k < lines.len()
        invariant
            k <= lines.len(),
            all == slice_views(lines@),
            read == facts_reader(),
            pick == message_picker(),
            tally@ == tally_of(all.take(k as int), read),
            views(messages@) == select(all.take(k as int), pick),
            tally.message_count <= k,
            tally.message_count == messages.len(),
            tally.user_turn_count <= tally.message_count,
        decreases lines.len() - k,
    {
        proof {
            lemma_tally_step(all, read, k as int);
            lemma_select_step(all, pick, k as int);
            assert(all[k as int] == lines@[k as int]@);
        }
        match read_line(lines[k]) {
            Some(data) => {
                tally.note(read_facts(&data));
                match parse_codex_message(&data) {
                    Some(m) => {
                        proof {
                            assert(views(messages@.push(m)) =~= views(messages@).push(m@));
                        }
                        messages.push(m);
                    },
                    None => {},
                }
            },
            None => {},
        }
        k += 1;
    }
    proof {
        assert(all.take(k as int) =~= all);
    }
    if messages.len() == 0 {
        return None;
    }
    let info = SessionInfo {
        id: session_id(file),
        file_path: file.path.clone(),
        cwd: tally.cwd,
        first_timestamp: tally.first_timestamp,
        last_timestamp: tally.last_timestamp,
        message_count: messages.len(),
        user_turn_count: tally.user_turn_count,
        file_size: file.content.len() as u64,
    };
    Some(Session { info, messages })
}

/// The working directory of a log, found without reading it all.
pub fn get_cwd_fast(file: &LogFile) -> (r: Option<String>)
    ensures
        match r {
            Some(c) => cwd_hint(log_lines(file@.content)) == Some(c@),
            None => cwd_hint(log_lines(file@.content)) is None,
        },
{
    let lines = split_lines(file.content.as_slice());
    let ghost all = log_lines(file.content@);
    let mut k: usize = 0;
    proof {
        assert(all.skip(0) =~= all);
    }
    while k < lines.len()
        invariant
            k <= lines.len(),
            all == slice_views(lines@),
            all == log_lines(file@.content),
            cwd_hint(all) == cwd_hint(all.skip(k as int)),
        decreases lines.len() - k,
    {
        proof {
            let rest = all.skip(k as int);
            assert(rest[0] == lines@[k as int]@);
            assert(rest.drop_first() =~= all.skip(k + 1));
        }
        let line = lines[k];
        let text = match decode_text(line) {
            Some(t) => t,
            None => {
                return None;
            },
        };
        if contains_bytes(line, CWD_MARKER.as_bytes()) {
            let data = match crate::json::parse_json(text) {
                Some(d) => d,
                None => {
                    return None;
                },
            };
            let found = match data.get("payload") {
                Some(payload) => payload.get_str("cwd"),
                None => None,
            };
            match found {
                Some(c) => {
                    return Some(c.to_owned());
                },
                None => {},
            }
            match data.get_str("cwd") {
                Some(c) => {
                    return Some(c.to_owned());
                },
                None => {},
            }
        }
        k += 1;
    }
    None
}

/// Every record has a message, a message that the user wrote and a
/// timestamp, and comes from a file that is not empty.
pub proof fn lemma_record_is_of_a_session(file: LogFileView)
    requires
        file.content.len() <= usize::MAX,
    ensures
        match session_info_of(file) {
            Some(record) => record.is_of_a_session(),
            None => true,
        },
{
    let lines = log_lines(file.content);
    crate::lines::lemma_line_count(file.content);
    crate::scan::lemma_tally_bounds(lines, facts_reader());
    crate::scan::lemma_listing_is_listable(
        file,
        session_id_of(file),
        tally_of(lines, facts_reader()),
    );
}

/// A file without a byte is no session.
pub proof fn lemma_empty_file_is_not_listed(file: LogFileView)
    requires
        file.content.len() == 0,
    ensures
        session_info_of(file) is None,
{
}

/// A file in which no message was written by the user is no session.
pub proof fn lemma_no_user_turn_is_not_listed(file: LogFileView)
    requires
        forall|i: int|
            0 <= i < log_lines(file.content).len() ==> match read_facts_of(
                #[trigger] log_lines(file.content)[i],
            ) {
                Some(facts) => !(facts.is_message && facts.is_real_user),
                None => true,
            },
    ensures
        session_info_of(file) is None,
{
    crate::scan::lemma_no_user_line_no_turn(log_lines(file.content), facts_reader());
}

/// What stands for the working directory of a log that names none.
pub const UNKNOWN_DIRECTORY: &'static str = "\u{672a}\u{77e5}\u{76ee}\u{5f55}";

/// The working directory that a log belongs to, as its log names it.
pub open spec fn cwd_or_unknown(file: LogFileView) -> Seq<char> {
    match cwd_hint(log_lines(file.content)) {
        Some(c) => c,
        None => UNKNOWN_DIRECTORY@,
    }
}

/// The id of the project that a log belongs to: its working directory,
/// normalized.
pub open spec fn project_key(file: LogFileView) -> Seq<char> {
    normalized_path(cwd_or_unknown(file))
}

/// The projects with the given id.
pub open spec fn with_id(id: Seq<char>) -> spec_fn(ProjectView) -> bool {
    |p: ProjectView| p.id == id
}

/// The project of a working directory whose newest log was modified at
/// `modified`.
pub open spec fn group_of(key: Seq<char>, modified: u64) -> ProjectView {
    ProjectView {
        id: key,
        cwd: Some(key),
        last_modified: modified,
        session_count: 0,
        last_activity: None,
    }
}

/// The projects after one more log, of the project `key` and modified at
/// `modified`, is taken in.
pub open spec fn merged(groups: Seq<ProjectView>, key: Seq<char>, modified: u64) -> Seq<
    ProjectView,
> {
    match first_index(groups, with_id(key)) {
        Some(i) => if modified > groups[i].last_modified {
            groups.update(i, group_of(key, modified))
        } else {
            groups
        },
        None => groups.push(group_of(key, modified)),
    }
}

/// The projects of the given logs: one for each working directory, with
/// the modification time of its newest log, in the order in which the
/// directories first occur.
pub open spec fn grouped(files: Seq<LogFileView>) -> Seq<ProjectView>
    decreases files.len(),
{
    if files.len() == 0 {
        Seq::empty()
    } else {
        merged(grouped(files.drop_last()), project_key(files.last()), files.last().modified)
    }
}

/// The record of a log file where the file belongs to the project with the
/// given id.
pub open spec fn session_at(key: Seq<char>) -> spec_fn(LogFileView) -> Option<SessionInfoView> {
    |file: LogFileView|
        match cwd_hint(log_lines(file.content)) {
            Some(c) => if normalized_path(c) == key {
                session_info_of(file)
            } else {
                None
            },
            None => None,
        }
}

/// The sessions of a project that are worth listing, in the order of their
/// files.
pub open spec fn project_sessions(dirs: Seq<LogDirView>, project_id: Seq<char>) -> Seq<
    SessionInfoView,
> {
    select(all_logs(dirs), session_at(normalized_path(project_id)))
}

/// The id of the project that a log belongs to.
pub fn project_key_of(file: &LogFile) -> (key: String)
    ensures
        key@ == project_key(file@),
{
    match get_cwd_fast(file) {
        Some(c) => normalize_path(c.as_str()),
        None => normalize_path(UNKNOWN_DIRECTORY),
    }
}

/// Takes one more log into the projects.
pub fn merge_group(groups: &mut Vec<Project>, key: String, modified: u64)
    ensures
        views(final(groups)@) == merged(views(old(groups)@), key@, modified),
{
    let ghost before = views(groups@);
    let mut k: usize = 0;
    while k < groups.len()
        invariant
            k <= groups.len(),
            groups@ == old(groups)@,
            before == views(groups@),
            forall|j: int| 0 <= j < k ==> !with_id(key@)(#[trigger] before[j]),
        decreases groups.len() - k,
    {
        if str_eq(groups[k].id.as_str(), key.as_str()) {
            proof {
                assert(with_id(key@)(before[k as int]));
                lemma_first_index_is(before, with_id(key@), k as int);
            }
            if modified > groups[k].last_modified {
                let project = Project {
                    id: key.clone(),
                    cwd: Some(key),
                    last_modified: modified,
                    session_count: 0,
                    last_activity: None,
                };
                let ghost view = project@;
                groups.remove(k);
                groups.insert(k, project);
                proof {
                    assert(views(groups@) =~= before.update(k as int, view));
                }
            }
            return ;
        }
        k += 1;
    }
    proof {
        lemma_first_index_none(before, with_id(key@));
    }
    let project = Project {
        id: key.clone(),
        cwd: Some(key),
        last_modified: modified,
        session_count: 0,
        last_activity: None,
    };
    proof {
        assert(views(groups@.push(project)) =~= before.push(project@));
    }
    groups.push(project);
}

/// The projects of a store: its logs grouped by working directory, last
/// modified first; with a limit above 0, only so many of them.
pub fn scan_sessions_by_cwd(store: &LogStore, limit: usize) -> (r: Vec<Project>)
    ensures
        lists_projects(r@, grouped(all_logs(store@)), limit),
{
    let files = store_logs(store);
    let ghost all = all_logs(store@);
    let mut groups: Vec<Project> = Vec::new();
    let mut k: usize = 0;
    proof {
        assert(all.take(0) =~= Seq::<LogFileView>::empty());
        assert(views(groups@) =~= grouped(all.take(0)));
    }
    while k < files.len()
        invariant
            k <= files.len(),
            all == views(files@),
            views(groups@) == grouped(all.take(k as int)),
        decreases files.len() - k,
    {
        proof {
            assert(all.take(k + 1).drop_last() =~= all.take(k as int));
            assert(all.take(k + 1).last() == files@[k as int]@);
        }
        let key = project_key_of(files[k]);
        merge_group(&mut groups, key, files[k].modified);
        k += 1;
    }
    proof {
        assert(all.take(k as int) =~= all);
    }
    top_projects(groups, limit)
}

/// The record of a log file where the file belongs to the given project.
pub fn session_at_cwd(file: &LogFile, project_key: &str) -> (r: Option<SessionInfo>)
    ensures
        match r {
            Some(record) => session_at(project_key@)(file@) == Some(record@)
                && record@.is_of_a_session(),
            None => session_at(project_key@)(file@) is None,
        },
{
    match get_cwd_fast(file) {
        Some(c) => {
            let own = normalize_path(c.as_str());
            if str_eq(own.as_str(), project_key) {
                parse_session_info(file)
            } else {
                None
            }
        },
        None => None,
    }
}

/// A source of event logs: all logs in one tree, each naming the working
/// directory that it belongs to.
#[derive(Clone, Debug, PartialEq, Eq)]
pub struct CodexProvider {
    cli_type: String,
    base_dir: String,
}

impl CodexProvider {
    /// A source with the given tag whose logs are kept under `base_dir`.
    pub fn new(cli_type: &str, base_dir: &str) -> (provider: Self)
        ensures
            provider.tag() == cli_type@,
            provider.root() == base_dir@,
    {
        CodexProvider { cli_type: cli_type.to_owned(), base_dir: base_dir.to_owned() }
    }
}

impl CliHistoryProvider for CodexProvider {
    closed spec fn tag(&self) -> Seq<char> {
        self.cli_type@
    }

    closed spec fn root(&self) -> Seq<char> {
        self.base_dir@
    }

    open spec fn info(&self) -> spec_fn(LogFileView) -> Option<SessionInfoView> {
        info_reader()
    }

    open spec fn session(&self, file: LogFileView) -> Option<SessionView> {
        session_of(file)
    }

    open spec fn projects(&self, store: Seq<LogDirView>) -> Seq<ProjectView> {
        grouped(all_logs(store))
    }

    open spec fn sessions(&self, store: Seq<LogDirView>, project_id: Seq<char>) -> Seq<
        SessionInfoView,
    > {
        project_sessions(store, project_id)
    }

    open spec fn trashed(
        &self,
        dir_name: Seq<char>,
        file: LogFileView,
        sidecar: Option<Seq<char>>,
        now: u64,
    ) -> TrashItemView {
        crate::trash::trashed(session_id_of(file), cwd_or_unknown(file), file.path, None, now)
    }

    fn cli_type(&self) -> (r: &str) {
        self.cli_type.as_str()
    }

    fn base_dir(&self) -> (r: &str) {
        self.base_dir.as_str()
    }

    fn session_info(&self, file: &LogFile) -> (r: Option<SessionInfo>) {
        parse_session_info(file)
    }

    fn list_projects(&self, store: &LogStore, limit: usize) -> (r: Vec<Project>) {
        scan_sessions_by_cwd(store, limit)
    }

    fn find_project_by_cwd(&self, store: &LogStore, cwd: &str) -> (r: Option<Project>) {
        let all = scan_sessions_by_cwd(store, 0);
        let r = find_by_cwd(all, cwd);
        proof {
            assert(lists_projects(all@, self.projects(store@), 0));
        }
        r
    }

    fn load_project(&self, store: &LogStore, project_id: &str) -> (r: Vec<SessionInfo>) {
        let key = normalize_path(project_id);
        let files = store_logs(store);
        let ghost all = all_logs(store@);
        let ghost pick = session_at(key@);
        let mut found: Vec<SessionInfo> = Vec::new();
        let mut k: usize = 0;
        proof {
            assert(all.take(0) =~= Seq::<LogFileView>::empty());
            assert(views(found@) =~= select(all.take(0), pick));
        }
        while k < files.len()
            invariant
                k <= files.len(),
                all == views(files@),
                pick == session_at(key@),
                views(found@) == select(all.take(k as int), pick),
                forall|i: int| 0 <= i < found.len() ==> (#[trigger] found[i])@.is_of_a_session(),
            decreases files.len() - k,
        {
            proof {
                lemma_select_step(all, pick, k as int);
                assert(all[k as int] == files@[k as int]@);
            }
            match session_at_cwd(files[k], key.as_str()) {
                Some(record) => {
                    proof {
                        assert(views(found@.push(record)) =~= views(found@).push(record@));
                    }
                    found.push(record);
                },
                None => {},
            }
            k += 1;
        }
        proof {
            assert(all.take(k as int) =~= all);
        }
        let ghost hits = found@;
        let r = rank_sessions(found);
        proof {
            assert forall|i: int| 0 <= i < r.len() implies (#[trigger] r[i])@.is_of_a_session() by {
                lemma_ranked_elements(r@, hits, i);
            }
        }
        r
    }

    fn load_session(&self, file: &LogFile) -> (r: Option<Session>) {
        parse_session_file(file)
    }

    fn load_session_paginated(&self, file: &LogFile, first_turns: usize, last_turns: usize) -> (r:
        Option<PaginatedMessages>) {
        match parse_session_file(file) {
            Some(session) => {
                let Session { info: _, messages } = session;
                Some(paginate(messages, first_turns, last_turns))
            },
            None => None,
        }
    }

    fn search(&self, store: &LogStore, keyword: &str, limit: usize) -> (r: Vec<SessionInfo>) {
        search_files(LogFormat::Events, store, keyword, limit)
    }

    fn delete_session(
        &self,
        manifest: &mut TrashManifest,
        dir_name: &str,
        file: &LogFile,
        sidecar: Option<String>,
        now: u64,
    ) -> (item: TrashItem) {
        let project_name = match get_cwd_fast(file) {
            Some(c) => c,
            None => UNKNOWN_DIRECTORY.to_owned(),
        };
        let item = new_trash_item(session_id(file), project_name, file.path.clone(), None, now);
        let listed = clone_trash_item(&item);
        manifest.add(listed);
        item
    }
}

} // verus!
