//! What both log formats share: a log is read line by line, each line that
//! parses adds to a tally, and the tally decides whether the file is a
//! session worth listing.

use vstd::prelude::*;
use crate::json::{parse_json, parsed_json, Json};
use crate::seqs::opt_text;
use crate::store::{LogFile, LogFileView};
use crate::text::{decode_text, is_infix, text_of_bytes};
use vstd::utf8::encode_utf8;
use crate::types::{SessionInfo, SessionInfoView};

verus! {

/// A line that names a working directory holds this text.
pub const CWD_MARKER: &'static str = "\"cwd\"";

/// The line holds the text that names a working directory.
pub open spec fn mentions_cwd(line: Seq<u8>) -> bool {
    is_infix(encode_utf8(CWD_MARKER@), line)
}

/// The JSON value on a line; nothing where the line is not text or not JSON.
pub open spec fn line_json(line: Seq<u8>) -> Option<Json> {
    match text_of_bytes(line) {
        Some(text) => parsed_json(text),
        None => None,
    }
}

/// Parses one line of a log.
pub fn read_line(line: &[u8]) -> (r: Option<Json>)
    ensures
        r == line_json(line@),
{
    match decode_text(line) {
        Some(text) => parse_json(text),
        None => None,
    }
}

/// What one record says about its session.
pub struct LineFacts {
    /// The working directory, where the record names one.
    pub cwd: Option<String>,
    /// The record's timestamp.
    pub timestamp: Option<String>,
    /// The record is a message.
    pub is_message: bool,
    /// The record is a message that the user wrote.
    pub is_real_user: bool,
}

pub struct LineFactsView {
    pub cwd: Option<Seq<char>>,
    pub timestamp: Option<Seq<char>>,
    pub is_message: bool,
    pub is_real_user: bool,
}

impl View for LineFacts {
    type V = LineFactsView;

    open spec fn view(&self) -> LineFactsView {
        LineFactsView {
            cwd: opt_text(self.cwd),
            timestamp: opt_text(self.timestamp),
            is_message: self.is_message,
            is_real_user: self.is_real_user,
        }
    }
}

/// The tally of a log read so far.
pub struct Tally {
    /// The first working directory that a record named.
    pub cwd: Option<String>,
    /// The first timestamp seen.
    pub first_timestamp: Option<String>,
    /// The last timestamp seen.
    pub last_timestamp: Option<String>,
    pub message_count: usize,
    pub user_turn_count: usize,
}

pub struct TallyView {
    pub cwd: Option<Seq<char>>,
    pub first_timestamp: Option<Seq<char>>,
    pub last_timestamp: Option<Seq<char>>,
    pub message_count: nat,
    pub user_turn_count: nat,
}

impl View for Tally {
    type V = TallyView;

    open spec fn view(&self) -> TallyView {
        TallyView {
            cwd: opt_text(self.cwd),
            first_timestamp: opt_text(self.first_timestamp),
            last_timestamp: opt_text(self.last_timestamp),
            message_count: self.message_count as nat,
            user_turn_count: self.user_turn_count as nat,
        }
    }
}

/// The tally before any line was read.
pub open spec fn empty_tally() -> TallyView {
    TallyView {
        cwd: None,
        first_timestamp: None,
        last_timestamp: None,
        message_count: 0,
        user_turn_count: 0,
    }
}

/// The tally after one more record.
pub open spec fn tallied(tally: TallyView, facts: LineFactsView) -> TallyView {
    TallyView {
        cwd: if tally.cwd is None {
            facts.cwd
        } else {
            tally.cwd
        },
        first_timestamp: if tally.first_timestamp is None {
            facts.timestamp
        } else {
            tally.first_timestamp
        },
        last_timestamp: if facts.timestamp is Some {
            facts.timestamp
        } else {
            tally.last_timestamp
        },
        message_count: if facts.is_message {
            tally.message_count + 1
        } else {
            tally.message_count
        },
        user_turn_count: if facts.is_message && facts.is_real_user {
            tally.user_turn_count + 1
        } else {
            tally.user_turn_count
        },
    }
}

/// The tally of the given lines, where `read` says what a line holds; a
/// line that it rejects counts for nothing.
pub open spec fn tally_of(
    lines: Seq<Seq<u8>>,
    read: spec_fn(Seq<u8>) -> Option<LineFactsView>,
) -> TallyView
    decreases lines.len(),
{
    if lines.len() == 0 {
        empty_tally()
    } else {
        let before = tally_of(lines.drop_last(), read);
        match read(lines.last()) {
            Some(facts) => tallied(before, facts),
            None => before,
        }
    }
}

/// `tally_of` over one more line.
pub proof fn lemma_tally_step(
    lines: Seq<Seq<u8>>,
    read: spec_fn(Seq<u8>) -> Option<LineFactsView>,
    k: int,
)
    requires
        0 <= k < lines.len(),
    ensures
        tally_of(lines.take(k + 1), read) == match read(lines[k]) {
            Some(facts) => tallied(tally_of(lines.take(k), read), facts),
            None => tally_of(lines.take(k), read),
        },
{
    assert(lines.take(k + 1).drop_last() =~= lines.take(k));
    assert(lines.take(k + 1).last() == lines[k]);
}

/// A tally holds at most one message per line, and no more user turns than
/// messages; it has a first timestamp exactly when it has a last one.
pub proof fn lemma_tally_bounds(lines: Seq<Seq<u8>>, read: spec_fn(Seq<u8>) -> Option<LineFactsView>)
    ensures
        tally_of(lines, read).user_turn_count <= tally_of(lines, read).message_count,
        tally_of(lines, read).message_count <= lines.len(),
        tally_of(lines, read).first_timestamp is Some <==> tally_of(lines, read).last_timestamp
            is Some,
    decreases lines.len(),
{
    if lines.len() > 0 {
        lemma_tally_bounds(lines.drop_last(), read);
    }
}

/// Where no line holds a message that the user wrote, the tally counts no
/// user turn.
pub proof fn lemma_no_user_line_no_turn(
    lines: Seq<Seq<u8>>,
    read: spec_fn(Seq<u8>) -> Option<LineFactsView>,
)
    requires
        forall|i: int|
            0 <= i < lines.len() ==> match read(#[trigger] lines[i]) {
                Some(facts) => !(facts.is_message && facts.is_real_user),
                None => true,
            },
    ensures
        tally_of(lines, read).user_turn_count == 0,
    decreases lines.len(),
{
    if lines.len() > 0 {
        assert forall|i: int| 0 <= i < lines.drop_last().len() implies match read(
            #[trigger] lines.drop_last()[i],
        ) {
            Some(facts) => !(facts.is_message && facts.is_real_user),
            None => true,
        } by {
            assert(lines.drop_last()[i] == lines[i]);
        }
        lemma_no_user_line_no_turn(lines.drop_last(), read);
        assert(lines.last() == lines[lines.len() - 1]);
    }
}

/// The session's id: the log file's name without extension.
pub open spec fn stem_or_unknown(stem: Option<Seq<char>>) -> Seq<char> {
    match stem {
        Some(s) => s,
        None => "unknown"@,
    }
}

/// The record that a tally makes of a file whose session id is `id`; none
/// where the file is empty, holds no message, no timestamp, or no message
/// that the user wrote.
pub open spec fn listing_of(file: LogFileView, id: Seq<char>, tally: TallyView) -> Option<
    SessionInfoView,
> {
    if file.content.len() == 0 || tally.message_count == 0 || (tally.first_timestamp is None
        && tally.last_timestamp is None) || tally.user_turn_count == 0 {
        None
    } else {
        Some(
            SessionInfoView {
                id,
                file_path: file.path,
                cwd: tally.cwd,
                first_timestamp: tally.first_timestamp,
                last_timestamp: tally.last_timestamp,
                message_count: tally.message_count as usize,
                user_turn_count: tally.user_turn_count as usize,
                file_size: file.content.len() as u64,
            },
        )
    }
}

impl Tally {
    /// A tally of nothing.
    pub fn new() -> (tally: Tally)
        ensures
            tally@ == empty_tally(),
    {
        Tally {
            cwd: None,
            first_timestamp: None,
            last_timestamp: None,
            message_count: 0,
            user_turn_count: 0,
        }
    }

    /// Adds one record to the tally.
    pub fn note(&mut self, facts: LineFacts)
        requires
            old(self).message_count < usize::MAX,
            old(self).user_turn_count <= old(self).message_count,
        ensures
            final(self)@ == tallied(old(self)@, facts@),
            final(self).user_turn_count <= final(self).message_count,
    {
        let LineFacts { cwd, timestamp, is_message, is_real_user } = facts;
        if self.cwd.is_none() {
            self.cwd = cwd;
        }
        match timestamp {
            Some(t) => {
                if self.first_timestamp.is_none() {
                    self.first_timestamp = Some(t.clone());
                }
                self.last_timestamp = Some(t);
            },
            None => {},
        }
        if is_message {
            self.message_count = self.message_count + 1;
            if is_real_user {
                self.user_turn_count = self.user_turn_count + 1;
            }
        }
    }

    /// The record of a file with this tally, if the file is a session worth
    /// listing.
    pub fn into_listing(self, file: &LogFile, id: String) -> (r: Option<SessionInfo>)
        ensures
            match r {
                Some(info) => listing_of(file@, id@, self@) == Some(info@),
                None => listing_of(file@, id@, self@) is None,
            },
    {
        if file.content.len() == 0 || self.message_count == 0 || (self.first_timestamp.is_none()
            && self.last_timestamp.is_none()) || self.user_turn_count == 0 {
            return None;
        }
        Some(
            SessionInfo {
                id,
                file_path: file.path.clone(),
                cwd: self.cwd,
                first_timestamp: self.first_timestamp,
                last_timestamp: self.last_timestamp,
                message_count: self.message_count,
                user_turn_count: self.user_turn_count,
                file_size: file.content.len() as u64,
            },
        )
    }
}

/// Every listed record has a message, a user turn and a timestamp, and comes
/// from a file that is not empty.
pub proof fn lemma_listing_is_listable(file: LogFileView, id: Seq<char>, tally: TallyView)
    requires
        tally.message_count <= usize::MAX,
        tally.user_turn_count <= tally.message_count,
        file.content.len() <= usize::MAX,
    ensures
        match listing_of(file, id, tally) {
            Some(info) => info.is_of_a_session() && file.content.len() > 0,
            None => true,
        },
{
}

} // verus!
