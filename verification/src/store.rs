//! A view of the log files on disk, as the caller has read them.
//!
//! The library never touches the file system. Whoever calls it lists the
//! directories, reads the log files and hands them over as plain values.

use vstd::prelude::*;
use vstd::utf8::encode_utf8;
use crate::seqs::{
    first_index, lemma_first_index_is, lemma_first_index_none, lemma_select_step, opt_text, select,
    views,
};
use crate::text::{matches_at, occurs_at, str_eq};

verus! {

/// How many nanoseconds a second has.
pub const NANOS_PER_SECOND: u64 = 1_000_000_000;

/// One log file.
#[derive(Clone, Debug, PartialEq, Eq)]
pub struct LogFile {
    /// The file's path, as text.
    pub path: String,
    /// The file's name with its extension.
    pub name: String,
    /// The file's name without its extension, where it has a name.
    pub stem: Option<String>,
    /// When the file was last modified, in nanoseconds since the epoch; 0
    /// where that is not known.
    pub modified: u64,
    /// The bytes of the file.
    pub content: Vec<u8>,
}

pub struct LogFileView {
    pub path: Seq<char>,
    pub name: Seq<char>,
    pub stem: Option<Seq<char>>,
    pub modified: u64,
    pub content: Seq<u8>,
}

impl View for LogFile {
    type V = LogFileView;

    open spec fn view(&self) -> LogFileView {
        LogFileView {
            path: self.path@,
            name: self.name@,
            stem: opt_text(self.stem),
            modified: self.modified,
            content: self.content@,
        }
    }
}

impl LogFileView {
    /// The file's modification time in whole seconds.
    pub open spec fn mtime(self) -> i64 {
        (self.modified / NANOS_PER_SECOND) as i64
    }
}

impl LogFile {
    /// The file's modification time in whole seconds.
    pub fn mtime(&self) -> (r: i64)
        ensures
            r == self@.mtime(),
            r >= 0,
    {
        (self.modified / NANOS_PER_SECOND) as i64
    }
}

/// One directory of log files.
#[derive(Clone, Debug, PartialEq, Eq)]
pub struct LogDir {
    /// The directory's name.
    pub name: String,
    /// When the directory was last modified, in nanoseconds since the epoch;
    /// 0 where that is not known.
    pub modified: u64,
    /// The log files in the directory, in the order they were listed.
    pub files: Vec<LogFile>,
}

pub struct LogDirView {
    pub name: Seq<char>,
    pub modified: u64,
    pub files: Seq<LogFileView>,
}

impl View for LogDir {
    type V = LogDirView;

    open spec fn view(&self) -> LogDirView {
        LogDirView { name: self.name@, modified: self.modified, files: views(self.files@) }
    }
}

/// The log directories of one source type, in the order they were listed.
#[derive(Clone, Debug, PartialEq, Eq)]
pub struct LogStore {
    pub dirs: Vec<LogDir>,
}

impl View for LogStore {
    type V = Seq<LogDirView>;

    open spec fn view(&self) -> Seq<LogDirView> {
        views(self.dirs@)
    }
}

/// What the name of a log file ends with.
pub const LOG_SUFFIX: &'static str = ".jsonl";

/// The name is that of a log file: it has the extension `jsonl`, that is, it
/// ends with `.jsonl` and something stands before the dot.
pub open spec fn is_log(name: Seq<char>) -> bool {
    let bytes = encode_utf8(name);
    let suffix = encode_utf8(LOG_SUFFIX@);
    suffix.len() < bytes.len() && occurs_at(suffix, bytes, bytes.len() - suffix.len())
}

/// Is the name that of a log file?
pub fn is_log_name(name: &str) -> (r: bool)
    ensures
        r == is_log(name@),
{
    let bytes = name.as_bytes();
    let suffix = LOG_SUFFIX.as_bytes();
    if suffix.len() >= bytes.len() {
        return false;
    }
    matches_at(bytes, suffix, bytes.len() - suffix.len())
}

pub open spec fn keep_log() -> spec_fn(LogFileView) -> Option<LogFileView> {
    |file: LogFileView|
        if is_log(file.name) {
            Some(file)
        } else {
            None
        }
}

/// Those of the files that are log files, in their order.
pub open spec fn logs(files: Seq<LogFileView>) -> Seq<LogFileView> {
    select(files, keep_log())
}

/// Those of the files that are log files, in their order.
pub fn logs_of(files: &Vec<LogFile>) -> (r: Vec<&LogFile>)
    ensures
        views(r@) == logs(views(files@)),
{
    let ghost all = views(files@);
    let ghost pick = keep_log();
    let mut r: Vec<&LogFile> = Vec::new();
    let mut k: usize = 0;
    proof {
        assert(all.take(0) =~= Seq::<LogFileView>::empty());
        assert(views(r@) =~= select(all.take(0), pick));
    }
    while k < files.len()
        invariant
            k <= files.len(),
            all == views(files@),
            pick == keep_log(),
            views(r@) == select(all.take(k as int), pick),
        decreases files.len() - k,
    {
        let file = &files[k];
        proof {
            lemma_select_step(all, pick, k as int);
        }
        if is_log_name(file.name.as_str()) {
            proof {
                assert(views(r@.push(file)) =~= views(r@).push(file@));
            }
            r.push(file);
        }
        k += 1;
    }
    proof {
        assert(all.take(k as int) =~= all);
    }
    r
}

/// All log files of the directories, directory by directory.
pub open spec fn all_logs(dirs: Seq<LogDirView>) -> Seq<LogFileView>
    decreases dirs.len(),
{
    if dirs.len() == 0 {
        Seq::empty()
    } else {
        all_logs(dirs.drop_last()) + logs(dirs.last().files)
    }
}

/// All files of the directories, directory by directory.
pub open spec fn all_files(dirs: Seq<LogDirView>) -> Seq<LogFileView>
    decreases dirs.len(),
{
    if dirs.len() == 0 {
        Seq::empty()
    } else {
        all_files(dirs.drop_last()) + dirs.last().files
    }
}

/// The files with the given path.
pub open spec fn file_at(path: Seq<char>) -> spec_fn(LogFileView) -> bool {
    |file: LogFileView| file.path == path
}

/// The modification time, in seconds, of the first file with the given path;
/// 0 where there is none.
pub open spec fn mtime_at(files: Seq<LogFileView>, path: Seq<char>) -> i64 {
    match first_index(files, file_at(path)) {
        Some(i) => files[i].mtime(),
        None => 0,
    }
}

/// The modification time, in seconds, of the first of the files with the
/// given path; 0 where there is none.
pub fn mtime_among(files: &Vec<&LogFile>, path: &str) -> (r: i64)
    ensures
        r == mtime_at(views(files@), path@),
{
    let ghost all = views(files@);
    let mut k: usize = 0;
    while k < files.len()
        invariant
            k <= files.len(),
            all == views(files@),
            forall|j: int| 0 <= j < k ==> !file_at(path@)(#[trigger] all[j]),
        decreases files.len() - k,
    {
        if str_eq(files[k].path.as_str(), path) {
            proof {
                assert(all[k as int] == files@[k as int]@);
                assert(file_at(path@)(all[k as int]));
                lemma_first_index_is(all, file_at(path@), k as int);
            }
            return files[k].mtime();
        }
        proof {
            assert(all[k as int] == files@[k as int]@);
        }
        k += 1;
    }
    proof {
        lemma_first_index_none(all, file_at(path@));
    }
    0
}

} // verus!
