//! The metadata cache of one source type: what was learnt of each log file,
//! keyed by the file's path, with the file's modification time at that
//! moment.
//!
//! The cache is the table that a durable store keeps; the store itself is the
//! caller's business. A row is valid for as long as the file is not newer
//! than the row.

use vstd::prelude::*;
use vstd::utf8::encode_utf8;
use crate::rank::{is_ranked, rank, stamp_at_most, stamp_le};
use crate::seqs::{
    first_index, lemma_first_index, lemma_first_index_is, lemma_first_index_none,
    lemma_map_keeps_multiset, lemma_select_step, opt_text, select, views,
};
use crate::listing::{cwd_key, cwd_key_of};
use crate::text::{
    bytes_at_most, bytes_le, i64_of, lemma_bytes_le_total, lemma_bytes_le_transitive, parse_i64,
    str_eq,
};
use crate::types::{clone_opt, owned_opt, Project, ProjectView, SessionInfo, SessionInfoView};

verus! {

/// One row of the cache.
#[derive(Clone, Debug, PartialEq, Eq)]
pub struct CacheEntry {
    pub file_path: String,
    pub cli_type: String,
    pub project_id: String,
    pub session_id: String,
    pub message_count: usize,
    pub user_turn_count: usize,
    pub first_timestamp: Option<String>,
    pub last_timestamp: Option<String>,
    /// The file's modification time when the row was written, in seconds.
    pub file_mtime: i64,
    pub project_cwd: Option<String>,
}

pub struct CacheEntryView {
    pub file_path: Seq<char>,
    pub cli_type: Seq<char>,
    pub project_id: Seq<char>,
    pub session_id: Seq<char>,
    pub message_count: usize,
    pub user_turn_count: usize,
    pub first_timestamp: Option<Seq<char>>,
    pub last_timestamp: Option<Seq<char>>,
    pub file_mtime: i64,
    pub project_cwd: Option<Seq<char>>,
}

impl View for CacheEntry {
    type V = CacheEntryView;

    open spec fn view(&self) -> CacheEntryView {
        CacheEntryView {
            file_path: self.file_path@,
            cli_type: self.cli_type@,
            project_id: self.project_id@,
            session_id: self.session_id@,
            message_count: self.message_count,
            user_turn_count: self.user_turn_count,
            first_timestamp: opt_text(self.first_timestamp),
            last_timestamp: opt_text(self.last_timestamp),
            file_mtime: self.file_mtime,
            project_cwd: opt_text(self.project_cwd),
        }
    }
}

/// The rows for the given file.
pub open spec fn has_path(path: Seq<char>) -> spec_fn(CacheEntryView) -> bool {
    |row: CacheEntryView| row.file_path == path
}

/// Where the row for `path` stands.
pub open spec fn row_index(rows: Seq<CacheEntryView>, path: Seq<char>) -> Option<int> {
    first_index(rows, has_path(path))
}

/// No file has two rows.
pub open spec fn distinct_paths(rows: Seq<CacheEntryView>) -> bool {
    forall|i: int, j: int|
        #![trigger rows[i], rows[j]]
        0 <= i < j < rows.len() ==> rows[i].file_path != rows[j].file_path
}

/// The rows without the one for `path`.
pub open spec fn without(rows: Seq<CacheEntryView>, path: Seq<char>) -> Seq<CacheEntryView> {
    match row_index(rows, path) {
        Some(i) => rows.remove(i),
        None => rows,
    }
}

/// The rows after `row` was written: it replaces the row of the same file.
pub open spec fn upserted(rows: Seq<CacheEntryView>, row: CacheEntryView) -> Seq<CacheEntryView> {
    without(rows, row.file_path).push(row)
}

/// The rows that a cache holds after the given rows were written one after
/// the other.
pub open spec fn loaded(rows: Seq<CacheEntryView>) -> Seq<CacheEntryView>
    decreases rows.len(),
{
    if rows.len() == 0 {
        Seq::empty()
    } else {
        upserted(loaded(rows.drop_last()), rows.last())
    }
}

/// The modification time that the cache holds for `path`.
pub open spec fn cached_mtime(rows: Seq<CacheEntryView>, path: Seq<char>) -> Option<i64> {
    match row_index(rows, path) {
        Some(i) => Some(rows[i].file_mtime),
        None => None,
    }
}

/// The cache is valid for a file seen with modification time `mtime` when it
/// holds a row for the file that is at least as new.
pub open spec fn valid_for(rows: Seq<CacheEntryView>, path: Seq<char>, mtime: i64) -> bool {
    match cached_mtime(rows, path) {
        Some(m) => m >= mtime,
        None => false,
    }
}

/// Does a row belong to the listing of `project_id`? What the parsers filter
/// out is filtered here again, so that old rows need no cleaning.
pub open spec fn is_listed(row: CacheEntryView, project_id: Seq<char>) -> bool {
    &&& row.project_id == project_id
    &&& row.message_count > 1
    &&& row.user_turn_count > 0
    &&& (row.first_timestamp is Some || row.last_timestamp is Some)
}

/// The session record that a row stands for. The cache does not know the
/// file's size.
pub open spec fn session_of_row(row: CacheEntryView) -> SessionInfoView {
    SessionInfoView {
        id: row.session_id,
        file_path: row.file_path,
        cwd: row.project_cwd,
        first_timestamp: row.first_timestamp,
        last_timestamp: row.last_timestamp,
        message_count: row.message_count,
        user_turn_count: row.user_turn_count,
        file_size: 0,
    }
}

pub open spec fn listed_row(project_id: Seq<char>) -> spec_fn(CacheEntryView) -> Option<
    SessionInfoView,
> {
    |row: CacheEntryView|
        if is_listed(row, project_id) {
            Some(session_of_row(row))
        } else {
            None
        }
}

/// The sessions of a project as the cache knows them, in table order.
pub open spec fn listed_sessions(rows: Seq<CacheEntryView>, project_id: Seq<char>) -> Seq<
    SessionInfoView,
> {
    select(rows, listed_row(project_id))
}

/// The metadata cache of one source type.
pub struct MetadataCache {
    cli_type: String,
    entries: Vec<CacheEntry>,
    last_startup: i64,
}

impl MetadataCache {
    /// The rows, oldest write first.
    pub closed spec fn rows(&self) -> Seq<CacheEntryView> {
        views(self.entries@)
    }

    /// The source type that the cache belongs to.
    pub closed spec fn source(&self) -> Seq<char> {
        self.cli_type@
    }

    /// When the process last started, in seconds; 0 until it is recorded.
    pub closed spec fn startup_time(&self) -> i64 {
        self.last_startup
    }

    /// No file has two rows.
    pub open spec fn wf(&self) -> bool {
        distinct_paths(self.rows())
    }

    /// An empty cache for the given source type.
    pub fn new(cli_type: &str) -> (cache: MetadataCache)
        ensures
            cache.wf(),
            cache.rows() == Seq::<CacheEntryView>::empty(),
            cache.source() == cli_type@,
            cache.startup_time() == 0,
    {
        let cache = MetadataCache {
            cli_type: cli_type.to_owned(),
            entries: Vec::new(),
            last_startup: 0,
        };
        proof {
            assert(cache.rows() =~= Seq::<CacheEntryView>::empty());
        }
        cache
    }

    /// A cache that holds the given rows, as a durable store hands them
    /// over. Of two rows for one file the later one counts.
    pub fn from_rows(cli_type: &str, rows: Vec<CacheEntry>, last_startup: i64) -> (cache:
        MetadataCache)
        ensures
            cache.wf(),
            cache.source() == cli_type@,
            cache.startup_time() == last_startup,
            cache.rows() == loaded(views(rows@)),
    {
        let mut cache = MetadataCache::new(cli_type);
        cache.last_startup = last_startup;
        let mut rows = rows;
        let ghost given = views(rows@);
        let ghost mut done: int = 0;
        proof {
            assert(given.skip(0) =~= given);
            assert(given.take(0) =~= Seq::<CacheEntryView>::empty());
        }
        while rows.len() > 0
            invariant
                cache.wf(),
                cache.source() == cli_type@,
                cache.startup_time() == last_startup,
                0 <= done <= given.len(),
                views(rows@) == given.skip(done),
                cache.rows() == loaded(given.take(done)),
            decreases rows.len(),
        {
            let ghost before = rows@;
            let row = rows.remove(0);
            proof {
                let tail = given.skip(done);
                assert(tail.len() == given.len() - done);
                assert(views(before).len() == before.len());
                assert(tail[0] == given[done]);
                assert(views(before)[0] == before[0]@);
                assert(given[done] == row@);
                assert(rows@ =~= before.remove(0));
                assert forall|j: int| 0 <= j < rows@.len() implies views(rows@)[j] == given.skip(
                    done + 1,
                )[j] by {
                    assert(rows@[j] == before[j + 1]);
                    assert(views(before)[j + 1] == before[j + 1]@);
                    assert(tail[j + 1] == given[done + j + 1]);
                }
                assert(views(rows@) =~= given.skip(done + 1));
                assert(given.take(done + 1).drop_last() =~= given.take(done));
                assert(given.take(done + 1).last() == row@);
            }
            cache.upsert(row);
            proof {
                done = done + 1;
            }
        }
        proof {
            assert(given.skip(done).len() == 0);
            assert(given.take(done) =~= given);
        }
        cache
    }

    /// The rows, for a durable store to write out.
    pub fn entries(&self) -> (r: &Vec<CacheEntry>)
        ensures
            views(r@) == self.rows(),
    {
        &self.entries
    }

    /// Where the row for `path` stands.
    fn find(&self, path: &str) -> (r: Option<usize>)
        ensures
            match r {
                Some(i) => row_index(self.rows(), path@) == Some(i as int) && i < self.entries.len(),
                None => row_index(self.rows(), path@) is None,
            },
    {
        let ghost rows = self.rows();
        let mut k: usize = 0;
        while k < self.entries.len()
            invariant
                k <= self.entries.len(),
                rows == views(self.entries@),
                forall|j: int| 0 <= j < k ==> !has_path(path@)(#[trigger] rows[j]),
            decreases self.entries.len() - k,
        {
            if str_eq(self.entries[k].file_path.as_str(), path) {
                proof {
                    assert(has_path(path@)(rows[k as int]));
                    lemma_first_index_is(rows, has_path(path@), k as int);
                }
                return Some(k);
            }
            k += 1;
        }
        proof {
            lemma_first_index_none(rows, has_path(path@));
        }
        None
    }

    /// Writes a row; it takes the place of the row that the file had.
    pub fn upsert(&mut self, entry: CacheEntry)
        requires
            old(self).wf(),
        ensures
            final(self).wf(),
            final(self).rows() == upserted(old(self).rows(), entry@),
            final(self).source() == old(self).source(),
            final(self).startup_time() == old(self).startup_time(),
    {
        let ghost before = self.rows();
        proof {
            lemma_upserted_distinct(before, entry@);
        }
        match self.find(entry.file_path.as_str()) {
            Some(i) => {
                self.entries.remove(i);
                proof {
                    assert(views(self.entries@) =~= before.remove(i as int));
                }
            },
            None => {},
        }
        let ghost mid = self.rows();
        self.entries.push(entry);
        proof {
            assert(views(self.entries@) =~= mid.push(entry@));
        }
    }

    /// The modification time that the cache holds for a file.
    pub fn mtime_of(&self, path: &str) -> (r: Option<i64>)
        ensures
            r == cached_mtime(self.rows(), path@),
    {
        match self.find(path) {
            Some(i) => Some(self.entries[i].file_mtime),
            None => None,
        }
    }

    /// Removes the row of a file, if it has one.
    pub fn remove(&mut self, path: &str)
        requires
            old(self).wf(),
        ensures
            final(self).wf(),
            final(self).rows() == without(old(self).rows(), path@),
            final(self).source() == old(self).source(),
            final(self).startup_time() == old(self).startup_time(),
    {
        let ghost before = self.rows();
        proof {
            lemma_without_distinct(before, path@);
        }
        match self.find(path) {
            Some(i) => {
                self.entries.remove(i);
                proof {
                    assert(views(self.entries@) =~= before.remove(i as int));
                }
            },
            None => {},
        }
    }
}

/// Removing a row leaves no file with two rows, and none for the path.
pub proof fn lemma_without_distinct(rows: Seq<CacheEntryView>, path: Seq<char>)
    requires
        distinct_paths(rows),
    ensures
        distinct_paths(without(rows, path)),
        row_index(without(rows, path), path) is None,
{
    lemma_first_index(rows, has_path(path));
    let after = without(rows, path);
    match row_index(rows, path) {
        Some(i) => {
            assert forall|a: int, b: int|
                #![trigger after[a], after[b]]
                0 <= a < b < after.len() implies after[a].file_path != after[b].file_path by {
                let ia = if a < i { a } else { a + 1 };
                let ib = if b < i { b } else { b + 1 };
                assert(after[a] == rows[ia] && after[b] == rows[ib]);
            }
            assert forall|j: int| 0 <= j < after.len() implies !has_path(path)(
                #[trigger] after[j],
            ) by {
                let ij = if j < i { j } else { j + 1 };
                assert(after[j] == rows[ij]);
                if ij > i {
                    assert(rows[i].file_path != rows[ij].file_path);
                }
            }
            lemma_first_index_none(after, has_path(path));
        },
        None => {},
    }
}

/// Writing a row leaves no file with two rows; the new row is the last.
pub proof fn lemma_upserted_distinct(rows: Seq<CacheEntryView>, row: CacheEntryView)
    requires
        distinct_paths(rows),
    ensures
        distinct_paths(upserted(rows, row)),
        row_index(upserted(rows, row), row.file_path) == Some(upserted(rows, row).len() - 1),
        upserted(rows, row).last() == row,
{
    lemma_without_distinct(rows, row.file_path);
    let mid = without(rows, row.file_path);
    let after = upserted(rows, row);
    lemma_first_index(mid, has_path(row.file_path));
    assert forall|a: int, b: int|
        #![trigger after[a], after[b]]
        0 <= a < b < after.len() implies after[a].file_path != after[b].file_path by {
        assert(after[a] == mid[a]);
        if b < mid.len() {
            assert(after[b] == mid[b]);
        }
    }
    assert forall|j: int| 0 <= j < after.len() - 1 implies !has_path(row.file_path)(
        #[trigger] after[j],
    ) by {
        assert(after[j] == mid[j]);
    }
    lemma_first_index_is(after, has_path(row.file_path), after.len() - 1);
}

/// Rows of which no two are for one file are held as they are.
pub proof fn lemma_loaded_distinct(rows: Seq<CacheEntryView>)
    requires
        distinct_paths(rows),
    ensures
        loaded(rows) == rows,
    decreases rows.len(),
{
    if rows.len() > 0 {
        let rest = rows.drop_last();
        assert forall|i: int, j: int|
            #![trigger rest[i], rest[j]]
            0 <= i < j < rest.len() implies rest[i].file_path != rest[j].file_path by {
            assert(rest[i] == rows[i] && rest[j] == rows[j]);
        }
        lemma_loaded_distinct(rest);
        assert forall|j: int| 0 <= j < rest.len() implies !has_path(rows.last().file_path)(
            #[trigger] rest[j],
        ) by {
            assert(rest[j] == rows[j]);
            assert(rows[j].file_path != rows[rows.len() - 1].file_path);
        }
        lemma_first_index_none(rest, has_path(rows.last().file_path));
        assert(rows =~= rest.push(rows.last()));
    }
}

/// A file is valid right after its row was written with modification time
/// `m`, for every observed modification time up to `m`.
pub proof fn lemma_valid_after_upsert(rows: Seq<CacheEntryView>, row: CacheEntryView, observed: i64)
    requires
        distinct_paths(rows),
        observed <= row.file_mtime,
    ensures
        valid_for(upserted(rows, row), row.file_path, observed),
{
    lemma_upserted_distinct(rows, row);
}

/// A file that is valid for one modification time is valid for every
/// earlier one.
pub proof fn lemma_valid_for_earlier(
    rows: Seq<CacheEntryView>,
    path: Seq<char>,
    observed: i64,
    earlier: i64,
)
    requires
        valid_for(rows, path, observed),
        earlier <= observed,
    ensures
        valid_for(rows, path, earlier),
{
}

/// Writing the row of one file changes nothing for another file.
pub proof fn lemma_upsert_keeps_others(
    rows: Seq<CacheEntryView>,
    row: CacheEntryView,
    path: Seq<char>,
)
    requires
        distinct_paths(rows),
        path != row.file_path,
    ensures
        cached_mtime(upserted(rows, row), path) == cached_mtime(rows, path),
{
    let mid = without(rows, row.file_path);
    let after = upserted(rows, row);
    lemma_first_index(rows, has_path(path));
    lemma_first_index(rows, has_path(row.file_path));
    lemma_without_distinct(rows, row.file_path);
    match row_index(rows, path) {
        Some(i) => {
            let gone = row_index(rows, row.file_path);
            let k = match gone {
                Some(g) => if i < g { i } else { i - 1 },
                None => i,
            };
            assert(after[k] == rows[i]);
            assert forall|j: int| 0 <= j < k implies !has_path(path)(#[trigger] after[j]) by {
                let ij = match gone {
                    Some(g) => if j < g { j } else { j + 1 },
                    None => j,
                };
                assert(after[j] == rows[ij]);
                if ij > i {
                    assert(rows[i].file_path != rows[ij].file_path);
                }
            }
            lemma_first_index_is(after, has_path(path), k);
        },
        None => {
            assert forall|j: int| 0 <= j < after.len() implies !has_path(path)(
                #[trigger] after[j],
            ) by {
                if j < mid.len() {
                    let ij = match row_index(rows, row.file_path) {
                        Some(g) => if j < g { j } else { j + 1 },
                        None => j,
                    };
                    assert(after[j] == rows[ij]);
                }
            }
            lemma_first_index_none(after, has_path(path));
        },
    }
}

/// Removing the row of one file changes nothing for another file.
pub proof fn lemma_remove_keeps_others(rows: Seq<CacheEntryView>, gone: Seq<char>, path: Seq<char>)
    requires
        distinct_paths(rows),
        path != gone,
    ensures
        cached_mtime(without(rows, gone), path) == cached_mtime(rows, path),
{
    let after = without(rows, gone);
    lemma_first_index(rows, has_path(path));
    lemma_first_index(rows, has_path(gone));
    match row_index(rows, gone) {
        Some(g) => {
            match row_index(rows, path) {
                Some(i) => {
                    let k = if i < g {
                        i
                    } else {
                        i - 1
                    };
                    assert(after[k] == rows[i]);
                    assert forall|j: int| 0 <= j < k implies !has_path(path)(#[trigger] after[j]) by {
                        let ij = if j < g {
                            j
                        } else {
                            j + 1
                        };
                        assert(after[j] == rows[ij]);
                    }
                    lemma_first_index_is(after, has_path(path), k);
                },
                None => {
                    assert forall|j: int| 0 <= j < after.len() implies !has_path(path)(
                        #[trigger] after[j],
                    ) by {
                        let ij = if j < g {
                            j
                        } else {
                            j + 1
                        };
                        assert(after[j] == rows[ij]);
                    }
                    lemma_first_index_none(after, has_path(path));
                },
            }
        },
        None => {},
    }
}

/// Writes what was learnt of a log file into the cache, in place of what the
/// cache held for that file.
pub fn update_cache_entry(
    cache: &mut MetadataCache,
    file_path: &str,
    project_id: &str,
    session_id: &str,
    message_count: usize,
    user_turn_count: usize,
    first_timestamp: Option<&str>,
    last_timestamp: Option<&str>,
    file_mtime: i64,
    project_cwd: Option<&str>,
)
    requires
        old(cache).wf(),
    ensures
        final(cache).wf(),
        final(cache).source() == old(cache).source(),
        final(cache).startup_time() == old(cache).startup_time(),
        final(cache).rows() == upserted(
            old(cache).rows(),
            CacheEntryView {
                file_path: file_path@,
                cli_type: old(cache).source(),
                project_id: project_id@,
                session_id: session_id@,
                message_count,
                user_turn_count,
                first_timestamp: match first_timestamp {
                    Some(t) => Some(t@),
                    None => None,
                },
                last_timestamp: match last_timestamp {
                    Some(t) => Some(t@),
                    None => None,
                },
                file_mtime,
                project_cwd: match project_cwd {
                    Some(t) => Some(t@),
                    None => None,
                },
            },
        ),
        valid_for(final(cache).rows(), file_path@, file_mtime),
{
    let entry = CacheEntry {
        file_path: file_path.to_owned(),
        cli_type: cache.cli_type.clone(),
        project_id: project_id.to_owned(),
        session_id: session_id.to_owned(),
        message_count,
        user_turn_count,
        first_timestamp: owned_opt(first_timestamp),
        last_timestamp: owned_opt(last_timestamp),
        file_mtime,
        project_cwd: owned_opt(project_cwd),
    };
    proof {
        lemma_valid_after_upsert(cache.rows(), entry@, file_mtime);
    }
    cache.upsert(entry);
}

/// Is what the cache holds for a file still good, given the modification
/// time that the file has now? It is when the cached row is at least as new;
/// a file whose modification time went back stays valid.
pub fn is_cache_valid(cache: &MetadataCache, file_path: &str, file_mtime: i64) -> (r: bool)
    ensures
        r == valid_for(cache.rows(), file_path@, file_mtime),
{
    match cache.mtime_of(file_path) {
        Some(m) => m >= file_mtime,
        None => false,
    }
}

/// When the process last started, in seconds; 0 where that was never
/// recorded.
pub fn get_last_startup_time(cache: &MetadataCache) -> (r: i64)
    ensures
        r == cache.startup_time(),
{
    cache.last_startup
}

/// The time of the last start as a durable store keeps it, in decimal
/// notation; 0 where the text is no such number.
pub fn startup_time_of(text: &str) -> (r: i64)
    ensures
        r == match i64_of(text@) {
            Some(t) => t,
            None => 0,
        },
{
    match parse_i64(text) {
        Some(t) => t,
        None => 0,
    }
}

/// Records `now`, in seconds, as the time of the last start.
pub fn update_startup_time(cache: &mut MetadataCache, now: i64)
    ensures
        final(cache).startup_time() == now,
        final(cache).rows() == old(cache).rows(),
        final(cache).source() == old(cache).source(),
        final(cache).wf() == old(cache).wf(),
{
    cache.last_startup = now;
}

/// Removes the row of a file.
pub fn delete_cache_entry(cache: &mut MetadataCache, file_path: &str)
    requires
        old(cache).wf(),
    ensures
        final(cache).wf(),
        final(cache).rows() == without(old(cache).rows(), file_path@),
        final(cache).source() == old(cache).source(),
        final(cache).startup_time() == old(cache).startup_time(),
        !valid_for(final(cache).rows(), file_path@, i64::MIN),
{
    proof {
        lemma_without_distinct(cache.rows(), file_path@);
    }
    cache.remove(file_path);
}

/// Removes every row and says how many there were. The recorded start time
/// stays.
pub fn clear_cache(cache: &mut MetadataCache) -> (removed: usize)
    ensures
        final(cache).wf(),
        final(cache).rows() == Seq::<CacheEntryView>::empty(),
        removed == old(cache).rows().len(),
        final(cache).source() == old(cache).source(),
        final(cache).startup_time() == old(cache).startup_time(),
{
    let removed = cache.entries.len();
    cache.entries.clear();
    proof {
        assert(cache.rows() =~= Seq::<CacheEntryView>::empty());
    }
    removed
}

/// The sessions of a project as the cache knows them, newest first. Rows
/// that the listing filter would reject are left out.
pub fn load_project_from_cache(cache: &MetadataCache, project_id: &str) -> (r: Vec<SessionInfo>)
    ensures
        is_ranked(r@),
        views(r@).to_multiset() == listed_sessions(cache.rows(), project_id@).to_multiset(),
        forall|i: int| 0 <= i < r.len() ==> (#[trigger] r[i])@.is_listable(),
{
    let ghost rows = cache.rows();
    let ghost pick = listed_row(project_id@);
    let mut found: Vec<SessionInfo> = Vec::new();
    let mut k: usize = 0;
    proof {
        assert(rows.take(0) =~= Seq::<CacheEntryView>::empty());
        assert(views(found@) =~= select(rows.take(0), pick));
    }
    while k < cache.entries.len()
        invariant
            k <= cache.entries.len(),
            rows == views(cache.entries@),
            pick == listed_row(project_id@),
            views(found@) == select(rows.take(k as int), pick),
            forall|i: int| 0 <= i < found.len() ==> (#[trigger] found[i])@.is_listable(),
        decreases cache.entries.len() - k,
    {
        let row = &cache.entries[k];
        proof {
            lemma_select_step(rows, pick, k as int);
            assert(rows[k as int] == row@);
        }
        if str_eq(row.project_id.as_str(), project_id) && row.message_count > 1
            && row.user_turn_count > 0 && (row.first_timestamp.is_some()
            || row.last_timestamp.is_some()) {
            let session = SessionInfo {
                id: row.session_id.clone(),
                file_path: row.file_path.clone(),
                cwd: clone_opt(&row.project_cwd),
                first_timestamp: clone_opt(&row.first_timestamp),
                last_timestamp: clone_opt(&row.last_timestamp),
                message_count: row.message_count,
                user_turn_count: row.user_turn_count,
                file_size: 0,
            };
            proof {
                assert(session@ == session_of_row(row@));
                assert(views(found@.push(session)) =~= views(found@).push(session@));
            }
            found.push(session);
        }
        k += 1;
    }
    proof {
        assert(rows.take(k as int) =~= rows);
    }
    let ghost candidates = found@;
    let r = rank(found);
    proof {
        lemma_map_keeps_multiset(r@, candidates, |s: SessionInfo| s@);
        assert forall|i: int| 0 <= i < r.len() implies (#[trigger] r[i])@.is_listable() by {
            r@.to_multiset_ensures();
            candidates.to_multiset_ensures();
            assert(r@.to_multiset().count(r[i]) > 0);
            assert(candidates.contains(r[i]));
        }
    }
    r
}

/// The row belongs to the project and names a working directory.
pub open spec fn in_group(row: CacheEntryView, project_id: Seq<char>) -> bool {
    row.project_id == project_id && row.project_cwd is Some
}

/// How many rows of the project name a working directory.
pub open spec fn group_size(rows: Seq<CacheEntryView>, project_id: Seq<char>) -> nat
    decreases rows.len(),
{
    if rows.len() == 0 {
        0
    } else if in_group(rows.last(), project_id) {
        group_size(rows.drop_last(), project_id) + 1
    } else {
        group_size(rows.drop_last(), project_id)
    }
}

/// The later of two timestamps.
pub open spec fn later_stamp(a: Option<Seq<char>>, b: Option<Seq<char>>) -> Option<Seq<char>> {
    if stamp_le(a, b) {
        b
    } else {
        a
    }
}

/// The latest of the last timestamps of the project's rows that name a
/// working directory.
pub open spec fn group_latest(rows: Seq<CacheEntryView>, project_id: Seq<char>) -> Option<
    Seq<char>,
>
    decreases rows.len(),
{
    if rows.len() == 0 {
        None
    } else if in_group(rows.last(), project_id) {
        later_stamp(group_latest(rows.drop_last(), project_id), rows.last().last_timestamp)
    } else {
        group_latest(rows.drop_last(), project_id)
    }
}

/// The rows of the project that name a working directory and have the
/// given last timestamp.
pub open spec fn leads(project_id: Seq<char>, stamp: Option<Seq<char>>) -> spec_fn(
    CacheEntryView,
) -> bool {
    |row: CacheEntryView| in_group(row, project_id) && row.last_timestamp == stamp
}

/// The project as the cache knows it: its working directory is that of the
/// first of its rows with the latest activity.
pub open spec fn group_project(rows: Seq<CacheEntryView>, project_id: Seq<char>) -> ProjectView {
    let latest = group_latest(rows, project_id);
    ProjectView {
        id: project_id,
        cwd: match first_index(rows, leads(project_id, latest)) {
            Some(i) => rows[i].project_cwd,
            None => None,
        },
        last_modified: 0,
        session_count: group_size(rows, project_id) as usize,
        last_activity: latest,
    }
}

/// The cache knows the project, and the project is at the working
/// directory with the given key.
pub open spec fn group_matches(rows: Seq<CacheEntryView>, project_id: Seq<char>, key: Seq<char>)
    -> bool {
    &&& group_size(rows, project_id) > 0
    &&& group_project(rows, project_id).cwd is Some
    &&& cwd_key(group_project(rows, project_id).cwd->0) == key
}

/// The order of project ids: as strings, byte by byte.
pub open spec fn id_le(a: Seq<char>, b: Seq<char>) -> bool {
    bytes_le(encode_utf8(a), encode_utf8(b))
}

/// The project that the cache finds at a working directory: of the
/// projects that are there, the one with the least id.
pub open spec fn cached_project_at(
    found: Option<ProjectView>,
    rows: Seq<CacheEntryView>,
    cwd: Seq<char>,
) -> bool {
    let key = cwd_key(cwd);
    match found {
        Some(p) => {
            &&& p == group_project(rows, p.id)
            &&& group_matches(rows, p.id, key)
            &&& forall|id: Seq<char>| #[trigger] group_matches(rows, id, key) ==> id_le(p.id, id)
        },
        None => forall|id: Seq<char>| !#[trigger] group_matches(rows, id, key),
    }
}

/// A project that the cache knows has a row.
pub proof fn lemma_group_has_row(rows: Seq<CacheEntryView>, project_id: Seq<char>)
    requires
        group_size(rows, project_id) > 0,
    ensures
        exists|i: int| 0 <= i < rows.len() && in_group(#[trigger] rows[i], project_id),
    decreases rows.len(),
{
    if in_group(rows.last(), project_id) {
        assert(in_group(rows[rows.len() - 1], project_id));
    } else {
        lemma_group_has_row(rows.drop_last(), project_id);
        let i = choose|i: int|
            0 <= i < rows.drop_last().len() && in_group(#[trigger] rows.drop_last()[i], project_id);
        assert(rows[i] == rows.drop_last()[i]);
    }
}

impl MetadataCache {
    /// The project with the given id as the cache knows it.
    pub fn project(&self, project_id: &str) -> (r: (Project, bool))
        ensures
            r.0@ == group_project(self.rows(), project_id@),
            r.1 == (group_size(self.rows(), project_id@) > 0),
    {
        let ghost rows = self.rows();
        let mut size: usize = 0;
        let mut latest: Option<String> = None;
        let mut k: usize = 0;
        proof {
            assert(rows.take(0) =~= Seq::<CacheEntryView>::empty());
        }
        while k < self.entries.len()
            invariant
                k <= self.entries.len(),
                rows == views(self.entries@),
                size <= k,
                size == group_size(rows.take(k as int), project_id@),
                opt_text(latest) == group_latest(rows.take(k as int), project_id@),
            decreases self.entries.len() - k,
        {
            let row = &self.entries[k];
            proof {
                assert(rows.take(k + 1).drop_last() =~= rows.take(k as int));
                assert(rows.take(k + 1).last() == row@);
            }
            if str_eq(row.project_id.as_str(), project_id) && row.project_cwd.is_some() {
                size = size + 1;
                if stamp_at_most(&latest, &row.last_timestamp) {
                    latest = clone_opt(&row.last_timestamp);
                }
            }
            k += 1;
        }
        proof {
            assert(rows.take(k as int) =~= rows);
        }
        let ghost lead = leads(project_id@, opt_text(latest));
        let mut cwd: Option<String> = None;
        let mut at: usize = 0;
        let mut found = false;
        while at < self.entries.len() && !found
            invariant
                at <= self.entries.len(),
                rows == views(self.entries@),
                lead == leads(project_id@, opt_text(latest)),
                !found ==> cwd is None,
                !found ==> forall|j: int| 0 <= j < at ==> !lead(#[trigger] rows[j]),
                found ==> first_index(rows, lead) is Some && opt_text(cwd) == rows[first_index(
                    rows,
                    lead,
                )->0].project_cwd,
            decreases
                    self.entries.len() - at,
                    if found {
                        0int
                    } else {
                        1int
                    },
        {
            let row = &self.entries[at];
            if str_eq(row.project_id.as_str(), project_id) && row.project_cwd.is_some()
                && same_stamp(&row.last_timestamp, &latest) {
                proof {
                    assert(lead(rows[at as int]));
                    lemma_first_index_is(rows, lead, at as int);
                }
                cwd = clone_opt(&row.project_cwd);
                found = true;
            } else {
                at += 1;
            }
        }
        proof {
            if !found {
                lemma_first_index_none(rows, lead);
            }
        }
        (
            Project {
                id: project_id.to_owned(),
                cwd,
                last_modified: 0,
                session_count: size,
                last_activity: latest,
            },
            size > 0,
        )
    }
}

/// Are the two timestamps the same?
pub fn same_stamp(a: &Option<String>, b: &Option<String>) -> (r: bool)
    ensures
        r == (opt_text(*a) == opt_text(*b)),
{
    match a {
        Some(x) => match b {
            Some(y) => str_eq(x.as_str(), y.as_str()),
            None => false,
        },
        None => b.is_none(),
    }
}

/// The project at a working directory as the cache knows it, whatever the
/// case of the path and the kind of its separators. Of several projects at
/// the directory, the one with the least id is found.
pub fn find_project_by_cwd_cached(cache: &MetadataCache, cwd: &str) -> (r: Option<Project>)
    ensures
        cached_project_at(
            match r {
                Some(p) => Some(p@),
                None => None,
            },
            cache.rows(),
            cwd@,
        ),
{
    let key = cwd_key_of(cwd);
    let ghost rows = cache.rows();
    let mut best: Option<Project> = None;
    let mut k: usize = 0;
    while k < cache.entries.len()
        invariant
            k <= cache.entries.len(),
            rows == views(cache.entries@),
            rows == cache.rows(),
            key@ == cwd_key(cwd@),
            match best {
                Some(p) => {
                    &&& p@ == group_project(rows, p@.id)
                    &&& group_matches(rows, p@.id, key@)
                    &&& forall|j: int|
                        0 <= j < k && group_matches(rows, (#[trigger] rows[j]).project_id, key@)
                            ==> id_le(p@.id, rows[j].project_id)
                },
                None => forall|j: int|
                    0 <= j < k ==> !group_matches(rows, (#[trigger] rows[j]).project_id, key@),
            },
        decreases cache.entries.len() - k,
    {
        let row = &cache.entries[k];
        let wanted = match &best {
            Some(p) => !bytes_at_most(p.id.as_str().as_bytes(), row.project_id.as_str().as_bytes()),
            None => true,
        };
        proof {
            assert(rows[k as int] == row@);
        }
        if wanted {
            let (project, known) = cache.project(row.project_id.as_str());
            let matches = known && match &project.cwd {
                Some(c) => {
                    let own = cwd_key_of(c.as_str());
                    str_eq(own.as_str(), key.as_str())
                },
                None => false,
            };
            if matches {
                proof {
                    assert forall|j: int|
                        0 <= j < k + 1 && group_matches(
                            rows,
                            (#[trigger] rows[j]).project_id,
                            key@,
                        ) implies id_le(project@.id, rows[j].project_id) by {
                        if j < k {
                            match best {
                                Some(p) => {
                                    lemma_bytes_le_total(
                                        encode_utf8(p@.id),
                                        encode_utf8(project@.id),
                                    );
                                    lemma_bytes_le_transitive(
                                        encode_utf8(project@.id),
                                        encode_utf8(p@.id),
                                        encode_utf8(rows[j].project_id),
                                    );
                                },
                                None => {},
                            }
                        } else {
                            lemma_bytes_le_total(
                                encode_utf8(project@.id),
                                encode_utf8(project@.id),
                            );
                        }
                    }
                }
                best = Some(project);
            }
        }
        k += 1;
    }
    proof {
        assert forall|id: Seq<char>| #[trigger] group_matches(rows, id, key@) implies match best {
            Some(p) => id_le(p@.id, id),
            None => false,
        } by {
            lemma_group_has_row(rows, id);
            let j = choose|j: int| 0 <= j < rows.len() && in_group(#[trigger] rows[j], id);
            assert(rows[j].project_id == id);
        }
    }
    best
}

} // verus!
