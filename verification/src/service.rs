//! The operations that a host calls: each names a source type by its tag,
//! and the registry finds the source.

use vstd::prelude::*;
use vstd::string::StringExecFns;
use crate::cache::{
    distinct_paths, is_cache_valid, lemma_upsert_keeps_others,
    lemma_upserted_distinct, lemma_valid_after_upsert, update_cache_entry, upserted, valid_for,
    CacheEntryView, MetadataCache,
};
use crate::listing::{lists_projects, lists_sessions, store_files};
use crate::paginate::paginated;
use crate::provider::{found_at, search_hits, CliHistoryProvider, ProviderRegistry};
use crate::seqs::{texts, views};
use crate::store::{all_files, mtime_among, mtime_at, LogFile, LogFileView, LogStore};
use crate::text::{
    ascii_upper, chars_of, string_of, to_ascii_upper, to_uppercase, uppercase_text,
};
use crate::types::{
    MessageView, PaginatedMessages, Project, Session, SessionInfo, SessionInfoView, SessionView,
    TrashItem, TrashManifest,
};

verus! {

/// Why an operation was not carried out.
#[derive(Clone, Copy, Debug, PartialEq, Eq)]
pub enum HistoryError {
    /// No source has the given tag.
    UnsupportedCliType,
    /// The log file holds no session.
    SessionNotFound,
    /// There is no such log file.
    FileNotFound,
}

/// The tags of the sources that are there.
pub fn list_cli_types<P: CliHistoryProvider>(registry: &ProviderRegistry<P>) -> (r: Vec<String>)
    ensures
        texts(r@) == registry.tags(),
{
    registry.list_types()
}

/// The source with the given tag.
pub open spec fn source<P: CliHistoryProvider>(registry: &ProviderRegistry<P>, cli_type: Seq<char>)
    -> P {
    registry.entries()[registry.position(cli_type)->0]
}

/// The projects of a source type, last modified first.
pub fn list_projects<P: CliHistoryProvider>(
    registry: &ProviderRegistry<P>,
    cli_type: &str,
    store: &LogStore,
    limit: usize,
) -> (r: Result<Vec<Project>, HistoryError>)
    ensures
        match r {
            Ok(projects) => registry.position(cli_type@) is Some && lists_projects(
                projects@,
                source(registry, cli_type@).projects(store@),
                limit,
            ),
            Err(e) => registry.position(cli_type@) is None && e == HistoryError::UnsupportedCliType,
        },
{
    match registry.get(cli_type) {
        Some(provider) => Ok(provider.list_projects(store, limit)),
        None => Err(HistoryError::UnsupportedCliType),
    }
}

/// The project of a source type at a working directory.
pub fn find_project_by_cwd<P: CliHistoryProvider>(
    registry: &ProviderRegistry<P>,
    cli_type: &str,
    store: &LogStore,
    cwd: &str,
) -> (r: Result<Option<Project>, HistoryError>)
    ensures
        match r {
            Ok(found) => registry.position(cli_type@) is Some && found_at(
                found,
                source(registry, cli_type@).projects(store@),
                cwd@,
            ),
            Err(e) => registry.position(cli_type@) is None && e == HistoryError::UnsupportedCliType,
        },
{
    match registry.get(cli_type) {
        Some(provider) => Ok(provider.find_project_by_cwd(store, cwd)),
        None => Err(HistoryError::UnsupportedCliType),
    }
}

/// The sessions of a project that are worth listing, newest first.
pub fn load_project<P: CliHistoryProvider>(
    registry: &ProviderRegistry<P>,
    cli_type: &str,
    store: &LogStore,
    project_id: &str,
) -> (r: Result<Vec<SessionInfo>, HistoryError>)
    ensures
        match r {
            Ok(records) => {
                &&& registry.position(cli_type@) is Some
                &&& lists_sessions(
                    records@,
                    source(registry, cli_type@).sessions(store@, project_id@),
                )
                &&& forall|i: int| 0 <= i < records.len() ==> (#[trigger] records[i])@.is_of_a_session()
            },
            Err(e) => registry.position(cli_type@) is None && e == HistoryError::UnsupportedCliType,
        },
{
    match registry.get(cli_type) {
        Some(provider) => Ok(provider.load_project(store, project_id)),
        None => Err(HistoryError::UnsupportedCliType),
    }
}

/// What a log file is once it was read; nothing where it could not be read.
pub open spec fn read_file(file: Option<&LogFile>) -> Option<LogFileView> {
    match file {
        Some(f) => Some(f@),
        None => None,
    }
}

/// The session of a log file as a source sees it; none where the file
/// could not be read.
pub open spec fn session_in<P: CliHistoryProvider>(provider: P, file: Option<LogFileView>)
    -> Option<SessionView> {
    match file {
        Some(f) => provider.session(f),
        None => None,
    }
}

/// The session that a log file holds, with all its messages. `file` is the
/// log file as it was read, `None` where it could not be read.
pub fn load_session<P: CliHistoryProvider>(
    registry: &ProviderRegistry<P>,
    cli_type: &str,
    file: Option<&LogFile>,
) -> (r: Result<Option<Session>, HistoryError>)
    ensures
        match r {
            Ok(Some(session)) => registry.position(cli_type@) is Some && session_in(
                source(registry, cli_type@),
                read_file(file),
            ) == Some(session@),
            Ok(None) => registry.position(cli_type@) is Some && session_in(
                source(registry, cli_type@),
                read_file(file),
            ) is None,
            Err(e) => registry.position(cli_type@) is None && e == HistoryError::UnsupportedCliType,
        },
{
    match registry.get(cli_type) {
        Some(provider) => match file {
            Some(f) => Ok(provider.load_session(f)),
            None => Ok(None),
        },
        None => Err(HistoryError::UnsupportedCliType),
    }
}

/// The first and the last turns of the session that a log file holds.
/// `file` is the log file as it was read, `None` where it could not be
/// read.
pub fn load_session_paginated<P: CliHistoryProvider>(
    registry: &ProviderRegistry<P>,
    cli_type: &str,
    file: Option<&LogFile>,
    first_turns: usize,
    last_turns: usize,
) -> (r: Result<Option<PaginatedMessages>, HistoryError>)
    ensures
        match r {
            Ok(Some(page)) => {
                &&& registry.position(cli_type@) is Some
                &&& session_in(source(registry, cli_type@), read_file(file)) is Some
                &&& page@ == paginated(
                    session_in(source(registry, cli_type@), read_file(file))->0.messages,
                    first_turns,
                    last_turns,
                )
            },
            Ok(None) => registry.position(cli_type@) is Some && session_in(
                source(registry, cli_type@),
                read_file(file),
            ) is None,
            Err(e) => registry.position(cli_type@) is None && e == HistoryError::UnsupportedCliType,
        },
{
    match registry.get(cli_type) {
        Some(provider) => match file {
            Some(f) => Ok(provider.load_session_paginated(f, first_turns, last_turns)),
            None => Ok(None),
        },
        None => Err(HistoryError::UnsupportedCliType),
    }
}

/// The sessions one of whose lines holds the keyword, newest first, and at
/// most `limit` of them.
pub fn search<P: CliHistoryProvider>(
    registry: &ProviderRegistry<P>,
    cli_type: &str,
    store: &LogStore,
    keyword: &str,
    limit: usize,
) -> (r: Result<Vec<SessionInfo>, HistoryError>)
    ensures
        match r {
            Ok(records) => {
                &&& registry.position(cli_type@) is Some
                &&& lists_sessions(
                    records@,
                    search_hits(
                        crate::store::all_logs(store@),
                        source(registry, cli_type@).info(),
                        keyword@,
                        limit,
                    ),
                )
                &&& records.len() <= limit
                &&& forall|i: int| 0 <= i < records.len() ==> (#[trigger] records[i])@.is_of_a_session()
            },
            Err(e) => registry.position(cli_type@) is None && e == HistoryError::UnsupportedCliType,
        },
{
    match registry.get(cli_type) {
        Some(provider) => Ok(provider.search(store, keyword, limit)),
        None => Err(HistoryError::UnsupportedCliType),
    }
}

/// Lists a session, deleted at `now`, in the manifest of the trash. `file`
/// is the session's log file as it was read, `None` where there is no such
/// file. On an error the manifest stays as it is.
pub fn delete_session<P: CliHistoryProvider>(
    registry: &ProviderRegistry<P>,
    cli_type: &str,
    manifest: &mut TrashManifest,
    dir_name: &str,
    file: Option<&LogFile>,
    sidecar: Option<String>,
    now: u64,
) -> (r: Result<TrashItem, HistoryError>)
    ensures
        match r {
            Ok(item) => {
                &&& registry.position(cli_type@) is Some
                &&& file is Some
                &&& item@ == source(registry, cli_type@).trashed(
                    dir_name@,
                    file->0@,
                    crate::seqs::opt_text(sidecar),
                    now,
                )
                &&& final(manifest)@ == old(manifest)@.push(item@)
            },
            Err(e) => {
                &&& final(manifest)@ == old(manifest)@
                &&& e == if registry.position(cli_type@) is None {
                    HistoryError::UnsupportedCliType
                } else {
                    HistoryError::FileNotFound
                }
                &&& registry.position(cli_type@) is None || file is None
            },
        },
{
    let provider = match registry.get(cli_type) {
        Some(p) => p,
        None => {
            return Err(HistoryError::UnsupportedCliType);
        },
    };
    match file {
        Some(f) => Ok(provider.delete_session(manifest, dir_name, f, sidecar, now)),
        None => Err(HistoryError::FileNotFound),
    }
}

/// One session whose cache row may have to be written again.
pub struct Refresh {
    pub project_id: Seq<char>,
    pub record: SessionInfoView,
}

/// The cache row of a session whose file was modified at `mtime`.
pub open spec fn row_of(source: Seq<char>, item: Refresh, mtime: i64) -> CacheEntryView {
    CacheEntryView {
        file_path: item.record.file_path,
        cli_type: source,
        project_id: item.project_id,
        session_id: item.record.id,
        message_count: item.record.message_count,
        user_turn_count: item.record.user_turn_count,
        first_timestamp: item.record.first_timestamp,
        last_timestamp: item.record.last_timestamp,
        file_mtime: mtime,
        project_cwd: item.record.cwd,
    }
}

/// The row of a session has to be written again: the cache is not valid for
/// the session's file, and the file is newer than `newer_than` where that
/// is given.
pub open spec fn is_due(
    rows: Seq<CacheEntryView>,
    files: Seq<LogFileView>,
    item: Refresh,
    newer_than: Option<i64>,
) -> bool {
    let mtime = mtime_at(files, item.record.file_path);
    (newer_than is None || mtime > newer_than->0) && !valid_for(
        rows,
        item.record.file_path,
        mtime,
    )
}

/// The rows after one session was looked at.
pub open spec fn refreshed_by(
    rows: Seq<CacheEntryView>,
    source: Seq<char>,
    files: Seq<LogFileView>,
    item: Refresh,
    newer_than: Option<i64>,
) -> Seq<CacheEntryView> {
    if is_due(rows, files, item, newer_than) {
        upserted(rows, row_of(source, item, mtime_at(files, item.record.file_path)))
    } else {
        rows
    }
}

/// The rows after the sessions were looked at, one after the other.
pub open spec fn refreshed(
    rows: Seq<CacheEntryView>,
    source: Seq<char>,
    files: Seq<LogFileView>,
    items: Seq<Refresh>,
    newer_than: Option<i64>,
) -> Seq<CacheEntryView>
    decreases items.len(),
{
    if items.len() == 0 {
        rows
    } else {
        refreshed_by(
            refreshed(rows, source, files, items.drop_last(), newer_than),
            source,
            files,
            items.last(),
            newer_than,
        )
    }
}

/// How many rows were written while the sessions were looked at.
pub open spec fn refresh_count(
    rows: Seq<CacheEntryView>,
    source: Seq<char>,
    files: Seq<LogFileView>,
    items: Seq<Refresh>,
    newer_than: Option<i64>,
) -> nat
    decreases items.len(),
{
    if items.len() == 0 {
        0
    } else {
        let before = refreshed(rows, source, files, items.drop_last(), newer_than);
        let written: nat = if is_due(before, files, items.last(), newer_than) {
            1
        } else {
            0
        };
        refresh_count(rows, source, files, items.drop_last(), newer_than) + written
    }
}

/// The sessions of one project.
pub open spec fn refreshes_of(project_id: Seq<char>, records: Seq<SessionInfoView>) -> Seq<Refresh> {
    records.map_values(|record: SessionInfoView| Refresh { project_id, record })
}

/// Looking at sessions leaves no file with two rows.
pub proof fn lemma_refreshed_distinct(
    rows: Seq<CacheEntryView>,
    source: Seq<char>,
    files: Seq<LogFileView>,
    items: Seq<Refresh>,
    newer_than: Option<i64>,
)
    requires
        distinct_paths(rows),
    ensures
        distinct_paths(refreshed(rows, source, files, items, newer_than)),
        refresh_count(rows, source, files, items, newer_than) <= items.len(),
    decreases items.len(),
{
    if items.len() > 0 {
        lemma_refreshed_distinct(rows, source, files, items.drop_last(), newer_than);
        let before = refreshed(rows, source, files, items.drop_last(), newer_than);
        let item = items.last();
        lemma_upserted_distinct(before, row_of(source, item, mtime_at(files, item.record.file_path)));
    }
}

/// After every session was looked at, the cache is valid for each of them.
pub proof fn lemma_refreshed_is_valid(
    rows: Seq<CacheEntryView>,
    source: Seq<char>,
    files: Seq<LogFileView>,
    items: Seq<Refresh>,
    i: int,
)
    requires
        distinct_paths(rows),
        0 <= i < items.len(),
    ensures
        valid_for(
            refreshed(rows, source, files, items, None),
            items[i].record.file_path,
            mtime_at(files, items[i].record.file_path),
        ),
    decreases items.len(),
{
    let rest = items.drop_last();
    let before = refreshed(rows, source, files, rest, None);
    let item = items.last();
    let path = items[i].record.file_path;
    let mtime = mtime_at(files, item.record.file_path);
    lemma_refreshed_distinct(rows, source, files, rest, None);
    if i < items.len() - 1 {
        lemma_refreshed_is_valid(rows, source, files, rest, i);
        assert(rest[i] == items[i]);
    }
    if is_due(before, files, item, None) {
        let row = row_of(source, item, mtime);
        if item.record.file_path == path {
            lemma_valid_after_upsert(before, row, mtime);
        } else {
            lemma_upsert_keeps_others(before, row, path);
        }
    }
}

/// Looks at the sessions of one project and writes the cache row of each
/// whose file the cache is not valid for; with `newer_than`, only where the
/// file is newer than that. Says how many rows were written.
pub fn refresh_records(
    cache: &mut MetadataCache,
    files: &Vec<&LogFile>,
    project_id: &str,
    records: &Vec<SessionInfo>,
    newer_than: Option<i64>,
) -> (count: usize)
    requires
        old(cache).wf(),
    ensures
        final(cache).wf(),
        final(cache).source() == old(cache).source(),
        final(cache).startup_time() == old(cache).startup_time(),
        final(cache).rows() == refreshed(
            old(cache).rows(),
            old(cache).source(),
            views(files@),
            refreshes_of(project_id@, views(records@)),
            newer_than,
        ),
        count == refresh_count(
            old(cache).rows(),
            old(cache).source(),
            views(files@),
            refreshes_of(project_id@, views(records@)),
            newer_than,
        ),
{
    let ghost rows = cache.rows();
    let ghost source = cache.source();
    let ghost all = views(files@);
    let ghost items = refreshes_of(project_id@, views(records@));
    let mut count: usize = 0;
    let mut k: usize = 0;
    proof {
        assert(items.take(0) =~= Seq::<Refresh>::empty());
    }
    while k < records.len()
        invariant
            k <= records.len(),
            cache.wf(),
            cache.source() == source,
            cache.startup_time() == old(cache).startup_time(),
            all == views(files@),
            items == refreshes_of(project_id@, views(records@)),
            cache.rows() == refreshed(rows, source, all, items.take(k as int), newer_than),
            count == refresh_count(rows, source, all, items.take(k as int), newer_than),
            count <= k,
        decreases records.len() - k,
    {
        let record = &records[k];
        proof {
            assert(items.take(k + 1).drop_last() =~= items.take(k as int));
            assert(items.take(k + 1).last() == Refresh { project_id: project_id@, record: record@ });
        }
        let mtime = mtime_among(files, record.file_path.as_str());
        let newer = match newer_than {
            Some(t) => mtime > t,
            None => true,
        };
        if newer && !is_cache_valid(cache, record.file_path.as_str(), mtime) {
            update_cache_entry(
                cache,
                record.file_path.as_str(),
                project_id,
                record.id.as_str(),
                record.message_count,
                record.user_turn_count,
                opt_str(&record.first_timestamp),
                opt_str(&record.last_timestamp),
                mtime,
                opt_str(&record.cwd),
            );
            count = count + 1;
        }
        k += 1;
    }
    proof {
        assert(items.take(k as int) =~= items);
    }
    count
}

/// The string slice of an optional string.
pub fn opt_str(s: &Option<String>) -> (r: Option<&str>)
    ensures
        match r {
            Some(t) => crate::seqs::opt_text(*s) == Some(t@),
            None => s is None,
        },
{
    match s {
        Some(t) => Some(t.as_str()),
        None => None,
    }
}

/// Looking at one run of sessions after another is looking at all of
/// them.
pub proof fn lemma_refreshed_in_parts(
    rows: Seq<CacheEntryView>,
    source: Seq<char>,
    files: Seq<LogFileView>,
    first: Seq<Refresh>,
    second: Seq<Refresh>,
    newer_than: Option<i64>,
)
    ensures
        refreshed(rows, source, files, first + second, newer_than) == refreshed(
            refreshed(rows, source, files, first, newer_than),
            source,
            files,
            second,
            newer_than,
        ),
        refresh_count(rows, source, files, first + second, newer_than) == refresh_count(
            rows,
            source,
            files,
            first,
            newer_than,
        ) + refresh_count(
            refreshed(rows, source, files, first, newer_than),
            source,
            files,
            second,
            newer_than,
        ),
    decreases second.len(),
{
    if second.len() == 0 {
        assert(first + second =~= first);
    } else {
        lemma_refreshed_in_parts(rows, source, files, first, second.drop_last(), newer_than);
        assert((first + second).drop_last() =~= first + second.drop_last());
        assert((first + second).last() == second.last());
    }
}

/// Finds the project at a working directory and brings the cache up to
/// date for the project's sessions: the row of every session whose file
/// the cache is not valid for is written again. Returns the sessions,
/// newest first; none where no project is at the directory. With an unknown
/// source type the cache stays as it is.
pub fn refresh_and_load_sessions<P: CliHistoryProvider>(
    registry: &ProviderRegistry<P>,
    cli_type: &str,
    cache: &mut MetadataCache,
    store: &LogStore,
    cwd: &str,
) -> (r: Result<Vec<SessionInfo>, HistoryError>)
    requires
        old(cache).wf(),
    ensures
        final(cache).wf(),
        final(cache).source() == old(cache).source(),
        final(cache).startup_time() == old(cache).startup_time(),
        match r {
            Ok(records) => {
                &&& registry.position(cli_type@) is Some
                &&& exists|found: Option<Project>|
                    #![trigger found_at(found, source(registry, cli_type@).projects(store@), cwd@)]
                    found_at(found, source(registry, cli_type@).projects(store@), cwd@)
                        && match found {
                        None => records@.len() == 0 && final(cache).rows() == old(cache).rows(),
                        Some(project) => {
                            &&& lists_sessions(
                                records@,
                                source(registry, cli_type@).sessions(store@, project@.id),
                            )
                            &&& final(cache).rows() == refreshed(
                                old(cache).rows(),
                                old(cache).source(),
                                all_files(store@),
                                refreshes_of(project@.id, views(records@)),
                                None,
                            )
                        },
                    }
                &&& forall|i: int|
                    0 <= i < records.len() ==> (#[trigger] records[i])@.is_of_a_session()
                &&& forall|i: int|
                    0 <= i < records.len() ==> valid_for(
                        final(cache).rows(),
                        (#[trigger] records[i])@.file_path,
                        mtime_at(all_files(store@), records[i]@.file_path),
                    )
            },
            Err(e) => {
                &&& registry.position(cli_type@) is None
                &&& e == HistoryError::UnsupportedCliType
                &&& final(cache).rows() == old(cache).rows()
            },
        },
{
    let provider = match registry.get(cli_type) {
        Some(p) => p,
        None => {
            return Err(HistoryError::UnsupportedCliType);
        },
    };
    let found = provider.find_project_by_cwd(store, cwd);
    let project = match found {
        Some(p) => p,
        None => {
            proof {
                assert(found_at(
                    None::<Project>,
                    source(registry, cli_type@).projects(store@),
                    cwd@,
                ));
            }
            return Ok(Vec::new());
        },
    };
    let records = provider.load_project(store, project.id.as_str());
    let files = store_files(store);
    let ghost rows = cache.rows();
    let ghost items = refreshes_of(project@.id, views(records@));
    let _ = refresh_records(cache, &files, project.id.as_str(), &records, None);
    proof {
        assert(found_at(Some(project), source(registry, cli_type@).projects(store@), cwd@));
        assert forall|i: int| 0 <= i < records.len() implies valid_for(
            cache.rows(),
            (#[trigger] records[i])@.file_path,
            mtime_at(all_files(store@), records[i]@.file_path),
        ) by {
            lemma_refreshed_is_valid(rows, cache.source(), all_files(store@), items, i);
            assert(items[i].record == records[i]@);
        }
    }
    Ok(records)
}

/// Every session of every project is among the items, and every item is a
/// session of its project.
pub open spec fn covers<P: CliHistoryProvider>(
    items: Seq<Refresh>,
    provider: P,
    store: Seq<crate::store::LogDirView>,
) -> bool {
    &&& forall|i: int|
        0 <= i < items.len() ==> provider.sessions(store, (#[trigger] items[i]).project_id).contains(
            items[i].record,
        )
    &&& forall|p: crate::types::ProjectView, s: SessionInfoView|
        #![trigger provider.projects(store).contains(p), provider.sessions(store, p.id).contains(s)]
        provider.projects(store).contains(p) && provider.sessions(store, p.id).contains(s)
            ==> items.contains(Refresh { project_id: p.id, record: s })
}

/// A count, or the most that fits where it does not.
pub open spec fn clipped(n: nat) -> usize {
    if n <= usize::MAX {
        n as usize
    } else {
        usize::MAX
    }
}

/// Records `now` as the time of this start and writes the cache row of
/// every session whose file was modified since the last start and that the
/// cache is not valid for. Says how many rows were written. With an unknown
/// source type the cache stays as it is, the recorded time too.
pub fn refresh_history_on_startup<P: CliHistoryProvider>(
    registry: &ProviderRegistry<P>,
    cli_type: &str,
    cache: &mut MetadataCache,
    store: &LogStore,
    now: i64,
) -> (r: Result<usize, HistoryError>)
    requires
        old(cache).wf(),
    ensures
        final(cache).wf(),
        final(cache).source() == old(cache).source(),
        match r {
            Ok(count) => {
                &&& registry.position(cli_type@) is Some
                &&& final(cache).startup_time() == now
                &&& exists|items: Seq<Refresh>|
                    {
                        &&& #[trigger] covers(items, source(registry, cli_type@), store@)
                        &&& final(cache).rows() == refreshed(
                            old(cache).rows(),
                            old(cache).source(),
                            all_files(store@),
                            items,
                            Some(old(cache).startup_time()),
                        )
                        &&& count == clipped(
                            refresh_count(
                                old(cache).rows(),
                                old(cache).source(),
                                all_files(store@),
                                items,
                                Some(old(cache).startup_time()),
                            ),
                        )
                    }
            },
            Err(e) => {
                &&& registry.position(cli_type@) is None
                &&& e == HistoryError::UnsupportedCliType
                &&& final(cache).rows() == old(cache).rows()
                &&& final(cache).startup_time() == old(cache).startup_time()
            },
        },
{
    let provider = match registry.get(cli_type) {
        Some(p) => p,
        None => {
            return Err(HistoryError::UnsupportedCliType);
        },
    };
    let last = crate::cache::get_last_startup_time(cache);
    crate::cache::update_startup_time(cache, now);
    let projects = provider.list_projects(store, 0);
    let files = store_files(store);
    let ghost rows = cache.rows();
    let ghost tag = cache.source();
    let ghost all = all_files(store@);
    let ghost listed = views(projects@);
    let ghost mut items: Seq<Refresh> = Seq::empty();
    let mut count: usize = 0;
    let mut k: usize = 0;
    while k < projects.len()
        invariant
            k <= projects.len(),
            cache.wf(),
            cache.source() == tag,
            cache.startup_time() == now,
            all == views(files@),
            all == all_files(store@),
            listed == views(projects@),
            cache.rows() == refreshed(rows, tag, all, items, Some(last)),
            count == clipped(refresh_count(rows, tag, all, items, Some(last))),
            forall|i: int|
                0 <= i < items.len() ==> provider.sessions(
                    store@,
                    (#[trigger] items[i]).project_id,
                ).contains(items[i].record),
            forall|j: int, s: SessionInfoView|
                #![trigger listed[j], provider.sessions(store@, listed[j].id).contains(s)]
                0 <= j < k && provider.sessions(store@, listed[j].id).contains(s)
                    ==> items.contains(Refresh { project_id: listed[j].id, record: s }),
        decreases projects.len() - k,
    {
        let project = &projects[k];
        let records = provider.load_project(store, project.id.as_str());
        let written = refresh_records(cache, &files, project.id.as_str(), &records, Some(last));
        let ghost added = refreshes_of(project@.id, views(records@));
        let ghost wanted = provider.sessions(store@, project@.id);
        proof {
            lemma_refreshed_in_parts(rows, tag, all, items, added, Some(last));
            assert(listed[k as int] == project@);
            views(records@).to_multiset_ensures();
            wanted.to_multiset_ensures();
            assert forall|i: int| 0 <= i < (items + added).len() implies provider.sessions(
                store@,
                (#[trigger] (items + added)[i]).project_id,
            ).contains((items + added)[i].record) by {
                if i >= items.len() {
                    let record = views(records@)[i - items.len()];
                    assert(added[i - items.len()] == Refresh { project_id: project@.id, record });
                    assert(views(records@).to_multiset().count(record) > 0);
                    assert(wanted.contains(record));
                }
            }
            assert forall|j: int, s: SessionInfoView|
                #![trigger listed[j], provider.sessions(store@, listed[j].id).contains(s)]
                0 <= j < k + 1 && provider.sessions(store@, listed[j].id).contains(s) implies (
                items + added).contains(Refresh { project_id: listed[j].id, record: s }) by {
                let item = Refresh { project_id: listed[j].id, record: s };
                if j < k {
                    assert(items.contains(item));
                    let at = choose|at: int| 0 <= at < items.len() && items[at] == item;
                    assert((items + added)[at] == item);
                } else {
                    assert(wanted.to_multiset().count(s) > 0);
                    assert(views(records@).contains(s));
                    let at = choose|at: int| 0 <= at < records@.len() && views(records@)[at] == s;
                    assert(added[at] == item);
                    assert((items + added)[items.len() + at] == item);
                }
            }
            items = items + added;
        }
        count = if written > usize::MAX - count {
            usize::MAX
        } else {
            count + written
        };
        k += 1;
    }
    proof {
        let chosen = source(registry, cli_type@);
        assert forall|p: crate::types::ProjectView, s: SessionInfoView|
            #![trigger chosen.projects(store@).contains(p), chosen.sessions(store@, p.id).contains(s)]
            chosen.projects(store@).contains(p) && chosen.sessions(store@, p.id).contains(
                s,
            ) implies items.contains(Refresh { project_id: p.id, record: s }) by {
            let ranked = choose|ranked: Seq<Project>|
                crate::rank::is_ranked(ranked) && #[trigger] views(ranked).to_multiset()
                    == chosen.projects(store@).to_multiset() && projects@ == ranked;
            listed.to_multiset_ensures();
            chosen.projects(store@).to_multiset_ensures();
            assert(listed.to_multiset().count(p) > 0);
            assert(listed.contains(p));
            let j = choose|j: int| 0 <= j < listed.len() && listed[j] == p;
            assert(provider.sessions(store@, listed[j].id).contains(s));
        }
        assert(covers(items, chosen, store@));
    }
    Ok(count)
}

/// The name that a source type is shown by: its tag with an upper-case
/// initial.
pub open spec fn display_name(tag: Seq<char>) -> Seq<char> {
    if tag.len() == 0 {
        tag
    } else {
        tag.update(0, ascii_upper(tag[0]))
    }
}

/// The section of one message: its role in upper case as the heading, then
/// its text. A message without text has no section.
pub open spec fn section_of(message: MessageView) -> Seq<char> {
    if message.text().len() == 0 {
        Seq::empty()
    } else {
        "## "@ + uppercase_text(message.role) + "\n\n"@ + message.text() + "\n\n---\n\n"@
    }
}

/// The sections of the messages, one after the other.
pub open spec fn sections_of(messages: Seq<MessageView>) -> Seq<char>
    decreases messages.len(),
{
    if messages.len() == 0 {
        Seq::empty()
    } else {
        sections_of(messages.drop_last()) + section_of(messages.last())
    }
}

/// A session as a Markdown document: a title with the source's name and the
/// session's id, the working directory, and a section for each message
/// that has text.
pub open spec fn markdown_of(tag: Seq<char>, session: SessionView) -> Seq<char> {
    "# "@ + display_name(tag) + " 会话: "@ + session.info.id + "\n"@ + "路径: "@ + (match session.info.cwd {
        Some(cwd) => cwd,
        None => "未知"@,
    }) + "\n"@ + "\n---\n\n"@ + sections_of(session.messages)
}

/// The name that a source type is shown by.
pub fn display_name_of(tag: &str) -> (r: String)
    ensures
        r@ == display_name(tag@),
{
    let mut chars = chars_of(tag);
    if chars.len() > 0 {
        let first = to_ascii_upper(chars[0]);
        chars[0] = first;
    }
    string_of(&chars)
}

/// Writes a session out as a Markdown document.
pub fn render_markdown(tag: &str, session: &Session) -> (r: String)
    ensures
        r@ == markdown_of(tag@, session@),
{
    let mut out = String::new();
    out.append("# ");
    out.append(display_name_of(tag).as_str());
    out.append(" 会话: ");
    out.append(session.info.id.as_str());
    out.append("\n");
    out.append("路径: ");
    match &session.info.cwd {
        Some(cwd) => out.append(cwd.as_str()),
        None => out.append("未知"),
    }
    out.append("\n");
    out.append("\n---\n\n");
    let ghost head = out@;
    let ghost all = session@.messages;
    let mut k: usize = 0;
    proof {
        assert(all.take(0) =~= Seq::<MessageView>::empty());
        assert(head + sections_of(all.take(0)) =~= head);
    }
    while k < session.messages.len()
        invariant
            k <= session.messages.len(),
            all == views(session.messages@),
            out@ == head + sections_of(all.take(k as int)),
        decreases session.messages.len() - k,
    {
        let message = &session.messages[k];
        let text = message.get_text();
        proof {
            assert(all.take(k + 1).drop_last() =~= all.take(k as int));
            assert(all.take(k + 1).last() == message@);
        }
        if !text.as_str().is_empty() {
            let ghost before = out@;
            out.append("## ");
            out.append(to_uppercase(message.role.as_str()).as_str());
            out.append("\n\n");
            out.append(text.as_str());
            out.append("\n\n---\n\n");
            proof {
                assert(out@ =~= before + section_of(message@));
                assert(head + sections_of(all.take(k as int)) + section_of(message@) =~= head + (
                sections_of(all.take(k as int)) + section_of(message@)));
            }
        } else {
            proof {
                assert(sections_of(all.take(k as int)) + section_of(message@) =~= sections_of(
                    all.take(k as int),
                ));
            }
        }
        k += 1;
    }
    proof {
        assert(all.take(k as int) =~= all);
    }
    out
}

/// The session that a log file holds, as a Markdown document. `file` is
/// the log file as it was read, `None` where it could not be read.
pub fn export_to_markdown<P: CliHistoryProvider>(
    registry: &ProviderRegistry<P>,
    cli_type: &str,
    file: Option<&LogFile>,
) -> (r: Result<String, HistoryError>)
    ensures
        match r {
            Ok(text) => {
                &&& registry.position(cli_type@) is Some
                &&& session_in(source(registry, cli_type@), read_file(file)) is Some
                &&& text@ == markdown_of(
                    cli_type@,
                    session_in(source(registry, cli_type@), read_file(file))->0,
                )
            },
            Err(e) => {
                &&& e == if registry.position(cli_type@) is None {
                    HistoryError::UnsupportedCliType
                } else {
                    HistoryError::SessionNotFound
                }
                &&& registry.position(cli_type@) is None || session_in(
                    source(registry, cli_type@),
                    read_file(file),
                ) is None
            },
        },
{
    let provider = match registry.get(cli_type) {
        Some(p) => p,
        None => {
            return Err(HistoryError::UnsupportedCliType);
        },
    };
    let session = match file {
        Some(f) => provider.load_session(f),
        None => None,
    };
    match session {
        Some(session) => Ok(render_markdown(cli_type, &session)),
        None => Err(HistoryError::SessionNotFound),
    }
}

} // verus!
