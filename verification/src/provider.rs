//! What every source of logs offers, and the registry of the sources that
//! are there.

use vstd::prelude::*;
use crate::listing::{
    cwd_key, first_n, lemma_listing_is_newest_first, lemma_one_ranking, lemma_times_tell_apart,
    lists_projects, lists_sessions, log_mentions, project_at, times_tell_apart,
};
use crate::paginate::paginated;
use crate::seqs::{
    first_index, lemma_first_index_is, lemma_first_index_none, select, texts, views,
};
use crate::store::{all_logs, LogDirView, LogFile, LogFileView, LogStore};
use crate::text::{lowercase_text, str_eq};
use crate::types::{
    PaginatedMessages, Project, ProjectView, Session, SessionInfo, SessionInfoView, SessionView,
    TrashItem, TrashItemView, TrashManifest,
};

verus! {

/// The record of a file that a search for `needle` finds.
pub open spec fn search_hit(
    info: spec_fn(LogFileView) -> Option<SessionInfoView>,
    needle: Seq<char>,
) -> spec_fn(LogFileView) -> Option<SessionInfoView> {
    |file: LogFileView|
        if log_mentions(file.content, needle) {
            info(file)
        } else {
            None
        }
}

/// What a search for `keyword` finds among the files: the records of the
/// first `limit` sessions one of whose lines holds the keyword, whatever the
/// case of either.
pub open spec fn search_hits(
    files: Seq<LogFileView>,
    info: spec_fn(LogFileView) -> Option<SessionInfoView>,
    keyword: Seq<char>,
    limit: usize,
) -> Seq<SessionInfoView> {
    first_n(select(files, search_hit(info, lowercase_text(keyword))), limit as int)
}

/// The project that is found at a working directory.
pub open spec fn found_at(found: Option<Project>, projects: Seq<ProjectView>, cwd: Seq<char>)
    -> bool {
    exists|all: Seq<Project>|
        #![trigger lists_projects(all, projects, 0)]
        lists_projects(all, projects, 0) && match found {
            Some(p) => project_at(views(all), cwd) == Some(p@),
            None => project_at(views(all), cwd) is None,
        }
}

/// Where no two different projects were last modified at the same time, the
/// project that is found at a working directory depends on the directory's
/// key alone: two lookups of directories with the same key, that is, of
/// paths that are the same but for case and separators, find the same
/// project or both none.
pub proof fn lemma_cwd_match_is_determined(
    projects: Seq<ProjectView>,
    a: Seq<char>,
    b: Seq<char>,
    first: Option<Project>,
    second: Option<Project>,
)
    requires
        times_tell_apart(projects),
        cwd_key(a) == cwd_key(b),
        found_at(first, projects, a),
        found_at(second, projects, b),
    ensures
        match (first, second) {
            (Some(p), Some(q)) => p@ == q@,
            (None, None) => true,
            _ => false,
        },
{
    let one = choose|all: Seq<Project>|
        #![trigger lists_projects(all, projects, 0)]
        lists_projects(all, projects, 0) && match first {
            Some(p) => project_at(views(all), a) == Some(p@),
            None => project_at(views(all), a) is None,
        };
    let two = choose|all: Seq<Project>|
        #![trigger lists_projects(all, projects, 0)]
        lists_projects(all, projects, 0) && match second {
            Some(p) => project_at(views(all), b) == Some(p@),
            None => project_at(views(all), b) is None,
        };
    lemma_listing_is_newest_first(one, projects);
    lemma_listing_is_newest_first(two, projects);
    lemma_times_tell_apart(views(one), projects);
    lemma_one_ranking(views(one), views(two));
}

/// A source of conversation logs of one format.
pub trait CliHistoryProvider {
    /// The tag of the source type.
    spec fn tag(&self) -> Seq<char>;

    /// The directory under which the source's logs are kept.
    spec fn root(&self) -> Seq<char>;

    /// The record of a log file, where the file is a session worth listing.
    spec fn info(&self) -> spec_fn(LogFileView) -> Option<SessionInfoView>;

    /// The session that a log file holds.
    spec fn session(&self, file: LogFileView) -> Option<SessionView>;

    /// The projects of a store, in no particular order.
    spec fn projects(&self, store: Seq<LogDirView>) -> Seq<ProjectView>;

    /// The sessions of a project that are worth listing, in no particular
    /// order.
    spec fn sessions(&self, store: Seq<LogDirView>, project_id: Seq<char>) -> Seq<SessionInfoView>;

    /// The manifest entry of a session deleted at `now`. The source decides
    /// what the session's id and project are.
    spec fn trashed(
        &self,
        dir_name: Seq<char>,
        file: LogFileView,
        sidecar: Option<Seq<char>>,
        now: u64,
    ) -> TrashItemView;

    /// The tag of the source type.
    fn cli_type(&self) -> (r: &str)
        ensures
            r@ == self.tag(),
    ;

    /// The directory under which the source's logs are kept.
    fn base_dir(&self) -> (r: &str)
        ensures
            r@ == self.root(),
    ;

    /// The record of a log file, if the file is a session worth listing.
    fn session_info(&self, file: &LogFile) -> (r: Option<SessionInfo>)
        ensures
            match r {
                Some(record) => (self.info())(file@) == Some(record@) && record@.is_of_a_session()
                    && file.content.len() > 0,
                None => (self.info())(file@) is None,
            },
    ;

    /// The projects, last modified first; with a limit above 0, only so many
    /// of them.
    fn list_projects(&self, store: &LogStore, limit: usize) -> (r: Vec<Project>)
        ensures
            lists_projects(r@, self.projects(store@), limit),
    ;

    /// The project at a working directory, whatever the case of the path
    /// and the kind of its separators.
    fn find_project_by_cwd(&self, store: &LogStore, cwd: &str) -> (r: Option<Project>)
        ensures
            found_at(r, self.projects(store@), cwd@),
    ;

    /// The sessions of a project that are worth listing, newest first.
    fn load_project(&self, store: &LogStore, project_id: &str) -> (r: Vec<SessionInfo>)
        ensures
            lists_sessions(r@, self.sessions(store@, project_id@)),
            forall|i: int| 0 <= i < r.len() ==> (#[trigger] r[i])@.is_of_a_session(),
    ;

    /// The session that a log file holds, with all its messages.
    fn load_session(&self, file: &LogFile) -> (r: Option<Session>)
        ensures
            match r {
                Some(s) => self.session(file@) == Some(s@),
                None => self.session(file@) is None,
            },
    ;

    /// The first and the last turns of the session that a log file holds.
    fn load_session_paginated(&self, file: &LogFile, first_turns: usize, last_turns: usize) -> (r:
        Option<PaginatedMessages>)
        ensures
            match r {
                Some(page) => self.session(file@) is Some && page@ == paginated(
                    self.session(file@)->0.messages,
                    first_turns,
                    last_turns,
                ),
                None => self.session(file@) is None,
            },
    ;

    /// The sessions one of whose lines holds the keyword, newest first, and
    /// at most `limit` of them.
    fn search(&self, store: &LogStore, keyword: &str, limit: usize) -> (r: Vec<SessionInfo>)
        ensures
            lists_sessions(r@, search_hits(all_logs(store@), self.info(), keyword@, limit)),
            r.len() <= limit,
            forall|i: int| 0 <= i < r.len() ==> (#[trigger] r[i])@.is_of_a_session(),
    ;

    /// Lists a session, deleted at `now`, in the manifest of the trash.
    /// `dir_name` names the directory of the log file, `sidecar` the
    /// session's sidecar directory where it has one.
    fn delete_session(
        &self,
        manifest: &mut TrashManifest,
        dir_name: &str,
        file: &LogFile,
        sidecar: Option<String>,
        now: u64,
    ) -> (item: TrashItem)
        ensures
            item@ == self.trashed(dir_name@, file@, crate::seqs::opt_text(sidecar), now),
            final(manifest)@ == old(manifest)@.push(item@),
    ;

}

/// The sources that are there, by their tags. `P` is the kind of source that
/// the registry holds.
pub struct ProviderRegistry<P: CliHistoryProvider> {
    providers: Vec<P>,
}

/// The sources with the given tag.
pub open spec fn has_tag<P: CliHistoryProvider>(cli_type: Seq<char>) -> spec_fn(P) -> bool {
    |provider: P| provider.tag() == cli_type
}

impl<P: CliHistoryProvider> ProviderRegistry<P> {
    /// The sources, in the order they were registered.
    pub closed spec fn entries(&self) -> Seq<P> {
        self.providers@
    }

    /// The tags of the sources, in the order they were registered.
    pub open spec fn tags(&self) -> Seq<Seq<char>> {
        self.entries().map_values(|provider: P| provider.tag())
    }

    /// Where the first source with the given tag stands.
    pub open spec fn position(&self, cli_type: Seq<char>) -> Option<int> {
        first_index(self.entries(), has_tag::<P>(cli_type))
    }

    /// A registry without sources.
    pub fn new() -> (registry: Self)
        ensures
            registry.entries() == Seq::<P>::empty(),
    {
        ProviderRegistry { providers: Vec::new() }
    }

    /// Registers a source after those that are there.
    pub fn register(&mut self, provider: P)
        ensures
            final(self).entries() == old(self).entries().push(provider),
    {
        self.providers.push(provider);
    }

    /// The first source with the given tag.
    pub fn get(&self, cli_type: &str) -> (r: Option<&P>)
        ensures
            match r {
                Some(p) => {
                    &&& self.position(cli_type@) is Some
                    &&& *p == self.entries()[self.position(cli_type@)->0]
                    &&& p.tag() == cli_type@
                },
                None => self.position(cli_type@) is None,
            },
    {
        let ghost all = self.entries();
        let mut k: usize = 0;
        while k < self.providers.len()
            invariant
                k <= self.providers.len(),
                all == self.providers@,
                forall|j: int| 0 <= j < k ==> !has_tag::<P>(cli_type@)(#[trigger] all[j]),
            decreases self.providers.len() - k,
        {
            if str_eq(self.providers[k].cli_type(), cli_type) {
                proof {
                    assert(has_tag::<P>(cli_type@)(all[k as int]));
                    lemma_first_index_is(all, has_tag::<P>(cli_type@), k as int);
                }
                return Some(&self.providers[k]);
            }
            k += 1;
        }
        proof {
            lemma_first_index_none(all, has_tag::<P>(cli_type@));
        }
        None
    }

    /// The tags of the sources, in the order they were registered.
    pub fn list_types(&self) -> (r: Vec<String>)
        ensures
            texts(r@) == self.tags(),
    {
        let ghost tags = self.tags();
        let mut r: Vec<String> = Vec::new();
        let mut k: usize = 0;
        while k < self.providers.len()
            invariant
                k <= self.providers.len(),
                tags == self.tags(),
                texts(r@) == tags.take(k as int),
            decreases self.providers.len() - k,
        {
            let tag = self.providers[k].cli_type().to_owned();
            proof {
                assert(tags[k as int] == self.providers@[k as int].tag());
                assert(texts(r@.push(tag)) =~= texts(r@).push(tag@));
                assert(tags.take(k + 1) =~= tags.take(k as int).push(tag@));
            }
            r.push(tag);
            k += 1;
        }
        proof {
            assert(tags.take(k as int) =~= tags);
        }
        r
    }
}

} // verus!
