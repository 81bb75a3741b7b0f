//! What the two log formats share when projects and sessions are listed:
//! matching a working directory, ranking, and searching.

use vstd::prelude::*;
use crate::lines::{log_lines, slice_views, split_lines};
use crate::rank::{is_ranked, rank};
use crate::seqs::{
    first_index, lemma_first_index_is, lemma_first_index_none, lemma_map_keeps_multiset, views,
};
use crate::store::{all_files, all_logs, logs_of, LogFile, LogFileView, LogStore};
use crate::text::{
    ascii_lower, ascii_upper, chars_of, decode_text, lowercase_text, replace_char, str_contains,
    str_eq, string_of, text_contains, text_of_bytes, to_ascii_lower, to_lowercase,
};
use crate::rank::Ranked;
use vstd::seq_lib::to_multiset_build;
use crate::types::{Project, ProjectView, SessionInfo, SessionInfoView};

verus! {

/// A character of a path as it counts for matching: a backslash is a
/// slash, and an upper-case ASCII letter is its lower-case form.
pub open spec fn fold_char(c: char) -> char {
    if c == '\\' {
        '/'
    } else {
        ascii_lower(c)
    }
}

/// A path with forward slashes and lower-case ASCII letters.
pub open spec fn folded(cwd: Seq<char>) -> Seq<char> {
    cwd.map_values(|c: char| fold_char(c))
}

/// What a working directory is matched by: its path with forward slashes,
/// in lower case. ASCII letters are lowered here, letter by letter; what
/// case means beyond ASCII is left to the lowercase form of the whole.
pub open spec fn cwd_key(cwd: Seq<char>) -> Seq<char> {
    lowercase_text(folded(cwd))
}

/// What a working directory is matched by.
pub fn cwd_key_of(cwd: &str) -> (key: String)
    ensures
        key@ == cwd_key(cwd@),
{
    let mut chars = chars_of(cwd);
    let n = chars.len();
    let mut k: usize = 0;
    while k < n
        invariant
            n == chars.len(),
            n == cwd@.len(),
            k <= n,
            forall|j: int| 0 <= j < k ==> chars@[j] == fold_char(cwd@[j]),
            forall|j: int| k <= j < n ==> chars@[j] == cwd@[j],
        decreases n - k,
    {
        let c = chars[k];
        let folded = if c == '\\' {
            '/'
        } else {
            to_ascii_lower(c)
        };
        chars[k] = folded;
        k += 1;
    }
    proof {
        assert(chars@ =~= folded(cwd@));
    }
    let plain = string_of(&chars);
    to_lowercase(plain.as_str())
}

/// The projects whose working directory has the given key.
pub open spec fn at_cwd(key: Seq<char>) -> spec_fn(ProjectView) -> bool {
    |p: ProjectView| p.cwd is Some && cwd_key(p.cwd->0) == key
}

/// The first of the projects that is at the given working directory.
pub open spec fn project_at(projects: Seq<ProjectView>, cwd: Seq<char>) -> Option<ProjectView> {
    match first_index(projects, at_cwd(cwd_key(cwd))) {
        Some(i) => Some(projects[i]),
        None => None,
    }
}

/// The first of the projects that is at the given working directory,
/// whatever the case of the path and the kind of its separators.
pub fn find_by_cwd(projects: Vec<Project>, cwd: &str) -> (r: Option<Project>)
    ensures
        match r {
            Some(p) => project_at(views(projects@), cwd@) == Some(p@),
            None => project_at(views(projects@), cwd@) is None,
        },
{
    let key = cwd_key_of(cwd);
    let ghost all = views(projects@);
    let mut rest = projects;
    let mut k: usize = 0;
    while k < rest.len()
        invariant
            k <= rest.len(),
            rest@ == projects@,
            all == views(projects@),
            key@ == cwd_key(cwd@),
            forall|j: int| 0 <= j < k ==> !at_cwd(key@)(#[trigger] all[j]),
        decreases rest.len() - k,
    {
        let hit = match &rest[k].cwd {
            Some(c) => {
                let own = cwd_key_of(c.as_str());
                str_eq(own.as_str(), key.as_str())
            },
            None => false,
        };
        if hit {
            proof {
                assert(at_cwd(key@)(all[k as int]));
                lemma_first_index_is(all, at_cwd(key@), k as int);
            }
            let found = rest.remove(k);
            return Some(found);
        }
        k += 1;
    }
    proof {
        lemma_first_index_none(all, at_cwd(key@));
    }
    None
}

/// The first `n` elements, or all where there are fewer.
pub open spec fn first_n<T>(s: Seq<T>, n: int) -> Seq<T> {
    if 0 <= n < s.len() {
        s.take(n)
    } else {
        s
    }
}

/// `listed` holds the given records, newest first.
pub open spec fn lists_sessions(listed: Seq<SessionInfo>, records: Seq<SessionInfoView>) -> bool {
    &&& is_ranked(listed)
    &&& views(listed).to_multiset() == records.to_multiset()
}

/// `listed` holds the given projects, newest first; with a limit above 0,
/// only so many of the newest.
pub open spec fn lists_projects(listed: Seq<Project>, projects: Seq<ProjectView>, limit: usize)
    -> bool {
    exists|all: Seq<Project>|
        {
            &&& is_ranked(all)
            &&& #[trigger] views(all).to_multiset() == projects.to_multiset()
            &&& listed == if limit > 0 {
                first_n(all, limit as int)
            } else {
                all
            }
        }
}

/// Puts sessions in listing order.
pub fn rank_sessions(found: Vec<SessionInfo>) -> (r: Vec<SessionInfo>)
    ensures
        lists_sessions(r@, views(found@)),
        r@.to_multiset() == found@.to_multiset(),
        r@.len() == found@.len(),
{
    let r = rank(found);
    proof {
        lemma_map_keeps_multiset(r@, found@, |s: SessionInfo| s@);
    }
    r
}

/// Every element of a ranked sequence is an element of the sequence that was
/// ranked.
pub proof fn lemma_ranked_elements<T>(r: Seq<T>, found: Seq<T>, i: int)
    requires
        r.to_multiset() == found.to_multiset(),
        0 <= i < r.len(),
    ensures
        found.contains(r[i]),
{
    r.to_multiset_ensures();
    found.to_multiset_ensures();
    assert(r.to_multiset().count(r[i]) > 0);
}

/// Puts projects in listing order and keeps, with a limit above 0, only so
/// many of the newest.
pub fn top_projects(projects: Vec<Project>, limit: usize) -> (r: Vec<Project>)
    ensures
        lists_projects(r@, views(projects@), limit),
{
    let mut ranked = rank(projects);
    let ghost all = ranked@;
    proof {
        lemma_map_keeps_multiset(all, projects@, |p: Project| p@);
        assert(views(all).to_multiset() == views(projects@).to_multiset());
    }
    if limit > 0 && ranked.len() > limit {
        ranked.truncate(limit);
    }
    proof {
        assert(ranked@ =~= if limit > 0 {
            first_n(all, limit as int)
        } else {
            all
        });
    }
    ranked
}

/// All files of a store, directory by directory.
pub fn store_files(store: &LogStore) -> (files: Vec<&LogFile>)
    ensures
        views(files@) == all_files(store@),
{
    let ghost dirs = store@;
    let mut files: Vec<&LogFile> = Vec::new();
    let mut d: usize = 0;
    proof {
        assert(dirs.take(0) =~= Seq::<crate::store::LogDirView>::empty());
        assert(views(files@) =~= all_files(dirs.take(0)));
    }
    while d < store.dirs.len()
        invariant
            d <= store.dirs.len(),
            dirs == views(store.dirs@),
            views(files@) == all_files(dirs.take(d as int)),
        decreases store.dirs.len() - d,
    {
        let dir = &store.dirs[d];
        let ghost before = views(files@);
        let mut f: usize = 0;
        proof {
            assert(dirs[d as int].files == views(dir.files@));
            assert(views(dir.files@).take(0) =~= Seq::<LogFileView>::empty());
            assert(before + views(dir.files@).take(0) =~= before);
        }
        while f < dir.files.len()
            invariant
                f <= dir.files.len(),
                views(files@) == before + views(dir.files@).take(f as int),
            decreases dir.files.len() - f,
        {
            let file = &dir.files[f];
            proof {
                assert(views(files@.push(file)) =~= views(files@).push(file@));
                assert(views(dir.files@).take(f + 1) =~= views(dir.files@).take(f as int).push(
                    file@,
                ));
                assert(before + views(dir.files@).take(f as int).push(file@) =~= (before + views(
                    dir.files@,
                ).take(f as int)).push(file@));
            }
            files.push(file);
            f += 1;
        }
        proof {
            assert(views(dir.files@).take(f as int) =~= views(dir.files@));
            assert(dirs.take(d + 1).drop_last() =~= dirs.take(d as int));
            assert(dirs.take(d + 1).last() == dirs[d as int]);
        }
        d += 1;
    }
    proof {
        assert(dirs.take(d as int) =~= dirs);
    }
    files
}

/// All log files of a store, directory by directory.
pub fn store_logs(store: &LogStore) -> (files: Vec<&LogFile>)
    ensures
        views(files@) == all_logs(store@),
{
    let ghost dirs = store@;
    let mut files: Vec<&LogFile> = Vec::new();
    let mut d: usize = 0;
    proof {
        assert(dirs.take(0) =~= Seq::<crate::store::LogDirView>::empty());
        assert(views(files@) =~= all_logs(dirs.take(0)));
    }
    while d < store.dirs.len()
        invariant
            d <= store.dirs.len(),
            dirs == views(store.dirs@),
            views(files@) == all_logs(dirs.take(d as int)),
        decreases store.dirs.len() - d,
    {
        let mut found = logs_of(&store.dirs[d].files);
        proof {
            assert(dirs[d as int].files == views(store.dirs@[d as int].files@));
            assert(dirs.take(d + 1).drop_last() =~= dirs.take(d as int));
            assert(dirs.take(d + 1).last() == dirs[d as int]);
            assert(views(files@ + found@) =~= views(files@) + views(found@));
        }
        files.append(&mut found);
        d += 1;
    }
    proof {
        assert(dirs.take(d as int) =~= dirs);
    }
    files
}

/// The modification time, in seconds, of the file of a store with the given
/// path; 0 where the store holds none.
pub fn get_file_mtime(store: &LogStore, path: &str) -> (r: i64)
    ensures
        r == crate::store::mtime_at(all_files(store@), path@),
{
    let files = store_files(store);
    crate::store::mtime_among(&files, path)
}

/// The line is text that holds `needle` once it is put in lower case.
pub open spec fn line_mentions(line: Seq<u8>, needle: Seq<char>) -> bool {
    match text_of_bytes(line) {
        Some(text) => text_contains(lowercase_text(text), needle),
        None => false,
    }
}

/// One of the log's lines holds `needle`, whatever the line's case.
pub open spec fn log_mentions(content: Seq<u8>, needle: Seq<char>) -> bool {
    exists|i: int|
        0 <= i < log_lines(content).len() && line_mentions(#[trigger] log_lines(content)[i], needle)
}

/// Does one of the file's lines hold `needle`, whatever the line's case?
pub fn file_mentions(file: &LogFile, needle: &str) -> (r: bool)
    ensures
        r == log_mentions(file@.content, needle@),
{
    let lines = split_lines(file.content.as_slice());
    let ghost all = log_lines(file.content@);
    let mut k: usize = 0;
    while k < lines.len()
        invariant
            k <= lines.len(),
            all == slice_views(lines@),
            all == log_lines(file@.content),
            forall|i: int| 0 <= i < k ==> !line_mentions(#[trigger] all[i], needle@),
        decreases lines.len() - k,
    {
        proof {
            assert(all[k as int] == lines@[k as int]@);
        }
        match decode_text(lines[k]) {
            Some(text) => {
                let lowered = to_lowercase(text);
                if str_contains(lowered.as_str(), needle) {
                    proof {
                        assert(line_mentions(all[k as int], needle@));
                    }
                    return true;
                }
            },
            None => {},
        }
        k += 1;
    }
    false
}

/// Two working directories that differ only in the case of ASCII letters
/// and in the kind of their separators have the same key.
pub proof fn lemma_cwd_key_ignores_case_and_separators(a: Seq<char>, b: Seq<char>)
    requires
        a.len() == b.len(),
        forall|i: int| 0 <= i < a.len() ==> fold_char(#[trigger] a[i]) == fold_char(b[i]),
    ensures
        cwd_key(a) == cwd_key(b),
{
    assert(folded(a) =~= folded(b));
}

/// A working directory is matched whatever its separators are.
pub proof fn lemma_cwd_match_ignores_separators(projects: Seq<ProjectView>, cwd: Seq<char>)
    ensures
        project_at(projects, replace_char(cwd, '\\', '/')) == project_at(projects, cwd),
        project_at(projects, replace_char(cwd, '/', '\\')) == project_at(projects, cwd),
{
    lemma_cwd_key_ignores_case_and_separators(replace_char(cwd, '\\', '/'), cwd);
    lemma_cwd_key_ignores_case_and_separators(replace_char(cwd, '/', '\\'), cwd);
}

/// A working directory is matched whatever the case of its ASCII letters
/// is.
pub proof fn lemma_cwd_match_ignores_ascii_case(projects: Seq<ProjectView>, cwd: Seq<char>)
    ensures
        project_at(projects, cwd.map_values(|c: char| ascii_lower(c))) == project_at(projects, cwd),
        project_at(projects, cwd.map_values(|c: char| ascii_upper(c))) == project_at(projects, cwd),
{
    lemma_cwd_key_ignores_case_and_separators(cwd.map_values(|c: char| ascii_lower(c)), cwd);
    lemma_cwd_key_ignores_case_and_separators(cwd.map_values(|c: char| ascii_upper(c)), cwd);
}

/// Two working directories with the same key match the same project. The
/// key is the lowercase form of the path, so this is whatever the case of
/// the path is.
pub proof fn lemma_cwd_match_ignores_case(projects: Seq<ProjectView>, a: Seq<char>, b: Seq<char>)
    requires
        cwd_key(a) == cwd_key(b),
    ensures
        project_at(projects, a) == project_at(projects, b),
{
}

/// The projects stand newest first.
pub open spec fn newest_first(projects: Seq<ProjectView>) -> bool {
    forall|i: int, j: int|
        #![trigger projects[i], projects[j]]
        0 <= i < j < projects.len() ==> projects[j].last_modified <= projects[i].last_modified
}

/// No two different projects were last modified at the same time.
pub open spec fn times_tell_apart(projects: Seq<ProjectView>) -> bool {
    forall|i: int, j: int|
        #![trigger projects[i], projects[j]]
        0 <= i < projects.len() && 0 <= j < projects.len() && projects[i].last_modified
            == projects[j].last_modified ==> projects[i] == projects[j]
}

/// Where no two different projects were last modified at the same time,
/// there is one way only to list them newest first.
pub proof fn lemma_one_ranking(s: Seq<ProjectView>, t: Seq<ProjectView>)
    requires
        s.to_multiset() == t.to_multiset(),
        newest_first(s),
        newest_first(t),
        times_tell_apart(s),
    ensures
        s == t,
    decreases s.len(),
{
    s.to_multiset_ensures();
    t.to_multiset_ensures();
    if s.len() == 0 {
        assert(s =~= t);
    } else {
        let x = s.last();
        let y = t.last();
        assert(s.contains(x)) by {
            assert(s[s.len() - 1] == x);
        }
        assert(t.contains(y)) by {
            assert(t[t.len() - 1] == y);
        }
        assert(t.contains(x)) by {
            assert(s.to_multiset().count(x) > 0);
            assert(t.to_multiset().count(x) > 0);
        }
        assert(s.contains(y)) by {
            assert(t.to_multiset().count(y) > 0);
            assert(s.to_multiset().count(y) > 0);
        }
        let j = choose|j: int| 0 <= j < t.len() && t[j] == x;
        let i = choose|i: int| 0 <= i < s.len() && s[i] == y;
        assert(t[t.len() - 1].last_modified <= t[j].last_modified);
        assert(s[s.len() - 1].last_modified <= s[i].last_modified);
        assert(s[i] == s[s.len() - 1]);
        assert(x == y);
        let s1 = s.drop_last();
        let t1 = t.drop_last();
        assert(s =~= s1.push(x));
        assert(t =~= t1.push(x));
        to_multiset_build(s1, x);
        to_multiset_build(t1, x);
        assert(s1.to_multiset() =~= s.to_multiset().remove(x));
        assert(t1.to_multiset() =~= t.to_multiset().remove(x));
        assert forall|a: int, b: int|
            #![trigger s1[a], s1[b]]
            0 <= a < s1.len() && 0 <= b < s1.len() && s1[a].last_modified
                == s1[b].last_modified implies s1[a] == s1[b] by {
            assert(s1[a] == s[a] && s1[b] == s[b]);
        }
        assert forall|a: int, b: int|
            #![trigger s1[a], s1[b]]
            0 <= a < b < s1.len() implies s1[b].last_modified <= s1[a].last_modified by {
            assert(s1[a] == s[a] && s1[b] == s[b]);
        }
        assert forall|a: int, b: int|
            #![trigger t1[a], t1[b]]
            0 <= a < b < t1.len() implies t1[b].last_modified <= t1[a].last_modified by {
            assert(t1[a] == t[a] && t1[b] == t[b]);
        }
        lemma_one_ranking(s1, t1);
    }
}

/// A listing of projects without limit, as views: it holds the projects
/// newest first.
pub proof fn lemma_listing_is_newest_first(listed: Seq<Project>, projects: Seq<ProjectView>)
    requires
        lists_projects(listed, projects, 0),
    ensures
        views(listed).to_multiset() == projects.to_multiset(),
        newest_first(views(listed)),
{
    let all = choose|all: Seq<Project>|
        is_ranked(all) && #[trigger] views(all).to_multiset() == projects.to_multiset() && listed
            == all;
    let v = views(listed);
    assert forall|i: int, j: int|
        #![trigger v[i], v[j]]
        0 <= i < j < v.len() implies v[j].last_modified <= v[i].last_modified by {
        assert(listed[i].ranks_before(&listed[j]));
    }
}

/// What holds of the elements of one sequence holds of those of another
/// with the same elements: no two different projects have the same time.
pub proof fn lemma_times_tell_apart(s: Seq<ProjectView>, t: Seq<ProjectView>)
    requires
        s.to_multiset() == t.to_multiset(),
        times_tell_apart(t),
    ensures
        times_tell_apart(s),
{
    s.to_multiset_ensures();
    t.to_multiset_ensures();
    assert forall|i: int, j: int|
        #![trigger s[i], s[j]]
        0 <= i < s.len() && 0 <= j < s.len() && s[i].last_modified
            == s[j].last_modified implies s[i] == s[j] by {
        assert(s.contains(s[i]));
        assert(s.contains(s[j]));
        assert(t.contains(s[i])) by {
            assert(s.to_multiset().count(s[i]) > 0);
            assert(t.to_multiset().count(s[i]) > 0);
        }
        assert(t.contains(s[j])) by {
            assert(s.to_multiset().count(s[j]) > 0);
            assert(t.to_multiset().count(s[j]) > 0);
        }
        let a = choose|a: int| 0 <= a < t.len() && t[a] == s[i];
        let b = choose|b: int| 0 <= b < t.len() && t[b] == s[j];
        assert(t[a] == t[b]);
    }
}

} // verus!
