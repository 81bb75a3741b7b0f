//! Searching the logs of a store for a keyword.

use vstd::prelude::*;
use crate::listing::{
    file_mentions, first_n, lemma_ranked_elements, lists_sessions, rank_sessions, store_logs,
};
use crate::provider::{search_hit, search_hits};
use crate::seqs::{lemma_select_step, select, views};
use crate::store::{all_logs, LogFile, LogFileView, LogStore};
use crate::text::to_lowercase;
use crate::types::{SessionInfo, SessionInfoView};

verus! {

/// The two formats of logs.
#[derive(Clone, Copy, Debug, PartialEq, Eq)]
pub enum LogFormat {
    /// Records of type `user` and `assistant` with typed content blocks.
    Blocks,
    /// Response items and event messages.
    Events,
}

/// The record of a log file of the given format.
pub open spec fn info_for(format: LogFormat) -> spec_fn(LogFileView) -> Option<SessionInfoView> {
    match format {
        LogFormat::Blocks => crate::claude_provider::info_reader(),
        LogFormat::Events => crate::codex_provider::info_reader(),
    }
}

/// The record of a log file of the given format, if the file is a session
/// worth listing.
pub fn session_info_for(format: LogFormat, file: &LogFile) -> (r: Option<SessionInfo>)
    ensures
        match r {
            Some(record) => info_for(format)(file@) == Some(record@) && record@.is_of_a_session(),
            None => info_for(format)(file@) is None,
        },
{
    match format {
        LogFormat::Blocks => crate::claude_provider::parse_session_info(file),
        LogFormat::Events => crate::codex_provider::parse_session_info(file),
    }
}

/// Searches the log files of a store for a keyword: the sessions one of whose
/// lines holds the keyword, whatever the case of either, newest first. Only
/// the first `limit` sessions found are kept.
pub fn search_files(format: LogFormat, store: &LogStore, keyword: &str, limit: usize) -> (r: Vec<
    SessionInfo,
>)
    ensures
        lists_sessions(r@, search_hits(all_logs(store@), info_for(format), keyword@, limit)),
        r.len() <= limit,
        forall|i: int| 0 <= i < r.len() ==> (#[trigger] r[i])@.is_of_a_session(),
{
    let needle = to_lowercase(keyword);
    let files = store_logs(store);
    let ghost all = all_logs(store@);
    let ghost pick = search_hit(info_for(format), needle@);
    let mut found: Vec<SessionInfo> = Vec::new();
    let mut k: usize = 0;
    proof {
        assert(all.take(0) =~= Seq::<LogFileView>::empty());
        assert(views(found@) =~= first_n(select(all.take(0), pick), limit as int));
    }
    while k < files.len()
        invariant
            k <= files.len(),
            all == views(files@),
            pick == search_hit(info_for(format), needle@),
            found.len() <= limit,
            views(found@) == first_n(select(all.take(k as int), pick), limit as int),
            forall|i: int| 0 <= i < found.len() ==> (#[trigger] found[i])@.is_of_a_session(),
        decreases files.len() - k,
    {
        let ghost so_far = select(all.take(k as int), pick);
        proof {
            lemma_select_step(all, pick, k as int);
            assert(all[k as int] == files@[k as int]@);
        }
        if found.len() < limit {
            let hit = if file_mentions(files[k], needle.as_str()) {
                session_info_for(format, files[k])
            } else {
                None
            };
            match hit {
                Some(record) => {
                    proof {
                        assert(views(found@) == so_far);
                        assert(views(found@.push(record)) =~= so_far.push(record@));
                    }
                    found.push(record);
                },
                None => {},
            }
        } else {
            proof {
                let next = select(all.take(k + 1), pick);
                assert(first_n(next, limit as int) =~= first_n(so_far, limit as int));
            }
        }
        k += 1;
    }
    proof {
        assert(all.take(k as int) =~= all);
    }
    let ghost hits = found@;
    let r = rank_sessions(found);
    proof {
        assert forall|i: int| 0 <= i < r.len() implies (#[trigger] r[i])@.is_of_a_session() by {
            lemma_ranked_elements(r@, hits, i);
        }
    }
    r
}

} // verus!
