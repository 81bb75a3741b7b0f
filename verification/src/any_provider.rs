//! Either of the two sources, for a registry that holds both.

use vstd::prelude::*;
use crate::claude_provider::ClaudeProvider;
use crate::codex_provider::CodexProvider;
use crate::provider::CliHistoryProvider;
use crate::store::{LogDirView, LogFile, LogFileView, LogStore};
use crate::types::{
    PaginatedMessages, Project, ProjectView, Session, SessionInfo, SessionInfoView, SessionView,
    TrashItem, TrashItemView, TrashManifest,
};

verus! {

/// A source of block logs or a source of event logs.
#[derive(Clone, Debug, PartialEq, Eq)]
pub enum AnyProvider {
    Blocks(ClaudeProvider),
    Events(CodexProvider),
}

impl CliHistoryProvider for AnyProvider {
    open spec fn tag(&self) -> Seq<char> {
        match self {
            AnyProvider::Blocks(p) => p.tag(),
            AnyProvider::Events(p) => p.tag(),
        }
    }

    open spec fn root(&self) -> Seq<char> {
        match self {
            AnyProvider::Blocks(p) => p.root(),
            AnyProvider::Events(p) => p.root(),
        }
    }

    open spec fn info(&self) -> spec_fn(LogFileView) -> Option<SessionInfoView> {
        match self {
            AnyProvider::Blocks(p) => p.info(),
            AnyProvider::Events(p) => p.info(),
        }
    }

    open spec fn session(&self, file: LogFileView) -> Option<SessionView> {
        match self {
            AnyProvider::Blocks(p) => p.session(file),
            AnyProvider::Events(p) => p.session(file),
        }
    }

    open spec fn projects(&self, store: Seq<LogDirView>) -> Seq<ProjectView> {
        match self {
            AnyProvider::Blocks(p) => p.projects(store),
            AnyProvider::Events(p) => p.projects(store),
        }
    }

    open spec fn sessions(&self, store: Seq<LogDirView>, project_id: Seq<char>) -> Seq<
        SessionInfoView,
    > {
        match self {
            AnyProvider::Blocks(p) => p.sessions(store, project_id),
            AnyProvider::Events(p) => p.sessions(store, project_id),
        }
    }

    open spec fn trashed(
        &self,
        dir_name: Seq<char>,
        file: LogFileView,
        sidecar: Option<Seq<char>>,
        now: u64,
    ) -> TrashItemView {
        match self {
            AnyProvider::Blocks(p) => p.trashed(dir_name, file, sidecar, now),
            AnyProvider::Events(p) => p.trashed(dir_name, file, sidecar, now),
        }
    }

    fn cli_type(&self) -> (r: &str) {
        match self {
            AnyProvider::Blocks(p) => p.cli_type(),
            AnyProvider::Events(p) => p.cli_type(),
        }
    }

    fn base_dir(&self) -> (r: &str) {
        match self {
            AnyProvider::Blocks(p) => p.base_dir(),
            AnyProvider::Events(p) => p.base_dir(),
        }
    }

    fn session_info(&self, file: &LogFile) -> (r: Option<SessionInfo>) {
        match self {
            AnyProvider::Blocks(p) => p.session_info(file),
            AnyProvider::Events(p) => p.session_info(file),
        }
    }

    fn list_projects(&self, store: &LogStore, limit: usize) -> (r: Vec<Project>) {
        match self {
            AnyProvider::Blocks(p) => p.list_projects(store, limit),
            AnyProvider::Events(p) => p.list_projects(store, limit),
        }
    }

    fn find_project_by_cwd(&self, store: &LogStore, cwd: &str) -> (r: Option<Project>) {
        match self {
            AnyProvider::Blocks(p) => p.find_project_by_cwd(store, cwd),
            AnyProvider::Events(p) => p.find_project_by_cwd(store, cwd),
        }
    }

    fn load_project(&self, store: &LogStore, project_id: &str) -> (r: Vec<SessionInfo>) {
        match self {
            AnyProvider::Blocks(p) => p.load_project(store, project_id),
            AnyProvider::Events(p) => p.load_project(store, project_id),
        }
    }

    fn load_session(&self, file: &LogFile) -> (r: Option<Session>) {
        match self {
            AnyProvider::Blocks(p) => p.load_session(file),
            AnyProvider::Events(p) => p.load_session(file),
        }
    }

    fn load_session_paginated(&self, file: &LogFile, first_turns: usize, last_turns: usize) -> (r:
        Option<PaginatedMessages>) {
        match self {
            AnyProvider::Blocks(p) => p.load_session_paginated(file, first_turns, last_turns),
            AnyProvider::Events(p) => p.load_session_paginated(file, first_turns, last_turns),
        }
    }

    fn search(&self, store: &LogStore, keyword: &str, limit: usize) -> (r: Vec<SessionInfo>) {
        match self {
            AnyProvider::Blocks(p) => p.search(store, keyword, limit),
            AnyProvider::Events(p) => p.search(store, keyword, limit),
        }
    }

    fn delete_session(
        &self,
        manifest: &mut TrashManifest,
        dir_name: &str,
        file: &LogFile,
        sidecar: Option<String>,
        now: u64,
    ) -> (item: TrashItem) {
        match self {
            AnyProvider::Blocks(p) => p.delete_session(manifest, dir_name, file, sidecar, now),
            AnyProvider::Events(p) => p.delete_session(manifest, dir_name, file, sidecar, now),
        }
    }
}

} // verus!
