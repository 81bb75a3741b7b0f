use liangmu_history::any_provider::AnyProvider;
use liangmu_history::claude_provider::{get_project_cwd, ClaudeProvider};
use liangmu_history::codex_provider::{scan_sessions_by_cwd, CodexProvider};
use liangmu_history::listing::get_file_mtime;
use liangmu_history::provider::{CliHistoryProvider, ProviderRegistry};
use liangmu_history::store::{is_log_name, logs_of, LogDir, LogFile, LogStore};
use liangmu_history::types::TrashManifest;

const SECOND: u64 = 1_000_000_000;

fn file(dir: &str, stem: &str, modified: u64, text: &str) -> LogFile {
    LogFile {
        path: format!("/logs/{}/{}.jsonl", dir, stem),
        name: format!("{}.jsonl", stem),
        stem: Some(stem.to_string()),
        modified,
        content: text.as_bytes().to_vec(),
    }
}

fn user(ts: &str, cwd: &str, text: &str) -> String {
    format!(
        r#"{{"type":"user","timestamp":"{}","cwd":"{}","message":{{"role":"user","content":"{}"}}}}"#,
        ts, cwd, text
    )
}

fn reply(ts: &str, text: &str) -> String {
    format!(
        r#"{{"type":"assistant","timestamp":"{}","message":{{"role":"assistant","content":[{{"type":"text","text":"{}"}}]}}}}"#,
        ts, text
    )
}

/// A block log with `turns` user messages, the last record at `day`.
fn chat(cwd: &str, day: &str, turns: usize, word: &str) -> String {
    let mut lines = Vec::new();
    for t in 0..turns {
        lines.push(user(&format!("{}T10:{:02}:00Z", day, t), cwd, &format!("question {}", t)));
        lines.push(reply(&format!("{}T10:{:02}:30Z", day, t), word));
    }
    lines.join("\n")
}

fn block_store() -> LogStore {
    LogStore {
        dirs: vec![
            LogDir {
                name: "C--proj".to_string(),
                modified: 100 * SECOND,
                files: vec![
                    file("C--proj", "s1", 10 * SECOND, &chat("C:\\\\proj", "2024-01-01", 2, "apples")),
                    file("C--proj", "s2", 20 * SECOND, &chat("C:\\\\proj", "2024-03-01", 3, "Bananas")),
                    file("C--proj", "s3", 30 * SECOND, &chat("C:\\\\proj", "2024-02-01", 1, "cherries")),
                    file("C--proj", "agent-7", 40 * SECOND, &chat("C:\\\\proj", "2024-04-01", 5, "bananas")),
                    file("C--proj", "empty", 50 * SECOND, ""),
                ],
            },
            LogDir {
                name: "home-me".to_string(),
                modified: 300 * SECOND,
                files: vec![file("home-me", "t1", 60 * SECOND, &chat("/home/me", "2024-05-01", 2, "bananas"))],
            },
            LogDir { name: "bare".to_string(), modified: 200 * SECOND, files: vec![] },
        ],
    }
}

fn meta(ts: &str, cwd: &str) -> String {
    format!(r#"{{"type":"session_meta","timestamp":"{}","payload":{{"cwd":"{}"}}}}"#, ts, cwd)
}

fn event(ts: &str, kind: &str, text: &str) -> String {
    format!(
        r#"{{"type":"event_msg","timestamp":"{}","payload":{{"type":"{}","message":"{}"}}}}"#,
        ts, kind, text
    )
}

fn events(cwd: Option<&str>, day: &str, word: &str) -> String {
    let mut lines = Vec::new();
    if let Some(c) = cwd {
        lines.push(meta(&format!("{}T09:00:00Z", day), c));
    }
    lines.push(event(&format!("{}T09:00:01Z", day), "user_message", "hello"));
    lines.push(event(&format!("{}T09:00:02Z", day), "agent_message", word));
    lines.join("\n")
}

fn event_store() -> LogStore {
    LogStore {
        dirs: vec![
            LogDir {
                name: "01".to_string(),
                modified: 0,
                files: vec![
                    file("01", "rollout-a", 10 * SECOND, &events(Some("c:/proj"), "2024-01-01", "apples")),
                    file("01", "rollout-b", 50 * SECOND, &events(Some("C:\\\\proj"), "2024-03-01", "Bananas")),
                    file("01", "rollout-c", 30 * SECOND, &events(Some("/home/me"), "2024-02-01", "bananas")),
                ],
            },
            LogDir {
                name: "02".to_string(),
                modified: 0,
                files: vec![
                    file("02", "rollout-d", 40 * SECOND, &events(None, "2024-04-01", "cherries")),
                    file("02", "rollout-e", 20 * SECOND, &events(Some("c:/proj"), "2024-02-15", "dates")),
                ],
            },
        ],
    }
}

fn ids(records: &[liangmu_history::types::SessionInfo]) -> Vec<&str> {
    records.iter().map(|r| r.id.as_str()).collect()
}

#[test]
fn block_projects_are_listed_last_modified_first() {
    let provider = ClaudeProvider::new("alpha", "/logs");
    let projects = provider.list_projects(&block_store(), 0);
    let names: Vec<&str> = projects.iter().map(|p| p.id.as_str()).collect();
    assert_eq!(names, vec!["home-me", "bare", "C--proj"]);
    assert_eq!(projects[0].cwd.as_deref(), Some("/home/me"));
    assert_eq!(projects[0].last_modified, 300 * SECOND);
    assert_eq!(projects[0].session_count, 1);
    assert_eq!(projects[0].last_activity, None);
    assert_eq!(projects[1].cwd, None);
    assert_eq!(projects[1].session_count, 0);
    assert_eq!(projects[2].cwd.as_deref(), Some("C:\\proj"));
    assert_eq!(projects[2].session_count, 5);
}

#[test]
fn block_projects_are_cut_at_the_limit() {
    let provider = ClaudeProvider::new("alpha", "/logs");
    let projects = provider.list_projects(&block_store(), 2);
    let names: Vec<&str> = projects.iter().map(|p| p.id.as_str()).collect();
    assert_eq!(names, vec!["home-me", "bare"]);
    assert_eq!(provider.list_projects(&block_store(), 9).len(), 3);
    assert!(provider.list_projects(&LogStore { dirs: vec![] }, 0).is_empty());
}

#[test]
fn block_project_is_found_whatever_case_and_separators() {
    let provider = ClaudeProvider::new("alpha", "/logs");
    let store = block_store();
    let a = provider.find_project_by_cwd(&store, "C:/proj").unwrap();
    let b = provider.find_project_by_cwd(&store, "c:\\proj").unwrap();
    assert_eq!(a, b);
    assert_eq!(a.id, "C--proj");
    assert_eq!(provider.find_project_by_cwd(&store, "/HOME/ME").unwrap().id, "home-me");
    assert_eq!(provider.find_project_by_cwd(&store, "/home/you"), None);
}

#[test]
fn block_listing_leaves_out_subtasks_and_short_sessions() {
    let provider = ClaudeProvider::new("alpha", "/logs");
    let records = provider.load_project(&block_store(), "C--proj");
    assert_eq!(ids(&records), vec!["s2", "s1"]);
    for r in &records {
        assert!(r.message_count >= 1);
        assert!(r.user_turn_count >= 1);
        assert!(r.first_timestamp.is_some() || r.last_timestamp.is_some());
        assert!(r.file_size > 0);
    }
    assert!(provider.load_project(&block_store(), "home-you").is_empty());
    assert!(provider.load_project(&block_store(), "bare").is_empty());
}

#[test]
fn block_search_ignores_case_and_sorts_newest_first() {
    let provider = ClaudeProvider::new("alpha", "/logs");
    let found = provider.search(&block_store(), "BANANAS", 10);
    assert_eq!(ids(&found), vec!["t1", "agent-7", "s2"]);
    assert!(provider.search(&block_store(), "durian", 10).is_empty());
}

#[test]
fn block_search_stops_at_the_limit() {
    let provider = ClaudeProvider::new("alpha", "/logs");
    let found = provider.search(&block_store(), "bananas", 2);
    assert_eq!(ids(&found), vec!["agent-7", "s2"]);
    assert!(provider.search(&block_store(), "bananas", 0).is_empty());
}

#[test]
fn block_search_finds_sessions_that_a_listing_would_leave_out() {
    let provider = ClaudeProvider::new("alpha", "/logs");
    let found = provider.search(&block_store(), "cherries", 10);
    assert_eq!(ids(&found), vec!["s3"]);
    assert_eq!(found[0].user_turn_count, 1);
}

fn cwd_of(files: Vec<LogFile>) -> Option<String> {
    get_project_cwd(&files.iter().collect())
}

#[test]
fn project_cwd_comes_from_the_first_line_that_mentions_one() {
    let files = vec![
        file("d", "a", 0, r#"{"type":"summary"}"#),
        file("d", "b", 0, "{\"note\":1}\n{\"cwd\":\"/first\"}\n{\"cwd\":\"/second\"}"),
        file("d", "c", 0, r#"{"cwd":"/third"}"#),
    ];
    assert_eq!(cwd_of(files).as_deref(), Some("/first"));
    let broken = vec![file("d", "a", 0, "{\"cwd\": oops"), file("d", "c", 0, r#"{"cwd":"/third"}"#)];
    assert_eq!(cwd_of(broken), None);
    let unnamed = vec![
        file("d", "a", 0, r#"{"inner":{"cwd":"/nested"}}"#),
        file("d", "c", 0, r#"{"cwd":"/third"}"#),
    ];
    assert_eq!(cwd_of(unnamed), None);
    let escaped = vec![
        file("d", "a", 0, r#"{"text":"the \"cwd\" key"}"#),
        file("d", "c", 0, r#"{"cwd":"/third"}"#),
    ];
    assert_eq!(cwd_of(escaped).as_deref(), Some("/third"));
    assert_eq!(cwd_of(Vec::new()), None);
}

#[test]
fn a_log_file_has_the_extension_jsonl() {
    assert!(is_log_name("s1.jsonl"));
    assert!(is_log_name("a.b.jsonl"));
    assert!(is_log_name("..jsonl"));
    assert!(is_log_name("\u{4f1a}\u{8bdd}.jsonl"));
    assert!(!is_log_name(".jsonl"));
    assert!(!is_log_name("jsonl"));
    assert!(!is_log_name("s1.json"));
    assert!(!is_log_name("s1.jsonl.bak"));
    assert!(!is_log_name("s1.JSONL"));
    assert!(!is_log_name("s1jsonl"));
    assert!(!is_log_name(""));
    for name in ["s1.jsonl", ".jsonl", "a.b.jsonl", "..jsonl", "x.jsonl.", "jsonl", "a.txt"] {
        let ext = std::path::Path::new(name).extension().map(|e| e == "jsonl").unwrap_or(false);
        assert_eq!(is_log_name(name), ext, "{}", name);
    }
}

fn other(dir: &str, name: &str, modified: u64, text: &str) -> LogFile {
    LogFile {
        path: format!("/logs/{}/{}", dir, name),
        name: name.to_string(),
        stem: Some(name.to_string()),
        modified,
        content: text.as_bytes().to_vec(),
    }
}

#[test]
fn files_that_are_no_logs_are_not_listed() {
    let mut store = block_store();
    let notes = chat("/elsewhere", "2024-06-01", 4, "bananas");
    store.dirs[0].files.insert(0, other("C--proj", "notes.txt", 70 * SECOND, &notes));
    store.dirs[0].files.push(other("C--proj", "s5.jsonl.bak", 80 * SECOND, &notes));
    assert_eq!(logs_of(&store.dirs[0].files).len(), 5);
    let provider = ClaudeProvider::new("alpha", "/logs");
    let projects = provider.list_projects(&store, 0);
    assert_eq!(projects[2].id, "C--proj");
    assert_eq!(projects[2].session_count, 5);
    assert_eq!(projects[2].cwd.as_deref(), Some("C:\\proj"));
    assert_eq!(ids(&provider.load_project(&store, "C--proj")), vec!["s2", "s1"]);
    assert_eq!(ids(&provider.search(&store, "bananas", 10)), vec!["t1", "agent-7", "s2"]);

    let mut store = event_store();
    let stray = events(Some("/stray"), "2024-06-01", "bananas");
    store.dirs[0].files.insert(0, other("01", "rollout-z.txt", 90 * SECOND, &stray));
    let provider = CodexProvider::new("beta", "/logs");
    assert_eq!(scan_sessions_by_cwd(&store, 0).len(), 3);
    assert!(provider.load_project(&store, "/stray").is_empty());
    assert_eq!(ids(&provider.search(&store, "bananas", 10)), vec!["b", "c"]);
}

#[test]
fn block_session_is_loaded_and_paginated() {
    let provider = ClaudeProvider::new("alpha", "/logs");
    let log = file("C--proj", "s9", 0, &chat("/w", "2024-01-01", 10, "x"));
    let session = provider.load_session(&log).unwrap();
    assert_eq!(session.messages.len(), 20);
    assert_eq!(session.real_turn_count(), 10);
    let page = provider.load_session_paginated(&log, 3, 3).unwrap();
    assert!(page.has_middle);
    assert_eq!(page.first.len(), 6);
    assert_eq!(page.last.len(), 6);
    assert_eq!(page.total_turns, 10);
    assert_eq!(page.total_messages, 20);
    assert_eq!(page.first[0].timestamp.as_deref(), Some("2024-01-01T10:00:00Z"));
    assert_eq!(page.last[0].timestamp.as_deref(), Some("2024-01-01T10:07:00Z"));
    let page = provider.load_session_paginated(&log, 5, 5).unwrap();
    assert!(!page.has_middle);
    assert_eq!(page.first.len(), 20);
    assert_eq!(provider.load_session_paginated(&file("d", "e", 0, ""), 3, 3), None);
}

#[test]
fn block_delete_lists_the_session_in_the_manifest() {
    let provider = ClaudeProvider::new("alpha", "/logs");
    let mut manifest = TrashManifest::new();
    let log = file("C--proj", "s1", 0, "x");
    let item = provider.delete_session(
        &mut manifest,
        "C--proj",
        &log,
        Some("/logs/C--proj/file-history/s1".to_string()),
        1_700_000_000,
    );
    assert_eq!(item.session_id, "s1");
    assert_eq!(item.project_name, "C--proj");
    assert_eq!(item.deleted_at, 1_700_000_000);
    assert_eq!(item.dir_name, "s1_1700000000");
    assert_eq!(item.original_file, "/logs/C--proj/s1.jsonl");
    assert_eq!(item.original_file_history.as_deref(), Some("/logs/C--proj/file-history/s1"));
    assert_eq!(manifest.items, vec![item]);
}

#[test]
fn event_projects_are_grouped_by_working_directory() {
    let projects = scan_sessions_by_cwd(&event_store(), 0);
    let names: Vec<&str> = projects.iter().map(|p| p.id.as_str()).collect();
    assert_eq!(names, vec!["C:\\proj", "\u{672a}\u{77e5}\u{76ee}\u{5f55}", "\\home\\me"]);
    assert_eq!(projects[0].cwd.as_deref(), Some("C:\\proj"));
    assert_eq!(projects[0].last_modified, 50 * SECOND);
    assert_eq!(projects[0].session_count, 0);
    assert_eq!(projects[1].last_modified, 40 * SECOND);
    assert_eq!(projects[2].last_modified, 30 * SECOND);
    let top = scan_sessions_by_cwd(&event_store(), 1);
    assert_eq!(top.len(), 1);
    assert_eq!(top[0].id, "C:\\proj");
}

#[test]
fn event_project_is_found_whatever_case_and_separators() {
    let provider = CodexProvider::new("beta", "/logs");
    let store = event_store();
    let a = provider.find_project_by_cwd(&store, "C:/proj").unwrap();
    let b = provider.find_project_by_cwd(&store, "c:\\proj").unwrap();
    assert_eq!(a, b);
    assert_eq!(a.id, "C:\\proj");
    assert_eq!(provider.find_project_by_cwd(&store, "/nowhere"), None);
}

#[test]
fn event_listing_holds_the_sessions_of_the_directory() {
    let provider = CodexProvider::new("beta", "/logs");
    let records = provider.load_project(&event_store(), "c:/proj");
    assert_eq!(ids(&records), vec!["b", "e", "a"]);
    let records = provider.load_project(&event_store(), "C:\\proj");
    assert_eq!(ids(&records), vec!["b", "e", "a"]);
    assert_eq!(ids(&provider.load_project(&event_store(), "/home/me")), vec!["c"]);
    assert!(provider.load_project(&event_store(), "/nowhere").is_empty());
}

#[test]
fn event_listing_never_holds_a_log_without_directory() {
    let provider = CodexProvider::new("beta", "/logs");
    let unknown = "\u{672a}\u{77e5}\u{76ee}\u{5f55}";
    assert!(provider.load_project(&event_store(), unknown).is_empty());
}

#[test]
fn event_search_ignores_case() {
    let provider = CodexProvider::new("beta", "/logs");
    let found = provider.search(&event_store(), "bananas", 10);
    assert_eq!(ids(&found), vec!["b", "c"]);
    assert_eq!(ids(&provider.search(&event_store(), "bananas", 1)), vec!["b"]);
}

#[test]
fn event_delete_names_the_project_by_its_directory() {
    let provider = CodexProvider::new("beta", "/logs");
    let store = event_store();
    let mut manifest = TrashManifest::new();
    let item = provider.delete_session(
        &mut manifest,
        "01",
        &store.dirs[0].files[0],
        Some("/ignored".to_string()),
        5,
    );
    assert_eq!(item.session_id, "a");
    assert_eq!(item.project_name, "c:/proj");
    assert_eq!(item.dir_name, "a_5");
    assert_eq!(item.original_file_history, None);
    let item = provider.delete_session(&mut manifest, "02", &store.dirs[1].files[0], None, 6);
    assert_eq!(item.project_name, "\u{672a}\u{77e5}\u{76ee}\u{5f55}");
    assert_eq!(manifest.items.len(), 2);
}

#[test]
fn providers_say_their_tag_and_directory() {
    let blocks = ClaudeProvider::new("alpha", "/home/me/.alpha");
    assert_eq!(blocks.cli_type(), "alpha");
    assert_eq!(blocks.base_dir(), "/home/me/.alpha");
    let events = CodexProvider::new("beta", "/home/me/.beta");
    assert_eq!(events.cli_type(), "beta");
    assert_eq!(events.base_dir(), "/home/me/.beta");
}

#[test]
fn registry_finds_a_source_by_its_tag() {
    let mut registry: ProviderRegistry<AnyProvider> = ProviderRegistry::new();
    assert!(registry.list_types().is_empty());
    assert!(registry.get("alpha").is_none());
    registry.register(AnyProvider::Blocks(ClaudeProvider::new("alpha", "/a")));
    registry.register(AnyProvider::Events(CodexProvider::new("beta", "/b")));
    registry.register(AnyProvider::Events(CodexProvider::new("alpha", "/c")));
    assert_eq!(registry.list_types(), vec!["alpha", "beta", "alpha"]);
    assert_eq!(registry.get("alpha").unwrap().base_dir(), "/a");
    assert_eq!(registry.get("beta").unwrap().base_dir(), "/b");
    assert!(registry.get("gamma").is_none());
    assert!(registry.get("Alpha").is_none());
}

#[test]
fn file_mtime_is_in_whole_seconds() {
    let store = block_store();
    assert_eq!(get_file_mtime(&store, "/logs/C--proj/s2.jsonl"), 20);
    assert_eq!(get_file_mtime(&store, "/logs/none.jsonl"), 0);
    let odd = LogStore {
        dirs: vec![LogDir {
            name: "d".to_string(),
            modified: 0,
            files: vec![file("d", "x", 2 * SECOND + 999_999_999, "")],
        }],
    };
    assert_eq!(get_file_mtime(&odd, "/logs/d/x.jsonl"), 2);
}
