use liangmu_history::any_provider::AnyProvider;
use liangmu_history::cache::{is_cache_valid, update_cache_entry, MetadataCache, get_last_startup_time};
use liangmu_history::claude_provider::ClaudeProvider;
use liangmu_history::codex_provider::CodexProvider;
use liangmu_history::provider::ProviderRegistry;
use liangmu_history::service::{
    delete_session, display_name_of, export_to_markdown, find_project_by_cwd, list_cli_types,
    list_projects, load_project, load_session, load_session_paginated, refresh_and_load_sessions,
    refresh_history_on_startup, render_markdown, search, HistoryError,
};
use liangmu_history::store::{LogDir, LogFile, LogStore};
use liangmu_history::types::{ContentBlock, Message, Session, SessionInfo, TrashManifest};

const SECOND: u64 = 1_000_000_000;

fn registry() -> ProviderRegistry<AnyProvider> {
    let mut registry = ProviderRegistry::new();
    registry.register(AnyProvider::Blocks(ClaudeProvider::new("alpha", "/a")));
    registry.register(AnyProvider::Events(CodexProvider::new("beta", "/b")));
    registry
}

fn file(stem: &str, modified: u64, text: &str) -> LogFile {
    LogFile {
        path: format!("/logs/demo/{}.jsonl", stem),
        name: format!("{}.jsonl", stem),
        stem: Some(stem.to_string()),
        modified,
        content: text.as_bytes().to_vec(),
    }
}

fn chat(day: &str, turns: usize) -> String {
    let mut lines = Vec::new();
    for t in 0..turns {
        lines.push(format!(
            r#"{{"type":"user","timestamp":"{}T10:{:02}:00Z","cwd":"/work/demo","message":{{"role":"user","content":"question {}"}}}}"#,
            day, t, t
        ));
        lines.push(format!(
            r#"{{"type":"assistant","timestamp":"{}T10:{:02}:30Z","message":{{"role":"assistant","content":[{{"type":"text","text":"answer {}"}}]}}}}"#,
            day, t, t
        ));
    }
    lines.join("\n")
}

fn store() -> LogStore {
    LogStore {
        dirs: vec![LogDir {
            name: "demo".to_string(),
            modified: 500 * SECOND,
            files: vec![
                file("s1", 100 * SECOND, &chat("2024-01-01", 2)),
                file("s2", 200 * SECOND, &chat("2024-02-01", 3)),
                file("s3", 300 * SECOND, &chat("2024-03-01", 2)),
            ],
        }],
    }
}

#[test]
fn unknown_source_type_is_an_error() {
    let registry = registry();
    let store = store();
    let log = file("s1", 0, "");
    let e = HistoryError::UnsupportedCliType;
    assert_eq!(list_projects(&registry, "gamma", &store, 0), Err(e));
    assert_eq!(find_project_by_cwd(&registry, "gamma", &store, "/w"), Err(e));
    assert_eq!(load_project(&registry, "gamma", &store, "demo"), Err(e));
    assert_eq!(load_session(&registry, "gamma", Some(&log)), Err(e));
    assert_eq!(load_session(&registry, "gamma", None), Err(e));
    assert_eq!(load_session_paginated(&registry, "gamma", Some(&log), 3, 3), Err(e));
    assert_eq!(search(&registry, "gamma", &store, "x", 10), Err(e));
    assert_eq!(export_to_markdown(&registry, "gamma", Some(&log)), Err(e));
    let mut manifest = TrashManifest::new();
    assert_eq!(
        delete_session(&registry, "gamma", &mut manifest, "demo", Some(&log), None, 1),
        Err(e)
    );
    assert_eq!(delete_session(&registry, "gamma", &mut manifest, "demo", None, None, 1), Err(e));
    assert!(manifest.items.is_empty());
}

#[test]
fn operations_reach_the_source_with_the_tag() {
    let registry = registry();
    let store = store();
    assert_eq!(list_cli_types(&registry), vec!["alpha", "beta"]);
    let projects = list_projects(&registry, "alpha", &store, 0).unwrap();
    assert_eq!(projects.len(), 1);
    assert_eq!(projects[0].id, "demo");
    let projects = list_projects(&registry, "beta", &store, 0).unwrap();
    assert_eq!(projects[0].id, "\\work\\demo");
    let found = find_project_by_cwd(&registry, "alpha", &store, "/WORK/DEMO").unwrap().unwrap();
    assert_eq!(found.id, "demo");
    let records = load_project(&registry, "alpha", &store, "demo").unwrap();
    let ids: Vec<&str> = records.iter().map(|r| r.id.as_str()).collect();
    assert_eq!(ids, vec!["s3", "s2", "s1"]);
    let first = Some(&store.dirs[0].files[0]);
    let session = load_session(&registry, "alpha", first).unwrap().unwrap();
    assert_eq!(session.messages.len(), 4);
    assert_eq!(load_session(&registry, "beta", first), Ok(None));
    assert_eq!(load_session(&registry, "alpha", None), Ok(None));
    assert_eq!(load_session_paginated(&registry, "alpha", None, 1, 1), Ok(None));
    let page = load_session_paginated(&registry, "alpha", Some(&store.dirs[0].files[1]), 1, 1)
        .unwrap()
        .unwrap();
    assert!(page.has_middle);
    assert_eq!(page.total_turns, 3);
    let found = search(&registry, "alpha", &store, "ANSWER 2", 10).unwrap();
    assert_eq!(found.len(), 1);
    assert_eq!(found[0].id, "s2");
    let mut manifest = TrashManifest::new();
    let item = delete_session(&registry, "alpha", &mut manifest, "demo", first, None, 9).unwrap();
    assert_eq!(item.dir_name, "s1_9");
    assert_eq!(manifest.items.len(), 1);
}

#[test]
fn deleting_a_file_that_is_not_there_is_an_error() {
    let registry = registry();
    let mut manifest = TrashManifest::new();
    assert_eq!(
        delete_session(&registry, "alpha", &mut manifest, "demo", None, None, 9),
        Err(HistoryError::FileNotFound)
    );
    assert!(manifest.items.is_empty());
}

#[test]
fn refresh_writes_the_rows_that_are_not_valid() {
    let registry = registry();
    let store = store();
    let mut cache = MetadataCache::new("alpha");
    update_cache_entry(&mut cache, "/logs/demo/s1.jsonl", "demo", "s1", 1, 1, None, None, 100, None);
    update_cache_entry(&mut cache, "/logs/demo/s2.jsonl", "demo", "s2", 1, 1, None, None, 150, None);
    let records =
        refresh_and_load_sessions(&registry, "alpha", &mut cache, &store, "/work/demo").unwrap();
    let ids: Vec<&str> = records.iter().map(|r| r.id.as_str()).collect();
    assert_eq!(ids, vec!["s3", "s2", "s1"]);
    assert_eq!(cache.entries().len(), 3);
    assert!(is_cache_valid(&cache, "/logs/demo/s1.jsonl", 100));
    assert!(is_cache_valid(&cache, "/logs/demo/s2.jsonl", 200));
    assert!(is_cache_valid(&cache, "/logs/demo/s3.jsonl", 300));
    let row = |path: &str| cache.entries().iter().find(|e| e.file_path == path).unwrap().clone();
    assert_eq!(row("/logs/demo/s1.jsonl").message_count, 1);
    let s2 = row("/logs/demo/s2.jsonl");
    assert_eq!(s2.message_count, 6);
    assert_eq!(s2.user_turn_count, 3);
    assert_eq!(s2.project_id, "demo");
    assert_eq!(s2.session_id, "s2");
    assert_eq!(s2.cli_type, "alpha");
    assert_eq!(s2.file_mtime, 200);
    assert_eq!(s2.project_cwd.as_deref(), Some("/work/demo"));
    assert_eq!(s2.first_timestamp.as_deref(), Some("2024-02-01T10:00:00Z"));
    assert_eq!(s2.last_timestamp.as_deref(), Some("2024-02-01T10:02:30Z"));
}

#[test]
fn refresh_of_an_unknown_source_type_is_an_error() {
    let registry = registry();
    let store = store();
    let mut cache = MetadataCache::new("alpha");
    update_cache_entry(&mut cache, "/logs/demo/s1.jsonl", "demo", "s1", 1, 1, None, None, 1, None);
    assert_eq!(
        refresh_and_load_sessions(&registry, "gamma", &mut cache, &store, "/work/demo"),
        Err(HistoryError::UnsupportedCliType)
    );
    assert_eq!(cache.entries().len(), 1);
    assert!(!is_cache_valid(&cache, "/logs/demo/s1.jsonl", 100));
}

#[test]
fn refresh_finds_nothing_where_no_project_is_at_the_directory() {
    let registry = registry();
    let store = store();
    let mut cache = MetadataCache::new("alpha");
    assert_eq!(
        refresh_and_load_sessions(&registry, "alpha", &mut cache, &store, "/nowhere"),
        Ok(Vec::new())
    );
    assert!(cache.entries().is_empty());
}

#[test]
fn startup_refresh_writes_the_rows_of_files_modified_since() {
    let registry = registry();
    let store = store();
    let mut cache = MetadataCache::new("alpha");
    liangmu_history::cache::update_startup_time(&mut cache, 150);
    let written = refresh_history_on_startup(&registry, "alpha", &mut cache, &store, 1000);
    assert_eq!(written, Ok(2));
    assert_eq!(get_last_startup_time(&cache), 1000);
    assert!(!is_cache_valid(&cache, "/logs/demo/s1.jsonl", 0));
    assert!(is_cache_valid(&cache, "/logs/demo/s2.jsonl", 200));
    assert!(is_cache_valid(&cache, "/logs/demo/s3.jsonl", 300));
    let again = refresh_history_on_startup(&registry, "alpha", &mut cache, &store, 2000);
    assert_eq!(again, Ok(0));
    assert_eq!(get_last_startup_time(&cache), 2000);
}

fn event_log(stem: &str, modified: u64, cwd: &str, day: &str) -> LogFile {
    let text = [
        format!(r#"{{"type":"session_meta","timestamp":"{}T09:00:00Z","payload":{{"cwd":"{}"}}}}"#, day, cwd),
        format!(r#"{{"type":"event_msg","timestamp":"{}T09:00:01Z","payload":{{"type":"user_message","message":"hello"}}}}"#, day),
        format!(r#"{{"type":"event_msg","timestamp":"{}T09:00:02Z","payload":{{"type":"agent_message","message":"hi"}}}}"#, day),
    ]
    .join("\n");
    LogFile {
        path: format!("/logs/sessions/{}.jsonl", stem),
        name: format!("{}.jsonl", stem),
        stem: Some(stem.to_string()),
        modified,
        content: text.into_bytes(),
    }
}

#[test]
fn startup_refresh_covers_event_logs_too() {
    let registry = registry();
    let store = LogStore {
        dirs: vec![LogDir {
            name: "sessions".to_string(),
            modified: 0,
            files: vec![
                event_log("rollout-a", 100 * SECOND, "/work/one", "2024-01-01"),
                event_log("rollout-b", 200 * SECOND, "/work/two", "2024-02-01"),
                event_log("rollout-c", 300 * SECOND, "/work/one", "2024-03-01"),
            ],
        }],
    };
    let mut cache = MetadataCache::new("beta");
    liangmu_history::cache::update_startup_time(&mut cache, 150);
    assert_eq!(refresh_history_on_startup(&registry, "beta", &mut cache, &store, 7), Ok(2));
    assert_eq!(get_last_startup_time(&cache), 7);
    assert!(!is_cache_valid(&cache, "/logs/sessions/rollout-a.jsonl", 0));
    assert!(is_cache_valid(&cache, "/logs/sessions/rollout-b.jsonl", 200));
    assert!(is_cache_valid(&cache, "/logs/sessions/rollout-c.jsonl", 300));
    let row = cache.entries().iter().find(|e| e.session_id == "c").unwrap();
    assert_eq!(row.project_id, "\\work\\one");
    assert_eq!(row.project_cwd.as_deref(), Some("/work/one"));
    assert_eq!(row.cli_type, "beta");
}

#[test]
fn startup_refresh_of_an_unknown_source_type_is_an_error() {
    let registry = registry();
    let store = store();
    let mut cache = MetadataCache::new("gamma");
    liangmu_history::cache::update_startup_time(&mut cache, 5);
    assert_eq!(
        refresh_history_on_startup(&registry, "gamma", &mut cache, &store, 8),
        Err(HistoryError::UnsupportedCliType)
    );
    assert_eq!(get_last_startup_time(&cache), 5);
    assert!(cache.entries().is_empty());
}

fn message(role: &str, texts: &[Option<&str>]) -> Message {
    Message {
        uuid: None,
        timestamp: None,
        msg_type: role.to_string(),
        role: role.to_string(),
        content_blocks: texts
            .iter()
            .map(|t| ContentBlock {
                block_type: if t.is_some() { "text".to_string() } else { "tool_use".to_string() },
                text: t.map(|s| s.to_string()),
                tool_name: if t.is_some() { None } else { Some("Bash".to_string()) },
                tool_input: None,
            })
            .collect(),
        is_real_user: role == "user",
    }
}

fn info(id: &str, cwd: Option<&str>) -> SessionInfo {
    SessionInfo {
        id: id.to_string(),
        file_path: "/f".to_string(),
        cwd: cwd.map(|s| s.to_string()),
        first_timestamp: None,
        last_timestamp: None,
        message_count: 0,
        user_turn_count: 0,
        file_size: 0,
    }
}

#[test]
fn markdown_has_a_section_for_each_message_with_text() {
    let session = Session {
        info: info("s1", Some("/work/demo")),
        messages: vec![
            message("user", &[Some("hello"), Some("there")]),
            message("assistant", &[None]),
            message("assistant", &[Some("hi")]),
        ],
    };
    let text = render_markdown("codex", &session);
    assert_eq!(
        text,
        "# Codex \u{4f1a}\u{8bdd}: s1\n\u{8def}\u{5f84}: /work/demo\n\n---\n\n## USER\n\nhello\nthere\n\n---\n\n## ASSISTANT\n\nhi\n\n---\n\n"
    );
}

#[test]
fn markdown_of_a_session_without_directory() {
    let session = Session { info: info("s1", None), messages: vec![] };
    assert_eq!(
        render_markdown("beta", &session),
        "# Beta \u{4f1a}\u{8bdd}: s1\n\u{8def}\u{5f84}: \u{672a}\u{77e5}\n\n---\n\n"
    );
}

#[test]
fn display_name_has_an_upper_case_initial() {
    assert_eq!(display_name_of("codex"), "Codex");
    assert_eq!(display_name_of("Codex"), "Codex");
    assert_eq!(display_name_of("9x"), "9x");
    assert_eq!(display_name_of(""), "");
}

#[test]
fn export_of_a_file_without_session_fails() {
    let registry = registry();
    assert_eq!(
        export_to_markdown(&registry, "alpha", Some(&file("e", 0, ""))),
        Err(HistoryError::SessionNotFound)
    );
    assert_eq!(export_to_markdown(&registry, "alpha", None), Err(HistoryError::SessionNotFound));
    let log = file("s1", 0, &chat("2024-01-01", 1));
    let text = export_to_markdown(&registry, "alpha", Some(&log)).unwrap();
    assert_eq!(
        text,
        "# Alpha \u{4f1a}\u{8bdd}: s1\n\u{8def}\u{5f84}: /work/demo\n\n---\n\n## USER\n\nquestion 0\n\n---\n\n## ASSISTANT\n\nanswer 0\n\n---\n\n"
    );
}
