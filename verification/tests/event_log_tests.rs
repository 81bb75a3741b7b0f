use liangmu_history::codex_provider::{
    get_cwd_fast, normalize_path, parse_codex_message, parse_session_file, parse_session_info,
};
use liangmu_history::json::Json;
use liangmu_history::scan::read_line;
use liangmu_history::store::LogFile;

fn parse_json(text: &str) -> Option<Json> {
    read_line(text.as_bytes())
}

fn log(stem: &str, text: &str) -> LogFile {
    LogFile {
        path: format!("/logs/sessions/2024/01/{}.jsonl", stem),
        name: format!("{}.jsonl", stem),
        stem: Some(stem.to_string()),
        modified: 1_700_000_000_000_000_000,
        content: text.as_bytes().to_vec(),
    }
}

const META: &str = r#"{"type":"session_meta","timestamp":"2024-02-01T09:00:00Z","payload":{"id":"abc","cwd":"c:/work/demo"}}"#;
const USER: &str = r#"{"type":"event_msg","timestamp":"2024-02-01T09:00:01Z","payload":{"type":"user_message","message":"fix the bug"}}"#;
const AGENT: &str = r#"{"type":"event_msg","timestamp":"2024-02-01T09:00:02Z","payload":{"type":"agent_message","message":"done"}}"#;
const ITEM: &str = r#"{"type":"response_item","timestamp":"2024-02-01T09:00:03Z","payload":{"type":"message","role":"assistant","content":[{"type":"output_text","text":"done"},{"type":"image"}]}}"#;
const CALL: &str = r#"{"type":"response_item","timestamp":"2024-02-01T09:00:04Z","payload":{"type":"function_call","name":"shell"}}"#;
const TOKENS: &str = r#"{"type":"event_msg","timestamp":"2024-02-01T09:00:05Z","payload":{"type":"token_count"}}"#;

#[test]
fn user_event_is_a_real_user_message() {
    let m = parse_codex_message(&parse_json(USER).unwrap()).unwrap();
    assert_eq!(m.uuid, None);
    assert_eq!(m.timestamp.as_deref(), Some("2024-02-01T09:00:01Z"));
    assert_eq!(m.msg_type, "user_message");
    assert_eq!(m.role, "user");
    assert!(m.is_real_user);
    assert_eq!(m.content_blocks.len(), 1);
    assert_eq!(m.content_blocks[0].block_type, "text");
    assert_eq!(m.content_blocks[0].text.as_deref(), Some("fix the bug"));
}

#[test]
fn agent_event_is_an_assistant_message() {
    let m = parse_codex_message(&parse_json(AGENT).unwrap()).unwrap();
    assert_eq!(m.msg_type, "agent_message");
    assert_eq!(m.role, "assistant");
    assert!(!m.is_real_user);
}

#[test]
fn event_without_text_has_an_empty_block() {
    let data = parse_json(r#"{"type":"event_msg","payload":{"type":"user_message"}}"#).unwrap();
    let m = parse_codex_message(&data).unwrap();
    assert_eq!(m.content_blocks[0].text.as_deref(), Some(""));
    assert_eq!(m.timestamp, None);
}

#[test]
fn response_item_keeps_its_text_blocks() {
    let m = parse_codex_message(&parse_json(ITEM).unwrap()).unwrap();
    assert_eq!(m.msg_type, "response_item");
    assert_eq!(m.role, "assistant");
    assert!(!m.is_real_user);
    assert_eq!(m.content_blocks.len(), 1);
    assert_eq!(m.content_blocks[0].text.as_deref(), Some("done"));
}

#[test]
fn response_item_role_defaults_to_assistant() {
    let data = parse_json(r#"{"type":"response_item","payload":{"type":"message","content":"x"}}"#)
        .unwrap();
    let m = parse_codex_message(&data).unwrap();
    assert_eq!(m.role, "assistant");
    assert!(m.content_blocks.is_empty());
}

#[test]
fn other_records_are_no_messages() {
    assert_eq!(parse_codex_message(&parse_json(META).unwrap()), None);
    assert_eq!(parse_codex_message(&parse_json(CALL).unwrap()), None);
    assert_eq!(parse_codex_message(&parse_json(TOKENS).unwrap()), None);
    assert_eq!(parse_codex_message(&parse_json(r#"{"type":"event_msg"}"#).unwrap()), None);
    assert_eq!(parse_codex_message(&parse_json("3").unwrap()), None);
}

#[test]
fn event_log_info_counts_messages() {
    let text = [META, USER, AGENT, ITEM, CALL, TOKENS, "garbage"].join("\n");
    let info = parse_session_info(&log("rollout-2024-02-01-abc", &text)).unwrap();
    assert_eq!(info.id, "2024-02-01-abc");
    assert_eq!(info.cwd.as_deref(), Some("c:/work/demo"));
    assert_eq!(info.first_timestamp.as_deref(), Some("2024-02-01T09:00:00Z"));
    assert_eq!(info.last_timestamp.as_deref(), Some("2024-02-01T09:00:05Z"));
    assert_eq!(info.message_count, 3);
    assert_eq!(info.user_turn_count, 1);
    assert_eq!(info.file_size, text.len() as u64);
}

#[test]
fn event_log_without_user_message_is_no_session() {
    let text = [META, AGENT, ITEM].join("\n");
    assert_eq!(parse_session_info(&log("rollout-x", &text)), None);
}

#[test]
fn event_log_empty_file_is_no_session() {
    assert_eq!(parse_session_info(&log("rollout-x", "")), None);
}

#[test]
fn event_log_session_holds_every_message() {
    let text = [META, USER, AGENT, ITEM, CALL].join("\n");
    let session = parse_session_file(&log("rollout-s", &text)).unwrap();
    assert_eq!(session.info.id, "s");
    assert_eq!(session.info.message_count, 3);
    assert_eq!(session.info.user_turn_count, 1);
    assert_eq!(session.messages.len(), 3);
    assert_eq!(session.info.last_timestamp.as_deref(), Some("2024-02-01T09:00:04Z"));
}

#[test]
fn session_id_loses_every_prefix() {
    let text = [META, USER].join("\n");
    let info = parse_session_info(&log("rollout-a-rollout-b", &text)).unwrap();
    assert_eq!(info.id, "a-b");
}

#[test]
fn cwd_is_found_in_the_payload_first() {
    let text = [USER, META, AGENT].join("\n");
    assert_eq!(get_cwd_fast(&log("rollout-s", &text)).as_deref(), Some("c:/work/demo"));
}

#[test]
fn cwd_is_found_at_the_top_level_too() {
    let text = r#"{"cwd":"/home/me/proj"}"#;
    assert_eq!(get_cwd_fast(&log("s", text)).as_deref(), Some("/home/me/proj"));
}

#[test]
fn cwd_search_goes_past_a_line_that_names_none() {
    let text = [r#"{"note":"the \"cwd\" is unknown"}"#, META].join("\n");
    assert_eq!(get_cwd_fast(&log("s", &text)).as_deref(), Some("c:/work/demo"));
}

#[test]
fn cwd_search_gives_up_at_a_broken_line() {
    let text = [r#"{"cwd": oops"#, META].join("\n");
    assert_eq!(get_cwd_fast(&log("s", &text)), None);
    assert_eq!(get_cwd_fast(&log("s", USER)), None);
}

#[test]
fn normalize_path_uses_backslashes_and_an_upper_case_drive() {
    assert_eq!(normalize_path("c:/work/demo"), "C:\\work\\demo");
    assert_eq!(normalize_path("C:\\work/demo"), "C:\\work\\demo");
    assert_eq!(normalize_path("/home/me"), "\\home\\me");
    assert_eq!(normalize_path("z:"), "Z:");
    assert_eq!(normalize_path("1:x"), "1:x");
    assert_eq!(normalize_path(""), "");
    assert_eq!(normalize_path("a"), "a");
}
