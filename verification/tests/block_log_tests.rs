use liangmu_history::claude_provider::{
    parse_content_blocks, parse_message, parse_session_file, parse_session_info,
};
use liangmu_history::json::Json;
use liangmu_history::scan::read_line;
use liangmu_history::store::LogFile;

fn parse_json(text: &str) -> Option<Json> {
    read_line(text.as_bytes())
}

fn log(stem: &str, text: &str) -> LogFile {
    LogFile {
        path: format!("/logs/projects/demo/{}.jsonl", stem),
        name: format!("{}.jsonl", stem),
        stem: Some(stem.to_string()),
        modified: 1_700_000_000_000_000_000,
        content: text.as_bytes().to_vec(),
    }
}

const USER_1: &str = r#"{"type":"user","uuid":"u1","timestamp":"2024-01-01T10:00:00Z","cwd":"C:\\work\\demo","message":{"role":"user","content":"hello"}}"#;
const ASSISTANT_1: &str = r#"{"type":"assistant","uuid":"a1","timestamp":"2024-01-01T10:00:05Z","message":{"role":"assistant","content":[{"type":"text","text":"hi"},{"type":"tool_use","name":"Bash","input":{"command":"ls","timeout":5}}]}}"#;
const TOOL_ECHO: &str = r#"{"type":"user","uuid":"u2","timestamp":"2024-01-01T10:00:06Z","message":{"role":"user","content":[{"type":"tool_result","content":"a.txt"}]}}"#;
const USER_2: &str = r#"{"type":"user","uuid":"u3","timestamp":"2024-01-01T10:01:00Z","message":{"role":"user","content":[{"type":"text","text":"thanks"}]}}"#;
const SUMMARY: &str = r#"{"type":"summary","summary":"a chat"}"#;

#[test]
fn content_string_is_one_text_block() {
    let blocks = parse_content_blocks(&Json::Str("hello".to_string()));
    assert_eq!(blocks.len(), 1);
    assert_eq!(blocks[0].block_type, "text");
    assert_eq!(blocks[0].text.as_deref(), Some("hello"));
    assert_eq!(blocks[0].tool_name, None);
    assert_eq!(blocks[0].tool_input, None);
}

#[test]
fn content_array_keeps_objects_only() {
    let content = parse_json(
        r#"[{"type":"text","text":"hi"}, 7, "loose", {"name":"Read","input":{"b":1,"a":[true,null,1.5]}}]"#,
    )
    .unwrap();
    let blocks = parse_content_blocks(&content);
    assert_eq!(blocks.len(), 2);
    assert_eq!(blocks[0].block_type, "text");
    assert_eq!(blocks[0].text.as_deref(), Some("hi"));
    assert_eq!(blocks[1].block_type, "unknown");
    assert_eq!(blocks[1].tool_name.as_deref(), Some("Read"));
    assert_eq!(blocks[1].tool_input.as_deref(), Some(r#"{"a":[true,null,1.5],"b":1}"#));
}

#[test]
fn content_of_another_kind_has_no_blocks() {
    assert!(parse_content_blocks(&Json::Null).is_empty());
    assert!(parse_content_blocks(&Json::Bool(true)).is_empty());
}

#[test]
fn message_of_a_user_record() {
    let data = parse_json(USER_1).unwrap();
    let m = parse_message(&data).unwrap();
    assert_eq!(m.uuid.as_deref(), Some("u1"));
    assert_eq!(m.timestamp.as_deref(), Some("2024-01-01T10:00:00Z"));
    assert_eq!(m.msg_type, "user");
    assert_eq!(m.role, "user");
    assert!(m.is_real_user);
    assert_eq!(m.content_blocks.len(), 1);
}

#[test]
fn tool_echo_is_not_a_real_user_message() {
    let data = parse_json(TOOL_ECHO).unwrap();
    let m = parse_message(&data).unwrap();
    assert_eq!(m.msg_type, "user");
    assert!(!m.is_real_user);
}

#[test]
fn record_of_another_type_is_no_message() {
    assert_eq!(parse_message(&parse_json(SUMMARY).unwrap()), None);
    assert_eq!(parse_message(&parse_json(r#"{"type":"user"}"#).unwrap()), None);
    assert_eq!(parse_message(&parse_json(r#"[1,2]"#).unwrap()), None);
}

#[test]
fn role_defaults_to_the_record_type() {
    let data = parse_json(r#"{"type":"assistant","message":{"content":"x"}}"#).unwrap();
    let m = parse_message(&data).unwrap();
    assert_eq!(m.role, "assistant");
    assert_eq!(m.uuid, None);
    assert_eq!(m.timestamp, None);
    assert!(!m.is_real_user);
}

#[test]
fn session_info_counts_messages_and_real_turns() {
    let text = [SUMMARY, USER_1, ASSISTANT_1, TOOL_ECHO, "", "not json", USER_2].join("\n");
    let info = parse_session_info(&log("s1", &text)).unwrap();
    assert_eq!(info.id, "s1");
    assert_eq!(info.file_path, "/logs/projects/demo/s1.jsonl");
    assert_eq!(info.cwd.as_deref(), Some("C:\\work\\demo"));
    assert_eq!(info.first_timestamp.as_deref(), Some("2024-01-01T10:00:00Z"));
    assert_eq!(info.last_timestamp.as_deref(), Some("2024-01-01T10:01:00Z"));
    assert_eq!(info.message_count, 4);
    assert_eq!(info.user_turn_count, 2);
    assert_eq!(info.file_size, text.len() as u64);
}

#[test]
fn session_info_skips_interruption_lines() {
    let interrupted = r#"{"type":"user","timestamp":"2024-01-01T11:00:00Z","message":{"role":"user","content":"[Request interrupted by user for tool use]"}}"#;
    let text = [USER_1, interrupted].join("\r\n");
    let info = parse_session_info(&log("s2", &text)).unwrap();
    assert_eq!(info.message_count, 1);
    assert_eq!(info.user_turn_count, 1);
    assert_eq!(info.last_timestamp.as_deref(), Some("2024-01-01T10:00:00Z"));
}

#[test]
fn empty_file_is_no_session() {
    assert_eq!(parse_session_info(&log("empty", "")), None);
}

#[test]
fn file_of_tool_echoes_is_no_session() {
    let text = [TOOL_ECHO, ASSISTANT_1].join("\n");
    assert_eq!(parse_session_info(&log("echo", &text)), None);
}

#[test]
fn file_without_messages_is_no_session() {
    assert_eq!(parse_session_info(&log("none", SUMMARY)), None);
}

#[test]
fn file_without_timestamp_is_no_session() {
    let text = r#"{"type":"user","message":{"role":"user","content":"hello"}}"#;
    assert_eq!(parse_session_info(&log("nots", text)), None);
}

#[test]
fn file_without_a_name_gets_the_id_unknown() {
    let mut file = log("x", USER_1);
    file.stem = None;
    assert_eq!(parse_session_info(&file).unwrap().id, "unknown");
}

#[test]
fn line_that_is_not_text_is_skipped() {
    let mut content = USER_1.as_bytes().to_vec();
    content.push(b'\n');
    content.extend_from_slice(&[0xff, 0xfe, b'{', b'}']);
    content.push(b'\n');
    content.extend_from_slice(USER_2.as_bytes());
    let mut file = log("bin", "");
    file.content = content;
    let info = parse_session_info(&file).unwrap();
    assert_eq!(info.message_count, 2);
}

#[test]
fn session_file_holds_every_message() {
    let text = [SUMMARY, USER_1, ASSISTANT_1, TOOL_ECHO, USER_2].join("\n") + "\n";
    let session = parse_session_file(&log("s1", &text)).unwrap();
    assert_eq!(session.messages.len(), 4);
    assert_eq!(session.info.message_count, 4);
    assert_eq!(session.info.user_turn_count, 2);
    assert_eq!(session.info.id, "s1");
    assert_eq!(session.info.cwd.as_deref(), Some("C:\\work\\demo"));
    assert_eq!(session.info.first_timestamp.as_deref(), Some("2024-01-01T10:00:00Z"));
    assert_eq!(session.info.last_timestamp.as_deref(), Some("2024-01-01T10:01:00Z"));
    assert_eq!(session.info.file_size, text.len() as u64);
    let flags: Vec<bool> = session.messages.iter().map(|m| m.is_real_user).collect();
    assert_eq!(flags, vec![true, false, false, true]);
    let tool = &session.messages[1].content_blocks[1];
    assert_eq!(tool.block_type, "tool_use");
    assert_eq!(tool.tool_name.as_deref(), Some("Bash"));
    assert_eq!(tool.tool_input.as_deref(), Some(r#"{"command":"ls","timeout":5}"#));
}

#[test]
fn session_file_without_messages_is_none() {
    assert_eq!(parse_session_file(&log("none", SUMMARY)), None);
    assert_eq!(parse_session_file(&log("empty", "")), None);
}

#[test]
fn session_file_keeps_a_session_of_tool_echoes() {
    let session = parse_session_file(&log("echo", TOOL_ECHO)).unwrap();
    assert_eq!(session.info.user_turn_count, 0);
    assert_eq!(session.messages.len(), 1);
}
