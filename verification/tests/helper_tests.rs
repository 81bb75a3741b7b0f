use liangmu_history::claude_provider::parse_block;
use liangmu_history::json::Json;
use liangmu_history::scan::read_line;
use liangmu_history::lines::split_lines;
use liangmu_history::listing::{cwd_key_of, file_mentions, find_by_cwd, top_projects};
use liangmu_history::rank::{rank, stamp_at_most};
use liangmu_history::store::LogFile;
use liangmu_history::text::{
    bytes_at_most, bytes_eq, chars_of, contains_bytes, kind_is, matches_at, parse_i64, remove_all,
    starts_with_bytes, str_contains, string_of, to_ascii_lower, to_ascii_upper, to_decimal,
};
use liangmu_history::types::{ContentBlock, Message, Project, Session, SessionInfo};

fn parse_json(text: &str) -> Option<Json> {
    read_line(text.as_bytes())
}

/// The text of a value, as a tool's input is kept.
fn render_json(value: Json) -> String {
    let block = parse_block(&Json::Object(vec![("input".to_string(), value)])).unwrap();
    block.tool_input.unwrap()
}

#[test]
fn lines_end_at_newlines() {
    let lines = split_lines(b"one\ntwo\r\n\nfour");
    assert_eq!(lines, vec![&b"one"[..], &b"two"[..], &b""[..], &b"four"[..]]);
}

#[test]
fn trailing_newline_makes_no_empty_line() {
    assert_eq!(split_lines(b"one\n"), vec![&b"one"[..]]);
    assert_eq!(split_lines(b"\n"), vec![&b""[..]]);
    assert!(split_lines(b"").is_empty());
}

#[test]
fn carriage_return_is_kept_on_an_unfinished_line() {
    assert_eq!(split_lines(b"a\r\nb\r"), vec![&b"a"[..], &b"b\r"[..]]);
    assert_eq!(split_lines(b"\r\n\r\r\n"), vec![&b""[..], &b"\r"[..]]);
}

#[test]
fn bytes_are_compared_and_searched() {
    assert!(bytes_eq(b"abc", b"abc"));
    assert!(!bytes_eq(b"abc", b"ab"));
    assert!(matches_at(b"hello", b"ll", 2));
    assert!(!matches_at(b"hello", b"ll", 1));
    assert!(starts_with_bytes(b"agent-7", b"agent-"));
    assert!(!starts_with_bytes(b"agent", b"agent-"));
    assert!(contains_bytes(b"", b""));
    assert!(!contains_bytes(b"", b"a"));
    assert!(contains_bytes(b"xxab", b"ab"));
    assert!(str_contains("say \u{4f60}\u{597d} twice", "\u{597d} t"));
    assert!(!str_contains("abc", "abcd"));
}

#[test]
fn bytes_are_ordered_as_strings_are() {
    assert!(bytes_at_most(b"", b""));
    assert!(bytes_at_most(b"", b"a"));
    assert!(!bytes_at_most(b"a", b""));
    assert!(bytes_at_most(b"abc", b"abd"));
    assert!(!bytes_at_most(b"abd", b"abc"));
    assert!(bytes_at_most(b"ab", b"abc"));
    assert!(!bytes_at_most(b"abc", b"ab"));
    assert!(bytes_at_most(b"abc", b"abc"));
    for (a, b) in [("2024-01-01", "2024-01-02"), ("Z", "a"), ("a", "\u{e9}"), ("10", "9")] {
        assert_eq!(bytes_at_most(a.as_bytes(), b.as_bytes()), a <= b);
        assert_eq!(bytes_at_most(b.as_bytes(), a.as_bytes()), b <= a);
    }
}

#[test]
fn timestamps_are_ordered_with_none_least() {
    let some = |s: &str| Some(s.to_string());
    assert!(stamp_at_most(&None, &None));
    assert!(stamp_at_most(&None, &some("")));
    assert!(!stamp_at_most(&some(""), &None));
    assert!(stamp_at_most(&some("2024-01-01"), &some("2024-01-02")));
    assert!(!stamp_at_most(&some("2024-01-02"), &some("2024-01-01")));
}

#[test]
fn strings_and_characters_convert_both_ways() {
    let chars = chars_of("a\u{e9}\u{4f60}\u{1f600}");
    assert_eq!(chars, vec!['a', '\u{e9}', '\u{4f60}', '\u{1f600}']);
    assert_eq!(string_of(&chars), "a\u{e9}\u{4f60}\u{1f600}");
    assert!(chars_of("").is_empty());
}

#[test]
fn pattern_is_removed_from_left_to_right() {
    assert_eq!(remove_all("rollout-abc", "rollout-"), "abc");
    assert_eq!(remove_all("aaa", "aa"), "a");
    assert_eq!(remove_all("abab", "ab"), "");
    assert_eq!(remove_all("xaxbx", "x"), "ab");
    assert_eq!(remove_all("abc", ""), "abc");
    assert_eq!(remove_all("", "a"), "");
    assert_eq!(remove_all("rollout", "rollout-"), "rollout");
}

#[test]
fn numbers_are_written_in_decimal() {
    assert_eq!(to_decimal(0), "0");
    assert_eq!(to_decimal(7), "7");
    assert_eq!(to_decimal(10), "10");
    assert_eq!(to_decimal(1_700_000_123), "1700000123");
    assert_eq!(to_decimal(u64::MAX), "18446744073709551615");
}

#[test]
fn ascii_letters_are_made_upper_case() {
    assert_eq!(to_ascii_upper('a'), 'A');
    assert_eq!(to_ascii_upper('z'), 'Z');
    assert_eq!(to_ascii_upper('A'), 'A');
    assert_eq!(to_ascii_upper('1'), '1');
    assert_eq!(to_ascii_upper('\u{e9}'), '\u{e9}');
}

#[test]
fn ascii_letters_are_made_lower_case() {
    assert_eq!(to_ascii_lower('A'), 'a');
    assert_eq!(to_ascii_lower('Z'), 'z');
    assert_eq!(to_ascii_lower('a'), 'a');
    assert_eq!(to_ascii_lower('['), '[');
    assert_eq!(to_ascii_lower('@'), '@');
    assert_eq!(to_ascii_lower('\u{c9}'), '\u{c9}');
}

#[test]
fn the_match_key_is_the_lower_case_path_with_slashes() {
    for path in ["C:\\Work\\Demo", "c:/work/demo", "/Home/\u{c9}t\u{e9}", "\u{3a3}\u{391}\u{3a3}", "a\\B/\u{130}"] {
        assert_eq!(cwd_key_of(path), path.replace('\\', "/").to_lowercase(), "{}", path);
    }
    assert_eq!(cwd_key_of("C:/proj"), cwd_key_of("c:\\proj"));
}

#[test]
fn optional_strings_are_compared() {
    assert!(kind_is(Some("user"), "user"));
    assert!(!kind_is(Some("users"), "user"));
    assert!(!kind_is(None, "user"));
}

#[test]
fn json_members_are_found_by_name() {
    let value = parse_json(r#"{"b":{"c":"deep"},"a":"text","n":3,"l":[1,"x"]}"#).unwrap();
    assert_eq!(value.get_str("a"), Some("text"));
    assert_eq!(value.get_str("n"), None);
    assert_eq!(value.get_str("zz"), None);
    assert_eq!(value.get("b").unwrap().get_str("c"), Some("deep"));
    assert!(value.get("a").unwrap().get("x").is_none());
    assert_eq!(value.get("l").unwrap().as_array().unwrap().len(), 2);
    assert!(value.get("a").unwrap().as_array().is_none());
    assert_eq!(value.as_str(), None);
}

#[test]
fn json_of_a_repeated_key_keeps_the_last_value() {
    let value = parse_json(r#"{"a":"first","a":"second"}"#).unwrap();
    assert_eq!(value.get_str("a"), Some("second"));
}

#[test]
fn json_that_is_not_one_value_does_not_parse() {
    assert!(parse_json("").is_none());
    assert!(parse_json("   ").is_none());
    assert!(parse_json("{").is_none());
    assert!(parse_json("{} {}").is_none());
    assert!(parse_json("{\"a\":1} x").is_none());
    assert!(parse_json(" {\"a\":1}\r").is_some());
}

#[test]
fn json_is_rendered_compactly() {
    let value = parse_json(r#" { "b" : [ 1 , 2.5 , -3 , 1e3, "q\"uote" ] , "a" : { } , "n": null, "t": true } "#)
        .unwrap();
    assert_eq!(render_json(value), r#"{"a":{},"b":[1,2.5,-3,1000.0,"q\"uote"],"n":null,"t":true}"#);
    assert_eq!(render_json(Json::Str("plain".to_string())), "\"plain\"");
    assert_eq!(render_json(Json::Null), "null");
    assert_eq!(render_json(Json::Array(vec![Json::Bool(false), Json::Null])), "[false,null]");
    let hand_made = Json::Object(vec![
        ("z".to_string(), Json::Number(serde_json::Number::from(7u64))),
        ("k".to_string(), Json::Str("v".to_string())),
    ]);
    assert_eq!(hand_made.get_str("k"), Some("v"));
    assert_eq!(render_json(hand_made), r#"{"k":"v","z":7}"#);
}

#[test]
fn working_directories_are_matched_by_a_lower_case_key() {
    assert_eq!(cwd_key_of("C:\\Work\\Demo"), "c:/work/demo");
    assert_eq!(cwd_key_of("c:/work/demo"), "c:/work/demo");
    assert_eq!(cwd_key_of("/Home/\u{c9}t\u{e9}"), "/home/\u{e9}t\u{e9}");
}

fn project(id: &str, cwd: Option<&str>, modified: u64) -> Project {
    Project {
        id: id.to_string(),
        cwd: cwd.map(|s| s.to_string()),
        last_modified: modified,
        session_count: 0,
        last_activity: None,
    }
}

#[test]
fn first_project_at_a_directory_is_found() {
    let projects = vec![
        project("a", None, 1),
        project("b", Some("C:\\proj"), 2),
        project("c", Some("c:/PROJ"), 3),
    ];
    assert_eq!(find_by_cwd(projects.clone(), "C:/proj").unwrap().id, "b");
    assert_eq!(find_by_cwd(projects.clone(), "c:\\proj").unwrap().id, "b");
    assert_eq!(find_by_cwd(projects, "c:/other"), None);
}

#[test]
fn projects_are_ranked_and_ties_keep_their_order() {
    let projects = vec![
        project("a", None, 5),
        project("b", None, 9),
        project("c", None, 5),
        project("d", None, 7),
    ];
    let ranked = top_projects(projects.clone(), 0);
    let ids: Vec<&str> = ranked.iter().map(|p| p.id.as_str()).collect();
    assert_eq!(ids, vec!["b", "d", "a", "c"]);
    let top = top_projects(projects, 3);
    let ids: Vec<&str> = top.iter().map(|p| p.id.as_str()).collect();
    assert_eq!(ids, vec!["b", "d", "a"]);
}

fn record(id: &str, last: Option<&str>) -> SessionInfo {
    SessionInfo {
        id: id.to_string(),
        file_path: format!("/{}", id),
        cwd: None,
        first_timestamp: None,
        last_timestamp: last.map(|s| s.to_string()),
        message_count: 1,
        user_turn_count: 1,
        file_size: 1,
    }
}

#[test]
fn sessions_without_timestamp_are_ranked_last() {
    let ranked = rank(vec![
        record("none", None),
        record("old", Some("2023-12-31T23:59:59Z")),
        record("new", Some("2024-01-01T00:00:00Z")),
        record("none2", None),
    ]);
    let ids: Vec<&str> = ranked.iter().map(|r| r.id.as_str()).collect();
    assert_eq!(ids, vec!["new", "old", "none", "none2"]);
    assert!(rank(Vec::<SessionInfo>::new()).is_empty());
}

#[test]
fn a_file_mentions_a_keyword_in_any_case() {
    let file = LogFile {
        path: "/f".to_string(),
        name: "f".to_string(),
        stem: None,
        modified: 0,
        content: "first line\nSecond LINE with \u{c9}clair\n".as_bytes().to_vec(),
    };
    assert!(file_mentions(&file, "second line"));
    assert!(file_mentions(&file, "\u{e9}clair"));
    assert!(!file_mentions(&file, "Second"));
    assert!(!file_mentions(&file, "line\nsecond"));
    assert!(file_mentions(&file, ""));
}

#[test]
fn message_text_joins_the_texts_of_its_blocks() {
    let block = |kind: &str, text: Option<&str>, tool: Option<&str>| ContentBlock {
        block_type: kind.to_string(),
        text: text.map(|s| s.to_string()),
        tool_name: tool.map(|s| s.to_string()),
        tool_input: None,
    };
    let message = Message {
        uuid: None,
        timestamp: None,
        msg_type: "assistant".to_string(),
        role: "assistant".to_string(),
        content_blocks: vec![
            block("text", Some("one"), None),
            block("tool_use", None, Some("Bash")),
            block("text", Some(""), None),
            block("tool_use", None, None),
            block("tool_result", Some("three"), Some("Ignored")),
            block("tool_use", Some("four"), Some("Read")),
        ],
        is_real_user: false,
    };
    assert_eq!(message.get_text(), "one\n\nthree\nfour");
    assert_eq!(message.get_tool_summary(), vec!["Bash", "Read"]);
    let empty = Message { content_blocks: vec![], ..message.clone() };
    assert_eq!(empty.get_text(), "");
    assert!(empty.get_tool_summary().is_empty());
}

#[test]
fn tool_usage_counts_the_calls_of_each_tool() {
    let call = |name: Option<&str>| ContentBlock {
        block_type: "tool_use".to_string(),
        text: None,
        tool_name: name.map(|s| s.to_string()),
        tool_input: None,
    };
    let message = |blocks: Vec<ContentBlock>| Message {
        uuid: None,
        timestamp: None,
        msg_type: "assistant".to_string(),
        role: "assistant".to_string(),
        content_blocks: blocks,
        is_real_user: false,
    };
    let session = Session {
        info: record("s", None),
        messages: vec![
            message(vec![call(Some("Bash")), call(Some("Read")), call(None)]),
            message(vec![]),
            message(vec![call(Some("Bash")), call(Some("Bash")), call(Some("Edit"))]),
        ],
    };
    let mut usage = session.tool_usage();
    usage.sort();
    assert_eq!(
        usage,
        vec![("Bash".to_string(), 3), ("Edit".to_string(), 1), ("Read".to_string(), 1)]
    );
    let empty = Session { info: record("s", None), messages: vec![] };
    assert!(empty.tool_usage().is_empty());
    assert_eq!(empty.real_turn_count(), 0);
}

#[test]
fn integers_are_read_in_decimal() {
    assert_eq!(parse_i64("0"), Some(0));
    assert_eq!(parse_i64("1700000000"), Some(1_700_000_000));
    assert_eq!(parse_i64("+42"), Some(42));
    assert_eq!(parse_i64("-42"), Some(-42));
    assert_eq!(parse_i64("-0"), Some(0));
    assert_eq!(parse_i64("0000000000000000000000000000000000000000017"), Some(17));
    assert_eq!(parse_i64("9223372036854775807"), Some(i64::MAX));
    assert_eq!(parse_i64("-9223372036854775808"), Some(i64::MIN));
    assert_eq!(parse_i64("9223372036854775808"), None);
    assert_eq!(parse_i64("-9223372036854775809"), None);
    assert_eq!(parse_i64("99999999999999999999999999999999999999999999"), None);
    for bad in ["", "+", "-", " 1", "1 ", "1.5", "--1", "+-1", "1e3", "0x10", "\u{665}"] {
        assert_eq!(parse_i64(bad), None, "{:?}", bad);
        assert_eq!(parse_i64(bad), bad.parse::<i64>().ok());
    }
    for good in ["7", "-7", "+7", "007", "9223372036854775807", "-9223372036854775808"] {
        assert_eq!(parse_i64(good), good.parse::<i64>().ok());
    }
}
