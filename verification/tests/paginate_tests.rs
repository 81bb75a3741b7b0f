use liangmu_history::paginate::{count_turns, offset_of_turn, paginate};
use liangmu_history::types::{ContentBlock, Message};

fn message(real: bool, text: &str) -> Message {
    Message {
        uuid: None,
        timestamp: None,
        msg_type: if real { "user".to_string() } else { "assistant".to_string() },
        role: if real { "user".to_string() } else { "assistant".to_string() },
        content_blocks: vec![ContentBlock {
            block_type: "text".to_string(),
            text: Some(text.to_string()),
            tool_name: None,
            tool_input: None,
        }],
        is_real_user: real,
    }
}

/// `turns` turns: each a user message and two replies.
fn session(turns: usize) -> Vec<Message> {
    let mut messages = Vec::new();
    for t in 0..turns {
        messages.push(message(true, &format!("q{}", t + 1)));
        messages.push(message(false, &format!("a{}", t + 1)));
        messages.push(message(false, &format!("b{}", t + 1)));
    }
    messages
}

fn texts(messages: &[Message]) -> Vec<String> {
    messages.iter().map(|m| m.content_blocks[0].text.clone().unwrap()).collect()
}

#[test]
fn ten_turns_three_and_three_leave_out_the_middle() {
    let page = paginate(session(10), 3, 3);
    assert!(page.has_middle);
    assert_eq!(page.total_turns, 10);
    assert_eq!(page.total_messages, 30);
    assert_eq!(
        texts(&page.first),
        vec!["q1", "a1", "b1", "q2", "a2", "b2", "q3", "a3", "b3"]
    );
    assert_eq!(
        texts(&page.last),
        vec!["q8", "a8", "b8", "q9", "a9", "b9", "q10", "a10", "b10"]
    );
}

#[test]
fn ten_turns_five_and_five_show_everything() {
    let all = session(10);
    let page = paginate(all.clone(), 5, 5);
    assert!(!page.has_middle);
    assert_eq!(page.first, all);
    assert!(page.last.is_empty());
    assert_eq!(page.total_turns, 10);
    assert_eq!(page.total_messages, 30);
}

#[test]
fn more_turns_asked_for_than_there_are() {
    let all = session(2);
    let page = paginate(all.clone(), 7, 9);
    assert!(!page.has_middle);
    assert_eq!(page.first, all);
    assert!(page.last.is_empty());
    let page = paginate(all.clone(), usize::MAX, usize::MAX);
    assert!(!page.has_middle);
    assert_eq!(page.first, all);
}

#[test]
fn no_last_turns_gives_an_empty_tail() {
    let page = paginate(session(4), 1, 0);
    assert!(page.has_middle);
    assert_eq!(texts(&page.first), vec!["q1", "a1", "b1"]);
    assert!(page.last.is_empty());
}

#[test]
fn no_first_turns_gives_an_empty_head() {
    let page = paginate(session(4), 0, 1);
    assert!(page.has_middle);
    assert!(page.first.is_empty());
    assert_eq!(texts(&page.last), vec!["q4", "a4", "b4"]);
}

#[test]
fn replies_before_the_first_user_message_are_a_turn() {
    let mut messages = vec![message(false, "intro"), message(false, "more")];
    messages.extend(session(3));
    assert_eq!(count_turns(&messages), 4);
    assert_eq!(offset_of_turn(&messages, 0), 0);
    assert_eq!(offset_of_turn(&messages, 1), 2);
    assert_eq!(offset_of_turn(&messages, 3), 8);
    assert_eq!(offset_of_turn(&messages, 4), 11);
    let page = paginate(messages, 1, 1);
    assert!(page.has_middle);
    assert_eq!(texts(&page.first), vec!["intro", "more"]);
    assert_eq!(texts(&page.last), vec!["q3", "a3", "b3"]);
    assert_eq!(page.total_turns, 4);
    assert_eq!(page.total_messages, 11);
}

#[test]
fn session_without_messages_has_no_turns() {
    let page = paginate(Vec::new(), 3, 3);
    assert!(!page.has_middle);
    assert!(page.first.is_empty());
    assert!(page.last.is_empty());
    assert_eq!(page.total_turns, 0);
    assert_eq!(page.total_messages, 0);
}

#[test]
fn consecutive_user_messages_are_turns_of_one_message() {
    let messages = vec![message(true, "a"), message(true, "b"), message(true, "c")];
    let page = paginate(messages, 1, 1);
    assert!(page.has_middle);
    assert_eq!(texts(&page.first), vec!["a"]);
    assert_eq!(texts(&page.last), vec!["c"]);
}
