use minutes::chat::{
    chat_args, ChatEvent, ChatExit, ChatFailure, ChatTurn, RecallChatState, StreamDelta,
    StreamEvent, StreamLine,
};
use serde_json::Value;

fn text_at(value: &Value, key: &str) -> Option<String> {
    value.get(key).and_then(|v| v.as_str()).map(|s| s.to_string())
}

fn parse(line: &str) -> Option<StreamLine> {
    let value: Value = serde_json::from_str(line).ok()?;
    let event = value.get("event").map(|event| StreamEvent {
        event_type: text_at(event, "type").unwrap_or_default(),
        delta: event.get("delta").map(|delta| StreamDelta {
            delta_type: text_at(delta, "type").unwrap_or_default(),
            text: text_at(delta, "text"),
        }),
    });
    Some(StreamLine {
        event_type: text_at(&value, "type")?,
        session_id: text_at(&value, "session_id"),
        event,
        result: text_at(&value, "result"),
        subtype: text_at(&value, "subtype"),
    })
}

const INIT: &str = r#"{"type":"system","subtype":"init","session_id":"s1"}"#;
const HEL: &str = r#"{"type":"stream_event","event":{"type":"content_block_delta","delta":{"type":"text_delta","text":"Hel"}}}"#;
const LO: &str = r#"{"type":"stream_event","event":{"type":"content_block_delta","delta":{"type":"text_delta","text":"lo"}}}"#;
const RESULT: &str = r#"{"type":"result","result":"Hello!","session_id":"s2"}"#;

fn well() -> ChatExit {
    ChatExit { success: true, code: Some(0), stderr: None }
}

fn run(lines: &[&str]) -> (ChatTurn, Vec<String>) {
    let mut turn = ChatTurn::new();
    let mut told = Vec::new();
    for line in lines {
        match turn.read_line(line, &parse) {
            Some(ChatEvent::Delta { text }) => told.push(text),
            Some(_) => panic!("only deltas come during a turn"),
            None => {}
        }
    }
    (turn, told)
}

fn done(lines: &[&str]) -> (String, String) {
    let outcome = run(lines).0.finish("agent", &well());
    match outcome.event {
        ChatEvent::Done { text, session_id } => {
            assert_eq!(outcome.result, Ok(text.clone()));
            (text, session_id)
        }
        _ => panic!("the turn did not fail"),
    }
}

#[test]
fn arguments_without_and_with_a_session() {
    assert_eq!(
        chat_args("hi", &None),
        vec![
            "--print",
            "--output-format",
            "stream-json",
            "--verbose",
            "--include-partial-messages",
            "-p",
            "hi"
        ]
    );
    assert_eq!(
        chat_args("hi", &Some("s1".to_string())),
        vec![
            "--print",
            "--output-format",
            "stream-json",
            "--verbose",
            "--include-partial-messages",
            "--resume",
            "s1",
            "-p",
            "hi"
        ]
    );
}

#[test]
fn a_chat_begins_without_a_session() {
    let state = RecallChatState::default();
    assert!(state.session_id.is_none());
    assert!(state.workspace.is_none());
    assert_eq!(state.args("hi").len(), 7);
}

#[test]
fn answer_is_what_was_told() {
    let (turn, told) = run(&[INIT, HEL, LO]);
    assert_eq!(told, vec!["Hel", "lo"]);
    assert_eq!(turn.finish("agent", &well()).result, Ok("Hello".to_string()));
}

#[test]
fn result_replaces_what_was_told() {
    assert_eq!(done(&[INIT, HEL, LO, RESULT]), ("Hello!".to_string(), "s2".to_string()));
}

#[test]
fn result_without_text_keeps_what_was_told() {
    let line = r#"{"type":"result","session_id":"s3"}"#;
    assert_eq!(done(&[INIT, HEL, line]), ("Hel".to_string(), "s3".to_string()));
}

#[test]
fn other_lines_change_nothing() {
    let lines = [
        "",
        "not json",
        "{}",
        r#"{"type":"assistant","result":"x","session_id":"y"}"#,
        r#"{"type":"system","subtype":"hook","session_id":"y"}"#,
        r#"{"type":"system","subtype":"init"}"#,
        r#"{"type":"stream_event"}"#,
        r#"{"type":"stream_event","event":{"type":"content_block_delta"}}"#,
        r#"{"type":"stream_event","event":{"type":"content_block_start","delta":{"type":"text_delta","text":"x"}}}"#,
        r#"{"type":"stream_event","event":{"type":"content_block_delta","delta":{"type":"input_json_delta","text":"x"}}}"#,
        r#"{"type":"stream_event","event":{"type":"content_block_delta","delta":{"type":"text_delta"}}}"#,
    ];
    let (turn, told) = run(&lines);
    assert!(told.is_empty());
    let outcome = turn.finish("agent", &well());
    assert_eq!(outcome.result, Ok(String::new()));
    assert_eq!(outcome.store, None);
    assert!(matches!(outcome.event, ChatEvent::Done { text, session_id } if text.is_empty() && session_id.is_empty()));
}

#[test]
fn next_message_resumes_the_session() {
    let mut state = RecallChatState::default();
    let outcome = run(&[INIT, HEL]).0.finish("agent", &well());
    assert_eq!(outcome.store, Some("s1".to_string()));
    state.remember(outcome.store);
    let args = state.args("and now?");
    assert_eq!(args[5..], ["--resume", "s1", "-p", "and now?"]);

    let later = run(&[HEL]).0.finish("agent", &well());
    assert_eq!(later.store, None);
    state.remember(later.store);
    assert_eq!(state.session_id, Some("s1".to_string()));
}

#[test]
fn an_empty_session_is_not_stored() {
    let line = r#"{"type":"result","result":"x","session_id":""}"#;
    assert_eq!(run(&[line]).0.finish("agent", &well()).store, None);
}

#[test]
fn failed_process_without_an_answer() {
    let turn = run(&[INIT]).0;
    assert!(turn.failed(false));
    assert!(!turn.failed(true));
    let exit = ChatExit {
        success: false,
        code: Some(1),
        stderr: Some("one\r\ntwo\nthree\nfour\n".to_string()),
    };
    let outcome = turn.finish("agent", &exit);
    assert_eq!(outcome.result, Err("one\ntwo\nthree".to_string()));
    assert!(matches!(outcome.event, ChatEvent::Error { message } if message == "one\ntwo\nthree"));
    assert_eq!(outcome.store, None);
}

#[test]
fn failed_process_without_error_output() {
    for (code, expected) in [
        (Some(127), "agent exited with code 127"),
        (Some(-6), "agent exited with code -6"),
        (None, "agent exited with code -1"),
    ] {
        for stderr in [None, Some(String::new())] {
            let exit = ChatExit { success: false, code, stderr };
            assert_eq!(ChatTurn::new().finish("agent", &exit).result, Err(expected.to_string()));
        }
    }
}

#[test]
fn short_error_output_is_kept_whole() {
    let exit = ChatExit { success: false, code: Some(1), stderr: Some("only\n".to_string()) };
    assert_eq!(ChatTurn::new().finish("agent", &exit).result, Err("only".to_string()));
}

#[test]
fn failed_process_with_an_answer_is_an_answer() {
    let turn = run(&[INIT, HEL]).0;
    assert!(!turn.failed(false));
    let exit = ChatExit { success: false, code: Some(1), stderr: None };
    let outcome = turn.finish("agent", &exit);
    assert_eq!(outcome.result, Ok("Hel".to_string()));
    assert_eq!(outcome.store, Some("s1".to_string()));
}

#[test]
fn failures_are_reported() {
    assert_eq!(ChatFailure::Locked.message("agent"), "Chat state lock failed");
    assert_eq!(
        ChatFailure::Spawn("no such file".to_string()).message("agent"),
        "Failed to spawn agent: no such file"
    );
    assert_eq!(ChatFailure::NoStdout.message("agent"), "No stdout");
    assert_eq!(ChatFailure::Wait("gone".to_string()).message("agent"), "Wait failed: gone");
}

#[test]
fn lines_that_do_not_count_can_stand_anywhere() {
    let stream = [INIT, HEL, LO, RESULT];
    for other in ["", "not json", r#"{"type":"assistant","result":"x","session_id":"y"}"#] {
        for at in 0..=stream.len() {
            let mut more = stream.to_vec();
            more.insert(at, other);
            assert_eq!(run(&more).1, run(&stream).1);
            assert_eq!(done(&more), done(&stream));
        }
    }
}
