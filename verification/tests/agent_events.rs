//! Stream-json events: assistant deltas, thinking, tool calls.

use cursor_bridge::agent::{
    extract_stream_json_delta, login_outcome, login_search_step, map_stream_json_line,
    push_stderr_line, stderr_full, stream_end, stream_read_step, turn_from_output, turn_from_text,
    AgentError, BridgeDelta, LoginRead, LoginSearch, ProcessOutput, StreamRead, StreamStep,
    STDERR_CAP_BYTES,
};

#[test]
fn extract_keeps_partial_delta() {
    let line = r#"{"type":"assistant","timestamp_ms":1,"message":{"role":"assistant","content":[{"type":"text","text":"Hel"}]}}"#;
    assert_eq!(extract_stream_json_delta(line).as_deref(), Some("Hel"));
}

#[test]
fn extract_skips_tool_flush_and_final_flush() {
    let tool_flush = r#"{"type":"assistant","timestamp_ms":1,"model_call_id":"x","message":{"role":"assistant","content":[{"type":"text","text":"Hel"}]}}"#;
    let final_flush = r#"{"type":"assistant","message":{"role":"assistant","content":[{"type":"text","text":"Hello"}]}}"#;
    assert_eq!(extract_stream_json_delta(tool_flush), None);
    assert_eq!(extract_stream_json_delta(final_flush), None);
}

#[test]
fn map_stream_json_maps_thinking_and_tools() {
    let thinking = r#"{"type":"thinking","subtype":"delta","text":"hmm","timestamp_ms":1}"#;
    let tool_started = r#"{"type":"tool_call","subtype":"started","call_id":"c1","tool_call":{"readToolCall":{"args":{"path":"README.md"}}}}"#;
    let tool_done = r#"{"type":"tool_call","subtype":"completed","call_id":"c1","tool_call":{"readToolCall":{"args":{"path":"README.md"},"result":{"success":{"totalLines":3}}}}}"#;
    let assistant = r#"{"type":"assistant","timestamp_ms":2,"message":{"role":"assistant","content":[{"type":"text","text":"hi"}]}}"#;

    match cursor_bridge::agent::map_stream_json_line(thinking) {
        Some(cursor_bridge::agent::BridgeDelta::Reasoning(t)) => assert_eq!(t, "hmm"),
        other => panic!("expected Reasoning, got {other:?}"),
    }
    match cursor_bridge::agent::map_stream_json_line(tool_started) {
        Some(cursor_bridge::agent::BridgeDelta::Content(c)) => {
            assert!(c.contains("type=\"tool_calls\""));
            assert!(c.contains("done=\"false\""));
            assert!(c.contains("README.md"));
        }
        other => panic!("expected tool start Content, got {other:?}"),
    }
    match cursor_bridge::agent::map_stream_json_line(tool_done) {
        Some(cursor_bridge::agent::BridgeDelta::Content(c)) => {
            assert!(c.contains("done=\"true\""));
            assert!(c.contains("totalLines"));
        }
        other => panic!("expected tool done Content, got {other:?}"),
    }
    match cursor_bridge::agent::map_stream_json_line(assistant) {
        Some(cursor_bridge::agent::BridgeDelta::Content(c)) => assert_eq!(c, "hi"),
        other => panic!("expected assistant Content, got {other:?}"),
    }
}

#[test]
fn tool_details_exact_text() {
    let tool_started = r#"{"type":"tool_call","subtype":"started","call_id":"c1","tool_call":{"readToolCall":{"args":{"path":"README.md"}}}}"#;
    let expected = "\n<details type=\"tool_calls\" done=\"false\" id=\"c1\" name=\"readToolCall\" arguments=\"{&quot;path&quot;:&quot;README.md&quot;}\">\n<summary>Executing...</summary>\n</details>\n";
    assert_eq!(
        map_stream_json_line(tool_started),
        Some(BridgeDelta::Content(expected.to_string()))
    );
    let tool_done = r#"{"type":"tool_call","subtype":"completed","call_id":"c1","tool_call":{"readToolCall":{"args":{"path":"a<b>"},"result":{"n":3}}}}"#;
    let expected_done = "\n<details type=\"tool_calls\" done=\"true\" id=\"c1\" name=\"readToolCall\" arguments=\"{&quot;path&quot;:&quot;a&lt;b&gt;&quot;}\" result=\"{&quot;n&quot;:3}\">\n<summary>Tool Executed</summary>\n</details>\n";
    assert_eq!(
        map_stream_json_line(tool_done),
        Some(BridgeDelta::Content(expected_done.to_string()))
    );
}

#[test]
fn tool_call_without_object_uses_placeholders() {
    let line = r#"{"type":"tool_call","subtype":"started"}"#;
    let expected = "\n<details type=\"tool_calls\" done=\"false\" id=\"\" name=\"tool\" arguments=\"null\">\n<summary>Executing...</summary>\n</details>\n";
    assert_eq!(
        map_stream_json_line(line),
        Some(BridgeDelta::Content(expected.to_string()))
    );
}

#[test]
fn unknown_events_and_bad_lines_map_to_nothing() {
    assert_eq!(map_stream_json_line("not json"), None);
    assert_eq!(map_stream_json_line(""), None);
    assert_eq!(map_stream_json_line(r#"{"type":"result","subtype":"success"}"#), None);
    assert_eq!(map_stream_json_line(r#"{"type":"thinking","subtype":"completed"}"#), None);
    assert_eq!(map_stream_json_line(r#"{"type":"thinking","subtype":"delta","text":""}"#), None);
    assert_eq!(map_stream_json_line(r#"{"type":"tool_call","subtype":"other"}"#), None);
    assert_eq!(map_stream_json_line(r#"[1,2]"#), None);
}

#[test]
fn assistant_parts_join_text_only() {
    let line = r#"{"type":"assistant","timestamp_ms":5,"message":{"content":[{"type":"text","text":"a"},{"type":"image","text":"x"},{"type":"text","text":"b"},{"type":"text"}]}}"#;
    assert_eq!(extract_stream_json_delta(line).as_deref(), Some("ab"));
    let empty = r#"{"type":"assistant","timestamp_ms":5,"message":{"content":[{"type":"image"}]}}"#;
    assert_eq!(extract_stream_json_delta(empty), None);
    let null_stamp = r#"{"type":"assistant","timestamp_ms":null,"message":{"content":[{"type":"text","text":"z"}]}}"#;
    assert_eq!(extract_stream_json_delta(null_stamp).as_deref(), Some("z"));
}

#[test]
fn turn_collects_content_and_reasoning() {
    let lines = [
        r#"{"type":"system","subtype":"init"}"#,
        "\n",
        r#"{"type":"thinking","subtype":"delta","text":"plan","timestamp_ms":1}"#,
        "\r\n",
        r#"{"type":"assistant","timestamp_ms":2,"message":{"content":[{"type":"text","text":"Hel"}]}}"#,
        "\n",
        r#"{"type":"thinking","subtype":"delta","text":"ning","timestamp_ms":3}"#,
        "\n",
        r#"{"type":"assistant","timestamp_ms":4,"message":{"content":[{"type":"text","text":"lo"}]}}"#,
        "\n",
        r#"{"type":"assistant","message":{"content":[{"type":"text","text":"Hello"}]}}"#,
        "\n",
    ];
    let joined: String = lines.concat();
    let out = joined.as_str();
    let turn = turn_from_text(out);
    assert_eq!(turn.content, "Hello");
    assert_eq!(turn.reasoning_content, "planning");
}

#[test]
fn turn_from_failed_run_reports_exit() {
    let out = ProcessOutput {
        success: false,
        code: Some(3),
        stdout: b"ignored".to_vec(),
        stderr: b"Authentication required: not logged in".to_vec(),
    };
    match turn_from_output(out) {
        Err(AgentError::Exit { status, stderr }) => {
            assert_eq!(status, 3);
            assert_eq!(stderr, "Authentication required: not logged in");
        }
        other => panic!("expected Exit, got {other:?}"),
    }
    let killed = ProcessOutput { success: false, code: None, stdout: vec![], stderr: vec![0xff] };
    match turn_from_output(killed) {
        Err(AgentError::Exit { status, stderr }) => {
            assert_eq!(status, -1);
            assert_eq!(stderr, "\u{FFFD}");
        }
        other => panic!("expected Exit, got {other:?}"),
    }
}

#[test]
fn turn_from_non_utf8_output_is_error() {
    let out = ProcessOutput { success: true, code: Some(0), stdout: vec![0xc3, 0x28], stderr: vec![] };
    assert!(matches!(turn_from_output(out), Err(AgentError::Utf8)));
}

#[test]
fn turn_from_good_output() {
    let stdout = br#"{"type":"assistant","timestamp_ms":1,"message":{"content":[{"type":"text","text":"OK"}]}}"#.to_vec();
    let out = ProcessOutput { success: true, code: Some(0), stdout, stderr: vec![] };
    let turn = turn_from_output(out).expect("turn");
    assert_eq!(turn.content, "OK");
    assert_eq!(turn.reasoning_content, "");
}

#[test]
fn agent_error_messages() {
    assert_eq!(AgentError::Spawn("No such file".into()).message(), "failed to spawn agent: No such file");
    assert_eq!(
        AgentError::Exit { status: -12, stderr: "boom".into() }.message(),
        "agent exited with status -12: boom"
    );
    assert_eq!(
        AgentError::Exit { status: i32::MIN, stderr: String::new() }.message(),
        "agent exited with status -2147483648: "
    );
    assert_eq!(
        AgentError::Exit { status: 0, stderr: "x".into() }.message(),
        "agent exited with status 0: x"
    );
    assert_eq!(AgentError::Utf8.message(), "agent output was not valid utf-8");
    assert_eq!(AgentError::LoginUrlTimeout.message(), "timed out waiting for login URL from agent");
    assert_eq!(AgentError::LoginUrlMissing.message(), "agent login produced no URL");
}

#[test]
fn login_search_outcomes() {
    assert_eq!(login_outcome(LoginSearch::Found("https://cursor.com/x".into())).unwrap(), "https://cursor.com/x");
    assert!(matches!(login_outcome(LoginSearch::Ended), Err(AgentError::LoginUrlMissing)));
    assert!(matches!(login_outcome(LoginSearch::TimedOut), Err(AgentError::LoginUrlTimeout)));
}

#[test]
fn stderr_lines_join_up_to_the_cap() {
    let mut buf = String::new();
    push_stderr_line(&mut buf, "first");
    assert_eq!(buf, "first");
    push_stderr_line(&mut buf, "");
    push_stderr_line(&mut buf, "third");
    assert_eq!(buf, "first\n\nthird");
    assert!(!stderr_full(&buf));
    let mut big = "x".repeat(STDERR_CAP_BYTES);
    assert!(!stderr_full(&big));
    push_stderr_line(&mut big, "");
    assert!(stderr_full(&big));
    assert_eq!(STDERR_CAP_BYTES, 8192);
}

#[test]
fn login_search_steps() {
    let found = login_search_step(LoginRead::Stdout("Open https://cursor.com/loginDeepControl?x=1 now".into()));
    assert!(matches!(found, Some(LoginSearch::Found(ref u)) if u == "https://cursor.com/loginDeepControl?x=1"));
    let on_err = login_search_step(LoginRead::Stderr("visit https://cursor.com/a".into()));
    assert!(matches!(on_err, Some(LoginSearch::Found(ref u)) if u == "https://cursor.com/a"));
    assert!(login_search_step(LoginRead::Stdout("waiting".into())).is_none());
    assert!(login_search_step(LoginRead::Stderr("https://".into())).is_none());
    assert!(login_search_step(LoginRead::StderrClosed).is_none());
    assert!(matches!(login_search_step(LoginRead::StdoutClosed), Some(LoginSearch::Ended)));
    assert!(matches!(login_search_step(LoginRead::Failed), Some(LoginSearch::Ended)));
}

#[test]
fn stream_read_steps() {
    let line = r#"{"type":"assistant","timestamp_ms":1,"message":{"role":"assistant","content":[{"type":"text","text":"Hel"}]}}"#;
    match stream_read_step(StreamRead::Line(line.into())) {
        StreamStep::Emit(d) => assert_eq!(Some(d), map_stream_json_line(line)),
        _ => panic!("expected a piece"),
    }
    assert!(matches!(stream_read_step(StreamRead::Line("not json".into())), StreamStep::Skip));
    assert!(matches!(stream_read_step(StreamRead::Closed), StreamStep::Finish(None)));
    assert!(matches!(stream_read_step(StreamRead::Failed("broken pipe".into())), StreamStep::Finish(Some(ref m)) if m == "broken pipe"));
}

#[test]
fn stream_end_order() {
    assert!(stream_end(None, Ok((true, Some(0))), "").is_none());
    assert!(matches!(
        stream_end(None, Ok((false, Some(3))), "not logged in"),
        Some(AgentError::Exit { status: 3, ref stderr }) if stderr == "not logged in"
    ));
    assert!(matches!(
        stream_end(None, Ok((false, None)), ""),
        Some(AgentError::Exit { status: -1, .. })
    ));
    assert!(matches!(
        stream_end(Some("read failed".into()), Ok((false, Some(1))), "x"),
        Some(AgentError::Spawn(ref m)) if m == "read failed"
    ));
    assert!(matches!(
        stream_end(Some("read failed".into()), Err("wait failed".into()), ""),
        Some(AgentError::Spawn(ref m)) if m == "wait failed"
    ));
}
