//! Requests, prompts, authorization and response bodies.

use cursor_bridge::agent::{AgentError, AgentStatus, AgentTurn, BridgeDelta};
use cursor_bridge::config::Config;
use cursor_bridge::routes::{
    agent_failure, bearer_authorized, json_required, chat_completion_body, is_json_media_type, conversation_prompt, healthz_body,
    login_body, login_started, models_list_body, parse_chat_request, plan_chat, request_error,
    needs_setup_flag, sanitize_agent_error, setup_gone, setup_login_step, setup_status_closed, setup_status_step, user_turn,
    status_body, unauthorized, ChatMessage, LoginStep, RequestError, SseStream,
};
use cursor_bridge::setup::SetupGate;

fn msg(role: &str, content: &str) -> ChatMessage {
    ChatMessage { role: role.into(), content: content.into() }
}

#[test]
fn healthz_body_has_no_credentials() {
    let text = healthz_body();
    assert_eq!(text, r#"{"ok":true}"#);
    assert!(!text.to_lowercase().contains("bearer"));
    assert!(!text.contains("sk-"));
}

#[test]
fn models_list_names_cursor_auto() {
    let config = Config::test_default();
    let body = models_list_body(&config.models);
    assert_eq!(
        body,
        r#"{"data":[{"id":"cursor-auto","object":"model","owned_by":"cursor-bridge"}],"object":"list"}"#
    );
    let json: serde_json::Value = serde_json::from_str(&body).unwrap();
    assert_eq!(json["data"][0]["id"], "cursor-auto");
}

#[test]
fn bearer_check() {
    assert!(bearer_authorized(Some("Bearer test-bridge-key"), "test-bridge-key"));
    assert!(!bearer_authorized(None, "test-bridge-key"));
    assert!(!bearer_authorized(Some("Bearer wrong"), "test-bridge-key"));
    assert!(!bearer_authorized(Some("bearer test-bridge-key"), "test-bridge-key"));
    assert!(!bearer_authorized(Some("Bearer test-bridge-key "), "test-bridge-key"));
    assert!(!bearer_authorized(Some("Bearer "), ""));
    assert!(!bearer_authorized(None, ""));
    let e = unauthorized();
    assert_eq!(e.status, 401);
    assert_eq!(e.body(), r#"{"error":{"message":"invalid api key","type":"invalid_request_error"}}"#);
}

#[test]
fn chat_sends_only_latest_user_turn() {
    let messages = vec![msg("user", "ONE"), msg("assistant", "ONE"), msg("user", "TWO")];
    assert_eq!(conversation_prompt(&messages).as_deref(), Some("TWO"));
    let trailing = vec![msg("system", "S"), msg("user", "Q"), msg("assistant", "A")];
    assert_eq!(conversation_prompt(&trailing).as_deref(), Some("Q"));
    assert_eq!(conversation_prompt(&[msg("system", "S"), msg("assistant", "A")]), None);
    assert_eq!(conversation_prompt(&[]), None);
}

#[test]
fn parse_request_reads_fields_and_multipart_content() {
    let req = parse_chat_request(
        r#"{"model":"cursor-auto","stream":true,"extra":1,"messages":[{"role":"user","content":[{"type":"text","text":"pi"},"n",{"type":"image_url"},{"type":"text","text":"g"}]}]}"#,
    )
    .unwrap();
    assert_eq!(req.model, "cursor-auto");
    assert!(req.stream);
    assert_eq!(req.messages.len(), 1);
    assert_eq!(req.messages[0].role, "user");
    assert_eq!(req.messages[0].content, "ping");

    let defaults = parse_chat_request(r#"{"messages":[]}"#).unwrap();
    assert_eq!(defaults.model, "");
    assert!(!defaults.stream);
}

fn shape(body: &str) -> String {
    match parse_chat_request(body) {
        Err(RequestError::Shape(m)) => m,
        other => panic!("expected a shape error, got {:?}", other),
    }
}

fn syntax(body: &str) -> String {
    match parse_chat_request(body) {
        Err(RequestError::Syntax(m)) => m,
        other => panic!("expected a syntax error, got {:?}", other),
    }
}

#[test]
fn parse_request_errors() {
    assert_eq!(syntax("{"), "EOF while parsing an object at line 1 column 1");
    assert_eq!(syntax(""), "EOF while parsing a value at line 1 column 0");
    assert_eq!(shape(r#"{"model":"m"}"#), "missing field `messages`");
    assert_eq!(shape(r#"[1]"#), "[0]: invalid type: integer `1`, expected a string");
    assert_eq!(shape(r#"[]"#), "invalid length 1, expected struct ChatRequest with 3 elements");
    assert_eq!(shape(r#"7"#), "invalid type: integer `7`, expected struct ChatRequest");
    assert_eq!(shape(r#""hi""#), r#"invalid type: string "hi", expected struct ChatRequest"#);
    assert_eq!(shape(r#"{"messages":[{"role":"user"}]}"#), "messages[0]: missing field `content`");
    assert_eq!(
        shape(r#"{"messages":[{"role":"user","content":5}]}"#),
        "messages[0].content: message content must be string or content parts array, got 5"
    );
    assert_eq!(shape(r#"{"messages":[{"content":"x"}]}"#), "messages[0]: missing field `role`");
    assert_eq!(shape(r#"{"messages":[{"content":7}]}"#), "messages[0].content: message content must be string or content parts array, got 7");
    assert_eq!(
        shape(r#"{"messages":[{"role":"user","content":"a"},{"role":1,"content":"x"}]}"#),
        "messages[1].role: invalid type: integer `1`, expected a string"
    );
    assert_eq!(shape(r#"{"messages":[3]}"#), "messages[0]: invalid type: integer `3`, expected struct ChatMessage");
    assert_eq!(shape(r#"{"messages":[null]}"#), "messages[0]: invalid type: null, expected struct ChatMessage");
    assert_eq!(shape(r#"{"messages":[[]]}"#), "messages[0]: invalid length 0, expected struct ChatMessage with 2 elements");
    assert_eq!(shape(r#"{"messages":[["user"]]}"#), "messages[0]: invalid length 1, expected struct ChatMessage with 2 elements");
    assert_eq!(shape(r#"{"messages":[[false,"x"]]}"#), "messages[0][0]: invalid type: boolean `false`, expected a string");
    assert_eq!(syntax(r#"{"messages":[["user","a","b"]]}"#), "messages[0]: trailing characters");
    assert_eq!(shape(r#"{"messages":{}}"#), "messages: invalid type: map, expected a sequence");
    assert_eq!(shape(r#"{"messages":[],"stream":"yes"}"#), r#"stream: invalid type: string "yes", expected a boolean"#);
    assert_eq!(shape(r#"{"messages":[],"stream":1.5}"#), "stream: invalid type: floating point `1.5`, expected a boolean");
    assert_eq!(shape(r#"{"stream":[1]}"#), "stream: invalid type: sequence, expected a boolean");
    assert_eq!(shape(r#"{"messages":[],"model":null}"#), "model: invalid type: null, expected a string");
    assert_eq!(shape(r#"{"messages":[],"model":-3}"#), "model: invalid type: integer `-3`, expected a string");
    assert_eq!(
        shape(r#"{"messages":[],"stream":"a\"b\\c\n\u0001"}"#),
        r#"stream: invalid type: string "a\"b\\c\n\u{1}", expected a boolean"#
    );
    assert_eq!(shape(r#"["m",[["user",true]]]"#), "[1][0][1]: message content must be string or content parts array, got true");
    assert_eq!(syntax(r#"["m",[],true,4]"#), "trailing characters");

    let syntax_err = request_error(&parse_chat_request("{").unwrap_err());
    assert_eq!(syntax_err.status, 400);
    assert_eq!(
        syntax_err.message,
        "Failed to parse the request body as JSON: EOF while parsing an object at line 1 column 1"
    );
    let trailing = request_error(&parse_chat_request(r#"["m",[],true,4]"#).unwrap_err());
    assert_eq!(trailing.status, 400);
    assert_eq!(trailing.message, "Failed to parse the request body as JSON: trailing characters");
    let bad = request_error(&parse_chat_request(r#"{"model":"m"}"#).unwrap_err());
    assert_eq!(bad.status, 422);
    assert_eq!(bad.message, "Failed to deserialize the JSON body into the target type: missing field `messages`");
    assert_eq!(bad.kind, "invalid_request_error");
}

#[test]
fn malformed_message_content_is_named() {
    for (content, shown) in [("42", "42"), ("null", "null"), ("true", "true"), (r#"{"a":1}"#, r#"{"a":1}"#)] {
        let body = format!(r#"{{"messages":[{{"role":"user","content":{}}}]}}"#, content);
        let message = shape(&body);
        assert!(message.starts_with("messages[0].content: message content must be string or content parts array, got "));
        assert_eq!(message, format!("messages[0].content: message content must be string or content parts array, got {}", shown));
    }
}

#[test]
fn parse_request_array_forms() {
    let req = parse_chat_request(r#"["m",[["user","hi"]],true]"#).unwrap();
    assert_eq!(req.model, "m");
    assert!(req.stream);
    assert_eq!(req.messages.len(), 1);
    assert_eq!(req.messages[0].role, "user");
    assert_eq!(req.messages[0].content, "hi");
    let short = parse_chat_request(r#"["m",[{"role":"user","content":"x"}]]"#).unwrap();
    assert!(!short.stream);
    assert_eq!(short.messages[0].content, "x");
}

#[test]
fn plan_resolves_model_and_prompt() {
    let config = Config::test_default();
    let req = parse_chat_request(r#"{"messages":[{"role":"user","content":"hi"}]}"#).unwrap();
    let plan = plan_chat(&req, &config.models, config.default_model_id()).unwrap();
    assert_eq!(plan.cursor_model, "default");
    assert_eq!(plan.model_id, "cursor-auto");
    assert_eq!(plan.prompt, "hi");
    assert!(!plan.stream);

    let unknown = parse_chat_request(r#"{"model":"gpt","messages":[{"role":"user","content":"hi"}]}"#).unwrap();
    let err = plan_chat(&unknown, &config.models, config.default_model_id()).unwrap_err();
    assert_eq!(err.status, 400);
    assert_eq!(err.message, "model not allowed: gpt (use GET /v1/models for the allowlist)");

    let no_user = parse_chat_request(r#"{"model":"gpt","messages":[{"role":"system","content":"x"}]}"#).unwrap();
    let err = plan_chat(&no_user, &config.models, config.default_model_id()).unwrap_err();
    assert_eq!(err.message, "messages must include a user turn");
    assert_eq!(
        err.body(),
        r#"{"error":{"message":"messages must include a user turn","type":"invalid_request_error"}}"#
    );

    let mut empty_default = Config::test_default();
    empty_default.default_model_id = "missing".into();
    let err = plan_chat(&req, &empty_default.models, empty_default.default_model_id()).unwrap_err();
    assert_eq!(err.message, "model not allowed: (empty) (use GET /v1/models for the allowlist)");
}

#[test]
fn sanitize_redacts_bearer() {
    assert_eq!(
        sanitize_agent_error("got Bearer abc and Bearer def"),
        "got Bearer [redacted] and Bearer [redacted]"
    );
    let raw = "agent exited with status 1: Authorization: Bearer sk-secret";
    let clean = sanitize_agent_error(raw);
    assert!(!clean.contains("sk-secret"));
    assert!(clean.contains("Bearer [redacted]"));
    assert_eq!(clean, "agent exited with status 1: Authorization: Bearer [redacted]");
    assert_eq!(sanitize_agent_error("Bearer tok\nnext line"), "Bearer [redacted]\nnext line");
    assert_eq!(sanitize_agent_error("plain text"), "plain text");
    for raw in ["Bearer Bearer x", "aBearer  Bearer\tk", "Bearer", "x Bearer y Bearer z"] {
        let clean = sanitize_agent_error(raw);
        for (at, _) in clean.match_indices("Bearer ") {
            assert!(clean[at..].starts_with("Bearer [redacted]"), "{clean:?}");
        }
    }
    assert_eq!(sanitize_agent_error("Bearer Bearer x"), "Bearer [redacted] x");
    let e = agent_failure(&AgentError::Exit { status: 1, stderr: "Bearer sk-1".into() });
    assert_eq!(e.status, 502);
    assert_eq!(e.message, "agent exited with status 1: Bearer [redacted]");
    assert!(!e.message.contains("test-bridge-key"));
}

#[test]
fn completion_body_shapes() {
    let turn = AgentTurn { content: "say \"hi\"\n".into(), reasoning_content: String::new() };
    assert_eq!(
        chat_completion_body("cursor-auto", &turn),
        r#"{"choices":[{"finish_reason":"stop","index":0,"message":{"content":"say \"hi\"\n","role":"assistant"}}],"id":"chatcmpl-bridge","model":"cursor-auto","object":"chat.completion"}"#
    );
    let with_reasoning = AgentTurn { content: "a".into(), reasoning_content: "r\u{1}".into() };
    let body = chat_completion_body("m", &with_reasoning);
    assert_eq!(
        body,
        r#"{"choices":[{"finish_reason":"stop","index":0,"message":{"content":"a","reasoning_content":"r\u0001","role":"assistant"}}],"id":"chatcmpl-bridge","model":"m","object":"chat.completion"}"#
    );
    let json: serde_json::Value = serde_json::from_str(&body).unwrap();
    assert_eq!(json["choices"][0]["message"]["reasoning_content"], "r\u{1}");
}

#[test]
fn stream_chunks_role_once_then_done() {
    let mut s = SseStream::new("cursor-auto");
    let first = s.delta_chunk(&BridgeDelta::Reasoning("think".into())).unwrap();
    assert_eq!(
        first,
        r#"{"choices":[{"delta":{"reasoning_content":"think","role":"assistant"},"finish_reason":null,"index":0}],"id":"chatcmpl-bridge","model":"cursor-auto","object":"chat.completion.chunk"}"#
    );
    let second = s.delta_chunk(&BridgeDelta::Content("O\nK".into())).unwrap();
    assert_eq!(
        second,
        r#"{"choices":[{"delta":{"content":"O\nK"},"finish_reason":null,"index":0}],"id":"chatcmpl-bridge","model":"cursor-auto","object":"chat.completion.chunk"}"#
    );
    assert!(!second.contains('\n'));
    let end = s.end_chunks();
    assert_eq!(end.len(), 2);
    assert_eq!(
        end[0],
        r#"{"choices":[{"delta":{},"finish_reason":"stop","index":0}],"id":"chatcmpl-bridge","model":"cursor-auto","object":"chat.completion.chunk"}"#
    );
    assert_eq!(end[1], "[DONE]");
    assert!(s.delta_chunk(&BridgeDelta::Content("late".into())).is_none());
    assert!(s.end_chunks().is_empty());
    assert!(s.error_chunks("x").is_empty());
}

#[test]
fn stream_error_ends_with_done() {
    let mut s = SseStream::new("m");
    let frames = s.error_chunks("agent exited with status 1: oops");
    assert_eq!(frames.len(), 2);
    let json: serde_json::Value = serde_json::from_str(&frames[0]).unwrap();
    assert_eq!(json["choices"][0]["delta"]["content"], "\n\n[bridge error: agent exited with status 1: oops]");
    assert_eq!(json["choices"][0]["finish_reason"], "stop");
    assert!(json["choices"][0]["delta"].get("tool_calls").is_none());
    assert_eq!(frames[1], "[DONE]");
    assert!(s.end_chunks().is_empty());
}

#[test]
fn setup_login_and_status_steps() {
    let open = SetupGate::new(true);
    match setup_login_step(&open, None) {
        LoginStep::Start => {}
        _ => panic!("expected Start"),
    }
    match setup_login_step(&open, Some("https://cursor.com/login?x=1")) {
        LoginStep::Answer(b) => assert_eq!(b, r#"{"login_url":"https://cursor.com/login?x=1","setup_enabled":true}"#),
        _ => panic!("expected Answer"),
    }
    let closed = SetupGate::new(false);
    match setup_login_step(&closed, None) {
        LoginStep::Refuse(e) => {
            assert_eq!(e.status, 410);
            assert_eq!(e.body(), r#"{"error":{"message":"setup UI is disabled","type":"setup_complete"}}"#);
        }
        _ => panic!("expected Refuse"),
    }
    assert_eq!(setup_gone(true).message, "setup UI is disabled (Cursor already logged in, or setup completed)");
    assert_eq!(login_started(&open, &Ok("https://u".into())).unwrap(), login_body("https://u", true));
    assert_eq!(login_started(&open, &Err(AgentError::LoginUrlTimeout)).unwrap_err().status, 502);

    assert_eq!(
        setup_status_closed(&closed).unwrap(),
        r#"{"logged_in":true,"setup_enabled":false,"summary":"setup complete"}"#
    );
    assert!(setup_status_closed(&open).is_none());

    let mut gate = SetupGate::new(true);
    let not_in = Ok(AgentStatus { logged_in: false, summary: "Not logged in".into() });
    assert!(!needs_setup_flag(&not_in));
    let pending = setup_status_step(&mut gate, not_in, false);
    assert!(gate.is_enabled());
    assert_eq!(pending.unwrap(), status_body(false, true, "Not logged in"));

    let logged_in = Ok(AgentStatus { logged_in: true, summary: "Logged in as a@b".into() });
    assert!(needs_setup_flag(&logged_in));
    let unwritten = setup_status_step(&mut gate, logged_in.clone(), false);
    assert!(gate.is_enabled());
    assert_eq!(unwritten.unwrap(), r#"{"logged_in":true,"setup_enabled":true,"summary":"Logged in as a@b"}"#);

    let done = setup_status_step(&mut gate, logged_in, true);
    assert!(!gate.is_enabled());
    assert_eq!(done.unwrap(), r#"{"logged_in":true,"setup_enabled":false,"summary":"Logged in as a@b"}"#);

    let failed: Result<AgentStatus, AgentError> = Err(AgentError::Utf8);
    assert!(!needs_setup_flag(&failed));
    let mut open_gate = SetupGate::new(true);
    assert_eq!(setup_status_step(&mut open_gate, failed, false).unwrap_err().status, 502);
    assert!(open_gate.is_enabled());
}

#[test]
fn non_json_body_is_refused_with_415() {
    let e = json_required();
    assert_eq!(e.status, 415);
    assert_eq!(
        e.body(),
        r#"{"error":{"message":"Expected request with `Content-Type: application/json`","type":"invalid_request_error"}}"#
    );
}

#[test]
fn json_content_types() {
    assert!(is_json_media_type("application/json"));
    assert!(is_json_media_type("application/json; charset=utf-8"));
    assert!(is_json_media_type("application/json;charset=utf-8"));
    assert!(is_json_media_type("Application/JSON"));
    assert!(is_json_media_type("application/cloudevents+json"));
    assert!(!is_json_media_type("text/json"));
    assert!(!is_json_media_type("application/jsonx"));
    assert!(!is_json_media_type(""));
    assert!(!is_json_media_type("json"));
}

#[test]
fn accepts_multipart_message_content_array() {
    let content = |c: &str| {
        parse_chat_request(&format!(r#"{{"model":"cursor-auto","messages":[{{"role":"user","content":{}}}]}}"#, c))
            .map(|req| req.messages[0].content.clone())
    };
    assert_eq!(content(r#"[{"type":"text","text":"ping"}]"#).unwrap(), "ping");
    assert_eq!(
        content(r#"["a", {"type":"image_url","image_url":{"url":"u"}}, {"type":"text","text":"b"}, {"type":"text"}]"#)
            .unwrap(),
        "ab"
    );
    assert_eq!(content(r#""plain""#).unwrap(), "plain");
    for bad in ["42", "null", "false", r#"{"type":"text","text":"x"}"#] {
        match content(bad) {
            Err(RequestError::Shape(m)) => {
                assert!(m.starts_with("messages[0].content: message content must be string or content parts array, got "))
            }
            other => panic!("expected a shape error, got {:?}", other),
        }
    }
}

#[test]
fn user_turn_needs_no_model_list() {
    let req = parse_chat_request(r#"{"model":"not-listed","messages":[{"role":"user","content":"A"},{"role":"assistant","content":"B"}]}"#).unwrap();
    assert_eq!(user_turn(&req).unwrap(), "A");
    let none = parse_chat_request(r#"{"model":"not-listed","messages":[{"role":"system","content":"S"}]}"#).unwrap();
    let err = user_turn(&none).unwrap_err();
    assert_eq!(err.status, 400);
    assert_eq!(err.message, "messages must include a user turn");
    assert_eq!(err.kind, "invalid_request_error");
}

#[test]
fn setup_gate_never_reopens() {
    let mut gate = SetupGate::new(true);
    gate.disable();
    assert!(!gate.is_enabled());
    gate.disable();
    assert!(!gate.is_enabled());
    let logged_in = Ok(AgentStatus { logged_in: true, summary: "Logged in".into() });
    let logged_out = Ok(AgentStatus { logged_in: false, summary: "Not logged in".into() });
    assert_eq!(
        setup_status_step(&mut gate, logged_out, false).unwrap(),
        r#"{"logged_in":false,"setup_enabled":false,"summary":"Not logged in"}"#
    );
    assert!(!gate.is_enabled());
    let _ = setup_status_step(&mut gate, logged_in, true);
    let _ = setup_status_step(&mut gate, Err(AgentError::Utf8), false);
    assert!(!gate.is_enabled());
    let mut closed = SetupGate::new(false);
    let _ = setup_status_step(&mut closed, Ok(AgentStatus { logged_in: false, summary: String::new() }), false);
    assert!(!closed.is_enabled());
}
