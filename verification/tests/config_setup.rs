//! Configuration, setup state, status reports and login URLs.

use cursor_bridge::agent::{
    agent_env, extract_https_url, print_turn_args, sanitize_status_line, status_from_output,
    stream_exit_error, AgentError, ProcessOutput,
};
use cursor_bridge::config::{parse_extra_models, Config, EnvSettings};
use cursor_bridge::setup::{initial_setup_enabled, AppOptions, SetupGate};

fn unset() -> EnvSettings {
    EnvSettings {
        api_key: None,
        model_id: None,
        cursor_model: None,
        extra_models: None,
        discover_models: None,
        home: None,
        state_dir: None,
        agent_bin: None,
        workspace: None,
    }
}

#[test]
fn test_default_config() {
    let c = Config::test_default();
    assert_eq!(c.api_key, "test-bridge-key");
    assert_eq!(c.agent_bin, "agent");
    assert_eq!(c.default_model_id(), "cursor-auto");
    assert_eq!(c.resolve_model(""), Some("default"));
    assert_eq!(c.resolve_model("cursor-auto"), Some("default"));
    assert_eq!(c.resolve_model("gpt-5.2"), None);
    assert!(!c.discover_models);
    assert_eq!(c.setup_complete_flag(), "./.cursor-bridge-setup-complete");
}

#[test]
fn setup_flag_path_joins() {
    let mut c = Config::test_default();
    c.state_dir = "/var/lib/bridge/".into();
    assert_eq!(c.setup_complete_flag(), "/var/lib/bridge/.cursor-bridge-setup-complete");
    c.state_dir = "/tmp/x".into();
    assert_eq!(c.setup_complete_flag(), "/tmp/x/.cursor-bridge-setup-complete");
    c.state_dir = String::new();
    assert_eq!(c.setup_complete_flag(), ".cursor-bridge-setup-complete");
}

#[test]
fn settings_defaults() {
    let c = Config::from_settings(&unset());
    assert_eq!(c.api_key, "");
    assert_eq!(c.default_model_id, "cursor-auto");
    assert_eq!(c.resolve_model(""), Some("default"));
    assert_eq!(c.agent_bin, "agent");
    assert_eq!(c.workspace, "./workspace");
    assert_eq!(c.state_dir, "/home/bridge");
    assert!(c.discover_models);
}

#[test]
fn settings_override_and_extra_models() {
    let mut env = unset();
    env.api_key = Some("k".into());
    env.model_id = Some("auto-id".into());
    env.cursor_model = Some("auto".into());
    env.extra_models = Some(" fast : gpt-5 , bad,:x, y:, slow:sonnet,fast:gpt-6 ,".into());
    env.home = Some("/home/me".into());
    env.discover_models = Some(" 0 ".into());
    let c = Config::from_settings(&env);
    assert_eq!(c.api_key, "k");
    assert_eq!(c.resolve_model(""), Some("auto"));
    assert_eq!(c.resolve_model("fast"), Some("gpt-6"));
    assert_eq!(c.resolve_model("slow"), Some("sonnet"));
    assert_eq!(c.resolve_model("bad"), None);
    assert_eq!(c.models.ids(), vec!["auto-id", "fast", "slow"]);
    assert_eq!(c.state_dir, "/home/me");
    assert!(!c.discover_models);

    env.state_dir = Some("/state".into());
    env.discover_models = Some("1".into());
    let c = Config::from_settings(&env);
    assert_eq!(c.state_dir, "/state");
    assert!(c.discover_models);
}

#[test]
fn extra_models_parse() {
    let pairs = parse_extra_models("a:b, c : d ,,e,f:");
    assert_eq!(pairs, vec![("a".to_string(), "b".to_string()), ("c".to_string(), "d".to_string())]);
    assert!(parse_extra_models("").is_empty());
    assert_eq!(parse_extra_models("x:y:z"), vec![("x".to_string(), "y:z".to_string())]);
}

#[test]
fn setup_gate_and_options() {
    let mut g = SetupGate::new(true);
    assert!(g.is_enabled());
    g.disable();
    assert!(!g.is_enabled());
    g.disable();
    assert!(!g.is_enabled());
    assert!(!SetupGate::new(false).is_enabled());
    assert!(!AppOptions::default().force_setup);
    assert!(initial_setup_enabled(true, true, true));
    assert!(initial_setup_enabled(false, false, false));
    assert!(!initial_setup_enabled(false, true, false));
    assert!(!initial_setup_enabled(false, false, true));
}

#[test]
fn status_reports() {
    let ok = |out: &[u8]| ProcessOutput { success: true, code: Some(0), stdout: out.to_vec(), stderr: vec![] };
    let st = status_from_output(&ok(b"  Logged in as dev@example.com\n")).unwrap();
    assert!(st.logged_in);
    assert_eq!(st.summary, "Logged in as dev@example.com");
    let st = status_from_output(&ok(b"Not logged in")).unwrap();
    assert!(!st.logged_in);
    let st = status_from_output(&ok(b"user@host")).unwrap();
    assert!(st.logged_in);
    let st = status_from_output(&ok(b"hello")).unwrap();
    assert!(!st.logged_in);
    let long = "x".repeat(250);
    let st = status_from_output(&ok(long.as_bytes())).unwrap();
    assert_eq!(st.summary.chars().count(), 200);

    let stderr_only = ProcessOutput { success: false, code: Some(1), stdout: b"\n".to_vec(), stderr: b" LOGGED IN \n".to_vec() };
    let st = status_from_output(&stderr_only).unwrap();
    assert!(st.logged_in);
    assert_eq!(st.summary, "LOGGED IN");

    let silent = ProcessOutput { success: false, code: Some(2), stdout: vec![], stderr: b"  \n".to_vec() };
    match status_from_output(&silent) {
        Err(AgentError::Exit { status, stderr }) => {
            assert_eq!(status, 2);
            assert_eq!(stderr, "");
        }
        other => panic!("expected Exit, got {other:?}"),
    }
    assert_eq!(sanitize_status_line("ab"), "ab");
    assert_eq!(sanitize_status_line(&"é".repeat(201)).chars().count(), 200);
}

#[test]
fn login_urls() {
    assert_eq!(
        extract_https_url("Open https://cursor.com/loginDeepControl?x=1&y=2. to continue").as_deref(),
        Some("https://cursor.com/loginDeepControl?x=1&y=2")
    );
    assert_eq!(extract_https_url(r#"url="https://a.b/c",)"#).as_deref(), Some("https://a.b/c"));
    assert_eq!(extract_https_url("(see https://a.b/c);").as_deref(), Some("https://a.b/c"));
    assert_eq!(extract_https_url("just https:// here"), None);
    assert_eq!(extract_https_url("no url"), None);
    assert_eq!(extract_https_url("http://insecure.example"), None);
}

#[test]
fn command_lines() {
    let args = print_turn_args("default", "hi there");
    assert_eq!(
        args,
        vec!["-p", "--trust", "--force", "--output-format", "stream-json", "--stream-partial-output", "--model", "default", "hi there"]
    );
    let mut c = Config::test_default();
    c.state_dir = "/s".into();
    let env = agent_env(&c);
    assert_eq!(
        env,
        vec![
            ("HOME".to_string(), "/s".to_string()),
            ("NO_OPEN_BROWSER".to_string(), "1".to_string()),
            ("FAKE_AGENT_STATE_DIR".to_string(), "/s".to_string()),
            ("CURSOR_BRIDGE_STATE_DIR".to_string(), "/s".to_string()),
        ]
    );
    assert!(stream_exit_error(true, Some(0), "").is_none());
    match stream_exit_error(false, None, "err") {
        Some(AgentError::Exit { status, stderr }) => {
            assert_eq!(status, -1);
            assert_eq!(stderr, "err");
        }
        other => panic!("expected Exit, got {other:?}"),
    }
}

#[test]
fn extra_models_are_trimmed_and_non_blank() {
    let pairs = parse_extra_models("  a \t:\t b  ,\n c:d\n, :x, y: ,   ");
    assert_eq!(pairs, vec![("a".to_string(), "b".to_string()), ("c".to_string(), "d".to_string())]);
    for (id, model) in &pairs {
        assert!(!id.is_empty() && !model.is_empty());
        assert_eq!(id.trim(), id);
        assert_eq!(model.trim(), model);
    }
}
