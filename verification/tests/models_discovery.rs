//! `agent models` parsing, discovery merge and the model cache.

use cursor_bridge::agent::{models_from_output, parse_models_output, AgentError, DiscoveredModel, ProcessOutput};
use cursor_bridge::config::Config;
use cursor_bridge::models::ModelMap;
use cursor_bridge::setup::{
    merge_discovered, models_after_discovery, models_without_discovery, record_discovery,
    resolve_in, ModelCatalog,
};

#[test]
fn parse_models_output_reads_id_label_lines() {
    let raw = "\
Available models
auto - Auto (current, default)
composer-2.5 - Composer 2.5
gpt-5.2 - GPT-5.2
";
    let parsed = cursor_bridge::agent::parse_models_output(raw);
    let ids: Vec<&str> = parsed.iter().map(|m| m.id.as_str()).collect();
    assert_eq!(ids, vec!["auto", "composer-2.5", "gpt-5.2"]);
    assert_eq!(parsed[1].label, "Composer 2.5");
}

#[test]
fn parse_models_output_skips_malformed_lines() {
    let raw = "  AVAILABLE MODELS  \r\n\n bad id - Label\nx - \n - y\nnolabel\nok_1.a -   Trimmed Label  \r\nlast - L";
    let parsed = parse_models_output(raw);
    assert_eq!(
        parsed,
        vec![
            DiscoveredModel { id: "ok_1.a".into(), label: "Trimmed Label".into() },
            DiscoveredModel { id: "last".into(), label: "L".into() },
        ]
    );
    assert!(parse_models_output("").is_empty());
    let first_dash = parse_models_output("a - b - c");
    assert_eq!(first_dash[0].label, "b - c");
}

#[test]
fn models_from_failed_run() {
    let out = ProcessOutput { success: false, code: Some(1), stdout: b"  \n".to_vec(), stderr: b"no auth".to_vec() };
    match models_from_output(&out) {
        Err(AgentError::Exit { status, stderr }) => {
            assert_eq!(status, 1);
            assert_eq!(stderr, "no auth");
        }
        other => panic!("expected Exit, got {other:?}"),
    }
    let partial = ProcessOutput { success: false, code: Some(1), stdout: b"m - M\n".to_vec(), stderr: vec![] };
    let models = models_from_output(&partial).expect("listed models survive a failed exit");
    assert_eq!(models[0].id, "m");
}

fn discovered(ids: &[&str]) -> Vec<DiscoveredModel> {
    ids.iter().map(|i| DiscoveredModel { id: i.to_string(), label: "L".into() }).collect()
}

#[test]
fn merge_keeps_default_and_skips_cli_auto() {
    let config = Config::test_default();
    let merged = merge_discovered(&config.models, &discovered(&["auto", "composer-2.5", "gpt-5.2", "default", "cursor-auto"]));
    assert_eq!(merged.ids(), vec!["composer-2.5", "cursor-auto", "gpt-5.2"]);
    assert_eq!(merged.get("cursor-auto").map(String::as_str), Some("default"));
    assert_eq!(merged.get("composer-2.5").map(String::as_str), Some("composer-2.5"));
    assert!(merged.get("auto").is_none());
    assert_eq!(resolve_in(&merged, "cursor-auto", "composer-2.5").as_deref(), Some("composer-2.5"));
    assert_eq!(resolve_in(&merged, "cursor-auto", "").as_deref(), Some("default"));
    assert_eq!(resolve_in(&merged, "cursor-auto", "nope"), None);
}

#[test]
fn failed_discovery_keeps_static_list() {
    let config = Config::test_default();
    let after = models_after_discovery(&config.models, &Err(AgentError::Utf8));
    assert_eq!(after.ids(), vec!["cursor-auto"]);
}

#[test]
fn model_map_orders_and_replaces() {
    let mut m = ModelMap::new();
    m.insert("b".into(), "1".into());
    m.insert("a".into(), "2".into());
    m.insert("ab".into(), "3".into());
    m.insert("b".into(), "4".into());
    m.insert_if_absent("a".into(), "5".into());
    m.insert_if_absent("c".into(), "6".into());
    assert_eq!(m.ids(), vec!["a", "ab", "b", "c"]);
    assert_eq!(m.get("b").map(String::as_str), Some("4"));
    assert_eq!(m.get("a").map(String::as_str), Some("2"));
    assert_eq!(m.len(), 4);
    assert_eq!(m.copy().pairs(), m.pairs());
}

#[test]
fn cache_serves_fresh_non_empty_models() {
    let config = Config::test_default();
    let mut cache = ModelCatalog::new();
    assert!(cache.fresh(0).is_none());
    cache.store(1_000, &config.models);
    assert_eq!(cache.fresh(1_000).expect("fresh").ids(), vec!["cursor-auto"]);
    assert!(cache.fresh(60_999).is_some());
    assert!(cache.fresh(61_000).is_none());
    assert!(cache.fresh(10).is_some());
    cache.store(5, &ModelMap::new());
    assert!(cache.fresh(5).is_none());
}

#[test]
fn catalog_steps() {
    let mut config = Config::test_default();
    let mut catalog = ModelCatalog::new();
    let off = models_without_discovery(&config, &catalog, 0).expect("discovery off");
    assert_eq!(off.ids(), vec!["cursor-auto"]);
    config.discover_models = true;
    assert!(models_without_discovery(&config, &catalog, 0).is_none());
    let found = record_discovery(&mut catalog, &config, 100, &Ok(discovered(&["auto", "gpt-5.2"])));
    assert_eq!(found.ids(), vec!["cursor-auto", "gpt-5.2"]);
    let cached = models_without_discovery(&config, &catalog, 200).expect("fresh");
    assert_eq!(cached.ids(), vec!["cursor-auto", "gpt-5.2"]);
    assert!(models_without_discovery(&config, &catalog, 60_100).is_none());
    let failed = record_discovery(&mut catalog, &config, 70_000, &Err(AgentError::Utf8));
    assert_eq!(failed.ids(), vec!["cursor-auto"]);
}

#[test]
fn parsing_joined_output_concatenates_models() {
    let a = "Available models\nauto - Auto\r";
    let b = "gpt-5.2 - GPT-5.2\n\nbad line\ncomposer-2.5 - Composer 2.5";
    let joined = format!("{a}\n{b}");
    let mut expected = parse_models_output(a);
    expected.extend(parse_models_output(b));
    assert_eq!(parse_models_output(&joined), expected);
    let ids: Vec<String> = expected.iter().map(|m| m.id.clone()).collect();
    assert_eq!(ids, vec!["auto", "gpt-5.2", "composer-2.5"]);
    assert_eq!(parse_models_output(&format!("\n{b}")), parse_models_output(b));
}
