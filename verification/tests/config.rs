//! The settings.

use limen::config::{named_file, Config, DetectionConfig, LlmConfig, MAX_BODY_BYTES};

#[test]
fn settings_have_defaults() {
    let c = Config::default();
    assert_eq!(c.listen, "127.0.0.1:8080");
    assert_eq!(c.upstream, "http://127.0.0.1:8000");
    assert_eq!(c.log_file, "limen.log");
    assert_eq!(c.db_path, "limen.db");
    assert!(!c.headless);
    assert!(c.trusted_proxies.is_empty());
    assert_eq!(c.real_ip_header, "X-Forwarded-For");
    let l = LlmConfig::default();
    assert!(!l.enabled);
    assert_eq!(l.provider, "openai_compat");
    assert_eq!(l.model, "gpt-4o-mini");
    assert_eq!(l.base_url, "");
    assert_eq!(l.api_key_env, "OPENAI_API_KEY");
    assert_eq!(l.timeout_ms, 2000);
    assert_eq!(l.fail_mode, "fail_open");
    let d = DetectionConfig::default();
    assert_eq!(d.block_threshold, 100);
    assert_eq!(d.suspicious_threshold, 40);
    assert_eq!(d.ngram_model, None);
    assert!(d.disabled_categories.is_empty());
    assert_eq!(d.gap_log, None);
    assert_eq!(d.upstream_timeout_secs, 30);
    assert_eq!(d.max_body_bytes, 10_485_760);
    assert!(d.bypass_paths.is_empty());
}

#[test]
fn missing_file_leaves_the_defaults() {
    assert_eq!(Config::load(None).listen, "127.0.0.1:8080");
    let mut c = Config::default();
    c.listen = "x".to_string();
    assert_eq!(Config::load(Some(c)).listen, "x");
}

#[test]
fn origin_has_no_slash_at_its_end() {
    let mut c = Config::default();
    c.upstream = "http://o//".to_string();
    assert_eq!(c.upstream_base(), "http://o");
    c.upstream = "http://o".to_string();
    assert_eq!(c.upstream_base(), "http://o");
}

#[test]
fn dashboard_needs_a_terminal() {
    let mut c = Config::default();
    assert!(!c.runs_headless(true));
    assert!(c.runs_headless(false));
    c.headless = true;
    assert!(c.runs_headless(true));
}

#[test]
fn zero_means_default_or_none() {
    let mut d = DetectionConfig::default();
    d.max_body_bytes = 0;
    assert_eq!(d.body_limit(), MAX_BODY_BYTES);
    d.max_body_bytes = 7;
    assert_eq!(d.body_limit(), 7);
    assert_eq!(d.upstream_timeout(), Some(30));
    d.upstream_timeout_secs = 0;
    assert_eq!(d.upstream_timeout(), None);
}

#[test]
fn empty_file_name_stands_for_none() {
    assert_eq!(named_file(Some("gaps.jsonl".to_string())).as_deref(), Some("gaps.jsonl"));
    assert_eq!(named_file(Some(String::new())), None);
    assert_eq!(named_file(None), None);
}
