//! The adjudication by a language model.

use limen::config::LlmConfig;
use limen::engine::llm::anthropic::{self, AnthropicProvider};
use limen::engine::llm::gemini::{self, GeminiProvider};
use limen::engine::llm::openai_compat::{self, chat_url, OpenAiCompatProvider};
use limen::engine::llm::provider::{
    build_user_content, endpoint_of, parse_verdict, verdict_places, LlmVerdict, SYSTEM_PROMPT,
};
use limen::engine::llm::{cache_key, LlmAdjudicator, Reply};
use limen::engine::verdict::RequestSummary;
use limen::json::{text, Json};

fn request() -> RequestSummary {
    RequestSummary {
        method: "GET".to_string(),
        path: "/p".to_string(),
        query: "q=1".to_string(),
        user_agent: "ua".to_string(),
        body: "b".repeat(2000),
        headers: "h".repeat(2000),
        client_ip: "1.2.3.4".to_string(),
    }
}

fn verdict(v: &str) -> LlmVerdict {
    LlmVerdict {
        verdict: v.to_string(),
        threat_type: "SQLi".to_string(),
        confidence: "0.90".to_string(),
        reason: "r".to_string(),
        analysis: "a".to_string(),
    }
}

fn adjudicator(fail_mode: &str) -> LlmAdjudicator {
    let mut cfg = LlmConfig::default();
    cfg.fail_mode = fail_mode.to_string();
    LlmAdjudicator::from_config(&cfg, "key".to_string()).expect("provider")
}

fn list(v: Vec<Json>) -> Json {
    Json::List(v)
}

fn object(v: Vec<(&str, Json)>) -> Json {
    Json::Object(v.into_iter().map(|(k, x)| (k.to_string(), x)).collect())
}

#[test]
fn verdict_to_block_is_read_in_any_case() {
    assert!(verdict("block").is_block());
    assert!(verdict("BLOCK").is_block());
    assert!(!verdict("allow").is_block());
    assert!(!verdict("blocked").is_block());
    assert!(!verdict("").is_block());
}

#[test]
fn question_shows_the_features_cut() {
    let c = build_user_content(&request());
    let expected = format!(
        "HTTP request to evaluate:\nmethod: GET\npath: /p\nquery: q=1\nuser_agent: ua\nheaders (may be truncated): {}\nclient_ip: 1.2.3.4\nbody (may be truncated): {}",
        "h".repeat(800),
        "b".repeat(1000)
    );
    assert_eq!(c, expected);
}

#[test]
fn verdict_is_looked_for_in_two_places() {
    let (whole, inner) = verdict_places("  talk {\"a\": {}} more \n");
    assert_eq!(whole, "talk {\"a\": {}} more");
    assert_eq!(inner.as_deref(), Some("{\"a\": {}}"));
    assert_eq!(verdict_places("no braces").1, None);
    assert_eq!(verdict_places("} wrong {").1, None);
    assert_eq!(verdict_places("{").1, None);
    let (_, inner) = verdict_places("a {\"verdict\":\"allow\"} b {\"verdict\":\"block\"}");
    assert_eq!(inner.as_deref(), Some("{\"verdict\":\"allow\"}"));
    let (_, inner) = verdict_places("x {\"r\":\"} \\\" {\",\"o\":{}} y }");
    assert_eq!(inner.as_deref(), Some("{\"r\":\"} \\\" {\",\"o\":{}}"));
    assert_eq!(verdict_places("{\"open\": {}").1, None);
}

#[test]
fn first_verdict_counts() {
    assert_eq!(parse_verdict("t", Some(verdict("block")), None).expect("v").verdict, "block");
    assert_eq!(
        parse_verdict("t", Some(verdict("block")), Some(verdict("allow"))).expect("v").verdict,
        "block"
    );
    assert_eq!(parse_verdict("t", None, Some(verdict("allow"))).expect("v").verdict, "allow");
    assert_eq!(parse_verdict(" t ", None, None).expect_err("none"), "无法从模型输出解析裁决 JSON: t");
}

#[test]
fn endpoint_is_the_one_that_is_set() {
    assert_eq!(endpoint_of("", "d"), "d");
    assert_eq!(endpoint_of("http://x/v1//", "d"), "http://x/v1");
    assert_eq!(endpoint_of("/", "d"), "");
    assert_eq!(chat_url("http://x"), "http://x/chat/completions");
}

#[test]
fn only_one_provider_is_built_in() {
    let mut cfg = LlmConfig::default();
    cfg.base_url = "http://local/".to_string();
    cfg.timeout_ms = 5;
    let a = LlmAdjudicator::from_config(&cfg, "k".to_string()).expect("provider");
    assert_eq!(a.provider_name, "openai_compat");
    assert_eq!(a.provider.base_url, "http://local");
    assert_eq!(a.provider.model, "gpt-4o-mini");
    assert_eq!(a.provider.api_key, "k");
    assert_eq!(a.timeout_ms, 5);
    assert!(a.fail_open);
    cfg.provider = "other".to_string();
    let e = LlmAdjudicator::from_config(&cfg, String::new()).expect_err("unknown");
    assert!(e.starts_with("未知 LLM provider: other。"), "{e}");
}

#[test]
fn answer_decides() {
    let a = adjudicator("fail_open");
    let (d, keep) = a.adjudicate(Reply::Answered(verdict("block")));
    assert!(d.block);
    assert_eq!(d.threat, "SQLi");
    assert_eq!(d.reason, "r (置信度 0.90)");
    assert_eq!(d.source, "llm:openai_compat");
    assert_eq!(d.analysis, "a");
    assert_eq!(keep, Some(true));
    let (d, keep) = a.adjudicate(Reply::Answered(verdict("allow")));
    assert!(!d.block);
    assert_eq!(keep, Some(false));
}

#[test]
fn failure_follows_the_mode() {
    for (mode, block) in [("fail_open", false), ("fail_close", true), ("anything", false)] {
        let a = adjudicator(mode);
        let (d, keep) = a.adjudicate(Reply::TimedOut);
        assert_eq!(d.block, block);
        assert_eq!(d.reason, "timeout");
        assert_eq!(d.threat, "unknown");
        assert_eq!(d.source, "llm:openai_compat(fail)");
        assert_eq!(d.analysis, "");
        assert_eq!(keep, None);
        let (d, keep) = a.adjudicate(Reply::Failed("x".to_string()));
        assert_eq!(d.block, block);
        assert_eq!(d.reason, "error: x");
        assert_eq!(keep, None);
    }
}

#[test]
fn earlier_verdict_is_recalled() {
    let a = adjudicator("fail_open");
    let d = a.recall(true);
    assert!(d.block);
    assert_eq!(d.threat, "cached");
    assert_eq!(d.reason, "cached verdict");
    assert_eq!(d.source, "llm:openai_compat(cached)");
    assert_eq!(a.recall(false).threat, "none");
}

#[test]
fn key_leaves_out_the_client() {
    let a = request();
    let mut b = request();
    b.client_ip = "9.9.9.9".to_string();
    assert_eq!(cache_key(&a), cache_key(&b));
    assert_eq!(
        cache_key(&a),
        format!("GET|/p|q=1|ua|{}|{}", "h".repeat(512), "b".repeat(512))
    );
    b.query = "q=2".to_string();
    assert!(cache_key(&a) != cache_key(&b));
}

#[test]
fn chat_request_and_reply() {
    let p = OpenAiCompatProvider::new("", "m", String::new());
    assert_eq!(p.name(), "openai_compat");
    assert_eq!(p.url(), "https://api.openai.com/v1/chat/completions");
    assert_eq!(p.bearer(), None);
    let k = OpenAiCompatProvider::new("http://x/", "m", "k".to_string());
    assert_eq!(k.url(), "http://x/chat/completions");
    assert_eq!(k.bearer().as_deref(), Some("k"));
    let r = p.request(&request());
    assert_eq!(r.member("model").as_text().as_deref(), Some("m"));
    assert!(matches!(r.member("max_tokens"), Json::Number(n) if n == "256"));
    let messages = r.member("messages");
    assert_eq!(messages.item(0).member("role").as_text().as_deref(), Some("system"));
    assert_eq!(messages.item(0).member("content").as_text().as_deref(), Some(SYSTEM_PROMPT));
    assert_eq!(messages.item(1).member("role").as_text().as_deref(), Some("user"));
    assert_eq!(messages.item(1).member("content").as_text(), Some(build_user_content(&request())));
    assert!(matches!(messages.item(2), Json::Null));
    assert_eq!(r.member("response_format").member("type").as_text().as_deref(), Some("json_object"));
    let reply = object(vec![(
        "choices",
        list(vec![object(vec![("message", object(vec![("content", text("hi"))]))])]),
    )]);
    assert_eq!(openai_compat::answer_in(&reply).as_deref(), Some("hi"));
    assert_eq!(openai_compat::answer_in(&Json::Null), None);
}

#[test]
fn messages_request_and_reply() {
    let p = AnthropicProvider::new("", "m", "k".to_string());
    assert_eq!(p.name(), "anthropic");
    assert_eq!(p.url(), "https://api.anthropic.com/v1/messages");
    let r = p.request(&request(), Json::Bool(true));
    assert_eq!(r.member("system").item(0).member("text").as_text().as_deref(), Some(SYSTEM_PROMPT));
    assert_eq!(
        r.member("system").item(0).member("cache_control").member("type").as_text().as_deref(),
        Some("ephemeral")
    );
    assert_eq!(r.member("messages").item(0).member("role").as_text().as_deref(), Some("user"));
    let format = r.member("output_config").member("format");
    assert_eq!(format.member("type").as_text().as_deref(), Some("json_schema"));
    assert!(matches!(format.member("schema"), Json::Bool(true)));
    let reply = object(vec![(
        "content",
        list(vec![
            object(vec![("type", text("thinking"))]),
            object(vec![("type", text("text")), ("text", text("one"))]),
            object(vec![("type", text("text")), ("text", text("two"))]),
        ]),
    )]);
    assert_eq!(anthropic::answer_in(&reply).as_deref(), Some("one"));
    assert_eq!(anthropic::answer_in(&object(vec![("content", text("x"))])), None);
}

#[test]
fn content_request_and_reply() {
    let p = GeminiProvider::new("", "m", "k".to_string());
    assert_eq!(p.name(), "gemini");
    assert_eq!(
        p.url(),
        "https://generativelanguage.googleapis.com/v1beta/models/m:generateContent?key=k"
    );
    let r = p.request(&request(), Json::Null);
    assert_eq!(
        r.member("systemInstruction").member("parts").item(0).member("text").as_text().as_deref(),
        Some(SYSTEM_PROMPT)
    );
    assert_eq!(
        r.member("contents").item(0).member("parts").item(0).member("text").as_text(),
        Some(build_user_content(&request()))
    );
    assert_eq!(
        r.member("generationConfig").member("responseMimeType").as_text().as_deref(),
        Some("application/json")
    );
    let part = object(vec![("text", text("hi"))]);
    let content = object(vec![("parts", list(vec![part]))]);
    let reply = object(vec![("candidates", list(vec![object(vec![("content", content)])]))]);
    assert_eq!(gemini::answer_in(&reply).as_deref(), Some("hi"));
    assert_eq!(gemini::answer_in(&Json::Null), None);
}
