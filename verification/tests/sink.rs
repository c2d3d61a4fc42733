//! What is done with records.

use limen::engine::verdict::RequestSummary;
use limen::event::{Action, WafEvent};
use limen::json::Json;
use limen::sink::{EventSink, GapLogSink, Level, TracingSink};

struct Counter {
    seen: std::sync::atomic::AtomicU32,
}

impl EventSink for Counter {
    fn on_event(&self, _ev: &WafEvent, _summary: &RequestSummary) {
        self.seen.fetch_add(1, std::sync::atomic::Ordering::Relaxed);
    }
}

fn event(tier: &str, action: Action, threat: Option<&str>) -> WafEvent {
    WafEvent {
        time: "00:00:00".to_string(),
        client_ip: "1.1.1.1".to_string(),
        method: "GET".to_string(),
        path: "/p".to_string(),
        action,
        score: 42,
        threat: threat.map(|t| t.to_string()),
        status: None,
        detail: "d".to_string(),
        tier: tier.to_string(),
    }
}

fn summary() -> RequestSummary {
    RequestSummary {
        method: "GET".to_string(),
        path: "/p".to_string(),
        query: "q".to_string(),
        user_agent: String::new(),
        body: "b".repeat(600),
        headers: String::new(),
        client_ip: "1.1.1.1".to_string(),
    }
}

#[test]
fn sinks_are_told() {
    let c = Counter { seen: std::sync::atomic::AtomicU32::new(0) };
    let s: &dyn EventSink = &c;
    s.on_event(&event("rules", Action::Allowed, None), &summary());
    assert_eq!(c.seen.load(std::sync::atomic::Ordering::Relaxed), 1);
}

#[test]
fn log_is_louder_for_worse() {
    assert_eq!(TracingSink.entry(Action::Blocked), (Level::Warn, "WAF 拦截"));
    assert_eq!(TracingSink.entry(Action::Suspicious), (Level::Info, "WAF 送检/可疑"));
    assert_eq!(TracingSink.entry(Action::Allowed), (Level::Debug, "WAF 放行"));
}

#[test]
fn gaps_are_what_the_rules_missed() {
    let g = GapLogSink::new("gaps.jsonl".to_string());
    assert_eq!(g.path(), "gaps.jsonl");
    for tier in ["rules", "banned-ip", "ratelimit"] {
        assert!(g.record(&event(tier, Action::Blocked, None), &summary()).is_none());
    }
    assert!(g.record(&event("llm", Action::Allowed, None), &summary()).is_none());
    assert!(g.record(&event("ngram", Action::Suspicious, None), &summary()).is_some());
    assert!(g.record(&event("llm", Action::Suspicious, None), &summary()).is_some());
    let r = g.record(&event("llm", Action::Blocked, Some("XSS")), &summary()).expect("gap");
    assert_eq!(r.member("time").as_text().as_deref(), Some("00:00:00"));
    assert_eq!(r.member("client_ip").as_text().as_deref(), Some("1.1.1.1"));
    assert_eq!(r.member("method").as_text().as_deref(), Some("GET"));
    assert_eq!(r.member("path").as_text().as_deref(), Some("/p"));
    assert_eq!(r.member("query").as_text().as_deref(), Some("q"));
    assert_eq!(r.member("body").as_text(), Some("b".repeat(512)));
    assert!(matches!(r.member("rule_score"), Json::Number(n) if n == "42"));
    assert_eq!(r.member("tier").as_text().as_deref(), Some("llm"));
    assert_eq!(r.member("action").as_text().as_deref(), Some("BLOCK"));
    assert_eq!(r.member("threat").as_text().as_deref(), Some("XSS"));
    assert_eq!(r.member("detail").as_text().as_deref(), Some("d"));
    let r = g.record(&event("llm", Action::Suspicious, None), &summary()).expect("gap");
    assert!(matches!(r.member("threat"), Json::Null));
}
