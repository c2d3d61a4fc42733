//! Requests on their way through the detection.

use limen::engine::llm::LlmDecision;
use limen::engine::rules::RuleEngine;
use limen::engine::verdict::{RequestSummary, Verdict};
use limen::event::Action;
use limen::pipeline::{
    bad_gateway, begin, block_or_monitor, conclude, elevate, emit, event_at, weigh, Begun, Outcome,
    Step, Weighed, FORBIDDEN, TOO_LARGE,
};
use limen::state::Controls;
use limen::storage::Storage;

fn request(path: &str, query: &str) -> RequestSummary {
    RequestSummary {
        method: "GET".to_string(),
        path: path.to_string(),
        query: query.to_string(),
        user_agent: String::new(),
        body: String::new(),
        headers: String::new(),
        client_ip: "1.1.1.1".to_string(),
    }
}

fn opinion(block: bool) -> LlmDecision {
    LlmDecision {
        block,
        threat: "SQLi".to_string(),
        reason: "because".to_string(),
        source: "llm:openai_compat".to_string(),
        analysis: String::new(),
    }
}

fn outcome(step: Step) -> (Option<u16>, Outcome) {
    match step {
        Step::Respond { status, outcome, .. } => (Some(status), outcome),
        Step::Forward { outcome } => (None, outcome),
    }
}

#[test]
fn banned_client_is_refused_unseen() {
    let e = RuleEngine::new();
    let s = Storage::open(&vec!["1.1.1.1".to_string()], &vec!["/open".to_string()]);
    let c = Controls::new(5, Some(s));
    match begin(&e, &c, Some("1.1.1.1"), &request("/open", ""), 100, 40) {
        Begun::Done(Step::Respond { status, body, outcome }) => {
            assert_eq!(status, 403);
            assert_eq!(body, FORBIDDEN);
            assert_eq!(body, "403 Forbidden — request blocked by WAF");
            assert_eq!(outcome.action, Action::Blocked);
            assert_eq!(outcome.score, 0);
            assert_eq!(outcome.threat.as_deref(), Some("banned-ip"));
            assert_eq!(outcome.detail, "IP 在黑名单");
            assert_eq!(outcome.tier, "banned-ip");
        }
        other => panic!("{:?}", other),
    }
}

#[test]
fn banned_client_is_only_watched_in_monitor_mode() {
    let e = RuleEngine::new();
    let s = Storage::open(&vec!["1.1.1.1".to_string()], &Vec::new());
    let mut c = Controls::new(5, Some(s));
    c.toggle_enforce();
    match begin(&e, &c, Some("1.1.1.1"), &request("/", ""), 100, 40) {
        Begun::Done(Step::Forward { outcome }) => {
            assert_eq!(outcome.action, Action::Suspicious);
            assert_eq!(outcome.detail, "MONITOR(本应拦截): IP 在黑名单");
        }
        other => panic!("{:?}", other),
    }
}

#[test]
fn bypass_path_is_not_inspected() {
    let e = RuleEngine::new();
    let c = Controls::new(5, Some(Storage::open(&Vec::new(), &vec!["/open/".to_string()])));
    match begin(&e, &c, Some("1.1.1.1"), &request("/open/x", "q=1 UNION SELECT 1 FROM t"), 100, 40) {
        Begun::Done(Step::Forward { outcome }) => {
            assert_eq!(outcome.action, Action::Allowed);
            assert_eq!(outcome.tier, "bypass");
            assert_eq!(outcome.threat, None);
        }
        other => panic!("{:?}", other),
    }
}

#[test]
fn rules_judge_everything_else() {
    let e = RuleEngine::new();
    let c = Controls::new(5, None);
    match begin(&e, &c, None, &request("/", "q=1 UNION SELECT 1 FROM t"), 100, 40) {
        Begun::Judged(Verdict::Block { score, threat, .. }) => {
            assert!(score >= 100);
            assert_eq!(threat, "SQLi");
        }
        other => panic!("{:?}", other),
    }
    assert!(matches!(
        begin(&e, &c, None, &request("/", "a=1"), 100, 40),
        Begun::Judged(Verdict::Allow)
    ));
}

#[test]
fn alarm_raises_suspicion_only_where_rules_have_none() {
    match elevate(Verdict::Allow, Some("0.953"), 40) {
        Verdict::Suspicious { score, reasons } => {
            assert_eq!(score, 40);
            assert_eq!(reasons, vec!["ngram classifier: 0.953".to_string()]);
        }
        other => panic!("{:?}", other),
    }
    assert!(matches!(elevate(Verdict::Allow, None, 40), Verdict::Allow));
    let block = Verdict::Block { score: 1, threat: "t".to_string(), reasons: Vec::new() };
    assert!(matches!(elevate(block, Some("1.000"), 40), Verdict::Block { .. }));
}

#[test]
fn block_is_counted_and_answered() {
    let mut c = Controls::new(1, None);
    let v = Verdict::Block {
        score: 120,
        threat: "XSS".to_string(),
        reasons: vec!["XSS: a".to_string(), "XSS: b".to_string()],
    };
    let (w, newly) = weigh(&mut c, Some("1.1.1.1"), v, None, 40, true);
    assert!(newly);
    assert!(c.is_banned("1.1.1.1"));
    match w {
        Weighed::Done(step) => {
            let (status, o) = outcome(step);
            assert_eq!(status, Some(403));
            assert_eq!(o.score, 120);
            assert_eq!(o.threat.as_deref(), Some("XSS"));
            assert_eq!(o.detail, "XSS: a; XSS: b");
            assert_eq!(o.tier, "rules");
        }
        other => panic!("{:?}", other),
    }
}

#[test]
fn block_in_monitor_mode_is_counted_and_forwarded() {
    let mut c = Controls::new(5, None);
    c.toggle_enforce();
    let v = Verdict::Block { score: 120, threat: "XSS".to_string(), reasons: vec!["r".to_string()] };
    let (w, newly) = weigh(&mut c, Some("1.1.1.1"), v, None, 40, true);
    assert!(!newly);
    assert_eq!(c.block_count("1.1.1.1"), 1);
    match w {
        Weighed::Done(Step::Forward { outcome }) => {
            assert_eq!(outcome.action, Action::Suspicious);
            assert_eq!(outcome.detail, "MONITOR(本应拦截): r");
            assert_eq!(outcome.threat.as_deref(), Some("XSS"));
        }
        other => panic!("{:?}", other),
    }
}

#[test]
fn suspicion_goes_to_the_model_if_there_is_one() {
    let mut c = Controls::new(5, None);
    let v = Verdict::Suspicious { score: 50, reasons: vec!["r".to_string()] };
    match weigh(&mut c, None, v, None, 40, true) {
        (Weighed::Adjudicate { score, reasons }, false) => {
            assert_eq!(score, 50);
            assert_eq!(reasons, vec!["r".to_string()]);
        }
        other => panic!("{:?}", other),
    }
    let v = Verdict::Suspicious { score: 50, reasons: vec!["r".to_string(), "s".to_string()] };
    match weigh(&mut c, None, v, None, 40, false) {
        (Weighed::Done(step), false) => {
            let (status, o) = outcome(step);
            assert_eq!(status, None);
            assert_eq!(o.action, Action::Suspicious);
            assert_eq!(o.score, 50);
            assert_eq!(o.detail, "rules: r; s");
            assert_eq!(o.tier, "rules");
        }
        other => panic!("{:?}", other),
    }
}

#[test]
fn clean_request_is_forwarded() {
    let mut c = Controls::new(5, None);
    match weigh(&mut c, Some("1.1.1.1"), Verdict::Allow, None, 40, true) {
        (Weighed::Done(Step::Forward { outcome }), false) => {
            assert_eq!(outcome.action, Action::Allowed);
            assert_eq!(outcome.score, 0);
            assert_eq!(outcome.detail, "rules");
        }
        other => panic!("{:?}", other),
    }
    assert_eq!(c.block_count("1.1.1.1"), 0);
}

#[test]
fn model_decides_suspicion() {
    let reasons = vec!["r".to_string()];
    let mut c = Controls::new(5, None);
    let (step, newly) = conclude(&mut c, Some("1.1.1.1"), 50, &reasons, opinion(true));
    assert!(!newly);
    assert_eq!(c.block_count("1.1.1.1"), 1);
    let (status, o) = outcome(step);
    assert_eq!(status, Some(403));
    assert_eq!(o.tier, "llm");
    assert_eq!(o.threat.as_deref(), Some("SQLi"));
    assert_eq!(o.detail, "llm:openai_compat: because | trigger: r");
    let (step, newly) = conclude(&mut c, Some("1.1.1.1"), 50, &reasons, opinion(false));
    assert!(!newly);
    assert_eq!(c.block_count("1.1.1.1"), 1);
    let (status, o) = outcome(step);
    assert_eq!(status, None);
    assert_eq!(o.action, Action::Suspicious);
    assert_eq!(o.threat, None);
    assert_eq!(o.score, 50);
}

#[test]
fn repeated_attacks_lead_to_a_ban() {
    let e = RuleEngine::new();
    let mut c = Controls::new(3, None);
    let r = request("/", "q=1 UNION SELECT 1 FROM t");
    for i in 0..3 {
        match begin(&e, &c, Some("1.1.1.1"), &r, 100, 40) {
            Begun::Judged(v) => {
                let (_, newly) = weigh(&mut c, Some("1.1.1.1"), v, None, 40, false);
                assert_eq!(newly, i == 2);
            }
            other => panic!("{:?}", other),
        }
    }
    match begin(&e, &c, Some("1.1.1.1"), &request("/", ""), 100, 40) {
        Begun::Done(step) => assert_eq!(outcome(step).1.tier, "banned-ip"),
        other => panic!("{:?}", other),
    }
}

#[test]
fn record_tells_the_outcome() {
    let (_, o) = outcome(block_or_monitor(true, "t".to_string(), 7, "d".to_string(), "llm"));
    let ev = event_at("01:02:03".to_string(), &request("/p", "q"), o, Some(200));
    assert_eq!(ev.time, "01:02:03");
    assert_eq!(ev.client_ip, "1.1.1.1");
    assert_eq!(ev.method, "GET");
    assert_eq!(ev.path, "/p");
    assert_eq!(ev.action, Action::Blocked);
    assert_eq!(ev.score, 7);
    assert_eq!(ev.threat.as_deref(), Some("t"));
    assert_eq!(ev.status, Some(200));
    assert_eq!(ev.detail, "d");
    assert_eq!(ev.tier, "llm");
    let (_, o) = outcome(block_or_monitor(false, "t".to_string(), 7, "d".to_string(), "llm"));
    let ev = emit(&request("/p", "q"), o, None);
    assert_eq!(ev.time.len(), 8);
    assert_eq!(ev.detail, "MONITOR(本应拦截): d");
}

#[test]
fn other_answers_have_their_texts() {
    assert_eq!(bad_gateway("timeout"), "502 Bad Gateway: timeout");
    assert_eq!(TOO_LARGE, "413 Payload Too Large");
}

#[test]
fn alarm_of_the_classifier_has_a_tier_of_its_own() {
    let mut c = Controls::new(5, None);
    match weigh(&mut c, None, Verdict::Allow, Some("0.953"), 40, false) {
        (Weighed::Done(step), false) => {
            let (status, o) = outcome(step);
            assert_eq!(status, None);
            assert_eq!(o.action, Action::Suspicious);
            assert_eq!(o.score, 40);
            assert_eq!(o.detail, "rules: ngram classifier: 0.953");
            assert_eq!(o.tier, "ngram");
        }
        other => panic!("{:?}", other),
    }
    let v = Verdict::Suspicious { score: 50, reasons: vec!["r".to_string()] };
    match weigh(&mut c, None, v, Some("0.953"), 40, false) {
        (Weighed::Done(step), false) => assert_eq!(outcome(step).1.tier, "rules"),
        other => panic!("{:?}", other),
    }
}

#[test]
fn blacklisted_client_is_refused_next_time() {
    let e = RuleEngine::new();
    let mut c = Controls::new(2, Some(Storage::open(&Vec::new(), &Vec::new())));
    let attack = request("/", "q=<script>alert(1)</script>");
    for last in [false, true] {
        let v = match begin(&e, &c, Some("1.1.1.1"), &attack, 100, 40) {
            Begun::Judged(v) => v,
            other => panic!("{:?}", other),
        };
        let (_, newly) = weigh(&mut c, Some("1.1.1.1"), v, None, 40, false);
        assert_eq!(newly, last);
    }
    assert!(c.ban_stored("1.1.1.1", 1));
    match begin(&e, &c, Some("1.1.1.1"), &request("/", ""), 100, 40) {
        Begun::Done(Step::Respond { status, body, .. }) => {
            assert_eq!(status, 403);
            assert_eq!(body, FORBIDDEN);
        }
        other => panic!("{:?}", other),
    }
    assert!(matches!(
        begin(&e, &c, Some("2.2.2.2"), &request("/", ""), 100, 40),
        Begun::Judged(Verdict::Allow)
    ));
}
