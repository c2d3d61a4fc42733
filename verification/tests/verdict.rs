//! Detections and the verdicts on them.

use limen::engine::verdict::{Detection, Hit, RequestSummary, Verdict};

fn hit(category: &str, pattern: &str, score: u32) -> Hit {
    Hit { category: category.to_string(), pattern: pattern.to_string(), score }
}

#[test]
fn nothing_was_found_by_default() {
    let d = Detection::default();
    assert_eq!(d.score, 0);
    assert!(d.hits.is_empty());
    assert_eq!(d.primary_threat(), None);
}

#[test]
fn last_of_the_highest_hits_names_the_threat() {
    let d = Detection {
        score: 170,
        hits: vec![hit("XSS", "a", 70), hit("SQLi", "b", 70), hit("SSRF", "c", 30)],
    };
    assert_eq!(d.primary_threat().as_deref(), Some("SQLi"));
}

#[test]
fn reasons_name_category_and_pattern() {
    let d = Detection { score: 110, hits: vec![hit("XSS", "<script", 90), hit("SQLi", "--", 20)] };
    assert_eq!(d.reasons(), vec!["XSS: <script".to_string(), "SQLi: --".to_string()]);
}

#[test]
fn thresholds_are_reached_by_equality() {
    let d = Detection { score: 100, hits: vec![hit("XSS", "x", 100)] };
    match d.to_verdict(100, 40) {
        Verdict::Block { score, threat, reasons } => {
            assert_eq!(score, 100);
            assert_eq!(threat, "XSS");
            assert_eq!(reasons, vec!["XSS: x".to_string()]);
        }
        other => panic!("{:?}", other),
    }
    match d.to_verdict(101, 100) {
        Verdict::Suspicious { score, reasons } => {
            assert_eq!(score, 100);
            assert_eq!(reasons.len(), 1);
        }
        other => panic!("{:?}", other),
    }
    assert!(matches!(d.to_verdict(101, 101), Verdict::Allow));
}

#[test]
fn block_without_hits_has_an_unknown_threat() {
    let d = Detection { score: 0, hits: Vec::new() };
    match d.to_verdict(0, 0) {
        Verdict::Block { threat, .. } => assert_eq!(threat, "unknown"),
        other => panic!("{:?}", other),
    }
}

#[test]
fn higher_scores_are_judged_no_more_mildly() {
    let rank = |v: &Verdict| match v {
        Verdict::Allow => 0,
        Verdict::Suspicious { .. } => 1,
        Verdict::Block { .. } => 2,
    };
    let mut last = 0;
    for score in 0..150 {
        let d = Detection { score, hits: Vec::new() };
        let now = rank(&d.to_verdict(100, 40));
        assert!(now >= last);
        last = now;
    }
    assert_eq!(last, 2);
}

#[test]
fn summaries_are_copied_whole() {
    let s = RequestSummary {
        method: "GET".to_string(),
        path: "/p".to_string(),
        query: "q".to_string(),
        user_agent: "ua".to_string(),
        body: "b".to_string(),
        headers: "h: v".to_string(),
        client_ip: "1.2.3.4".to_string(),
    };
    let c = s.clone();
    assert_eq!(format!("{:?}", s), format!("{:?}", c));
}
