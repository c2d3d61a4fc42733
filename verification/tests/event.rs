//! Records of requests.

use limen::event::{hms, now_hms, Action, WafEvent};

#[test]
fn time_of_day_is_written_out() {
    assert_eq!(hms(0), "00:00:00");
    assert_eq!(hms(86_399), "23:59:59");
    assert_eq!(hms(86_400), "00:00:00");
    assert_eq!(hms(3_661), "01:01:01");
    assert_eq!(hms(1_700_000_000), "22:13:20");
}

#[test]
fn present_time_has_the_form_of_a_time() {
    let t = now_hms();
    assert_eq!(t.len(), 8);
    let c: Vec<char> = t.chars().collect();
    assert_eq!(c[2], ':');
    assert_eq!(c[5], ':');
    assert!(c.iter().enumerate().all(|(i, x)| i == 2 || i == 5 || x.is_ascii_digit()));
}

#[test]
fn actions_have_labels() {
    assert_eq!(Action::Allowed.label(), "ALLOW");
    assert_eq!(Action::Suspicious.label(), "SUSPECT");
    assert_eq!(Action::Blocked.label(), "BLOCK");
}

#[test]
fn records_are_copied_whole() {
    let ev = WafEvent {
        time: "00:00:01".to_string(),
        client_ip: "1.2.3.4".to_string(),
        method: "GET".to_string(),
        path: "/".to_string(),
        action: Action::Blocked,
        score: 100,
        threat: Some("SQLi".to_string()),
        status: None,
        detail: "d".to_string(),
        tier: "rules".to_string(),
    };
    assert_eq!(format!("{:?}", ev.clone()), format!("{:?}", ev));
}
