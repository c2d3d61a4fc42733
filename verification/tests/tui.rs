//! The dashboard without its drawing.

use limen::event::{Action, WafEvent};
use limen::tui::{banned_text, command, mode_text, AppState, Command, Key};

fn event(n: u32, action: Action, threat: Option<&str>, status: Option<u16>) -> WafEvent {
    WafEvent {
        time: "00:00:00".to_string(),
        client_ip: "c".to_string(),
        method: "GET".to_string(),
        path: "/".to_string(),
        action,
        score: n,
        threat: threat.map(|t| t.to_string()),
        status,
        detail: "d".to_string(),
        tier: "rules".to_string(),
    }
}

#[test]
fn events_are_counted_by_action() {
    let mut a = AppState::new("l".to_string(), "u".to_string());
    assert_eq!(a.listen(), "l");
    assert_eq!(a.upstream(), "u");
    a.push(event(1, Action::Allowed, None, None));
    a.push(event(2, Action::Blocked, None, None));
    a.push(event(3, Action::Suspicious, None, None));
    a.push(event(4, Action::Allowed, None, None));
    assert_eq!(a.total(), 4);
    let c = a.counts();
    assert_eq!(c.total, "4");
    assert_eq!(c.allowed, "放行 2");
    assert_eq!(c.suspicious, "可疑 1");
    assert_eq!(c.blocked, "拦截 1");
    assert_eq!(a.listen(), "l");
}

#[test]
fn latest_events_come_first_and_old_ones_go() {
    let mut a = AppState::new(String::new(), String::new());
    for n in 0..510 {
        a.push(event(n, Action::Allowed, None, None));
    }
    let rows = a.rows(u16::MAX);
    assert_eq!(rows.len(), 500);
    assert_eq!(rows[0].score, "509");
    assert_eq!(rows[499].score, "10");
    assert_eq!(a.total(), 510);
}

#[test]
fn table_shows_what_it_has_room_for() {
    let mut a = AppState::new(String::new(), String::new());
    for n in 0..5 {
        a.push(event(n, Action::Allowed, None, None));
    }
    assert_eq!(a.rows(0).len(), 0);
    assert_eq!(a.rows(3).len(), 0);
    assert_eq!(a.rows(5).len(), 2);
    assert_eq!(a.rows(100).len(), 5);
}

#[test]
fn rows_show_threat_and_status() {
    let mut a = AppState::new(String::new(), String::new());
    a.push(event(1, Action::Blocked, Some("XSS"), None));
    a.push(event(2, Action::Allowed, None, Some(200)));
    let rows = a.rows(10);
    assert_eq!(rows[0].detail, "d");
    assert_eq!(rows[0].status, "200");
    assert_eq!(rows[0].label, "ALLOW");
    assert_eq!(rows[1].detail, "[XSS] d");
    assert_eq!(rows[1].status, "-");
    assert_eq!(rows[1].label, "BLOCK");
    assert_eq!(rows[1].action, Action::Blocked);
}

#[test]
fn keys_do_what_they_should() {
    assert_eq!(command(Key::Char('q'), false), Command::Quit);
    assert_eq!(command(Key::Esc, false), Command::Quit);
    assert_eq!(command(Key::Char('c'), true), Command::Quit);
    assert_eq!(command(Key::Char('c'), false), Command::Nothing);
    assert_eq!(command(Key::Char('m'), false), Command::ToggleMode);
    assert_eq!(command(Key::Char('u'), false), Command::Unban);
    assert_eq!(command(Key::Char('x'), true), Command::Nothing);
    assert_eq!(command(Key::Other, true), Command::Nothing);
}

#[test]
fn state_line_has_its_texts() {
    assert_eq!(mode_text(true), "ENFORCE(拦截生效)");
    assert_eq!(mode_text(false), "MONITOR(仅监控)");
    assert_eq!(banned_text(3), "已封禁 IP 3");
}
