//! The search for new rules.

use limen::engine::verdict::RequestSummary;
use limen::learn::trial::{
    candidate_file, count_found, count_text, print_report, print_rows, score_all, score_candidate,
};
use limen::learn::{
    build_rules_question, candidate_places, gap_lines, gap_payloads, parse_args, parse_candidates,
    propose_rules, white_haystack, Candidate, GapRecord, RULES_PROMPT,
};

fn strings(v: &[&str]) -> Vec<String> {
    v.iter().map(|s| s.to_string()).collect()
}

fn gap(path: &str, query: &str, body: &str) -> GapRecord {
    GapRecord {
        method: "GET".to_string(),
        path: path.to_string(),
        query: query.to_string(),
        body: body.to_string(),
    }
}

fn candidate(pattern: &str, is_regex: bool) -> Candidate {
    Candidate {
        pattern: pattern.to_string(),
        is_regex,
        category: "SQLi".to_string(),
        score: 70,
        rationale: "why".to_string(),
    }
}

#[test]
fn files_are_named_on_the_command_line() {
    let a = parse_args(&strings(&[]));
    assert_eq!((a.gaps.as_str(), a.whites.as_str()), ("gaps.jsonl", "benchmarks/blazehttp"));
    let a = parse_args(&strings(&["--whites", "w", "g"]));
    assert_eq!((a.gaps.as_str(), a.whites.as_str()), ("g", "w"));
    let a = parse_args(&strings(&["g1", "-x", "g2", "--whites"]));
    assert_eq!((a.gaps.as_str(), a.whites.as_str()), ("g2", "benchmarks/blazehttp"));
    let a = parse_args(&strings(&["--whites", "--whites"]));
    assert_eq!((a.gaps.as_str(), a.whites.as_str()), ("gaps.jsonl", "--whites"));
}

#[test]
fn empty_lines_of_a_log_are_skipped() {
    assert_eq!(gap_lines("a\n\n  b \r\n   \nc"), strings(&["a", "b", "c"]));
    assert!(gap_lines("").is_empty());
}

#[test]
fn payloads_come_once() {
    let p = gap_payloads(&vec![gap("/a", "q", "b"), gap("/b", "", ""), gap("/a", "q", "b")]);
    assert_eq!(p, strings(&["/a q b", "/b  "]));
}

#[test]
fn question_numbers_the_first_payloads() {
    let long = "x".repeat(400);
    let q = build_rules_question(&strings(&["one", &long]));
    assert_eq!(q, format!("漏判的恶意 payload 列表:\n1. one\n2. {}\n", "x".repeat(300)));
    let many: Vec<String> = (0..60).map(|i| format!("p{i}")).collect();
    let q = build_rules_question(&many);
    assert!(q.ends_with("50. p49\n"));
    assert_eq!(q.lines().count(), 51);
}

#[test]
fn rules_are_asked_for() {
    let r = propose_rules("m", &strings(&["p"]));
    assert_eq!(r.member("model").as_text().as_deref(), Some("m"));
    assert!(matches!(r.member("max_tokens"), limen::json::Json::Number(n) if n == "1500"));
    assert_eq!(r.member("messages").item(0).member("content").as_text().as_deref(), Some(RULES_PROMPT));
    assert_eq!(
        r.member("messages").item(1).member("content").as_text(),
        Some(build_rules_question(&strings(&["p"])))
    );
    assert_eq!(r.member("response_format").member("type").as_text().as_deref(), Some("json_object"));
}

#[test]
fn rules_are_looked_for_in_two_places() {
    let (whole, inner) = candidate_places(" {\"rules\":[1]} ");
    assert_eq!(whole, "{\"rules\":[1]}");
    assert_eq!(inner.as_deref(), Some("[1]"));
    assert_eq!(candidate_places("] [").1, None);
    assert_eq!(parse_candidates(Some(vec![candidate("a", false)]), None).expect("rules").len(), 1);
    assert_eq!(parse_candidates(None, Some(Vec::new())).expect("rules").len(), 0);
    assert_eq!(parse_candidates(None, None).expect_err("none"), "无法从 LLM 输出解析候选规则 JSON");
}

#[test]
fn normal_requests_are_tried_in_lower_case() {
    let s = RequestSummary {
        method: "GET".to_string(),
        path: "/A".to_string(),
        query: "Q=É".to_string(),
        user_agent: String::new(),
        body: "B".to_string(),
        headers: String::new(),
        client_ip: String::new(),
    };
    assert_eq!(white_haystack(&s), "/a q=é b");
}

#[test]
fn literal_rules_are_tried_in_any_case() {
    let s = score_candidate(
        candidate("UNION", false),
        &strings(&["/a UNION x", "/b union y", "/c z"]),
        &strings(&["/ok union", "/fine"]),
    );
    assert_eq!((s.detect, s.fp, s.regex_ok), (2, 1, true));
}

#[test]
fn regular_expressions_are_tried_in_any_case() {
    let s = score_candidate(
        candidate("un.on\\d", true),
        &strings(&["UNION1", "union2", "union"]),
        &strings(&["unton9", "x"]),
    );
    assert_eq!((s.detect, s.fp, s.regex_ok), (2, 1, true));
    let s = score_candidate(candidate("(", true), &strings(&["("]), &strings(&["("]));
    assert_eq!((s.detect, s.fp, s.regex_ok), (0, 0, false));
}

#[test]
fn fewest_false_alarms_come_first() {
    let payloads = strings(&["aa", "ab", "ac"]);
    let whites = strings(&["b", "c"]);
    let r = score_all(
        vec![
            candidate("b", false),
            candidate("ac", false),
            candidate("a", false),
            candidate("c", false),
            candidate("(", true),
        ],
        &payloads,
        &whites,
    );
    let order: Vec<&str> = r.iter().map(|s| s.cand.pattern.as_str()).collect();
    assert_eq!(order, vec!["a", "ac", "(", "b", "c"]);
}

#[test]
fn report_tells_clean_rules_from_others() {
    let payloads = strings(&["attack1", "attack2"]);
    let whites = strings(&["normal"]);
    let r = score_all(
        vec![candidate("attack", false), candidate("normal", false), candidate("[", true)],
        &payloads,
        &whites,
    );
    let head = format!(
        "  {:<28} {:<16} {:>5} {:>7} {:>5}  说明\n",
        "pattern", "category", "score", "detect", "fp"
    );
    let clean = format!("  {:<28} {:<16} {:>5} {:>7} {:>5}  {}\n", "attack", "SQLi", 70, 2, 0, "why");
    let dirty = format!("  {:<28} {:<16} {:>5} {:>7} {:>5}  {}\n", "normal", "SQLi", 70, 0, 1, "why");
    assert_eq!(print_rows(&r, true), (format!("{head}{clean}"), 1));
    assert_eq!(
        print_report(&r),
        format!(
            "== 候选规则校验报告 ==\n\n【零误报候选(建议采纳)】1 条\n{head}{clean}\n【有误报/无检出候选(需收紧,不建议直接用)】1 条\n{head}{dirty}\n1 条候选正则编译失败,已丢弃。\n"
        )
    );
    assert_eq!(print_rows(&Vec::new(), true), ("  (无)\n".to_string(), 0));
}

#[test]
fn only_clean_rules_are_written() {
    let payloads = strings(&["attack1", "evil"]);
    let whites = strings(&["normal"]);
    let r = score_all(
        vec![candidate("attack", false), candidate("normal", false), candidate("ev.l", true)],
        &payloads,
        &whites,
    );
    let (text, n) = candidate_file(&r);
    assert_eq!(n, 2);
    let lines: Vec<&str> = text.lines().collect();
    assert_eq!(lines.len(), 5);
    assert!(lines[0].starts_with("// limen learn"));
    assert_eq!(lines[2], "    (\"attack\", \"SQLi\", 70),   // 命中 gap 1 条, 误报 0 —— why");
    assert_eq!(lines[3], "    // [正则] 命中 gap 1 条, 误报 0 —— why");
    assert_eq!(lines[4], "    (r\"(?i)ev.l\", \"SQLi\", 70),");
}

#[test]
fn long_patterns_are_cut_in_the_report() {
    let p = "p".repeat(40);
    let r = score_all(vec![candidate(&p, false)], &vec![p.clone()], &Vec::new());
    let (table, _) = print_rows(&r, true);
    assert!(table.contains(&format!("  {} SQLi", "p".repeat(28))), "{table}");
}

#[test]
fn finds_are_counted() {
    assert_eq!(count_found(&vec![true, false, true]), 2);
    assert_eq!(count_found(&Vec::new()), 0);
    assert_eq!(count_text("ab", &strings(&["xaby", "ba", "ab"])), 2);
    assert_eq!(count_text("", &strings(&["x", ""])), 2);
}
