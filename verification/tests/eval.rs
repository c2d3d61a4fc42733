//! The offline evaluation.

use limen::engine::llm::LlmDecision;
use limen::engine::rules::RuleEngine;
use limen::engine::verdict::{Detection, Hit, RequestSummary, Verdict};
use limen::eval::print::{
    alarm_file, missed_file, print_llm_report, print_report, report_drivers, LlmRates, Rates,
    ReportRates,
};
use limen::eval::report::{lenient, llm_figures, parse_args, rank, strict, two_tier, LlmStats};
use limen::eval::sample::label_of;
use limen::eval::tally::{judge, meet, Entry, FalseAlarm, Missed, Stats, Tally};
use limen::eval::{find_blank_line, parse_sample};

#[test]
fn parse_get_with_query() {
    let raw = b"GET /a/b?x=1&y=2 HTTP/1.1\r\nHost: h\r\nUser-Agent: sqlmap/1.7\r\n\r\n";
    let s = parse_sample(raw).unwrap();
    assert_eq!(s.method, "GET");
    assert_eq!(s.path, "/a/b");
    assert_eq!(s.query, "x=1&y=2");
    assert_eq!(s.user_agent, "sqlmap/1.7");
    assert_eq!(s.body, "");
    assert_eq!(s.headers, "Host: h");
}

#[test]
fn parse_post_with_body_lf_only() {
    let raw = b"POST /login HTTP/1.1\nhost: h\nuser-agent: UA\n\nuser=admin&pass=1";
    let s = parse_sample(raw).unwrap();
    assert_eq!(s.method, "POST");
    assert_eq!(s.path, "/login");
    assert_eq!(s.query, "");
    assert_eq!(s.user_agent, "UA");
    assert_eq!(s.body, "user=admin&pass=1");
    assert_eq!(s.headers, "host: h");
}

#[test]
fn parse_rejects_garbage() {
    assert!(parse_sample(b"").is_none());
    assert!(parse_sample(b"not an http request").is_none());
    assert!(parse_sample(b"<html>oops</html>").is_none());
}

fn entry(category: &str, pattern: &str, count: u32) -> Entry {
    Entry { category: category.to_string(), pattern: pattern.to_string(), count }
}

fn detection(hits: &[(&str, &str, u32)]) -> Detection {
    Detection {
        score: hits.iter().map(|h| h.2).sum(),
        hits: hits
            .iter()
            .map(|h| Hit { category: h.0.to_string(), pattern: h.1.to_string(), score: h.2 })
            .collect(),
    }
}

fn sample() -> RequestSummary {
    parse_sample(b"GET / HTTP/1.1\r\n\r\n").unwrap()
}

#[test]
fn first_empty_line_ends_the_head() {
    assert_eq!(find_blank_line(b"a\r\n\r\nb\n\nc"), Some((1, 5)));
    assert_eq!(find_blank_line(b"a\n\nb\r\n\r\nc"), Some((1, 3)));
    assert_eq!(find_blank_line(b"a\r\n\r\n"), Some((1, 5)));
    assert_eq!(find_blank_line(b"\n\n"), Some((0, 2)));
    assert_eq!(find_blank_line(b"abc"), None);
    assert_eq!(find_blank_line(b""), None);
}

#[test]
fn samples_need_a_request_line() {
    assert!(parse_sample(b"GET /").is_none());
    assert!(parse_sample(b"get / HTTP/1.1\n\n").is_none());
    assert!(parse_sample(b"GET / FTP/1\n\n").is_none());
    assert!(parse_sample(b"\n\nGET / HTTP/1.1").is_none());
    assert!(parse_sample(b"GET / HTTP/1.1").is_some());
    assert!(parse_sample(b"  GET   /x   HTTP/2  more\n\n").is_some());
}

#[test]
fn header_lines_without_a_colon_are_skipped() {
    let s = parse_sample(b"GET / HTTP/1.1\nA : 1 \nnonsense\nB:2:3\nUser-Agent: x\nUSER-AGENT:y\n\n").unwrap();
    assert_eq!(s.headers, "A: 1\nB: 2:3");
    assert_eq!(s.user_agent, "y");
    assert_eq!(s.client_ip, "0.0.0.0");
}

#[test]
fn body_of_a_sample_is_cut_like_that_of_a_request() {
    let mut raw = b"POST / HTTP/1.1\r\n\r\n".to_vec();
    raw.extend(vec![b'x'; 20_000]);
    assert_eq!(parse_sample(&raw).unwrap().body.len(), 16 * 1024);
}

#[test]
fn extension_tells_the_label() {
    assert_eq!(label_of("black"), Some(true));
    assert_eq!(label_of("white"), Some(false));
    assert_eq!(label_of("txt"), None);
    assert_eq!(label_of(""), None);
}

#[test]
fn arguments_of_an_evaluation() {
    let args = |v: &[&str]| v.iter().map(|s| s.to_string()).collect::<Vec<_>>();
    let a = parse_args(&args(&[]));
    assert!(!a.llm);
    assert_eq!(a.dir, "benchmarks/blazehttp");
    let a = parse_args(&args(&["x", "--llm", "-v", "y"]));
    assert!(a.llm);
    assert_eq!(a.dir, "y");
}

#[test]
fn tally_counts_every_cell() {
    let mut t = Tally::new();
    let s = sample();
    let found = detection(&[("XSS", "a", 60), ("SQLi", "b", 60)]);
    let little = detection(&[("SSRF", "c", 45)]);
    let none = detection(&[]);
    for (black, det, alarm) in [
        (true, &found, false),
        (true, &little, false),
        (true, &none, true),
        (true, &none, false),
        (false, &found, false),
        (false, &little, true),
        (false, &none, true),
    ] {
        assert!(t.has_room(det.hits.len()));
        t.add("f", black, &s, det, &det.to_verdict(100, 40), alarm);
    }
    t.skip();
    let st = t.stats;
    assert_eq!((st.black_block, st.black_susp, st.black_allow), (1, 1, 2));
    assert_eq!((st.white_block, st.white_susp, st.white_allow), (1, 1, 1));
    assert_eq!((st.ngram_elevated_black, st.ngram_elevated_white), (1, 1));
    assert_eq!(st.parse_failed, 1);
    assert_eq!(st.black_total(), 4);
    assert_eq!(st.white_total(), 3);
    assert_eq!(t.missed_black.len(), 2);
    assert_eq!(t.fp_white.len(), 1);
    assert_eq!(t.fp_white[0].reasons, "XSS: a; SQLi: b");
    assert_eq!(t.fp_white[0].score, 120);
    assert_eq!(t.susp_samples.len(), 4);
    let threats: Vec<(&str, u32)> = t.black_threats.iter().map(|e| (e.category.as_str(), e.count)).collect();
    assert_eq!(threats, vec![("SQLi", 1), ("SSRF", 1)]);
    let rules: Vec<(&str, u32)> = t.white_hit_rules.iter().map(|e| (e.pattern.as_str(), e.count)).collect();
    assert_eq!(rules, vec![("a", 1), ("b", 1), ("c", 1)]);
}

#[test]
fn counts_that_are_full_leave_no_room() {
    let mut t = Tally::new();
    t.stats.white_allow = u32::MAX - 1;
    assert!(t.has_room(0));
    t.stats.parse_failed = 1;
    assert!(!t.has_room(0));
    let mut t = Tally::new();
    t.white_hit_rules.push(entry("c", "p", u32::MAX - 2));
    assert!(t.has_room(2));
    assert!(!t.has_room(3));
}

#[test]
fn occurrences_are_counted_by_category_and_pattern() {
    let mut v = vec![entry("a", "x", 1)];
    meet(&mut v, "a", "y");
    meet(&mut v, "b", "x");
    meet(&mut v, "a", "x");
    let all: Vec<(&str, &str, u32)> =
        v.iter().map(|e| (e.category.as_str(), e.pattern.as_str(), e.count)).collect();
    assert_eq!(all, vec![("a", "x", 2), ("a", "y", 1), ("b", "x", 1)]);
}

#[test]
fn sample_is_judged_like_a_request() {
    let e = RuleEngine::new();
    let j = judge(&e, b"GET /?q=1+UNION+SELECT+1+FROM+t HTTP/1.1\r\n\r\n", 100, 40).unwrap();
    assert!(matches!(j.verdict, Verdict::Block { .. }));
    assert_eq!(j.detection.primary_threat().as_deref(), Some("SQLi"));
    assert_eq!(j.summary.query, "q=1+UNION+SELECT+1+FROM+t");
    assert!(judge(&e, b"nothing", 100, 40).is_none());
}

#[test]
fn ranking_is_by_count_and_then_by_order() {
    let r = rank(&vec![entry("a", "", 1), entry("b", "", 3), entry("c", "", 1), entry("d", "", 3)]);
    let order: Vec<&str> = r.iter().map(|e| e.category.as_str()).collect();
    assert_eq!(order, vec!["b", "d", "a", "c"]);
}

fn stats() -> Stats {
    Stats {
        black_block: 6,
        black_susp: 2,
        black_allow: 2,
        white_block: 1,
        white_susp: 3,
        white_allow: 6,
        ngram_elevated_black: 1,
        ngram_elevated_white: 2,
        parse_failed: 4,
    }
}

#[test]
fn figures_of_the_three_readings() {
    let s = stats();
    let m = strict(&s);
    assert_eq!((m.tp, m.fp, m.missed, m.right, m.flagged), (6, 1, 4, 15, 7));
    assert_eq!((m.black, m.white, m.all), (10, 10, 20));
    let m = lenient(&s);
    assert_eq!((m.tp, m.fp, m.missed, m.right, m.flagged), (8, 4, 2, 14, 12));
    let m = two_tier(&s);
    assert_eq!((m.tp, m.fp, m.missed, m.right, m.flagged), (7, 3, 3, 14, 10));
}

fn opinion(block: bool, source: &str) -> LlmDecision {
    LlmDecision {
        block,
        threat: String::new(),
        reason: String::new(),
        source: source.to_string(),
        analysis: String::new(),
    }
}

#[test]
fn model_is_tallied_apart() {
    let mut l = LlmStats::new();
    l.count(true, &opinion(true, "llm:x"));
    l.count(true, &opinion(false, "llm:x(fail)"));
    l.count(true, &opinion(true, "llm:x(cached)"));
    l.count(false, &opinion(true, "llm:x"));
    l.count(false, &opinion(false, "llm:x"));
    assert_eq!((l.black_block, l.black_allow, l.white_block, l.white_allow, l.failures), (2, 1, 1, 1, 1));
    let f = llm_figures(&stats(), &l);
    assert_eq!((f.black, f.black_elevated, f.white, f.white_elevated), (3, 1, 2, 0));
    assert_eq!((f.final_tp, f.final_fp), (8, 2));
}

fn rates(x: &str) -> Rates {
    Rates {
        recall: format!("{x}1"),
        fp_rate: format!("{x}2"),
        precision: format!("{x}3"),
        accuracy: format!("{x}4"),
        f1: format!("{x}5"),
    }
}

#[test]
fn report_shows_all_figures() {
    let r = ReportRates {
        strict: rates("s"),
        lenient: rates("l"),
        two_tier: Some(rates("t")),
        speed: Some("fast".to_string()),
    };
    let text = print_report(
        "dir",
        100,
        40,
        &stats(),
        &vec![entry("XSS", "a\"b", 2), entry("SQLi", "c", 5)],
        &vec![entry("XSS", "", 7)],
        &r,
    );
    let expected = format!(
        "== Limen 规则引擎评测(BlazeHTTP)==\n样本目录: dir\n阈值: block=100, suspicious=40\n黑样本: 10  白样本: 10  解析失败跳过: 4\n\n            Block   Suspicious   Allow\n  黑样本  {:>7} {:>10} {:>7}   (Block=直接拦截, Suspicious=送LLM, Allow=漏报)\n  白样本  {:>7} {:>10} {:>7}   (Block=误报, Suspicious=LLM负载, Allow=正确放行)\n\n严格口径(仅 Block 算拦截):\n  检出率 s1%(漏报 4)  误报率 s2%(误报 1)  精确率 s3%  准确率 s4%  F1 s5\n\n宽松口径(Block+Suspicious 都算命中,假设 LLM 研判完美):\n  检出率 l1%(漏报 2)  误报率 l2%(误报 4)  精确率 l3%  准确率 l4%  F1 l5\n\n== 三级漏斗(规则 → ngram → LLM) ==\n  Tier1 规则直接 Block  黑{:>7}  白{:>7}\n  Tier2 ngram 从 Allow 提升  黑{:>7}  白{:>7}\n  二级合计送检(Suspicious): 规则5 + ngram提升3 = 8 条(黑3 白5)\n  其中 Tier3 LLM: 见 --llm 四格报告\n\n规则+ngram 两级口径:\n  检出率 t1%(漏报 3)  误报率 t2%(误报 3)  精确率 t3%  准确率 t4%  F1 t5\n\n白样本命中规则 Top 15(误报/LLM 负载驱动):\n  {:>6}  [SQLi] {:?}\n  {:>6}  [XSS] {:?}\n\n被检出黑样本的主威胁分布:\n  {:>6}  XSS\n\nfast\n明细: target/eval/missed_black.txt, target/eval/fp_white.txt\n",
        6, 2, 2, 1, 3, 6, 6, 1, 1, 2, 5, "c", 2, "a\"b", 7
    );
    assert_eq!(text, expected);
}

#[test]
fn report_without_a_classifier_says_so() {
    let r = ReportRates { strict: rates(""), lenient: rates(""), two_tier: None, speed: None };
    let text = print_report("d", 1, 1, &Stats::default(), &Vec::new(), &Vec::new(), &r);
    assert!(text.contains("  (未配置 ngram_model,跳过第二层)\n"));
    assert!(text.contains("白样本命中规则 Top 15(误报/LLM 负载驱动):\n  (无)\n\n"));
    assert!(!text.contains("两级口径"));
}

#[test]
fn ranking_shows_the_first_fifteen() {
    let many: Vec<Entry> = (0..20).map(|i| entry("C", &format!("p{i}"), i)).collect();
    let text = report_drivers(&many);
    assert_eq!(text.lines().filter(|l| l.contains("[C]")).count(), 15);
    assert!(text.contains("\"p19\""));
    assert!(!text.contains("\"p4\""));
}

#[test]
fn failures_are_listed_in_files() {
    let m = vec![Missed { path: "a/b".to_string(), score: 12 }, Missed { path: "c".to_string(), score: 0 }];
    assert_eq!(
        missed_file(&m),
        "# 漏报的黑样本(得分未达 suspicious 阈值),共 2 条\na/b\tscore=12\nc\tscore=0\n"
    );
    let f = vec![FalseAlarm { path: "a".to_string(), score: 100, reasons: "r; s".to_string() }];
    assert_eq!(
        alarm_file(&f),
        "# 被误拦截的白样本(得分达 block 阈值),共 1 条\na\tscore=100\tr; s\n"
    );
}

#[test]
fn report_on_the_model() {
    let mut l = LlmStats::new();
    l.count(true, &opinion(true, "llm"));
    l.count(true, &opinion(false, "llm"));
    l.count(true, &opinion(false, "llm(fail)"));
    l.count(false, &opinion(true, "llm"));
    let r = LlmRates {
        recall: "33.33".to_string(),
        fp_rate: "100.00".to_string(),
        avg_ms: Some("1.5".to_string()),
        final_recall: "70.00".to_string(),
        final_fp_rate: "20.00".to_string(),
    };
    assert_eq!(
        print_llm_report(&stats(), &l, &r),
        format!(
            "\n== LLM 二级研判(灰色地带:规则 Suspicious + ngram 提升)==\n送检黑样本: 3(其中规则 2 + ngram 提升 1)  送检白样本: 1(规则 3 + ngram 提升 0)\n\n            LLM Block   LLM Allow\n  灰色黑    {:>8}   {:>8}\n  灰色白    {:>8}   {:>8}\n\nLLM 拦截送检黑样本比例: 33.33% (1/3)\nLLM 误拦送检白样本比例: 100.00% (1/1)\nLLM 调用失败数: 1\n平均每样本 LLM 耗时: 1.5 ms\n\n== 端到端(规则+LLM)==\n最终检出率: 70.00% (7/10)\n最终误报率: 20.00% (2/10)\n",
            1, 2, 1, 0
        )
    );
}
