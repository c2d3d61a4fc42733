//! The rule engine as a whole.

use limen::engine::rules::{Found, RuleEngine};
use limen::engine::table::{REGEX_DEFS, SCANNER_UA};
use limen::engine::verdict::RequestSummary;

fn request(path: &str, query: &str, ua: &str, body: &str, headers: &str) -> RequestSummary {
    RequestSummary {
        method: "GET".to_string(),
        path: path.to_string(),
        query: query.to_string(),
        user_agent: ua.to_string(),
        body: body.to_string(),
        headers: headers.to_string(),
        client_ip: "127.0.0.1".to_string(),
    }
}

#[test]
fn rules_can_be_built_without_every_category() {
    let none: Vec<String> = Vec::new();
    assert!(RuleEngine::try_new().is_ok());
    assert!(RuleEngine::try_new_filtered(&none).is_ok());
    let some = vec!["XSS".to_string(), "Scanner".to_string()];
    let e = RuleEngine::try_new_filtered(&some).expect("rules");
    let d = e.inspect(&request("/", "q=<script>", "sqlmap", "", ""));
    assert!(d.hits.iter().all(|h| h.category != "XSS" && h.category != "Scanner"));
}

#[test]
fn every_part_is_looked_at() {
    let e = RuleEngine::new();
    let needle = "/etc/passwd";
    let parts = vec![
        request(needle, "", "", "", ""),
        request("/", needle, "", "", ""),
        request("/", "", "", needle, ""),
        request("/", "", "", "", needle),
    ];
    for r in parts {
        let d = e.inspect(&r);
        assert!(d.hits.iter().any(|h| h.category == "PathTraversal"), "{:?}", d.hits);
    }
}

#[test]
fn no_hit_comes_twice() {
    let e = RuleEngine::new();
    let q = "../../../etc/passwd <script> <script> union select 1 from x";
    let d = e.inspect(&request(q, q, "sqlmap sqlmap", q, q));
    for (i, a) in d.hits.iter().enumerate() {
        for b in d.hits.iter().skip(i + 1) {
            assert!(a.category != b.category || a.pattern != b.pattern, "{:?}", a);
        }
    }
    let sum: u32 = d.hits.iter().map(|h| h.score).sum();
    assert_eq!(d.score, sum);
}

#[test]
fn case_of_letters_does_not_matter() {
    let e = RuleEngine::new();
    let lower = e.inspect(&request("/", "q=1 union select 2", "", "", ""));
    let upper = e.inspect(&request("/", "q=1 UNION SELECT 2", "", "", ""));
    assert!(lower.hits.iter().any(|h| h.category == "SQLi" && h.pattern == "union select"));
    assert!(upper.hits.iter().any(|h| h.category == "SQLi" && h.pattern == "union select"));
}

#[test]
fn regex_hit_names_the_text_that_matched() {
    let e = RuleEngine::new();
    let d = e.inspect(&request("/search", "q=<img src=x onerror=alert(1)>", "", "", ""));
    assert!(d.hits.iter().any(|h| h.category == "XSS" && h.pattern.contains("onerror")), "{:?}", d.hits);
}

#[test]
fn scanner_is_found_by_its_user_agent_alone() {
    let e = RuleEngine::new();
    let by_agent = e.inspect(&request("/", "", "Nikto/2.5", "", ""));
    assert!(by_agent.hits.iter().any(|h| h.category == "Scanner"), "{:?}", by_agent.hits);
    let by_path = e.inspect(&request("/nikto", "", "Mozilla/5.0", "", ""));
    assert!(by_path.hits.iter().all(|h| h.category != "Scanner"));
}

#[test]
fn what_was_found_counts_once() {
    let e = RuleEngine::new();
    let found = |ids: Vec<usize>, first: Option<&str>| Found {
        literals: ids,
        regexes: (0..REGEX_DEFS.len()).map(|i| if i == 0 { first.map(|s| s.to_string()) } else { None }).collect(),
    };
    let none = found(Vec::new(), None);
    let d = e.collect(&none, &none, &none, "");
    assert_eq!(d.score, 0);
    assert!(d.hits.is_empty());
    let one = e.collect(&found(vec![0], None), &none, &none, "");
    let again = e.collect(&found(vec![0, 0], None), &found(vec![0], None), &none, "");
    assert_eq!(one.hits.len(), 1);
    assert_eq!(one.score, again.score);
    assert_eq!(one.hits[0].pattern, again.hits[0].pattern);
    let two = e.collect(&found(vec![0], Some("abc")), &found(Vec::new(), Some("abd")), &none, "");
    assert_eq!(two.hits.len(), 3);
    assert_eq!(two.hits[1].pattern, "abc");
    assert_eq!(two.hits[2].pattern, "abd");
    assert_eq!(two.hits[1].category, two.hits[2].category);
    let scanner = e.collect(&none, &none, &none, "SQLMAP");
    assert_eq!(scanner.hits.len(), 1);
    assert_eq!(scanner.hits[0].pattern, "sqlmap");
}

#[test]
fn every_scanner_is_found() {
    let e = RuleEngine::new();
    for (name, score) in SCANNER_UA {
        let d = e.inspect(&request("/", "", name, "", ""));
        assert_eq!(d.score, score, "{}", name);
        assert_eq!(d.primary_threat().as_deref(), Some("Scanner"));
    }
    for name in ["burpsuite", "zap", "wfuzz", "ffuf", "sqlmap", "nuclei"] {
        let d = e.inspect(&request("/", "", &name.to_uppercase(), "", ""));
        assert!(d.score > 0, "{}", name);
        assert_eq!(d.hits[0].pattern, name);
        assert_eq!(d.primary_threat().as_deref(), Some("Scanner"));
    }
}

fn category_of(e: &RuleEngine, query: &str) -> Option<String> {
    e.inspect(&request("/", query, "", "", "")).primary_threat()
}

#[test]
fn every_kind_of_attack_is_found() {
    let e = RuleEngine::new();
    let cases = [
        ("q=dbms_pipe.receive_message", "SQLi"),
        ("q=1|bash", "CommandInjection"),
        ("q=PowerShell -enc", "CommandInjection"),
        ("q=Invoke-Expression", "CommandInjection"),
        ("q=1;cat x", "CommandInjection"),
        ("f=expect://id", "PathTraversal"),
        ("q=os.system(1)", "RCE"),
        ("q=Runtime.exec", "RCE"),
        ("q={{config}}", "SSTI"),
        ("q={{7*7}}", "SSTI"),
        ("q=<!ENTITY x", "XXE"),
        ("q=SYSTEM \"file:x", "XXE"),
        ("user[$ne]=1", "NoSQLi"),
        ("user[$regex]=1", "NoSQLi"),
        ("$where=1", "NoSQLi"),
        ("q=*)(uid=*", "LDAPi"),
        ("q=*)(cn=*", "LDAPi"),
        ("q=%0d%0aSet-Cookie:a", "CRLF"),
        ("q=%0d%0aLocation:a", "CRLF"),
        ("u=http://192.168.1.1/", "SSRF"),
        ("u=http%3A%2F%2F127.0.0.1:9/", "SSRF"),
        ("u=https://10.1.2.3", "SSRF"),
        ("u=http://172.31.0.1/", "SSRF"),
        ("u=http://169.254.169.254/", "SSRF"),
    ];
    for (query, category) in cases {
        assert_eq!(category_of(&e, query).as_deref(), Some(category), "{}", query);
    }
    for query in [
        "u=http://11.0.0.1/",
        "u=http://172.32.0.1/",
        "u=http://localhost/",
        "u=http://10.example.com/",
        "u=http://192.168.example.com/",
    ] {
        assert_eq!(category_of(&e, query), None, "{}", query);
    }
}

#[test]
fn matches_come_in_the_order_of_their_ends() {
    let e = RuleEngine::new();
    let d = e.inspect(&request("", "x' or 1=1-- '; drop table", "", "", ""));
    let found: Vec<&str> = d.hits.iter().map(|h| h.pattern.as_str()).collect();
    assert_eq!(
        found,
        vec!["' or 1=1", "or 1=1--", "'; drop table", "; drop table", "or 1=1"]
    );
}

#[test]
fn hits_are_those_of_rules_that_match() {
    let e = RuleEngine::new();
    let q = "%2e%2e%2fetc/passwd &#60;SCRIPT union all select null";
    let d = e.inspect(&request("/", q, "Nmap", "", ""));
    assert!(!d.hits.is_empty());
    let texts = [
        q.to_ascii_lowercase(),
        "../etc/passwd &#60;script union all select null".to_string(),
        "../etc/passwd <script union all select null".to_string(),
    ];
    for h in &d.hits {
        assert!(h.score > 0 && h.score <= 100);
        let p = h.pattern.to_ascii_lowercase();
        assert!(h.category == "Scanner" || texts.iter().any(|t| t.contains(&p)), "{:?}", h);
    }
}

#[test]
fn disabled_categories_leave_the_other_hits() {
    let e = RuleEngine::new();
    let r = request("/../etc/passwd", "q=<script>' or 1=1--", "sqlmap", "", "");
    let full = e.inspect(&r);
    for gone in ["SQLi", "XSS", "PathTraversal", "Scanner", "sqli", "Unknown"] {
        let part = RuleEngine::new_filtered(&[gone.to_string()]).inspect(&r);
        let kept: Vec<(String, String, u32)> = full
            .hits
            .iter()
            .filter(|h| h.category != gone)
            .map(|h| (h.category.clone(), h.pattern.clone(), h.score))
            .collect();
        let left: Vec<(String, String, u32)> = part
            .hits
            .iter()
            .map(|h| (h.category.clone(), h.pattern.clone(), h.score))
            .collect();
        assert_eq!(left, kept, "{}", gone);
        assert!(part.score <= full.score);
    }
}

#[test]
fn agent_decides_over_scanner_hits_alone() {
    let e = RuleEngine::new();
    let pick = |ua: &str, path: &str, scanner: bool| -> Vec<String> {
        e.inspect(&request(path, "q=<script>", ua, "", ""))
            .hits
            .iter()
            .filter(|h| (h.category == "Scanner") == scanner)
            .map(|h| h.pattern.clone())
            .collect()
    };
    assert_eq!(pick("sqlmap", "/", false), pick("Mozilla", "/", false));
    assert_eq!(pick("SqlMap nikto", "/", true), pick("sqlmap NIKTO", "/etc/passwd", true));
    let mut other = request("/", "q=<script>", "nmap", "", "");
    other.method = "POST".to_string();
    other.client_ip = "9.9.9.9".to_string();
    let same = e.inspect(&request("/", "q=<script>", "nmap", "", ""));
    assert_eq!(e.inspect(&other).score, same.score);
}
