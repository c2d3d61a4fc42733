//! Requests on their way to the origin.

use limen::proxy::{
    client_ip, forward_url, forwarded_hops, is_hop_by_hop, keep_request_header,
    keep_response_header, summarize, MAX_INSPECT_BODY,
};

fn headers(v: &[(&str, &str)]) -> Vec<(String, String)> {
    v.iter().map(|(a, b)| (a.to_string(), b.to_string())).collect()
}

#[test]
fn headers_of_one_connection_stay_here() {
    for h in [
        "connection",
        "keep-alive",
        "proxy-authenticate",
        "proxy-authorization",
        "te",
        "trailer",
        "transfer-encoding",
        "upgrade",
        "Connection",
        "TE",
        "Upgrade",
    ] {
        assert!(is_hop_by_hop(h), "{h}");
        assert!(!keep_request_header(h));
        assert!(!keep_response_header(h));
    }
    for h in ["accept", "trailers", "x-te", ""] {
        assert!(!is_hop_by_hop(h), "{h}");
        assert!(keep_request_header(h));
        assert!(keep_response_header(h));
    }
}

#[test]
fn host_and_length_are_those_of_the_new_request() {
    assert!(!keep_request_header("Host"));
    assert!(!keep_request_header("Content-Length"));
    assert!(keep_response_header("Host"));
    assert!(!keep_response_header("content-length"));
}

#[test]
fn address_at_the_origin() {
    assert_eq!(forward_url("http://o:1", Some("/a?b=c")), "http://o:1/a?b=c");
    assert_eq!(forward_url("http://o:1", None), "http://o:1/");
}

#[test]
fn summary_holds_what_is_inspected() {
    let s = summarize(
        "POST",
        "/p",
        Some("a=1"),
        &headers(&[("Accept", "*/*"), ("User-Agent", "one"), ("X", ""), ("user-agent", "two")]),
        b"body",
        "1.2.3.4",
    );
    assert_eq!(s.method, "POST");
    assert_eq!(s.path, "/p");
    assert_eq!(s.query, "a=1");
    assert_eq!(s.user_agent, "two");
    assert_eq!(s.headers, "Accept: */*\nX: ");
    assert_eq!(s.body, "body");
    assert_eq!(s.client_ip, "1.2.3.4");
}

#[test]
fn summary_of_a_bare_request() {
    let s = summarize("GET", "/", None, &Vec::new(), &[], "");
    assert_eq!(s.query, "");
    assert_eq!(s.user_agent, "");
    assert_eq!(s.headers, "");
    assert_eq!(s.body, "");
}

#[test]
fn long_bodies_are_cut() {
    let body = vec![b'x'; MAX_INSPECT_BODY + 1];
    let s = summarize("GET", "/", None, &Vec::new(), &body, "");
    assert_eq!(s.body.len(), 16 * 1024);
    let s = summarize("GET", "/", None, &Vec::new(), &body[..MAX_INSPECT_BODY], "");
    assert_eq!(s.body.len(), 16 * 1024);
}

#[test]
fn bodies_that_are_no_text_are_replaced() {
    let s = summarize("GET", "/", None, &Vec::new(), &[b'a', 0xff, b'b'], "");
    assert_eq!(s.body, "a\u{fffd}b");
}

#[test]
fn reported_addresses_are_listed() {
    assert_eq!(forwarded_hops("1.1.1.1, 2.2.2.2 ,3.3.3.3"), vec!["1.1.1.1", "2.2.2.2", "3.3.3.3"]);
    assert_eq!(forwarded_hops(""), vec![""]);
    assert_eq!(forwarded_hops("a,"), vec!["a", ""]);
}

fn hops(v: &[&str]) -> Vec<Option<String>> {
    v.iter().map(|s| if s.is_empty() { None } else { Some(s.to_string()) }).collect()
}

#[test]
fn strangers_are_known_by_their_connection() {
    assert_eq!(client_ip("5.5.5.5", &hops(&["1.1.1.1"]), &vec!["127.0.0.1".to_string()]), "5.5.5.5");
    assert_eq!(client_ip("5.5.5.5", &hops(&["1.1.1.1"]), &Vec::new()), "5.5.5.5");
}

#[test]
fn trusted_proxy_reports_the_client() {
    let t = vec!["127.0.0.1".to_string(), "10.0.0.1".to_string()];
    assert_eq!(client_ip("127.0.0.1", &hops(&["1.1.1.1"]), &t), "1.1.1.1");
    assert_eq!(client_ip("127.0.0.1", &hops(&["9.9.9.9", "1.1.1.1", "10.0.0.1"]), &t), "1.1.1.1");
}

#[test]
fn report_that_cannot_be_read_is_not_used() {
    let t = vec!["127.0.0.1".to_string()];
    assert_eq!(client_ip("127.0.0.1", &hops(&["1.1.1.1", ""]), &t), "127.0.0.1");
    assert_eq!(client_ip("127.0.0.1", &Vec::new(), &t), "127.0.0.1");
    assert_eq!(client_ip("127.0.0.1", &hops(&["127.0.0.1"]), &t), "127.0.0.1");
}
