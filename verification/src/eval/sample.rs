//! Samples for the offline evaluation: raw HTTP requests in files.

use vstd::prelude::*;
use vstd::slice::*;
use vstd::string::*;

use crate::engine::verdict::RequestSummary;
use crate::proxy::{inspected_body, MAX_INSPECT_BODY};
use crate::text::{
    chars_of, decode_lossy, eq_ignore_case, has_prefix, join, joined, occurs_at, same_ignoring_case,
    same_text, split_at_first, split_lines, split_once, split_words, text_lines, text_of, texts, trim,
    trimmed, utf8_text, words,
};

verus! {

/// The first position, from `at` on, at which `pattern` stands in `b`.
pub open spec fn found_from(b: Seq<u8>, pattern: Seq<u8>, at: nat) -> Option<nat>
    decreases b.len() - at,
{
    if at + pattern.len() > b.len() {
        None
    } else if b.subrange(at as int, (at + pattern.len()) as int) == pattern {
        Some(at)
    } else if at >= b.len() {
        None
    } else {
        found_from(b, pattern, at + 1)
    }
}

/// The end of the head and the start of the body of a request: around the first
/// empty line.
pub open spec fn blank_line(b: Seq<u8>) -> Option<(nat, nat)> {
    let crlf = found_from(b, seq![13u8, 10u8, 13u8, 10u8], 0);
    let lf = found_from(b, seq![10u8, 10u8], 0);
    match (crlf, lf) {
        (Some(c), Some(l)) => if c <= l {
            Some((c, c + 4))
        } else {
            Some((l, l + 2))
        },
        (None, Some(l)) => Some((l, l + 2)),
        (Some(c), None) => Some((c, c + 4)),
        (None, None) => None,
    }
}

fn find_pattern(b: &[u8], pattern: &[u8]) -> (r: Option<usize>)
    requires
        pattern@.len() > 0,
    ensures
        match r {
            Some(k) => found_from(b@, pattern@, 0) == Some(k as nat) && k + pattern@.len()
                <= b@.len(),
            None => found_from(b@, pattern@, 0) is None,
        },
{
    let n: usize = b.len();
    let m: usize = pattern.len();
    let mut at: usize = 0;
    while m <= n && at <= n - m
        invariant
            n == b@.len(),
            m == pattern@.len(),
            m > 0,
            at <= n,
            found_from(b@, pattern@, 0) == found_from(b@, pattern@, at as nat),
        decreases n - at,
    {
        let mut i: usize = 0;
        while i < m && b[at + i] == pattern[i]
            invariant
                n == b@.len(),
                m == pattern@.len(),
                at + m <= n,
                i <= m,
                forall|j: int| 0 <= j < i ==> b@[at + j] == pattern@[j],
            decreases m - i,
        {
            i += 1;
        }
        if i == m {
            assert(b@.subrange(at as int, at + m) =~= pattern@);
            return Some(at);
        }
        proof {
            assert(b@.subrange(at as int, at + m)[i as int] != pattern@[i as int]);
        }
        at += 1;
    }
    None
}

/// The end of the head and the start of the body of a request.
pub fn find_blank_line(bytes: &[u8]) -> (r: Option<(usize, usize)>)
    ensures
        match r {
            Some((h, s)) => blank_line(bytes@) == Some((h as nat, s as nat)) && h <= s
                <= bytes@.len(),
            None => blank_line(bytes@) is None,
        },
{
    let n: usize = bytes.len();
    let four: [u8; 4] = [13, 10, 13, 10];
    let two: [u8; 2] = [10, 10];
    assert(four@ =~= seq![13u8, 10u8, 13u8, 10u8]);
    assert(two@ =~= seq![10u8, 10u8]);
    let crlf = find_pattern(bytes, four.as_slice());
    let lf = find_pattern(bytes, two.as_slice());
    match (crlf, lf) {
        (Some(c), Some(l)) => if c <= l {
            Some((c, c + 4))
        } else {
            Some((l, l + 2))
        },
        (None, Some(l)) => Some((l, l + 2)),
        (Some(c), None) => Some((c, c + 4)),
        (None, None) => None,
    }
}

/// The head of a sample.
pub open spec fn head_bytes(b: Seq<u8>) -> Seq<u8> {
    match blank_line(b) {
        Some((h, _)) => b.take(h as int),
        None => b,
    }
}

/// The body of a sample.
pub open spec fn body_bytes(b: Seq<u8>) -> Seq<u8> {
    match blank_line(b) {
        Some((_, s)) => b.skip(s as int),
        None => Seq::empty(),
    }
}

/// Upper case ASCII letters only.
pub open spec fn all_upper(s: Seq<char>) -> bool {
    forall|i: int| 0 <= i < s.len() ==> 'A' <= #[trigger] s[i] <= 'Z'
}

/// The words of a line that starts a request: a method, a target and a version.
pub open spec fn is_request_line(parts: Seq<Seq<char>>) -> bool {
    parts.len() >= 3 && all_upper(parts[0]) && occurs_at(parts[2], "HTTP/"@, 0)
}

/// The name and the value of a header line.
pub open spec fn header_in(line: Seq<char>) -> Option<(Seq<char>, Seq<char>)> {
    match split_at_first(line, ':') {
        Some((name, value)) => Some((trimmed(name), trimmed(value))),
        None => None,
    }
}

/// The value of the last User-Agent among some header lines, or nothing.
pub open spec fn agent_of(lines: Seq<Seq<char>>) -> Seq<char>
    decreases lines.len(),
{
    if lines.len() == 0 {
        Seq::empty()
    } else {
        match header_in(lines.last()) {
            Some((name, value)) => if same_ignoring_case(name, "user-agent"@) {
                value
            } else {
                agent_of(lines.drop_last())
            },
            None => agent_of(lines.drop_last()),
        }
    }
}

/// The other headers among some header lines, as `name: value`.
pub open spec fn headers_of(lines: Seq<Seq<char>>) -> Seq<Seq<char>>
    decreases lines.len(),
{
    if lines.len() == 0 {
        Seq::empty()
    } else {
        let front = headers_of(lines.drop_last());
        match header_in(lines.last()) {
            Some((name, value)) => if same_ignoring_case(name, "user-agent"@) {
                front
            } else {
                front.push(name + ": "@ + value)
            },
            None => front,
        }
    }
}

/// The sample holds a request.
pub open spec fn is_sample(b: Seq<u8>) -> bool {
    let lines = text_lines(utf8_text(head_bytes(b)));
    lines.len() > 0 && is_request_line(words(lines[0]))
}

/// The request is the one that the sample holds.
pub open spec fn is_request_of(r: RequestSummary, b: Seq<u8>) -> bool {
    let lines = text_lines(utf8_text(head_bytes(b)));
    let parts = words(lines[0]);
    let target = match split_at_first(parts[1], '?') {
        Some((p, q)) => (p, q),
        None => (parts[1], Seq::empty()),
    };
    &&& r.method@ == parts[0]
    &&& r.path@ == target.0
    &&& r.query@ == target.1
    &&& r.user_agent@ == agent_of(lines.skip(1))
    &&& r.headers@ == joined(headers_of(lines.skip(1)), "\n"@)
    &&& r.body@ == utf8_text(inspected_body(body_bytes(b)))
    &&& r.client_ip@ == "0.0.0.0"@
}

fn is_all_upper(s: &[char]) -> (r: bool)
    ensures
        r == all_upper(s@),
{
    let mut i: usize = 0;
    while i < s.len()
        invariant
            i <= s@.len(),
            forall|j: int| 0 <= j < i ==> 'A' <= #[trigger] s@[j] <= 'Z',
        decreases s@.len() - i,
    {
        if !('A' <= s[i] && s[i] <= 'Z') {
            assert(!('A' <= s@[i as int] <= 'Z'));
            return false;
        }
        i += 1;
    }
    true
}

/// The User-Agent and the other headers of some header lines.
fn read_headers(lines: &Vec<&[char]>, from: usize, Ghost(views): Ghost<Seq<Seq<char>>>) -> (r: (
    String,
    String,
))
    requires
        from <= lines@.len(),
        views.len() == lines@.len() - from,
        forall|i: int| 0 <= i < views.len() ==> lines@[from + i]@ == #[trigger] views[i],
    ensures
        r.0@ == agent_of(views),
        r.1@ == joined(headers_of(views), "\n"@),
{
    let mut user_agent: String = String::new();
    let mut headers: Vec<String> = Vec::new();
    let agent_name = chars_of("user-agent");
    let mut i: usize = from;
    while i < lines.len()
        invariant
            from <= i <= lines@.len(),
            views.len() == lines@.len() - from,
            forall|i: int| 0 <= i < views.len() ==> lines@[from + i]@ == #[trigger] views[i],
            agent_name@ == "user-agent"@,
            user_agent@ == agent_of(views.take(i - from)),
            texts(headers@) == headers_of(views.take(i - from)),
        decreases lines@.len() - i,
    {
        let ghost k = i - from;
        proof {
            assert(views.take(k + 1).drop_last() =~= views.take(k));
            assert(views.take(k + 1).last() == views[k]);
        }
        match split_once(lines[i], ':') {
            Some((name, value)) => {
                let name = trim(name);
                let value = trim(value);
                if eq_ignore_case(name, agent_name.as_slice()) {
                    user_agent = text_of(value);
                } else {
                    let mut line: String = text_of(name);
                    line.append(": ");
                    line.append(text_of(value).as_str());
                    let ghost before = headers@;
                    headers.push(line);
                    assert(texts(headers@) =~= texts(before).push(line@));
                }
            },
            None => {},
        }
        i += 1;
    }
    assert(views.take(i - from) =~= views);
    (user_agent, join(&headers, "\n"))
}

/// The request that a sample holds, with as much of the body as the proxy would
/// inspect.
pub fn parse_sample(bytes: &[u8]) -> (r: Option<RequestSummary>)
    ensures
        match r {
            Some(s) => is_sample(bytes@) && is_request_of(s, bytes@),
            None => !is_sample(bytes@),
        },
{
    let n: usize = bytes.len();
    let (head_end, body_start): (usize, usize) = match find_blank_line(bytes) {
        Some((h, s)) => (h, s),
        None => (n, n),
    };
    let head_part = slice_subrange(bytes, 0, head_end);
    let body_part = slice_subrange(bytes, body_start, n);
    proof {
        assert(head_part@ =~= head_bytes(bytes@));
        assert(body_part@ =~= body_bytes(bytes@));
    }
    let head = decode_lossy(head_part);
    let head_chars = chars_of(head.as_str());
    let lines = split_lines(head_chars.as_slice());
    let ghost views = text_lines(head@);
    if lines.len() == 0 {
        return None;
    }
    let parts = split_words(lines[0]);
    assert(lines@[0]@ == views[0]);
    if parts.len() < 3 {
        return None;
    }
    let version = chars_of("HTTP/");
    if !is_all_upper(parts[0]) || !has_prefix(parts[2], version.as_slice()) {
        return None;
    }
    let (path, query): (String, String) = match split_once(parts[1], '?') {
        Some((p, q)) => (text_of(p), text_of(q)),
        None => (text_of(parts[1]), String::new()),
    };
    let (user_agent, headers) = read_headers(&lines, 1, Ghost(views.skip(1)));
    let m: usize = body_part.len();
    let end: usize = if m < MAX_INSPECT_BODY {
        m
    } else {
        MAX_INSPECT_BODY
    };
    let inspected = slice_subrange(body_part, 0, end);
    assert(inspected@ =~= inspected_body(body_part@));
    Some(
        RequestSummary {
            method: text_of(parts[0]),
            path,
            query,
            user_agent,
            body: decode_lossy(inspected),
            headers,
            client_ip: "0.0.0.0".to_owned(),
        },
    )
}

/// What a sample is, by the extension of its file: an attack, a normal request,
/// or no sample at all.
pub open spec fn sample_label(extension: Seq<char>) -> Option<bool> {
    if extension == "black"@ {
        Some(true)
    } else if extension == "white"@ {
        Some(false)
    } else {
        None
    }
}

/// Is the file a sample, and is it an attack?
pub fn label_of(extension: &str) -> (r: Option<bool>)
    ensures
        r == sample_label(extension@),
{
    proof {
        reveal_strlit("black");
        reveal_strlit("white");
        assert("black"@[0] != "white"@[0]);
    }
    if same_text(extension, "black") {
        Some(true)
    } else if same_text(extension, "white") {
        Some(false)
    } else {
        None
    }
}

proof fn lemma_found_from(b: Seq<u8>, pattern: Seq<u8>, at: nat, k: nat)
    requires
        at <= k,
        k + pattern.len() <= b.len(),
        b.subrange(k as int, (k + pattern.len()) as int) == pattern,
        forall|j: int|
            at <= j < k ==> b.subrange(j, j + pattern.len()) != #[trigger] pattern_at(pattern, j),
    ensures
        found_from(b, pattern, at) == Some(k),
    decreases k - at,
{
    if at < k {
        assert(b.subrange(at as int, at as int + pattern.len()) != pattern_at(pattern, at as int));
        lemma_found_from(b, pattern, at + 1, k);
    }
}

spec fn pattern_at(pattern: Seq<u8>, j: int) -> Seq<u8> {
    pattern
}

/// A head without an empty line, the empty line after it and a body are split
/// into that head and that body, whatever the body holds.
pub proof fn law_head_and_body_are_found(head: Seq<u8>, body: Seq<u8>)
    requires
        forall|i: int|
            0 <= i < head.len() && #[trigger] head[i] == 10u8 ==> i + 1 < head.len() && head[i + 1]
                != 10u8 && head[i + 1] != 13u8,
    ensures
        ({
            let b = head + seq![13u8, 10u8, 13u8, 10u8] + body;
            head_bytes(b) == head && body_bytes(b) == body
        }),
{
    let four = seq![13u8, 10u8, 13u8, 10u8];
    let two = seq![10u8, 10u8];
    let b = head + four + body;
    let h = head.len();
    assert(b.subrange(h as int, (h + 4) as int) =~= four);
    assert forall|j: int| 0 <= j < h implies b.subrange(j, j + 4) != #[trigger] pattern_at(
        four,
        j,
    ) by {
        if j + 1 < h {
            assert(b.subrange(j, j + 4)[1] == head[j + 1]);
            if head[j + 1] == 10u8 {
                assert(b.subrange(j, j + 4)[2] == head[j + 2]);
            }
        } else {
            assert(b.subrange(j, j + 4)[1] == 13u8);
        }
    }
    lemma_found_from(b, four, 0, h);
    match found_from(b, two, 0) {
        Some(l) => {
            lemma_found_is_match(b, two, 0);
            if l < h + 4 {
                assert(b.subrange(l as int, (l + 2) as int)[0] == 10u8);
                assert(b.subrange(l as int, (l + 2) as int)[1] == 10u8);
                assert(b[l as int] == 10u8);
                assert(b[l as int + 1] == 10u8);
                if l < h {
                    assert(head[l as int] == 10u8);
                    assert(head[l as int + 1] == b[l as int + 1]);
                }
            }
        },
        None => {},
    }
    assert(b.take(h as int) =~= head);
    assert(b.skip((h + 4) as int) =~= body);
}

proof fn lemma_found_is_match(b: Seq<u8>, pattern: Seq<u8>, at: nat)
    ensures
        found_from(b, pattern, at) matches Some(k) ==> k + pattern.len() <= b.len() && b.subrange(
            k as int,
            (k + pattern.len()) as int,
        ) == pattern,
    decreases b.len() - at,
{
    if at + pattern.len() <= b.len() && b.subrange(at as int, (at + pattern.len()) as int)
        != pattern && at < b.len() {
        lemma_found_is_match(b, pattern, at + 1);
    }
}

} // verus!
