//! What all providers of a language model share: what the model is told, what
//! it is asked, and how its verdict is found in its answer.

use vstd::prelude::*;
use vstd::slice::*;
use vstd::string::*;

use crate::engine::verdict::RequestSummary;
use crate::text::{
    at_most, chars_of, eq_ignore_case, find_first, first_position, head, lemma_first_position,
    lemma_first_position_bound, same_ignoring_case, text_of, trim, trim_end_char, trimmed,
    without_trailing,
};

verus! {

/// The verdict of a model, as it stands in its answer.
#[derive(Debug)]
pub struct LlmVerdict {
    /// `allow` or `block`.
    pub verdict: String,
    pub threat_type: String,
    /// How sure the model is, written with two decimals.
    pub confidence: String,
    pub reason: String,
    /// The reasons at more length.
    pub analysis: String,
}

/// The verdict is to block.
pub open spec fn says_block(v: LlmVerdict) -> bool {
    same_ignoring_case(v.verdict@, "block"@)
}

impl LlmVerdict {
    /// Is the verdict to block?
    pub fn is_block(&self) -> (r: bool)
        ensures
            r == says_block(*self),
    {
        let a = chars_of(self.verdict.as_str());
        let b = chars_of("block");
        eq_ignore_case(a.as_slice(), b.as_slice())
    }
}

/// What the model is told of its task.
pub const SYSTEM_PROMPT: &'static str =
    "You are a web application firewall (WAF) security analyst. You receive a summary of a single HTTP request that a rule engine flagged as suspicious. Decide whether it is a genuine attack that should be blocked, or benign traffic that should be allowed. Consider SQL injection, XSS, path traversal, command injection, SSRF, and reconnaissance/scanning. Be precise: do not block legitimate traffic that merely resembles an attack. Respond ONLY with a JSON object matching the required schema: verdict is \"block\" or \"allow\"; threat_type is a short label (e.g. \"SQLi\", \"XSS\", \"none\"); confidence is a number from 0 to 1; reason is one concise sentence; analysis is 2-3 sentences giving your detailed rationale (what features were hit, why the verdict).";

/// How much of a body the model is shown, in characters.
pub const MAX_PROMPT_BODY: usize = 1000;

/// How much of the headers the model is shown, in characters.
pub const MAX_PROMPT_HEADERS: usize = 800;

/// What the model is asked of a request: its features, the long ones cut.
pub open spec fn user_content(s: RequestSummary) -> Seq<char> {
    "HTTP request to evaluate:\nmethod: "@ + s.method@ + "\npath: "@ + s.path@ + "\nquery: "@
        + s.query@ + "\nuser_agent: "@ + s.user_agent@ + "\nheaders (may be truncated): "@ + at_most(
        s.headers@,
        MAX_PROMPT_HEADERS as nat,
    ) + "\nclient_ip: "@ + s.client_ip@ + "\nbody (may be truncated): "@ + at_most(
        s.body@,
        MAX_PROMPT_BODY as nat,
    )
}

/// What the model is asked of a request.
pub fn build_user_content(summary: &RequestSummary) -> (r: String)
    ensures
        r@ == user_content(*summary),
{
    let body_snippet = head(summary.body.as_str(), MAX_PROMPT_BODY);
    let headers_snippet = head(summary.headers.as_str(), MAX_PROMPT_HEADERS);
    let mut r: String = "HTTP request to evaluate:\nmethod: ".to_owned();
    r.append(summary.method.as_str());
    r.append("\npath: ");
    r.append(summary.path.as_str());
    r.append("\nquery: ");
    r.append(summary.query.as_str());
    r.append("\nuser_agent: ");
    r.append(summary.user_agent.as_str());
    r.append("\nheaders (may be truncated): ");
    r.append(headers_snippet.as_str());
    r.append("\nclient_ip: ");
    r.append(summary.client_ip.as_str());
    r.append("\nbody (may be truncated): ");
    r.append(body_snippet.as_str());
    r
}

/// The number of open objects after a character; braces in strings do not count.
pub open spec fn depth_after(c: char, depth: nat, quoted: bool) -> nat {
    if !quoted && c == '{' {
        depth + 1
    } else if !quoted && c == '}' && depth > 0 {
        (depth - 1) as nat
    } else {
        depth
    }
}

/// How many characters are read at once: in a string, a backslash and what
/// follows it.
pub open spec fn characters_read(s: Seq<char>, quoted: bool) -> int {
    if quoted && s[0] == '\\' && s.len() > 1 {
        2
    } else {
        1
    }
}

/// The number of characters up to the brace that closes an object, that brace
/// included, where `depth` objects are open; `quoted` says whether a string is.
pub open spec fn object_length(s: Seq<char>, depth: nat, quoted: bool) -> Option<nat>
    decreases s.len(),
{
    if s.len() == 0 {
        None
    } else if !quoted && s[0] == '}' && depth <= 1 {
        Some(1)
    } else {
        let step = characters_read(s, quoted);
        match object_length(
            s.skip(step),
            depth_after(s[0], depth, quoted),
            quoted != (s[0] == '"'),
        ) {
            Some(n) => Some((n + step) as nat),
            None => None,
        }
    }
}

/// The first object in a text: from the first brace to the one that closes it.
pub open spec fn first_object(s: Seq<char>) -> Option<Seq<char>> {
    let a = first_position(s, '{');
    match object_length(s.skip(a as int), 0, false) {
        Some(n) => Some(s.subrange(a as int, (a + n) as int)),
        None => None,
    }
}

proof fn lemma_object_length_bound(s: Seq<char>, depth: nat, quoted: bool)
    ensures
        object_length(s, depth, quoted) matches Some(n) ==> n <= s.len(),
    decreases s.len(),
{
    if s.len() > 0 {
        lemma_object_length_bound(
            s.skip(characters_read(s, quoted)),
            depth_after(s[0], depth, quoted),
            quoted != (s[0] == '"'),
        );
    }
}

/// The first object in a text.
fn object_in(s: &[char]) -> (r: Option<String>)
    ensures
        match r {
            Some(t) => first_object(s@) == Some(t@),
            None => first_object(s@) is None,
        },
{
    let a: usize = find_first(s, '{');
    let n: usize = s.len();
    let ghost rest = s@.skip(a as int);
    let mut i: usize = a;
    let mut depth: usize = 0;
    let mut quoted: bool = false;
    while i < n
        invariant
            a <= i <= n == s@.len(),
            a == first_position(s@, '{'),
            rest == s@.skip(a as int),
            depth <= i - a,
            object_length(rest, 0, false) == match object_length(
                s@.skip(i as int),
                depth as nat,
                quoted,
            ) {
                Some(k) => Some((k + i - a) as nat),
                None => None,
            },
        decreases n - i,
    {
        let c: char = s[i];
        let ghost here = s@.skip(i as int);
        if !quoted && c == '}' && depth <= 1 {
            return Some(text_of(slice_subrange(s, a, i + 1)));
        }
        let step: usize = if quoted && c == '\\' && n - i > 1 {
            2
        } else {
            1
        };
        assert(here.skip(step as int) == s@.skip(i + step));
        if !quoted && c == '{' {
            depth += 1;
        } else if !quoted && c == '}' {
            depth -= 1;
        }
        quoted = quoted != (c == '"');
        i += step;
    }
    None
}

/// The two places where a verdict is looked for in an answer: the whole text,
/// and the first object in it.
pub fn verdict_places(text: &str) -> (r: (String, Option<String>))
    ensures
        r.0@ == trimmed(text@),
        match r.1 {
            Some(t) => first_object(trimmed(text@)) == Some(t@),
            None => first_object(trimmed(text@)) is None,
        },
{
    let v = chars_of(text);
    let t = trim(v.as_slice());
    (text_of(t), object_in(t))
}

/// The verdict in an answer, from what was read at the two places: the first
/// that holds one counts. An answer with none is an error that quotes it.
pub fn parse_verdict(
    text: &str,
    whole: Option<LlmVerdict>,
    inner: Option<LlmVerdict>,
) -> (r: Result<LlmVerdict, String>)
    ensures
        match r {
            Ok(v) => whole == Some(v) || (whole is None && inner == Some(v)),
            Err(e) => whole is None && inner is None && e@ == "无法从模型输出解析裁决 JSON: "@ + trimmed(
                text@,
            ),
        },
{
    match whole {
        Some(v) => Ok(v),
        None => match inner {
            Some(v) => Ok(v),
            None => {
                let v = chars_of(text);
                let mut e: String = "无法从模型输出解析裁决 JSON: ".to_owned();
                e.append(text_of(trim(v.as_slice())).as_str());
                Err(e)
            },
        },
    }
}

/// The endpoint of a provider: the one that is set, without slashes at its end,
/// or the provider's own where none is.
pub open spec fn endpoint(base_url: Seq<char>, default_base: Seq<char>) -> Seq<char> {
    if base_url.len() == 0 {
        default_base
    } else {
        without_trailing(base_url, '/')
    }
}

/// The endpoint of a provider.
pub fn endpoint_of(base_url: &str, default_base: &str) -> (r: String)
    ensures
        r@ == endpoint(base_url@, default_base@),
{
    if chars_of(base_url).len() == 0 {
        default_base.to_owned()
    } else {
        trim_end_char(base_url, '/')
    }
}

proof fn lemma_object_length_prefix(a: Seq<char>, b: Seq<char>, depth: nat, quoted: bool)
    requires
        object_length(a, depth, quoted) is Some,
    ensures
        object_length(a + b, depth, quoted) == object_length(a, depth, quoted),
    decreases a.len(),
{
    let s = a + b;
    assert(s[0] == a[0]);
    if !(!quoted && a[0] == '}' && depth <= 1) {
        let step = characters_read(a, quoted);
        let inner = depth_after(a[0], depth, quoted);
        assert(s.skip(step) == a.skip(step) + b);
        if a.len() == 1 {
            assert(object_length(a.skip(1), inner, quoted != (a[0] == '"')) is None);
        }
        lemma_object_length_prefix(a.skip(step), b, inner, quoted != (a[0] == '"'));
    }
}

/// An object is found again in talk, whatever follows it, other objects
/// included, if no brace stands before it.
pub proof fn law_verdict_is_found_in_talk(before: Seq<char>, object: Seq<char>, after: Seq<char>)
    requires
        forall|i: int| 0 <= i < before.len() ==> before[i] != '{',
        first_object(object) == Some(object),
    ensures
        first_object(before + object + after) == Some(object),
{
    let s = before + object + after;
    let a = first_position(object, '{') as int;
    lemma_first_position_bound(object, '{');
    lemma_object_length_bound(object.skip(a), 0, false);
    assert(a == 0);
    assert(object.skip(0) == object);
    assert(object.len() > 0);
    let b = before.len() as int;
    assert(s[b] == object[0]);
    lemma_first_position(s, '{', b);
    assert(s.skip(b) == object + after);
    lemma_object_length_prefix(object, after, 0, false);
    assert(s.subrange(b, b + object.len()) =~= object);
}

} // verus!
