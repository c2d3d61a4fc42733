//! What the adjudication is for: a request is blocked just if the model says so,
//! whatever else it says, and a model that fails decides nothing.

use vstd::prelude::*;
use vstd::string::*;

use crate::engine::llm::provider::{
    characters_read, depth_after, endpoint, first_object, object_length, says_block, user_content,
    LlmVerdict,
};
use crate::engine::llm::{decided, degraded, key_of, remembered, to_remember, DecisionView, Reply};
use crate::engine::verdict::RequestSummary;
use crate::laws::text::{lacks, law_case_is_all_that_is_ignored, same_letters};
use crate::text::{at_most, lemma_first_position, without_trailing};

verus! {

/// The first `n` characters of a text, or all where there are fewer.
pub open spec fn start(s: Seq<char>, n: int) -> Seq<char> {
    if s.len() <= n {
        s
    } else {
        s.subrange(0, n)
    }
}

/// A verdict is to block just if its field reads `block`, whatever the case.
pub proof fn law_verdict_is_its_word(v: LlmVerdict)
    ensures
        says_block(v) <==> same_letters(v.verdict@, seq!['b', 'l', 'o', 'c', 'k']),
{
    reveal_strlit("block");
    assert("block"@ =~= seq!['b', 'l', 'o', 'c', 'k']);
    law_case_is_all_that_is_ignored(v.verdict@, "block"@);
}

/// Verdicts with the same word, case ignored, are judged the same, whatever they
/// say of the threat, how sure the model is, and why.
pub proof fn law_only_the_word_counts(a: LlmVerdict, b: LlmVerdict)
    requires
        same_letters(a.verdict@, b.verdict@),
    ensures
        says_block(a) == says_block(b),
{
    law_case_is_all_that_is_ignored(a.verdict@, b.verdict@);
}

/// A verdict whose word is `block` blocks the request, and one with another word
/// does not, in either mode; the same is remembered for the requests that share
/// its features. The decision tells what the model gave.
pub proof fn law_word_is_carried_out(name: Seq<char>, fail_open: bool, v: LlmVerdict)
    ensures
        ({
            let blocks = same_letters(v.verdict@, seq!['b', 'l', 'o', 'c', 'k']);
            let d = decided(name, fail_open, Reply::Answered(v));
            &&& d.block == blocks
            &&& to_remember(Reply::Answered(v)) == Some(blocks)
            &&& d.threat == v.threat_type@
            &&& d.analysis == v.analysis@
            &&& d.reason == v.reason@ + " (置信度 "@ + v.confidence@ + ")"@
            &&& d.source == "llm:"@ + name
        }),
{
    law_verdict_is_its_word(v);
}

/// A model that fails or is late blocks just if failures are to block. Nothing of
/// it is remembered, and the decision tells what went wrong.
pub proof fn law_failure_is_told(name: Seq<char>, fail_open: bool, e: String)
    ensures
        decided(name, fail_open, Reply::Failed(e)) == (DecisionView {
            block: !fail_open,
            threat: "unknown"@,
            reason: "error: "@ + e@,
            source: "llm:"@ + name + "(fail)"@,
            analysis: Seq::empty(),
        }),
        decided(name, fail_open, Reply::TimedOut) == (DecisionView {
            block: !fail_open,
            threat: "unknown"@,
            reason: "timeout"@,
            source: "llm:"@ + name + "(fail)"@,
            analysis: Seq::empty(),
        }),
        to_remember(Reply::Failed(e)) is None,
        to_remember(Reply::TimedOut) is None,
{
}

/// A remembered verdict decides as it did at first, and says that it is one.
pub proof fn law_memory_is_told(name: Seq<char>, block: bool)
    ensures
        remembered(name, block) == (DecisionView {
            block,
            threat: if block {
                "cached"@
            } else {
                "none"@
            },
            reason: "cached verdict"@,
            source: "llm:"@ + name + "(cached)"@,
            analysis: Seq::empty(),
        }),
{
}

/// A remembered verdict is found by the method, the path, the query, the user
/// agent and the first 512 characters of the headers and of the body.
pub proof fn law_key_holds_the_features(s: RequestSummary)
    ensures
        key_of(s) == s.method@ + seq!['|'] + s.path@ + seq!['|'] + s.query@ + seq!['|']
            + s.user_agent@ + seq!['|'] + start(s.headers@, 512) + seq!['|'] + start(s.body@, 512),
{
    reveal_strlit("|");
    assert("|"@ =~= seq!['|']);
    assert(at_most(s.headers@, 512) =~= start(s.headers@, 512));
    assert(at_most(s.body@, 512) =~= start(s.body@, 512));
}

/// The model is shown every feature of a request: the first 800 characters of the
/// headers and the first 1000 of the body, and all of the others.
pub proof fn law_model_is_shown_the_request(s: RequestSummary)
    ensures
        user_content(s) == "HTTP request to evaluate:\nmethod: "@ + s.method@ + "\npath: "@
            + s.path@ + "\nquery: "@ + s.query@ + "\nuser_agent: "@ + s.user_agent@
            + "\nheaders (may be truncated): "@ + start(s.headers@, 800) + "\nclient_ip: "@
            + s.client_ip@ + "\nbody (may be truncated): "@ + start(s.body@, 1000),
{
    assert(at_most(s.headers@, 800) =~= start(s.headers@, 800));
    assert(at_most(s.body@, 1000) =~= start(s.body@, 1000));
}

/// An endpoint that is set is taken without the slashes at its end, whatever
/// their number; where none is set, the provider's own is.
pub proof fn law_endpoint(base: Seq<char>, own: Seq<char>, slashes: nat)
    requires
        base.len() > 0,
        base.last() != '/',
    ensures
        endpoint(Seq::empty(), own) == own,
        endpoint(base + Seq::new(slashes, |i: int| '/'), own) == base,
{
    lemma_slashes(base, slashes);
}

proof fn lemma_slashes(base: Seq<char>, slashes: nat)
    requires
        base.len() > 0,
        base.last() != '/',
    ensures
        without_trailing(base + Seq::new(slashes, |i: int| '/'), '/') == base,
    decreases slashes,
{
    let s = base + Seq::new(slashes, |i: int| '/');
    if slashes > 0 {
        let fewer = base + Seq::new((slashes - 1) as nat, |i: int| '/');
        assert(s.last() == '/');
        assert(s.drop_last() =~= fewer);
        lemma_slashes(base, (slashes - 1) as nat);
    } else {
        assert(s =~= base);
    }
}

/// No brace stands in the text, no quotation mark and no backslash.
pub open spec fn plain(s: Seq<char>) -> bool {
    forall|i: int|
        0 <= i < s.len() ==> (#[trigger] s[i]) != '{' && s[i] != '}' && s[i] != '"' && s[i] != '\\'
}

/// No quotation mark stands in the text and no backslash.
pub open spec fn unquoted(s: Seq<char>) -> bool {
    forall|i: int| 0 <= i < s.len() ==> (#[trigger] s[i]) != '"' && s[i] != '\\'
}

/// A text without an opening brace holds no object.
pub proof fn law_no_brace_no_object(s: Seq<char>)
    requires
        lacks(s, '{'),
    ensures
        first_object(s) is None,
{
    lemma_first_position(s, '{', s.len() as int);
    assert(s.skip(s.len() as int).len() == 0);
}

/// How much is read of a text that leaves the depth as it is.
proof fn lemma_plain_is_passed(s: Seq<char>, rest: Seq<char>, depth: nat)
    requires
        plain(s),
    ensures
        object_length(s + rest, depth, false) == match object_length(rest, depth, false) {
            Some(n) => Some((n + s.len()) as nat),
            None => None,
        },
    decreases s.len(),
{
    if s.len() > 0 {
        lemma_plain_is_passed(s.skip(1), rest, depth);
        assert((s + rest).skip(1) =~= s.skip(1) + rest);
        assert((s + rest)[0] == s[0]);
    } else {
        assert(s + rest =~= rest);
    }
}

proof fn lemma_quoted_is_passed(s: Seq<char>, rest: Seq<char>, depth: nat)
    requires
        unquoted(s),
    ensures
        object_length(s + seq!['"'] + rest, depth, true) == match object_length(rest, depth, false) {
            Some(n) => Some((n + s.len() + 1) as nat),
            None => None,
        },
    decreases s.len(),
{
    let all = s + seq!['"'] + rest;
    if s.len() > 0 {
        lemma_quoted_is_passed(s.skip(1), rest, depth);
        assert(all.skip(1) =~= s.skip(1) + seq!['"'] + rest);
        assert(all[0] == s[0]);
    } else {
        assert(all[0] == '"');
        assert(all.skip(1) =~= rest);
    }
}

/// A brace in a string does not close an object: the first object of a text goes
/// from its first brace over its strings to the brace that closes it.
pub proof fn law_braces_in_strings_do_not_count(
    before: Seq<char>,
    a: Seq<char>,
    string: Seq<char>,
    b: Seq<char>,
    after: Seq<char>,
)
    requires
        lacks(before, '{'),
        plain(a),
        unquoted(string),
        plain(b),
    ensures
        first_object(
            before + (seq!['{'] + a + seq!['"'] + string + seq!['"'] + b + seq!['}']) + after,
        ) == Some(seq!['{'] + a + seq!['"'] + string + seq!['"'] + b + seq!['}']),
{
    let object = seq!['{'] + a + seq!['"'] + string + seq!['"'] + b + seq!['}'];
    let s = before + object + after;
    let k = before.len() as int;
    assert(s[k] == '{');
    lemma_first_position(s, '{', k);
    let closing = seq!['}'] + after;
    assert(closing[0] == '}');
    assert(object_length(closing, 1, false) == Some(1nat));
    lemma_plain_is_passed(b, closing, 1);
    lemma_quoted_is_passed(string, b + closing, 1);
    let quoted = string + seq!['"'] + (b + closing);
    let from = seq!['"'] + quoted;
    assert(from[0] == '"');
    assert(from.skip(1) =~= quoted);
    lemma_plain_is_passed(a, from, 1);
    let opened = s.skip(k);
    assert(opened =~= seq!['{'] + (a + from));
    assert(opened[0] == '{');
    assert(opened.skip(1) =~= a + from);
    assert(object_length(opened, 0, false) == Some(object.len()));
    assert(s.subrange(k, k + object.len()) =~= object);
}

/// An object inside an object belongs to it: the first object of a text goes on
/// behind the brace that closes the inner one.
pub proof fn law_inner_objects_belong_to_the_outer(
    before: Seq<char>,
    a: Seq<char>,
    inner: Seq<char>,
    b: Seq<char>,
    after: Seq<char>,
)
    requires
        lacks(before, '{'),
        plain(a),
        plain(inner),
        plain(b),
    ensures
        first_object(
            before + (seq!['{'] + a + seq!['{'] + inner + seq!['}'] + b + seq!['}']) + after,
        ) == Some(seq!['{'] + a + seq!['{'] + inner + seq!['}'] + b + seq!['}']),
{
    let object = seq!['{'] + a + seq!['{'] + inner + seq!['}'] + b + seq!['}'];
    let s = before + object + after;
    let k = before.len() as int;
    assert(s[k] == '{');
    lemma_first_position(s, '{', k);
    let closing = seq!['}'] + after;
    assert(closing[0] == '}');
    assert(object_length(closing, 1, false) == Some(1nat));
    lemma_plain_is_passed(b, closing, 1);
    let closed = seq!['}'] + (b + closing);
    assert(closed[0] == '}');
    assert(closed.skip(1) =~= b + closing);
    lemma_plain_is_passed(inner, closed, 2);
    let from = seq!['{'] + (inner + closed);
    assert(from[0] == '{');
    assert(from.skip(1) =~= inner + closed);
    lemma_plain_is_passed(a, from, 1);
    let opened = s.skip(k);
    assert(opened =~= seq!['{'] + (a + from));
    assert(opened[0] == '{');
    assert(opened.skip(1) =~= a + from);
    assert(object_length(opened, 0, false) == Some(object.len()));
    assert(s.subrange(k, k + object.len()) =~= object);
}

/// In a string a backslash takes the character after it along, so that a quoted
/// quotation mark does not end the string.
pub proof fn law_backslash_takes_the_next_along(c: char, rest: Seq<char>, depth: nat)
    ensures
        object_length(seq!['\\', c] + rest, depth, true) == match object_length(
            rest,
            depth,
            true,
        ) {
            Some(n) => Some((n + 2) as nat),
            None => None,
        },
{
    let s = seq!['\\', c] + rest;
    assert(s[0] == '\\');
    assert(s.skip(2) =~= rest);
}

/// Where the model failed the mode alone decides, whatever the reason.
pub proof fn law_failures_are_decided_by_the_mode(
    name: Seq<char>,
    fail_open: bool,
    reason: Seq<char>,
)
    ensures
        degraded(name, fail_open, reason) == (DecisionView {
            block: !fail_open,
            threat: "unknown"@,
            reason,
            source: "llm:"@ + name + "(fail)"@,
            analysis: Seq::empty(),
        }),
{
}

/// The length of an object, character by character: outside strings a brace opens
/// or closes an object, the one that closes the outermost ends it, and a
/// quotation mark opens a string; in a string all but a quotation mark and a
/// backslash is passed over. A text that ends too early holds no object.
pub proof fn law_objects_are_balanced(c: char, rest: Seq<char>, depth: nat, quoted: bool)
    ensures
        object_length(Seq::empty(), depth, quoted) is None,
        depth <= 1 ==> object_length(seq!['}'] + rest, depth, false) == Some(1nat),
        depth > 1 ==> object_length(seq!['}'] + rest, depth, false) == longer(
            object_length(rest, (depth - 1) as nat, false),
        ),
        object_length(seq!['{'] + rest, depth, false) == longer(
            object_length(rest, depth + 1, false),
        ),
        object_length(seq!['"'] + rest, depth, quoted) == longer(
            object_length(rest, depth, !quoted),
        ),
        c != '{' && c != '}' && c != '"' ==> object_length(seq![c] + rest, depth, false) == longer(
            object_length(rest, depth, false),
        ),
        c != '"' && c != '\\' ==> object_length(seq![c] + rest, depth, true) == longer(
            object_length(rest, depth, true),
        ),
        object_length(seq!['\\'], depth, true) is None,
{
    let a = seq!['}'] + rest;
    let b = seq!['{'] + rest;
    let q = seq!['"'] + rest;
    let s = seq![c] + rest;
    let e = seq!['\\'];
    assert(a[0] == '}' && a.skip(1) =~= rest);
    assert(b[0] == '{' && b.skip(1) =~= rest);
    assert(q[0] == '"' && q.skip(1) =~= rest);
    assert(s[0] == c && s.skip(1) =~= rest);
    assert(e.skip(1).len() == 0);
    assert(object_length(e.skip(1), depth, true) is None);
}

/// The length with one character more, where there is one.
pub open spec fn longer(n: Option<nat>) -> Option<nat> {
    match n {
        Some(k) => Some(k + 1),
        None => None,
    }
}

/// The first object of a text starts at its first brace and is as long as it is
/// balanced.
pub proof fn law_first_object(before: Seq<char>, rest: Seq<char>)
    requires
        lacks(before, '{'),
    ensures
        match object_length(seq!['{'] + rest, 0, false) {
            Some(n) => n <= rest.len() + 1 && first_object(before + seq!['{'] + rest) == Some(
                (seq!['{'] + rest).take(n as int),
            ),
            None => first_object(before + seq!['{'] + rest) is None,
        },
{
    let s = before + seq!['{'] + rest;
    let k = before.len() as int;
    assert(s[k] == '{');
    lemma_first_position(s, '{', k);
    assert(s.skip(k) =~= seq!['{'] + rest);
    lemma_no_longer_than_the_text(seq!['{'] + rest, 0, false);
    if let Some(n) = object_length(seq!['{'] + rest, 0, false) {
        assert(s.subrange(k, k + n) =~= (seq!['{'] + rest).take(n as int));
    }
}

proof fn lemma_no_longer_than_the_text(s: Seq<char>, depth: nat, quoted: bool)
    ensures
        object_length(s, depth, quoted) matches Some(n) ==> n <= s.len(),
    decreases s.len(),
{
    if s.len() > 0 {
        lemma_no_longer_than_the_text(
            s.skip(characters_read(s, quoted)),
            depth_after(s[0], depth, quoted),
            quoted != (s[0] == '"'),
        );
    }
}

} // verus!
