//! What the evaluation is for: samples are read as requests, and every sample
//! counts once, where it belongs.

use vstd::prelude::*;
use vstd::string::*;

use crate::engine::verdict::{block_threat, reasons_of, HitView, RequestSummary};
use crate::eval::sample::{
    agent_of, all_upper, body_bytes, found_from, head_bytes, headers_of, is_request_of, is_sample,
    sample_label,
};
use crate::eval::tally::{
    lemma_met_found, lemma_met_new, met, met_all, with_failure, with_finding, EntryView, Finding,
    TallyView,
};
use crate::laws::proxy::names_the_agent;
use crate::laws::text::{
    blank, lacks, law_case_is_all_that_is_ignored, law_lines, law_positions, law_words, solid,
};
use crate::text::{is_space, joined, occurs_at, text_lines, trimmed, utf8_text, words};

verus! {

/// No line of the head is empty.
pub open spec fn unbroken(head: Seq<u8>) -> bool {
    forall|i: int|
        0 <= i < head.len() && #[trigger] head[i] == 10u8 ==> i + 1 < head.len() && head[i + 1]
            != 10u8 && head[i + 1] != 13u8
}

proof fn lemma_nothing_before(b: Seq<u8>, pattern: Seq<u8>, at: nat, k: nat)
    requires
        at <= k <= b.len(),
        forall|j: int|
            at <= j < k && j + pattern.len() <= b.len() ==> #[trigger] b.subrange(
                j,
                j + pattern.len(),
            ) != pattern,
    ensures
        found_from(b, pattern, at) == found_from(b, pattern, k) || (found_from(b, pattern, at)
            is None && k + pattern.len() > b.len()),
    decreases k - at,
{
    if at < k && at + pattern.len() <= b.len() {
        assert(b.subrange(at as int, at as int + pattern.len()) != pattern);
        lemma_nothing_before(b, pattern, at + 1, k);
    }
}

proof fn lemma_found_later(b: Seq<u8>, pattern: Seq<u8>, at: nat)
    ensures
        found_from(b, pattern, at) matches Some(k) ==> k >= at,
    decreases b.len() - at,
{
    if at + pattern.len() <= b.len() && b.subrange(at as int, (at + pattern.len()) as int)
        != pattern && at < b.len() {
        lemma_found_later(b, pattern, at + 1);
    }
}

/// An empty line that ends in a line feed alone parts head and body too, and a
/// sample without an empty line is all head.
pub proof fn law_bare_line_feeds_part_head_and_body(head: Seq<u8>, body: Seq<u8>)
    requires
        unbroken(head),
    ensures
        head_bytes(head + seq![10u8, 10u8] + body) == head,
        body_bytes(head + seq![10u8, 10u8] + body) == body,
        head_bytes(head) == head,
        body_bytes(head) == Seq::<u8>::empty(),
{
    let four = seq![13u8, 10u8, 13u8, 10u8];
    let two = seq![10u8, 10u8];
    let b = head + two + body;
    let h = head.len();
    assert forall|j: int| 0 <= j < h && j + two.len() <= b.len() implies #[trigger] b.subrange(
        j,
        j + two.len(),
    ) != two by {
        assert(b.subrange(j, j + 2)[0] == head[j]);
        if head[j] == 10u8 {
            assert(b.subrange(j, j + 2)[1] == head[j + 1]);
        }
    }
    lemma_nothing_before(b, two, 0, h);
    assert(b.subrange(h as int, h as int + 2) =~= two);
    assert(found_from(b, two, 0) == Some(h));
    assert forall|j: int|
        0 <= j < h + 1 && j + four.len() <= b.len() implies #[trigger] b.subrange(
        j,
        j + four.len(),
    ) != four by {
        let part = b.subrange(j, j + 4);
        if j + 1 < h {
            assert(part[1] == head[j + 1]);
            if head[j + 1] == 10u8 {
                assert(part[2] == head[j + 2]);
            }
        } else if j + 1 == h {
            assert(part[2] == b[h as int + 1]);
        } else {
            assert(part[0] == b[h as int]);
        }
    }
    lemma_nothing_before(b, four, 0, h + 1);
    lemma_found_later(b, four, h + 1);
    assert(b.take(h as int) =~= head);
    assert(b.skip(h as int + 2) =~= body);
    assert forall|j: int|
        0 <= j < h && j + two.len() <= head.len() implies #[trigger] head.subrange(
        j,
        j + two.len(),
    ) != two by {
        assert(head.subrange(j, j + 2)[0] == head[j]);
        assert(head.subrange(j, j + 2)[1] == head[j + 1]);
    }
    assert forall|j: int|
        0 <= j < h && j + four.len() <= head.len() implies #[trigger] head.subrange(
        j,
        j + four.len(),
    ) != four by {
        assert(head.subrange(j, j + 4)[1] == head[j + 1]);
        assert(head.subrange(j, j + 4)[2] == head[j + 2]);
    }
    lemma_nothing_before(head, two, 0, h);
    lemma_nothing_before(head, four, 0, h);
    assert(found_from(head, two, h) is None);
    assert(found_from(head, four, h) is None);
}

/// Every character is an upper case ASCII letter.
pub open spec fn in_capitals(s: Seq<char>) -> bool {
    forall|i: int| 0 <= i < s.len() ==> 0x41 <= (#[trigger] s[i]) as int <= 0x5a
}

/// The text starts with `HTTP/`.
pub open spec fn is_version(s: Seq<char>) -> bool {
    s.len() >= 5 && s[0] == 'H' && s[1] == 'T' && s[2] == 'T' && s[3] == 'P' && s[4] == '/'
}

/// A file holds a request just if its first line is a method in capitals, a
/// target and a version, with white space between them; whatever stands behind
/// the version does not count. The request has that method, and what stands
/// before and after the question mark of the target as its path and its query;
/// its headers are those of the other lines.
pub proof fn law_sample_is_read(
    b: Seq<u8>,
    r: RequestSummary,
    method: Seq<char>,
    target: Seq<char>,
    version: Seq<char>,
    more: Seq<char>,
    rest: Seq<char>,
    path: Seq<char>,
    query: Seq<char>,
)
    requires
        method.len() > 0 && solid(method),
        target.len() > 0 && solid(target),
        version.len() > 0 && solid(version),
        more.len() > 0 ==> is_space(more[0]) && more.last() != '\r',
        lacks(more, '\n'),
        utf8_text(head_bytes(b)) == (method + seq![' '] + target + seq![' '] + version + more)
            + seq!['\n'] + rest,
    ensures
        is_sample(b) <==> in_capitals(method) && is_version(version),
        is_request_of(r, b) ==> {
            &&& r.method@ == method
            &&& lacks(target, '?') ==> r.path@ == target && r.query@ == Seq::<char>::empty()
            &&& lacks(path, '?') && target == path + seq!['?'] + query ==> r.path@ == path
                && r.query@ == query
            &&& r.user_agent@ == agent_of(text_lines(rest))
            &&& r.headers@ == joined(headers_of(text_lines(rest)), seq!['\n'])
        },
{
    lemma_first_line(method, target, version, more, rest);
    lemma_request_words(method, target, version, more);
    lemma_capitals(method);
    lemma_version(version);
    reveal_strlit("\n");
    assert("\n"@ =~= seq!['\n']);
    if lacks(target, '?') {
        law_positions(target, '?', Seq::empty());
    }
    if lacks(path, '?') && target == path + seq!['?'] + query {
        law_positions(path, '?', query);
        assert(target.take(path.len() as int) =~= path);
        assert(target.skip(path.len() as int + 1) =~= query);
    }
}

proof fn lemma_first_line(
    method: Seq<char>,
    target: Seq<char>,
    version: Seq<char>,
    more: Seq<char>,
    rest: Seq<char>,
)
    requires
        solid(method),
        solid(target),
        version.len() > 0 && solid(version),
        more.len() > 0 ==> more.last() != '\r',
        lacks(more, '\n'),
    ensures
        ({
            let line = method + seq![' '] + target + seq![' '] + version + more;
            let lines = text_lines(line + seq!['\n'] + rest);
            lines.len() > 0 && lines[0] == line && lines.skip(1) == text_lines(rest)
        }),
{
    let line = method + seq![' '] + target + seq![' '] + version + more;
    lemma_solid_line(method);
    lemma_solid_line(target);
    lemma_solid_line(version);
    assert(lacks(line, '\n'));
    if more.len() == 0 {
        assert(line.last() == version.last());
    } else {
        assert(line.last() == more.last());
    }
    law_lines(line, rest);
    let lines = text_lines(line + seq!['\n'] + rest);
    assert(lines[0] == line);
    assert(lines.skip(1) =~= text_lines(rest));
}

proof fn lemma_request_words(
    method: Seq<char>,
    target: Seq<char>,
    version: Seq<char>,
    more: Seq<char>,
)
    requires
        method.len() > 0 && solid(method),
        target.len() > 0 && solid(target),
        version.len() > 0 && solid(version),
        more.len() > 0 ==> is_space(more[0]),
    ensures
        ({
            let parts = words(method + seq![' '] + target + seq![' '] + version + more);
            &&& parts.len() >= 3
            &&& parts[0] == method
            &&& parts[1] == target
            &&& parts[2] == version
        }),
{
    let line = method + seq![' '] + target + seq![' '] + version + more;
    let space = seq![' '];
    assert(is_space(' '));
    assert(blank(space));
    assert(blank(Seq::<char>::empty()));
    let second = space + target + (space + version + more);
    let third = space + version + more;
    assert(second[0] == ' ');
    assert(third[0] == ' ');
    law_words(Seq::empty(), method, second);
    assert(Seq::<char>::empty() + method + second =~= line);
    law_words(space, target, third);
    law_words(space, version, more);
    assert(words(line) == seq![method] + (seq![target] + (seq![version] + words(more))));
}

proof fn lemma_capitals(s: Seq<char>)
    ensures
        all_upper(s) <==> in_capitals(s),
{
    if all_upper(s) {
        assert forall|i: int| 0 <= i < s.len() implies 0x41 <= (#[trigger] s[i]) as int
            <= 0x5a by {
            assert('A' <= s[i] <= 'Z');
        }
    }
}

proof fn lemma_version(s: Seq<char>)
    ensures
        occurs_at(s, "HTTP/"@, 0) <==> is_version(s),
{
    reveal_strlit("HTTP/");
    let h = "HTTP/"@;
    assert(h =~= seq!['H', 'T', 'T', 'P', '/']);
    if occurs_at(s, h, 0) {
        let t = s.subrange(0, 5);
        assert(t == h);
        assert(t[0] == s[0] && t[1] == s[1] && t[2] == s[2] && t[3] == s[3] && t[4] == s[4]);
    }
    if is_version(s) {
        assert(s.subrange(0, 5) =~= h);
    }
}

proof fn lemma_solid_line(s: Seq<char>)
    requires
        solid(s),
    ensures
        lacks(s, '\n'),
        s.len() > 0 ==> s.last() != '\r',
{
    assert(is_space('\n'));
    assert(is_space('\r'));
    assert forall|i: int| 0 <= i < s.len() implies s[i] != '\n' by {
        assert(!is_space(s[i]));
    }
    if s.len() > 0 {
        assert(!is_space(s[s.len() - 1]));
    }
}

/// A header is what stands before and after the first colon of a line, without
/// the white space around it. The last User-Agent is the user agent, every other
/// header has its line `name: value`, and a line without a colon is none.
pub proof fn law_header_lines_are_read(lines: Seq<Seq<char>>, name: Seq<char>, value: Seq<char>)
    requires
        lacks(name, ':'),
    ensures
        ({
            let more = lines.push(name + seq![':'] + value);
            if names_the_agent(trimmed(name)) {
                agent_of(more) == trimmed(value) && headers_of(more) == headers_of(lines)
            } else {
                agent_of(more) == agent_of(lines) && headers_of(more) == headers_of(lines).push(
                    trimmed(name) + seq![':', ' '] + trimmed(value),
                )
            }
        }),
        agent_of(lines.push(name)) == agent_of(lines),
        headers_of(lines.push(name)) == headers_of(lines),
        agent_of(Seq::empty()) == Seq::<char>::empty(),
        headers_of(Seq::empty()) == Seq::<Seq<char>>::empty(),
{
    let line = name + seq![':'] + value;
    law_positions(name, ':', value);
    law_positions(name, ':', Seq::empty());
    assert(line.take(name.len() as int) =~= name);
    assert(line.skip(name.len() as int + 1) =~= value);
    assert(lines.push(line).drop_last() =~= lines);
    assert(lines.push(name).drop_last() =~= lines);
    reveal_strlit("user-agent");
    reveal_strlit(": ");
    assert(": "@ =~= seq![':', ' ']);
    assert("user-agent"@ =~= seq!['u', 's', 'e', 'r', '-', 'a', 'g', 'e', 'n', 't']);
    law_case_is_all_that_is_ignored(trimmed(name), "user-agent"@);
}

/// The body of a sample is what stands behind the empty line, of it the first
/// 16384 bytes, and nobody is known to have sent it.
pub proof fn law_body_of_a_sample(b: Seq<u8>, r: RequestSummary)
    requires
        is_request_of(r, b),
    ensures
        body_bytes(b).len() <= 16_384 ==> r.body@ == utf8_text(body_bytes(b)),
        body_bytes(b).len() > 16_384 ==> r.body@ == utf8_text(body_bytes(b).subrange(0, 16_384)),
        r.client_ip@ == "0.0.0.0"@,
{
}

/// Just files with the extension `black` are attacks, and just those with the
/// extension `white` normal requests.
pub proof fn law_labels(extension: Seq<char>)
    ensures
        sample_label(extension) == Some(true) <==> extension == "black"@,
        sample_label(extension) == Some(false) <==> extension == "white"@,
        extension != "black"@ && extension != "white"@ ==> sample_label(extension) is None,
{
    reveal_strlit("black");
    reveal_strlit("white");
    assert("black"@[0] != "white"@[0]);
}

/// The entry of what is met counts one more, wherever it stands, and the others
/// stay; what is met for the first time gets an entry at the end.
pub proof fn law_meeting(
    before: Seq<EntryView>,
    count: u32,
    after: Seq<EntryView>,
    category: Seq<char>,
    pattern: Seq<char>,
)
    requires
        count < u32::MAX,
        forall|i: int|
            0 <= i < before.len() ==> (#[trigger] before[i]).category != category
                || before[i].pattern != pattern,
    ensures
        met(before.push(EntryView { category, pattern, count }) + after, category, pattern)
            == before.push(EntryView { category, pattern, count: (count + 1) as u32 }) + after,
        met(before, category, pattern) == before.push(EntryView { category, pattern, count: 1 }),
{
    let all = before.push(EntryView { category, pattern, count }) + after;
    let k = before.len() as int;
    assert(all[k] == (EntryView { category, pattern, count }));
    assert forall|j: int| 0 <= j < k implies (#[trigger] all[j]) == before[j] by {}
    lemma_met_found(all, category, pattern, k);
    lemma_met_new(before, category, pattern);
    assert(all.update(k, EntryView { category, pattern, count: (count + 1) as u32 })
        =~= before.push(EntryView { category, pattern, count: (count + 1) as u32 }) + after);
}

/// All hits are met, one after the other.
pub proof fn law_meeting_all(entries: Seq<EntryView>, hits: Seq<HitView>, h: HitView)
    ensures
        met_all(entries, Seq::empty()) == entries,
        met_all(entries, hits.push(h)) == met(met_all(entries, hits), h.category, h.pattern),
{
    assert(hits.push(h).drop_last() =~= hits);
}

/// A sample counts under its label and its verdict and nowhere else; what the
/// classifier alone finds counts besides.
pub proof fn law_sample_counts_where_it_belongs(t: TallyView, f: Finding)
    requires
        t.stats.black_block < u32::MAX,
        t.stats.black_susp < u32::MAX,
        t.stats.black_allow < u32::MAX,
        t.stats.white_block < u32::MAX,
        t.stats.white_susp < u32::MAX,
        t.stats.white_allow < u32::MAX,
        t.stats.ngram_elevated_black < u32::MAX,
        t.stats.ngram_elevated_white < u32::MAX,
    ensures
        ({
            let a = t.stats;
            let b = with_finding(t, f).stats;
            let black = f.is_black;
            let found = f.verdict is Allow && f.alarm;
            &&& b.black_block == a.black_block + one(black && f.verdict is Block)
            &&& b.black_susp == a.black_susp + one(black && f.verdict is Suspicious)
            &&& b.black_allow == a.black_allow + one(black && f.verdict is Allow)
            &&& b.white_block == a.white_block + one(!black && f.verdict is Block)
            &&& b.white_susp == a.white_susp + one(!black && f.verdict is Suspicious)
            &&& b.white_allow == a.white_allow + one(!black && f.verdict is Allow)
            &&& b.ngram_elevated_black == a.ngram_elevated_black + one(black && found)
            &&& b.ngram_elevated_white == a.ngram_elevated_white + one(!black && found)
            &&& b.parse_failed == a.parse_failed
        }),
{
}

/// One if it is so, else none.
pub open spec fn one(b: bool) -> int {
    if b {
        1
    } else {
        0
    }
}

/// Every attack that is let through is kept as missed, every normal request that
/// is blocked as a false alarm with all its reasons, and every sample that is
/// suspicious, by the rules or by the classifier alone, for the model; the rules
/// that hit normal requests and the threats of the attacks found are counted.
pub proof fn law_sample_is_kept_where_it_belongs(t: TallyView, f: Finding)
    ensures
        ({
            let u = with_finding(t, f);
            let hits = f.det.hits;
            &&& u.missed == if f.is_black && f.verdict is Allow {
                t.missed.push((f.path, f.det.score))
            } else {
                t.missed
            }
            &&& u.alarms == if !f.is_black && f.verdict is Block {
                t.alarms.push(
                    (
                        f.path,
                        f.det.score,
                        joined(
                            Seq::new(
                                hits.len(),
                                |i: int| hits[i].category + ": "@ + hits[i].pattern,
                            ),
                            seq![';', ' '],
                        ),
                    ),
                )
            } else {
                t.alarms
            }
            &&& u.gray == if f.verdict is Suspicious || (f.verdict is Allow && f.alarm) {
                t.gray.push((f.path, f.is_black, f.summary))
            } else {
                t.gray
            }
            &&& u.white_hits == if f.is_black {
                t.white_hits
            } else {
                met_all(t.white_hits, hits)
            }
            &&& u.threats == if f.is_black && !(f.verdict is Allow) {
                met(t.threats, block_threat(hits), Seq::empty())
            } else {
                t.threats
            }
        }),
{
    reveal_strlit("; ");
    assert("; "@ =~= seq![';', ' ']);
    let hits = f.det.hits;
    assert(reasons_of(hits) =~= Seq::new(
        hits.len(),
        |i: int| hits[i].category + ": "@ + hits[i].pattern,
    ));
}

/// A file that holds no request counts as one, and as nothing else.
pub proof fn law_failure_counts(t: TallyView)
    requires
        t.stats.parse_failed < u32::MAX,
    ensures
        with_failure(t).stats.parse_failed == t.stats.parse_failed + 1,
        with_failure(t) == (TallyView {
            stats: crate::eval::tally::Stats {
                parse_failed: (t.stats.parse_failed + 1) as u32,
                ..t.stats
            },
            ..t
        }),
{
}

/// The first line of a file decides whether it holds a request, however its lines
/// end: by its first three words. What else stands in the line does not count,
/// and the headers are those of the other lines.
pub proof fn law_first_line_decides(
    b: Seq<u8>,
    r: RequestSummary,
    line: Seq<char>,
    lines: Seq<Seq<char>>,
)
    ensures
        text_lines(utf8_text(head_bytes(b))).len() == 0 ==> !is_sample(b),
        text_lines(utf8_text(head_bytes(b))) == seq![line] + lines ==> {
            &&& is_sample(b) <==> words(line).len() >= 3 && in_capitals(words(line)[0])
                && is_version(words(line)[2])
            &&& is_request_of(r, b) ==> {
                &&& r.method@ == words(line)[0]
                &&& lacks(words(line)[1], '?') ==> r.path@ == words(line)[1] && r.query@
                    == Seq::<char>::empty()
                &&& r.user_agent@ == agent_of(lines)
                &&& r.headers@ == joined(headers_of(lines), seq!['\n'])
            }
        },
{
    let all = seq![line] + lines;
    assert(all[0] == line);
    assert(all.skip(1) =~= lines);
    lemma_capitals(words(line)[0]);
    lemma_version(words(line)[2]);
    reveal_strlit("\n");
    assert("\n"@ =~= seq!['\n']);
    if lacks(words(line)[1], '?') {
        law_positions(words(line)[1], '?', Seq::empty());
    }
}

} // verus!
