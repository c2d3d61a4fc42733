//! What the summary of a request and its way through the proxy are for: nothing
//! that the detection should see is left out, and a client is known by the
//! address that it comes from.

use vstd::prelude::*;
use vstd::string::*;

use crate::engine::table::{LITERAL_RULES, SCANNER_UA};
use crate::engine::verdict::{HitView, RequestSummary};
use crate::laws::rules::{
    hits_in, law_literal_is_hit_wherever_it_stands, law_scanner_is_hit_wherever_its_name_stands,
    whole,
};
use crate::laws::text::{
    law_case_is_all_that_is_ignored, law_every_part_is_joined, law_occurrence_is_anywhere,
    same_letters,
};
use crate::proxy::{
    agent_in, client_of, goes_to_client, goes_to_origin, header_lines, hop_by_hop, inspected_body,
    origin_url,
};
use crate::text::{ascii_lower_text, joined, occurs, occurs_at, same_ignoring_case};

verus! {

/// The name is User-Agent, whatever the case.
pub open spec fn names_the_agent(name: Seq<char>) -> bool {
    same_letters(name, seq!['u', 's', 'e', 'r', '-', 'a', 'g', 'e', 'n', 't'])
}

/// The number of the headers that are not User-Agent.
pub open spec fn others(headers: Seq<(Seq<char>, Seq<char>)>) -> nat
    decreases headers.len(),
{
    if headers.len() == 0 {
        0
    } else if names_the_agent(headers.last().0) {
        others(headers.drop_last())
    } else {
        others(headers.drop_last()) + 1
    }
}

proof fn lemma_agent_name(name: Seq<char>)
    ensures
        same_ignoring_case(name, "user-agent"@) <==> names_the_agent(name),
{
    reveal_strlit("user-agent");
    assert("user-agent"@ =~= seq!['u', 's', 'e', 'r', '-', 'a', 'g', 'e', 'n', 't']);
    law_case_is_all_that_is_ignored(name, "user-agent"@);
}

/// Every header whose name is not User-Agent has its line `name: value`, at the
/// place that it has among those headers; there are no other lines.
pub proof fn law_every_header_has_its_line(headers: Seq<(Seq<char>, Seq<char>)>, i: int)
    requires
        0 <= i < headers.len(),
    ensures
        header_lines(headers).len() == others(headers),
        !names_the_agent(headers[i].0) ==> {
            &&& others(headers.take(i)) < others(headers)
            &&& header_lines(headers)[others(headers.take(i)) as int] == headers[i].0 + seq![
                ':',
                ' ',
            ] + headers[i].1
        },
    decreases headers.len(),
{
    reveal_strlit(": ");
    assert(": "@ =~= seq![':', ' ']);
    let front = headers.drop_last();
    lemma_agent_name(headers.last().0);
    lemma_line_count(front);
    if i < front.len() {
        law_every_header_has_its_line(front, i);
        assert(front[i] == headers[i]);
        assert(front.take(i) =~= headers.take(i));
    } else {
        assert(headers.take(i) =~= front);
    }
}

proof fn lemma_line_count(headers: Seq<(Seq<char>, Seq<char>)>)
    ensures
        header_lines(headers).len() == others(headers),
    decreases headers.len(),
{
    if headers.len() > 0 {
        lemma_line_count(headers.drop_last());
        lemma_agent_name(headers.last().0);
    }
}

/// Lines stand in the order of their headers.
pub proof fn law_lines_are_in_order(headers: Seq<(Seq<char>, Seq<char>)>, i: int, j: int)
    requires
        0 <= i < j < headers.len(),
        !names_the_agent(headers[i].0),
    ensures
        others(headers.take(i)) < others(headers.take(j)),
    decreases j,
{
    let front = headers.take(j);
    assert(front.drop_last() =~= headers.take(j - 1));
    if i < j - 1 {
        law_lines_are_in_order(headers, i, j - 1);
    } else {
        assert(headers.take(j - 1) =~= headers.take(i));
        assert(front.last() == headers[i]);
    }
}

/// What stands in the value of a header stands in the text that is inspected:
/// the name, the value and every part of it.
pub proof fn law_every_value_is_inspected(
    headers: Seq<(Seq<char>, Seq<char>)>,
    i: int,
    req: RequestSummary,
    before: Seq<char>,
    part: Seq<char>,
    after: Seq<char>,
)
    requires
        0 <= i < headers.len(),
        !names_the_agent(headers[i].0),
        headers[i].1 == before + part + after,
        req.headers@ == joined(header_lines(headers), "\n"@),
    ensures
        occurs(req.headers@, headers[i].0 + seq![':', ' '] + headers[i].1),
        occurs(req.headers@, part),
        occurs(whole(req), part),
{
    let line = headers[i].0 + seq![':', ' '] + headers[i].1;
    let lines = header_lines(headers);
    law_every_header_has_its_line(headers, i);
    law_every_part_is_joined(lines, "\n"@, others(headers.take(i)) as int);
    let text = req.headers@;
    assert(occurs(text, line));
    let at = choose|at: int| 0 <= at <= text.len() && #[trigger] occurs_at(text, line, at);
    let lead = headers[i].0 + seq![':', ' '] + before;
    let k = at + lead.len();
    assert(text.subrange(at, at + line.len()) =~= line);
    assert forall|j: int| 0 <= j < part.len() implies (#[trigger] part[j]) == text[k + j] by {
        assert(line[lead.len() + j] == part[j]);
        assert(text.subrange(at, at + line.len())[lead.len() + j] == text[k + j]);
    }
    assert(text.subrange(k, k + part.len()) =~= part);
    assert(text =~= text.subrange(0, k) + part + text.subrange(
        k + part.len(),
        text.len() as int,
    ));
    let head = text.subrange(0, k);
    let tail = text.subrange(k + part.len(), text.len() as int);
    lemma_inside(text, head, part, tail);
    let lead2 = req.path@ + seq![' '] + req.query@ + seq![' '] + req.body@ + seq![' '] + head;
    assert(whole(req) =~= lead2 + part + tail);
    lemma_inside(whole(req), lead2, part, tail);
}

proof fn lemma_inside(s: Seq<char>, before: Seq<char>, part: Seq<char>, after: Seq<char>)
    requires
        s == before + part + after,
    ensures
        occurs(s, part),
{
    assert(s.subrange(before.len() as int, (before.len() + part.len()) as int) =~= part);
    law_occurrence_is_anywhere(s, part);
    assert(occurs_at(s, part, before.len() as int));
}

/// The user agent is the value of the last header of that name, whatever its
/// case, and nothing where there is none.
pub proof fn law_agent_is_the_last_one(
    before: Seq<(Seq<char>, Seq<char>)>,
    agent: (Seq<char>, Seq<char>),
    after: Seq<(Seq<char>, Seq<char>)>,
)
    requires
        forall|i: int| 0 <= i < after.len() ==> !names_the_agent((#[trigger] after[i]).0),
    ensures
        agent_in(after) == Seq::<char>::empty(),
        names_the_agent(agent.0) ==> agent_in(before.push(agent) + after) == agent.1,
    decreases after.len(),
{
    let all = before.push(agent) + after;
    lemma_agent_name(agent.0);
    if after.len() == 0 {
        assert(all =~= before.push(agent));
        assert(all.last() == agent);
    } else {
        lemma_agent_name(after.last().0);
        assert(after.last() == after[after.len() - 1]);
        let fewer = after.drop_last();
        assert forall|i: int| 0 <= i < fewer.len() implies !names_the_agent(
            (#[trigger] fewer[i]).0,
        ) by {
            assert(fewer[i] == after[i]);
        }
        law_agent_is_the_last_one(before, agent, fewer);
        assert(all.drop_last() =~= before.push(agent) + fewer);
        assert(all.last() == after.last());
    }
}

/// An attack in the value of a header is hit, whatever the name of the header
/// and whatever stands around it, unless the header is User-Agent: a literal of
/// the table in any case of its letters, if its category is in use.
pub proof fn law_attack_in_a_header_is_hit(
    headers: Seq<(Seq<char>, Seq<char>)>,
    i: int,
    req: RequestSummary,
    disabled: Seq<Seq<char>>,
    k: int,
    before: Seq<char>,
    written: Seq<char>,
    after: Seq<char>,
)
    requires
        0 <= i < headers.len(),
        !names_the_agent(headers[i].0),
        headers[i].1 == before + written + after,
        req.headers@ == joined(header_lines(headers), "\n"@),
        0 <= k < LITERAL_RULES@.len(),
        !disabled.contains(LITERAL_RULES@[k].1@),
        same_letters(written, LITERAL_RULES@[k].0@),
    ensures
        exists|n: int|
            {
                &&& 0 <= n < hits_in(req, disabled).len()
                &&& (#[trigger] hits_in(req, disabled)[n]).category == LITERAL_RULES@[k].1@
                &&& hits_in(req, disabled)[n].pattern == LITERAL_RULES@[k].0@
            },
{
    law_every_value_is_inspected(headers, i, req, before, written, after);
    let text = whole(req);
    let at = choose|at: int| 0 <= at <= text.len() && #[trigger] occurs_at(text, written, at);
    let lead = text.subrange(0, at);
    let tail = text.subrange(at + written.len(), text.len() as int);
    assert(text.subrange(at, at + written.len()) == written);
    assert(text =~= lead + text.subrange(at, at + written.len()) + tail);
    law_literal_is_hit_wherever_it_stands(disabled, req, k, 0, lead, written, tail);
}

/// A scanner that names itself in the last User-Agent header is hit, whatever the
/// case of that name and of its own, and whatever stands around it.
pub proof fn law_scanner_in_the_agent_is_hit(
    first: Seq<(Seq<char>, Seq<char>)>,
    agent: (Seq<char>, Seq<char>),
    last: Seq<(Seq<char>, Seq<char>)>,
    req: RequestSummary,
    disabled: Seq<Seq<char>>,
    k: int,
    before: Seq<char>,
    written: Seq<char>,
    after: Seq<char>,
)
    requires
        names_the_agent(agent.0),
        forall|i: int| 0 <= i < last.len() ==> !names_the_agent((#[trigger] last[i]).0),
        agent.1 == before + written + after,
        req.user_agent@ == agent_in(first.push(agent) + last),
        0 <= k < SCANNER_UA@.len(),
        !disabled.contains("Scanner"@),
        same_letters(written, SCANNER_UA@[k].0@),
    ensures
        exists|n: int|
            {
                &&& 0 <= n < hits_in(req, disabled).len()
                &&& (#[trigger] hits_in(req, disabled)[n]) == (HitView {
                    category: "Scanner"@,
                    pattern: SCANNER_UA@[k].0@,
                    score: SCANNER_UA@[k].1,
                })
            },
{
    law_agent_is_the_last_one(first, agent, last);
    law_scanner_is_hit_wherever_its_name_stands(disabled, req, k, before, written, after);
}

/// The name is that of a header that concerns one connection only, whatever the
/// case.
pub open spec fn names_the_connection(name: Seq<char>) -> bool {
    ||| same_letters(name, "connection"@)
    ||| same_letters(name, "keep-alive"@)
    ||| same_letters(name, "proxy-authenticate"@)
    ||| same_letters(name, "proxy-authorization"@)
    ||| same_letters(name, "te"@)
    ||| same_letters(name, "trailer"@)
    ||| same_letters(name, "transfer-encoding"@)
    ||| same_letters(name, "upgrade"@)
}

proof fn lemma_lower(name: Seq<char>, lower: Seq<char>)
    requires
        forall|i: int| 0 <= i < lower.len() ==> !(0x41 <= (#[trigger] lower[i]) as int <= 0x5a),
    ensures
        ascii_lower_text(name) == lower <==> same_letters(name, lower),
{
    law_case_is_all_that_is_ignored(name, lower);
    assert(ascii_lower_text(lower) =~= lower);
}

/// Every header goes on but those that concern one connection, the length, and on
/// the way to the origin the host.
pub proof fn law_headers_go_on(name: Seq<char>)
    ensures
        hop_by_hop(name) <==> names_the_connection(name),
        goes_to_client(name) <==> !names_the_connection(name) && !same_letters(
            name,
            "content-length"@,
        ),
        goes_to_origin(name) <==> !names_the_connection(name) && !same_letters(
            name,
            "content-length"@,
        ) && !same_letters(name, "host"@),
{
    reveal_strlit("connection");
    reveal_strlit("keep-alive");
    reveal_strlit("proxy-authenticate");
    reveal_strlit("proxy-authorization");
    reveal_strlit("te");
    reveal_strlit("trailer");
    reveal_strlit("transfer-encoding");
    reveal_strlit("upgrade");
    lemma_lower(name, "connection"@);
    lemma_lower(name, "keep-alive"@);
    lemma_lower(name, "proxy-authenticate"@);
    lemma_lower(name, "proxy-authorization"@);
    lemma_lower(name, "te"@);
    lemma_lower(name, "trailer"@);
    lemma_lower(name, "transfer-encoding"@);
    lemma_lower(name, "upgrade"@);
    law_case_is_all_that_is_ignored(name, "content-length"@);
    law_case_is_all_that_is_ignored(name, "host"@);
}

/// A request is sent to the path and query that it named, at the origin.
pub proof fn law_path_is_kept(upstream: Seq<char>, pq: Seq<char>)
    ensures
        origin_url(upstream, Some(pq)) == upstream + pq,
        origin_url(upstream, None) == upstream + seq!['/'],
{
    reveal_strlit("/");
    assert("/"@ =~= seq!['/']);
}

/// Of a body the first 16384 bytes are inspected, all where there are no more.
pub proof fn law_start_of_the_body_is_inspected(body: Seq<u8>)
    ensures
        body.len() <= 16_384 ==> inspected_body(body) == body,
        body.len() > 16_384 ==> inspected_body(body) == body.subrange(0, 16_384),
{
}

/// The client is the last address that is reported and that no trusted proxy has,
/// where all after it are those of trusted proxies; reports of others do not
/// count.
pub proof fn law_client_is_the_last_stranger(
    peer: Seq<char>,
    claimed: Seq<Option<Seq<char>>>,
    client: Seq<char>,
    proxies: Seq<Option<Seq<char>>>,
    trusted: Seq<Seq<char>>,
)
    requires
        trusted.contains(peer),
        !trusted.contains(client),
        forall|i: int|
            0 <= i < proxies.len() ==> (#[trigger] proxies[i]) is Some && trusted.contains(
                proxies[i]->0,
            ),
    ensures
        client_of(peer, claimed.push(Some(client)) + proxies, trusted) == client,
        client_of(peer, claimed.push(None) + proxies, trusted) == peer,
        client_of(peer, proxies, trusted) == peer,
    decreases proxies.len(),
{
    let a = claimed.push(Some(client));
    let b = claimed.push(None);
    if proxies.len() == 0 {
        assert(a + proxies =~= a);
        assert(b + proxies =~= b);
        assert(a.last() == Some(client));
        assert(b.last() is None);
    } else {
        let fewer = proxies.drop_last();
        let last = proxies[proxies.len() - 1];
        assert(last is Some && trusted.contains(last->0));
        assert forall|i: int| 0 <= i < fewer.len() implies (#[trigger] fewer[i]) is Some
            && trusted.contains(fewer[i]->0) by {
            assert(fewer[i] == proxies[i]);
        }
        law_client_is_the_last_stranger(peer, claimed, client, fewer, trusted);
        assert((a + proxies).drop_last() =~= a + fewer);
        assert((b + proxies).drop_last() =~= b + fewer);
        assert((a + proxies).last() == last);
        assert((b + proxies).last() == last);
    }
}

} // verus!
