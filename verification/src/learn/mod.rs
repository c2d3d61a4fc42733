//! The offline search for new rules: the payloads that the rules missed are
//! shown to a language model, and the rules that it proposes are tried on the
//! payloads and on normal requests. Nothing is adopted by itself.

pub mod trial;

use vstd::prelude::*;
use vstd::slice::*;
use vstd::string::*;

use crate::engine::llm::openai_compat::{chat_message, message};
use crate::engine::verdict::RequestSummary;
use crate::json::{
    list_2, object_1, object_2, text, with_member, Json, JsonView,
};
use crate::text::{
    at_most, chars_of, decimal, decimal_of, find_first, find_last, first_position, has_prefix, head,
    is_among, last_position, lemma_first_position, lemma_last_position, lowercase, lowercase_text,
    occurs_at, same_text, split_lines, text_lines, text_of, texts, trim, trimmed,
};

verus! {

/// Where the missed payloads are by default.
pub const DEFAULT_GAPS: &'static str = "gaps.jsonl";

/// Where the normal requests are by default.
pub const DEFAULT_WHITES: &'static str = "benchmarks/blazehttp";

/// Where the rules that pass are written.
pub const OUT_FILE: &'static str = "candidate_rules.txt";

/// How many payloads the model is shown.
pub const MAX_PAYLOADS_TO_LLM: usize = 50;

/// How much of a payload the model is shown, in characters.
pub const MAX_SNIPPET: usize = 300;

/// What a search is asked for.
#[derive(Debug)]
pub struct LearnArgs {
    pub gaps: String,
    pub whites: String,
}

/// The files that the arguments ask for, with what holds so far: `--whites`
/// takes the next argument, other options are ignored, and of several other
/// arguments the last counts.
pub open spec fn asked_for(
    args: Seq<Seq<char>>,
    gaps: Seq<char>,
    whites: Seq<char>,
) -> (Seq<char>, Seq<char>)
    decreases args.len(),
{
    if args.len() == 0 {
        (gaps, whites)
    } else if args[0] == "--whites"@ {
        if args.len() == 1 {
            (gaps, whites)
        } else {
            asked_for(args.skip(2), gaps, args[1])
        }
    } else if occurs_at(args[0], "-"@, 0) {
        asked_for(args.skip(1), gaps, whites)
    } else {
        asked_for(args.skip(1), args[0], whites)
    }
}

/// The files that the arguments ask for.
pub fn parse_args(args: &Vec<String>) -> (r: LearnArgs)
    ensures
        (r.gaps@, r.whites@) == asked_for(texts(args@), DEFAULT_GAPS@, DEFAULT_WHITES@),
{
    let mut gaps: String = DEFAULT_GAPS.to_owned();
    let mut whites: String = DEFAULT_WHITES.to_owned();
    let dash = chars_of("-");
    let ghost all = texts(args@);
    let ghost goal = asked_for(all, DEFAULT_GAPS@, DEFAULT_WHITES@);
    let mut i: usize = 0;
    assert(all.skip(0) =~= all);
    while i < args.len()
        invariant
            i <= args@.len(),
            all == texts(args@),
            dash@ == "-"@,
            goal == asked_for(all.skip(i as int), gaps@, whites@),
        decreases args@.len() - i,
    {
        let ghost rest = all.skip(i as int);
        proof {
            assert(rest[0] == args@[i as int]@);
            assert(rest.skip(1) =~= all.skip(i + 1));
        }
        if same_text(args[i].as_str(), "--whites") {
            if i + 1 < args.len() {
                proof {
                    assert(rest[1] == args@[i + 1]@);
                    assert(rest.skip(2) =~= all.skip(i + 2));
                }
                whites = args[i + 1].clone();
                i += 2;
            } else {
                assert(all.skip(i + 1) =~= Seq::<Seq<char>>::empty());
                i += 1;
            }
        } else {
            let a = chars_of(args[i].as_str());
            if !has_prefix(a.as_slice(), dash.as_slice()) {
                gaps = args[i].clone();
            }
            i += 1;
        }
    }
    assert(all.skip(i as int) =~= Seq::<Seq<char>>::empty());
    LearnArgs { gaps, whites }
}

/// A record of a request that the rules missed, as far as it is used.
#[derive(Debug)]
pub struct GapRecord {
    pub method: String,
    pub path: String,
    pub query: String,
    pub body: String,
}

/// The payload of a request.
pub open spec fn payload(path: Seq<char>, query: Seq<char>, body: Seq<char>) -> Seq<char> {
    path + " "@ + query + " "@ + body
}

fn payload_text(path: &str, query: &str, body: &str) -> (r: String)
    ensures
        r@ == payload(path@, query@, body@),
{
    let mut r: String = path.to_owned();
    r.append(" ");
    r.append(query);
    r.append(" ");
    r.append(body);
    r
}

/// The lines of a log that hold something, without the white space around it.
pub open spec fn log_lines(lines: Seq<Seq<char>>) -> Seq<Seq<char>>
    decreases lines.len(),
{
    if lines.len() == 0 {
        Seq::empty()
    } else {
        let front = log_lines(lines.drop_last());
        let line = trimmed(lines.last());
        if line.len() == 0 {
            front
        } else {
            front.push(line)
        }
    }
}

/// The lines of a log that hold something.
pub fn gap_lines(log: &str) -> (r: Vec<String>)
    ensures
        texts(r@) == log_lines(text_lines(log@)),
{
    let v = chars_of(log);
    let lines = split_lines(v.as_slice());
    let ghost all = text_lines(log@);
    let mut r: Vec<String> = Vec::new();
    let mut i: usize = 0;
    assert(texts(r@) =~= log_lines(all.take(0)));
    while i < lines.len()
        invariant
            i <= lines@.len(),
            lines@.len() == all.len(),
            forall|j: int| 0 <= j < lines@.len() ==> lines@[j]@ == all[j],
            texts(r@) == log_lines(all.take(i as int)),
        decreases lines@.len() - i,
    {
        proof {
            assert(all.take(i + 1).drop_last() =~= all.take(i as int));
            assert(all.take(i + 1).last() == lines@[i as int]@);
        }
        let line = trim(lines[i]);
        if line.len() > 0 {
            let ghost before = r@;
            r.push(text_of(line));
            assert(texts(r@) =~= texts(before).push(line@));
        }
        i += 1;
    }
    assert(all.take(i as int) =~= all);
    r
}

/// The payloads of some records.
pub open spec fn payloads_of(records: Seq<GapRecord>) -> Seq<Seq<char>> {
    Seq::new(records.len(), |i: int| payload(records[i].path@, records[i].query@, records[i].body@))
}

/// Each text once, at its first place.
pub open spec fn distinct(items: Seq<Seq<char>>) -> Seq<Seq<char>>
    decreases items.len(),
{
    if items.len() == 0 {
        Seq::empty()
    } else {
        let front = distinct(items.drop_last());
        if front.contains(items.last()) {
            front
        } else {
            front.push(items.last())
        }
    }
}

/// The payloads of some records, each once.
pub fn gap_payloads(records: &Vec<GapRecord>) -> (r: Vec<String>)
    ensures
        texts(r@) == distinct(payloads_of(records@)),
{
    let ghost all = payloads_of(records@);
    let mut r: Vec<String> = Vec::new();
    let mut i: usize = 0;
    assert(texts(r@) =~= distinct(all.take(0)));
    while i < records.len()
        invariant
            i <= records@.len(),
            all == payloads_of(records@),
            texts(r@) == distinct(all.take(i as int)),
        decreases records@.len() - i,
    {
        let p = payload_text(
            records[i].path.as_str(),
            records[i].query.as_str(),
            records[i].body.as_str(),
        );
        proof {
            assert(all.take(i + 1).drop_last() =~= all.take(i as int));
            assert(all.take(i + 1).last() == p@);
        }
        if !is_among(r.as_slice(), p.as_str()) {
            let ghost before = r@;
            r.push(p);
            assert(texts(r@) =~= texts(before).push(all[i as int]));
        }
        i += 1;
    }
    assert(all.take(i as int) =~= all);
    r
}

/// What the model is told of its task.
pub const RULES_PROMPT: &'static str =
    "你是 WAF 规则工程师。下面是规则引擎漏判的恶意 HTTP payload(path query body 拼接)。请提议能命中这些攻击、但尽量不误伤正常流量的检测规则。只输出一个 JSON 对象 {\"rules\":[...]},数组每项为 {pattern(小写字符串或正则), is_regex(bool), category(如 SQLi/XSS/PathTraversal/InfoDisclosure/CommandInjection), score(40-100 整数,高置信给高分), rationale(一句中文说明)}。规则要具体,避免过于宽泛匹配到正常英文单词或常见参数名。";

/// The payloads that the model is shown.
pub open spec fn shown(payloads: Seq<Seq<char>>) -> Seq<Seq<char>> {
    if payloads.len() <= MAX_PAYLOADS_TO_LLM {
        payloads
    } else {
        payloads.take(MAX_PAYLOADS_TO_LLM as int)
    }
}

/// Some payloads as a numbered list, the long ones cut.
pub open spec fn numbered(payloads: Seq<Seq<char>>) -> Seq<char>
    decreases payloads.len(),
{
    if payloads.len() == 0 {
        Seq::empty()
    } else {
        numbered(payloads.drop_last()) + decimal(payloads.len()) + ". "@ + at_most(
            payloads.last(),
            MAX_SNIPPET as nat,
        ) + "\n"@
    }
}

/// What the model is asked.
pub open spec fn rules_question(payloads: Seq<Seq<char>>) -> Seq<char> {
    "漏判的恶意 payload 列表:\n"@ + numbered(shown(payloads))
}

/// What the model is asked.
pub fn build_rules_question(payloads: &Vec<String>) -> (r: String)
    ensures
        r@ == rules_question(texts(payloads@)),
{
    let ghost all = texts(payloads@);
    let ghost some = shown(all);
    let mut list: String = String::new();
    let mut i: usize = 0;
    assert(some.take(0) =~= Seq::<Seq<char>>::empty());
    while i < payloads.len() && i < MAX_PAYLOADS_TO_LLM
        invariant
            i <= payloads@.len(),
            i <= MAX_PAYLOADS_TO_LLM,
            all == texts(payloads@),
            some == shown(all),
            list@ == numbered(some.take(i as int)),
        decreases payloads@.len() - i,
    {
        proof {
            assert(some.take(i + 1).drop_last() =~= some.take(i as int));
            assert(some.take(i + 1).last() == payloads@[i as int]@);
        }
        list.append(decimal_of(i as u64 + 1).as_str());
        list.append(". ");
        list.append(head(payloads[i].as_str(), MAX_SNIPPET).as_str());
        list.append("\n");
        i += 1;
    }
    assert(some.take(i as int) =~= some);
    let mut r: String = "漏判的恶意 payload 列表:\n".to_owned();
    r.append(list.as_str());
    r
}

/// What is sent to the model.
pub open spec fn rules_request(model: Seq<char>, payloads: Seq<Seq<char>>) -> JsonView {
    JsonView::Object(
        seq![
            ("model"@, JsonView::Text(model)),
            ("max_tokens"@, JsonView::Number("1500"@)),
            (
                "messages"@,
                JsonView::List(
                    seq![
                        chat_message("system"@, RULES_PROMPT@),
                        chat_message("user"@, rules_question(payloads)),
                    ],
                ),
            ),
            (
                "response_format"@,
                JsonView::Object(seq![("type"@, JsonView::Text("json_object"@))]),
            ),
        ],
    )
}

/// What is sent to the model.
pub fn propose_rules(model: &str, payloads: &Vec<String>) -> (r: Json)
    ensures
        r@ == rules_request(model@, texts(payloads@)),
{
    let messages = list_2(
        message("system", RULES_PROMPT),
        message("user", build_rules_question(payloads).as_str()),
    );
    let body = object_2(
        "model",
        text(model),
        "max_tokens",
        Json::Number("1500".to_owned()),
    );
    let body = with_member(body, "messages", messages);
    let body = with_member(body, "response_format", object_1("type", text("json_object")));
    assert(body@->Object_0 =~= rules_request(model@, texts(payloads@))->Object_0);
    body
}

/// A rule that the model proposes.
#[derive(Debug)]
pub struct Candidate {
    pub pattern: String,
    pub is_regex: bool,
    pub category: String,
    pub score: u32,
    pub rationale: String,
}

/// The part of a text from the first `open` to the last `close`, if the first
/// stands before the last.
pub open spec fn enclosed(s: Seq<char>, open: char, close: char) -> Option<Seq<char>> {
    let a = first_position(s, open);
    let b = last_position(s, close);
    if a < b {
        Some(s.subrange(a as int, b + 1))
    } else {
        None
    }
}

/// The part of a text from the first `open` to the last `close`, if the first
/// stands before the last.
pub fn enclosed_in(s: &[char], open: char, close: char) -> (r: Option<String>)
    ensures
        match r {
            Some(t) => enclosed(s@, open, close) == Some(t@),
            None => enclosed(s@, open, close) is None,
        },
{
    let a: usize = find_first(s, open);
    match find_last(s, close) {
        Some(b) => if a < b {
            let n: usize = s.len();
            assert(b < n);
            Some(text_of(slice_subrange(s, a, b + 1)))
        } else {
            None
        },
        None => None,
    }
}

/// The two places where rules are looked for in an answer: an object that is
/// the whole text, and a list between its outermost square brackets.
pub fn candidate_places(answer: &str) -> (r: (String, Option<String>))
    ensures
        r.0@ == trimmed(answer@),
        match r.1 {
            Some(t) => enclosed(answer@, '[', ']') == Some(t@),
            None => enclosed(answer@, '[', ']') is None,
        },
{
    let v = chars_of(answer);
    (text_of(trim(v.as_slice())), enclosed_in(v.as_slice(), '[', ']'))
}

/// The rules in an answer, from what was read at the two places: the first that
/// holds some counts.
pub fn parse_candidates(
    whole: Option<Vec<Candidate>>,
    inner: Option<Vec<Candidate>>,
) -> (r: Result<Vec<Candidate>, String>)
    ensures
        match r {
            Ok(v) => whole == Some(v) || (whole is None && inner == Some(v)),
            Err(e) => whole is None && inner is None && e@ == "无法从 LLM 输出解析候选规则 JSON"@,
        },
{
    match whole {
        Some(v) => Ok(v),
        None => match inner {
            Some(v) => Ok(v),
            None => Err("无法从 LLM 输出解析候选规则 JSON".to_owned()),
        },
    }
}

/// The text of a normal request that rules are tried on.
pub fn white_haystack(s: &RequestSummary) -> (r: String)
    ensures
        r@ == lowercase_text(payload(s.path@, s.query@, s.body@)),
{
    lowercase(payload_text(s.path.as_str(), s.query.as_str(), s.body.as_str()).as_str())
}

/// A list that stands in some talk without square brackets is found again.
pub proof fn law_rules_are_found_in_talk(before: Seq<char>, inner: Seq<char>, after: Seq<char>)
    requires
        forall|i: int| 0 <= i < before.len() ==> before[i] != '[',
        forall|i: int| 0 <= i < after.len() ==> after[i] != ']',
    ensures
        enclosed(before + seq!['['] + inner + seq![']'] + after, '[', ']') == Some(
            seq!['['] + inner + seq![']'],
        ),
{
    let s = before + seq!['['] + inner + seq![']'] + after;
    let a = before.len() as int;
    let b = (before.len() + 1 + inner.len()) as int;
    lemma_first_position(s, '[', a);
    lemma_last_position(s, ']', b);
    assert(s.subrange(a, b + 1) =~= seq!['['] + inner + seq![']']);
}

/// Among distinct texts none comes twice, and just the given ones come.
pub proof fn law_payloads_are_distinct(items: Seq<Seq<char>>, x: Seq<char>)
    ensures
        distinct(items).no_duplicates(),
        distinct(items).contains(x) <==> items.contains(x),
        distinct(items).len() <= items.len(),
    decreases items.len(),
{
    if items.len() > 0 {
        let front = items.drop_last();
        let d = distinct(front);
        law_payloads_are_distinct(front, x);
        assert(items.contains(x) <==> front.contains(x) || items.last() == x) by {
            if items.contains(x) {
                let i = choose|i: int| 0 <= i < items.len() && items[i] == x;
                if i < front.len() {
                    assert(front[i] == x);
                }
            }
            if front.contains(x) {
                let i = choose|i: int| 0 <= i < front.len() && front[i] == x;
                assert(items[i] == x);
            }
            if items.last() == x {
                assert(items[items.len() - 1] == x);
            }
        }
        if !d.contains(items.last()) {
            let all = d.push(items.last());
            assert(all.contains(x) <==> d.contains(x) || items.last() == x) by {
                if d.contains(x) {
                    let i = choose|i: int| 0 <= i < d.len() && d[i] == x;
                    assert(all[i] == x);
                }
                if items.last() == x {
                    assert(all[d.len() as int] == x);
                }
                if all.contains(x) {
                    let i = choose|i: int| 0 <= i < all.len() && all[i] == x;
                    if i < d.len() {
                        assert(d[i] == x);
                    }
                }
            }
        }
    }
}

} // verus!
