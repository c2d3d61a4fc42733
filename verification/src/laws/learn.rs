//! What the search for new rules is for: every missed payload comes before the
//! model once, and just the rules are put forward that find one of them and no
//! normal request.

use vstd::prelude::*;
use vstd::string::*;

use crate::engine::matcher::{regex_compiles, regex_first_match};
use crate::eval::print::aligned;
use crate::json::JsonView;
use crate::laws::llm::start;
use crate::laws::report::is_option;
use crate::laws::text::{blank, lacks, law_trimming};
use crate::learn::trial::{
    broken, candidate_line, candidate_lines, comes_behind, count_of, detections, false_alarms,
    found_in, is_clean, lowercase_texts, ordered, padded, put, row, rows_of, table, trial_report,
    tried, CandidateView, ScoredView,
};
use crate::learn::{
    asked_for, distinct, enclosed, law_payloads_are_distinct, log_lines, numbered, payload,
    payloads_of, rules_question, rules_request, shown, GapRecord, DEFAULT_GAPS, DEFAULT_WHITES,
    RULES_PROMPT,
};
use crate::text::{
    at_most, decimal, first_position, is_space, last_position, lemma_first_position,
    lemma_last_position, lowercase_text, occurs, occurs_at,
};

verus! {

/// The arguments: `--whites` takes the next one, other options do not count, and
/// of several other arguments the last does.
pub proof fn law_files_asked_for(
    arg: Seq<char>,
    rest: Seq<Seq<char>>,
    gaps: Seq<char>,
    whites: Seq<char>,
)
    ensures
        asked_for(Seq::empty(), gaps, whites) == (gaps, whites),
        asked_for(seq!["--whites"@], gaps, whites) == (gaps, whites),
        asked_for(seq!["--whites"@, arg] + rest, gaps, whites) == asked_for(rest, gaps, arg),
        arg != "--whites"@ && is_option(arg) ==> asked_for(seq![arg] + rest, gaps, whites)
            == asked_for(rest, gaps, whites),
        !is_option(arg) ==> asked_for(seq![arg] + rest, gaps, whites) == asked_for(
            rest,
            arg,
            whites,
        ),
        DEFAULT_GAPS@ == "gaps.jsonl"@,
        DEFAULT_WHITES@ == "benchmarks/blazehttp"@,
{
    reveal_strlit("--whites");
    reveal_strlit("-");
    assert("-"@ =~= seq!['-']);
    assert("--whites"@[0] == '-');
    assert(is_option("--whites"@));
    let a = seq!["--whites"@, arg] + rest;
    assert(a[0] == "--whites"@ && a[1] == arg);
    assert(a.skip(2) =~= rest);
    let b = seq![arg] + rest;
    assert(b[0] == arg);
    assert(b.skip(1) =~= rest);
    if occurs_at(arg, "-"@, 0) {
        assert(arg.subrange(0, 1)[0] == arg[0]);
    }
    if is_option(arg) {
        assert(arg.subrange(0, 1) =~= "-"@);
    }
}

/// A payload is the path, the query and the body, a space between two; each
/// record has its own.
pub proof fn law_payloads(records: Seq<GapRecord>, i: int)
    ensures
        payloads_of(records).len() == records.len(),
        0 <= i < records.len() ==> payloads_of(records)[i] == records[i].path@ + seq![' ']
            + records[i].query@ + seq![' '] + records[i].body@,
{
    reveal_strlit(" ");
    assert(" "@ =~= seq![' ']);
}

/// A line of a log counts without the white space around it, unless there is
/// nothing else in it.
pub proof fn law_log_lines(
    lines: Seq<Seq<char>>,
    before: Seq<char>,
    s: Seq<char>,
    after: Seq<char>,
)
    requires
        blank(before),
        blank(after),
        s.len() > 0 ==> !is_space(s[0]) && !is_space(s.last()),
    ensures
        log_lines(Seq::empty()) == Seq::<Seq<char>>::empty(),
        s.len() > 0 ==> log_lines(lines.push(before + s + after)) == log_lines(lines).push(s),
        s.len() == 0 ==> log_lines(lines.push(before + s + after)) == log_lines(lines),
{
    law_trimming(before, s, after);
    assert(lines.push(before + s + after).drop_last() =~= lines);
}

/// A payload that comes again does not count again, and one that is new comes
/// last.
pub proof fn law_new_payloads_come_last(items: Seq<Seq<char>>, x: Seq<char>)
    ensures
        distinct(Seq::empty()) == Seq::<Seq<char>>::empty(),
        items.contains(x) ==> distinct(items.push(x)) == distinct(items),
        !items.contains(x) ==> distinct(items.push(x)) == distinct(items).push(x),
{
    assert(items.push(x).drop_last() =~= items);
    law_payloads_are_distinct(items, x);
}

/// The model is shown the first fifty payloads, numbered from one on, of each the
/// first 300 characters.
pub proof fn law_model_is_shown_the_payloads(payloads: Seq<Seq<char>>, x: Seq<char>)
    ensures
        payloads.len() <= 50 ==> shown(payloads) == payloads,
        payloads.len() > 50 ==> shown(payloads) == payloads.subrange(0, 50),
        numbered(Seq::empty()) == Seq::<char>::empty(),
        numbered(payloads.push(x)) == numbered(payloads) + decimal(payloads.len() + 1) + seq![
            '.',
            ' ',
        ] + start(x, 300) + seq!['\n'],
        rules_question(payloads) == "漏判的恶意 payload 列表:\n"@ + numbered(shown(payloads)),
{
    reveal_strlit(". ");
    reveal_strlit("\n");
    assert(". "@ =~= seq!['.', ' ']);
    assert("\n"@ =~= seq!['\n']);
    assert(payloads.push(x).drop_last() =~= payloads);
    assert(at_most(x, 300) =~= start(x, 300));
}

/// The model is told its task and asked about the payloads.
pub proof fn law_model_is_asked_for_rules(model: Seq<char>, payloads: Seq<Seq<char>>)
    ensures
        rules_request(model, payloads) == JsonView::Object(
            seq![
                ("model"@, JsonView::Text(model)),
                ("max_tokens"@, JsonView::Number("1500"@)),
                (
                    "messages"@,
                    JsonView::List(
                        seq![
                            JsonView::Object(
                                seq![
                                    ("role"@, JsonView::Text("system"@)),
                                    ("content"@, JsonView::Text(RULES_PROMPT@)),
                                ],
                            ),
                            JsonView::Object(
                                seq![
                                    ("role"@, JsonView::Text("user"@)),
                                    ("content"@, JsonView::Text(rules_question(payloads))),
                                ],
                            ),
                        ],
                    ),
                ),
                (
                    "response_format"@,
                    JsonView::Object(seq![("type"@, JsonView::Text("json_object"@))]),
                ),
            ],
        ),
{
}

/// Nothing is enclosed where one of the two brackets is missing, or where every
/// closing one stands before every opening one.
pub proof fn law_nothing_enclosed(s: Seq<char>, rest: Seq<char>)
    requires
        lacks(s, '['),
        lacks(rest, ']'),
    ensures
        enclosed(s, '[', ']') is None,
        enclosed(rest, '[', ']') is None,
        enclosed(s + rest, '[', ']') is None,
{
    lemma_first_position(s, '[', s.len() as int);
    lemma_last_below(s, ']');
    lemma_last_position(rest, ']', -1);
    lemma_last_below_in(s, rest, ']');
    lemma_first_from(s, rest, '[');
}

proof fn lemma_last_below(s: Seq<char>, c: char)
    ensures
        last_position(s, c) < s.len(),
    decreases s.len(),
{
    if s.len() > 0 {
        lemma_last_below(s.drop_last(), c);
    }
}

proof fn lemma_last_below_in(s: Seq<char>, rest: Seq<char>, c: char)
    requires
        lacks(rest, c),
    ensures
        last_position(s + rest, c) < s.len(),
    decreases rest.len(),
{
    if rest.len() == 0 {
        assert(s + rest =~= s);
        lemma_last_below(s, c);
    } else {
        let all = s + rest;
        assert(all.last() == rest[rest.len() - 1]);
        assert(all.drop_last() =~= s + rest.drop_last());
        lemma_last_below_in(s, rest.drop_last(), c);
    }
}

proof fn lemma_first_from(s: Seq<char>, rest: Seq<char>, c: char)
    requires
        lacks(s, c),
    ensures
        first_position(s + rest, c) >= s.len(),
    decreases s.len(),
{
    if s.len() > 0 {
        let all = s + rest;
        assert(all[0] == s[0]);
        assert(all.skip(1) =~= s.skip(1) + rest);
        lemma_first_from(s.skip(1), rest, c);
    }
}

/// The rule finds something in a payload: its text in any case, or its regular
/// expression, if it can be compiled, in any case.
pub open spec fn finds(c: CandidateView, hay: Seq<char>, hay_in_lower_case: Seq<char>) -> bool {
    if c.is_regex {
        regex_compiles("(?i)"@ + c.pattern) && regex_first_match("(?i)"@ + c.pattern, hay) is Some
    } else {
        occurs(hay_in_lower_case, lowercase_text(c.pattern))
    }
}

/// A rule is credited with each payload that it finds something in, once, and
/// charged with each normal request.
pub proof fn law_rules_are_tried_on_all(c: CandidateView, items: Seq<Seq<char>>, x: Seq<char>)
    ensures
        detections(c, Seq::empty()) == 0,
        false_alarms(c, Seq::empty()) == 0,
        detections(c, items.push(x)) == detections(c, items) + (if finds(c, x, lowercase_text(x)) {
            1nat
        } else {
            0nat
        }),
        false_alarms(c, items.push(x)) == false_alarms(c, items) + (if finds(c, x, x) {
            1nat
        } else {
            0nat
        }),
{
    assert(items.push(x).drop_last() =~= items);
    let lower = lowercase_texts(items);
    let more = lowercase_texts(items.push(x));
    assert(more.drop_last() =~= lower);
    assert(more.last() == lowercase_text(x));
    assert(lowercase_texts(Seq::empty()) =~= Seq::<Seq<char>>::empty());
}

/// What is known of a tried rule is what it finds among the payloads and among
/// the normal requests, and whether it can be used at all; it is put forward just
/// if it can, finds a payload and finds no normal request.
pub proof fn law_tried_rule(c: CandidateView, payloads: Seq<Seq<char>>, whites: Seq<Seq<char>>)
    requires
        detections(c, payloads) <= u32::MAX,
        false_alarms(c, whites) <= u32::MAX,
    ensures
        ({
            let t = tried(c, payloads, whites);
            &&& t.cand == c
            &&& t.detect == detections(c, payloads)
            &&& t.fp == false_alarms(c, whites)
            &&& t.regex_ok <==> !c.is_regex || regex_compiles("(?i)"@ + c.pattern)
            &&& is_clean(t) <==> t.regex_ok && detections(c, payloads) > 0 && false_alarms(
                c,
                whites,
            ) == 0
        }),
{
}

/// A list of findings counts each that was made.
pub proof fn law_findings_are_counted(found: Seq<bool>, b: bool)
    ensures
        found_in(Seq::empty()) == 0,
        found_in(found.push(b)) == found_in(found) + (if b {
            1nat
        } else {
            0nat
        }),
{
    assert(found.push(b).drop_last() =~= found);
}

/// The first of the rules is no better than the second: it raises more false
/// alarms, or as many and finds less.
pub open spec fn is_worse(a: ScoredView, b: ScoredView) -> bool {
    a.fp > b.fp || (a.fp == b.fp && a.detect < b.detect)
}

/// Each rule is placed in front of those that are worse and behind the others,
/// which came before it.
pub proof fn law_rule_is_placed(list: Seq<ScoredView>, s: ScoredView) -> (at: int)
    ensures
        ordered(Seq::empty()) == Seq::<ScoredView>::empty(),
        0 <= at <= ordered(list).len(),
        ordered(list.push(s)) == ordered(list).take(at).push(s) + ordered(list).skip(at),
        at > 0 ==> !is_worse(ordered(list)[at - 1], s),
        forall|i: int| at <= i < ordered(list).len() ==> is_worse(#[trigger] ordered(list)[i], s),
{
    assert(list.push(s).drop_last() =~= list);
    lemma_put(ordered(list), s)
}

proof fn lemma_put(list: Seq<ScoredView>, s: ScoredView) -> (at: int)
    ensures
        0 <= at <= list.len(),
        put(list, s) == list.take(at).push(s) + list.skip(at),
        at > 0 ==> !is_worse(list[at - 1], s),
        forall|i: int| at <= i < list.len() ==> is_worse(#[trigger] list[i], s),
    decreases list.len(),
{
    let n = list.len() as int;
    if n > 0 && comes_behind(list.last(), s) {
        let front = list.drop_last();
        let at = lemma_put(front, s);
        assert(front.take(at) =~= list.take(at));
        assert(put(list, s) =~= list.take(at).push(s) + list.skip(at));
        assert forall|i: int| at <= i < list.len() implies is_worse(#[trigger] list[i], s) by {
            if i < front.len() {
                assert(front[i] == list[i]);
            }
        }
        at
    } else {
        assert(list.take(n).push(s) + list.skip(n) =~= list.push(s));
        n
    }
}

/// A text is padded with spaces behind it up to the width, and never cut.
pub proof fn law_padding(s: Seq<char>, width: nat, i: int)
    ensures
        padded(s, width).len() == if s.len() >= width {
            s.len()
        } else {
            width
        },
        padded(s, width).take(s.len() as int) == s,
        s.len() <= i < padded(s, width).len() ==> padded(s, width)[i] == ' ',
{
    assert(padded(s, width).take(s.len() as int) =~= s);
}

/// The line of a rule gives its pattern, of which the first 28 characters, its
/// category, its score, what it finds and why it was proposed.
pub proof fn law_row_of_a_rule(s: ScoredView)
    ensures
        row(s) == "  "@ + padded(start(s.cand.pattern, 28), 28) + " "@ + padded(s.cand.category, 16)
            + " "@ + aligned(s.cand.score as nat, 5) + " "@ + aligned(s.detect as nat, 7) + " "@
            + aligned(s.fp as nat, 5) + "  "@ + s.cand.rationale + "\n"@,
{
    assert(at_most(s.cand.pattern, 28) =~= start(s.cand.pattern, 28));
}

/// Each rule that can be used stands in one of two tables, by whether it is put
/// forward, and counts there; the others are only counted.
pub proof fn law_rules_stand_in_two_tables(list: Seq<ScoredView>, s: ScoredView, clean: bool)
    ensures
        ({
            let forward = s.regex_ok && s.fp == 0 && s.detect > 0;
            let here = s.regex_ok && forward == clean;
            &&& rows_of(Seq::empty(), clean) == Seq::<char>::empty()
            &&& rows_of(list.push(s), clean) == if here {
                rows_of(list, clean) + row(s)
            } else {
                rows_of(list, clean)
            }
            &&& count_of(Seq::empty(), clean) == 0
            &&& count_of(list.push(s), clean) == count_of(list, clean) + (if here {
                1nat
            } else {
                0nat
            })
            &&& broken(Seq::empty()) == 0
            &&& broken(list.push(s)) == broken(list) + (if s.regex_ok {
                0nat
            } else {
                1nat
            })
        }),
        count_of(list, clean) == 0 ==> table(list, clean) == "  (无)\n"@,
        count_of(list, clean) > 0 ==> table(list, clean)
            == "  pattern                      category         score  detect    fp  说明\n"@
            + rows_of(list, clean),
{
    assert(list.push(s).drop_last() =~= list);
}

/// The report gives both tables with their numbers, and how many regular
/// expressions could not be compiled, if any.
pub proof fn law_trial_report_is_complete(list: Seq<ScoredView>)
    ensures
        trial_report(list) == "== 候选规则校验报告 ==\n\n【零误报候选(建议采纳)】"@ + decimal(
            count_of(list, true),
        ) + " 条\n"@ + table(list, true) + "\n【有误报/无检出候选(需收紧,不建议直接用)】"@ + decimal(
            count_of(list, false),
        ) + " 条\n"@ + table(list, false) + (if broken(list) > 0 {
            "\n"@ + decimal(broken(list)) + " 条候选正则编译失败,已丢弃。\n"@
        } else {
            Seq::empty()
        }),
{
}

/// A rule that is put forward is written ready for the table of rules, a regular
/// expression so that it matches in any case.
pub proof fn law_rule_is_written_for_the_table(s: ScoredView)
    ensures
        s.cand.is_regex ==> candidate_line(s) == "    // [正则] 命中 gap "@ + decimal(s.detect as nat)
            + " 条, 误报 0 —— "@ + s.cand.rationale + "\n    (r\"(?i)"@ + s.cand.pattern + "\", \""@
            + s.cand.category + "\", "@ + decimal(s.cand.score as nat) + "),\n"@,
        !s.cand.is_regex ==> candidate_line(s) == "    (\""@ + s.cand.pattern + "\", \""@
            + s.cand.category + "\", "@ + decimal(s.cand.score as nat) + "),   // 命中 gap "@ + decimal(
            s.detect as nat,
        ) + " 条, 误报 0 —— "@ + s.cand.rationale + "\n"@,
{
}

/// Just the rules that are put forward stand in the file, in their order.
pub proof fn law_file_is_complete(list: Seq<ScoredView>, s: ScoredView)
    ensures
        candidate_lines(Seq::empty()) == Seq::<char>::empty(),
        candidate_lines(list.push(s)) == if s.regex_ok && s.fp == 0 && s.detect > 0 {
            candidate_lines(list) + candidate_line(s)
        } else {
            candidate_lines(list)
        },
{
    assert(list.push(s).drop_last() =~= list);
}

} // verus!
