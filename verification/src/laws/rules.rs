//! What an inspection by the rules is for: what the tables name is hit wherever
//! it stands in a request and however it is disguised, with its score; nothing
//! else is hit; and the verdict follows from the scores.

use vstd::prelude::*;
use vstd::string::*;

use crate::engine::decode::{escapes_decoded, percent_decoded_text};
use crate::engine::matcher::{
    automaton_builds, law_matches_are_occurrences, overlapping_matches, regex_compiles,
    regex_first_match,
};
use crate::engine::rules::{
    all_noted, buildable, collected, decoded_text, engine_without, fits, found_hits, hit_of_regex,
    hit_of_scanner, inspected, law_hits_are_distinct, lemma_all_noted_concat, lemma_all_noted_keeps,
    lemma_enabled, lemma_literals_found, lemma_noted_come_from, lemma_regex_hits_come_from,
    lemma_scanners_earned, literal_hits, match_hits, match_views, mentions, not_buildable,
    patterns_of, raw_text, regex_hits, request_hits, rule_hit, scanner_hits, text_hits,
    unescaped_text, EngineError, EngineView, Found,
};
use crate::engine::table::{
    lemma_categories, lemma_literals, rule_view, rule_views, RuleView, LITERAL_RULES, REGEX_DEFS,
    SCANNER_UA,
};
use crate::engine::verdict::{
    law_top_hit_is_last_maximum, main_threat, top_hit, total_score, verdict_of, DetectionView,
    HitView, RequestSummary, VerdictView,
};
use crate::laws::text::{law_occurrence_ignores_case, law_what_occurs_is_there, same_letters};
use crate::text::{ascii_lower_text, occurs, occurs_ignoring_case};

verus! {

/// The request as one text: path, query, body and headers, a space between two.
pub open spec fn whole(req: RequestSummary) -> Seq<char> {
    req.path@ + seq![' '] + req.query@ + seq![' '] + req.body@ + seq![' '] + req.headers@
}

/// The three texts that are inspected: the request as it came, percent decoded,
/// and then without escapes.
pub open spec fn inspected_text(req: RequestSummary, stage: int) -> Seq<char> {
    if stage == 0 {
        whole(req)
    } else if stage == 1 {
        percent_decoded_text(whole(req))
    } else {
        escapes_decoded(percent_decoded_text(whole(req)))
    }
}

/// The text holds a pattern, with something before and something after it, and
/// its letters in any case.
pub open spec fn holds(text: Seq<char>, pattern: Seq<char>) -> bool {
    exists|at: int|
        0 <= at && at + pattern.len() <= text.len() && same_letters(
            #[trigger] text.subrange(at, at + pattern.len()),
            pattern,
        )
}

/// The hits of an inspection by all rules but those of some categories.
pub open spec fn hits_in(req: RequestSummary, disabled: Seq<Seq<char>>) -> Seq<HitView> {
    inspected(engine_without(disabled), req).hits
}

proof fn lemma_stages(req: RequestSummary)
    ensures
        inspected_text(req, 0) == raw_text(req),
        inspected_text(req, 1) == decoded_text(req),
        inspected_text(req, 2) == unescaped_text(req),
{
    reveal_strlit(" ");
    assert(" "@ =~= seq![' ']);
}

/// The hits in the inspected text of a stage, repeated ones included.
spec fn stage_hits(e: EngineView, req: RequestSummary, stage: int) -> Seq<HitView> {
    text_hits(e, inspected_text(req, stage))
}

proof fn lemma_stage_in_request(e: EngineView, req: RequestSummary, stage: int, i: int)
    requires
        0 <= stage <= 2,
        0 <= i < stage_hits(e, req, stage).len(),
    ensures
        request_hits(e, req).contains(stage_hits(e, req, stage)[i]),
{
    lemma_stages(req);
    let a = text_hits(e, raw_text(req));
    let b = text_hits(e, decoded_text(req));
    let c = text_hits(e, unescaped_text(req));
    let all = request_hits(e, req);
    let at = if stage == 0 {
        i
    } else if stage == 1 {
        a.len() + i
    } else {
        a.len() + b.len() + i
    };
    assert(all[at] == stage_hits(e, req, stage)[i]);
}

proof fn lemma_request_comes_from(e: EngineView, req: RequestSummary, h: HitView)
    requires
        request_hits(e, req).contains(h),
    ensures
        ({
            ||| stage_hits(e, req, 0).contains(h)
            ||| stage_hits(e, req, 1).contains(h)
            ||| stage_hits(e, req, 2).contains(h)
            ||| e.scanner && scanner_hits(SCANNER_UA@, req.user_agent@).contains(h)
        }),
{
    lemma_stages(req);
    let a = text_hits(e, raw_text(req));
    let b = text_hits(e, decoded_text(req));
    let c = text_hits(e, unescaped_text(req));
    let all = request_hits(e, req);
    let i = choose|i: int| 0 <= i < all.len() && all[i] == h;
    if i < a.len() {
        assert(a[i] == h);
    } else if i < a.len() + b.len() {
        assert(b[i - a.len()] == h);
    } else if i < a.len() + b.len() + c.len() {
        assert(c[i - a.len() - b.len()] == h);
    } else {
        assert(scanner_hits(SCANNER_UA@, req.user_agent@)[i - a.len() - b.len() - c.len()] == h);
    }
}

proof fn lemma_hit_is_mentioned(e: EngineView, req: RequestSummary, h: HitView)
    requires
        request_hits(e, req).contains(h),
    ensures
        mentions(inspected(e, req).hits, h.category, h.pattern),
{
    let all = request_hits(e, req);
    let i = choose|i: int| 0 <= i < all.len() && all[i] == h;
    assert(all[i].category == h.category);
    lemma_all_noted_keeps(Seq::empty(), all, h.category, h.pattern);
}

proof fn lemma_noted_extends(hits: Seq<HitView>, more: Seq<HitView>)
    ensures
        hits.len() <= all_noted(hits, more).len(),
        all_noted(hits, more).take(hits.len() as int) == hits,
    decreases more.len(),
{
    if more.len() > 0 {
        lemma_noted_extends(hits, more.drop_last());
        let before = all_noted(hits, more.drop_last());
        assert(all_noted(hits, more).take(hits.len() as int) =~= before.take(hits.len() as int));
    } else {
        assert(hits.take(hits.len() as int) =~= hits);
    }
}

proof fn lemma_engine_literals(disabled: Seq<Seq<char>>)
    ensures
        ({
            let e = engine_without(disabled);
            &&& e.literals.len() <= usize::MAX
            &&& forall|k: int|
                0 <= k < e.literals.len() ==> (#[trigger] e.literals[k]).pattern.len() > 0
        }),
{
    let literals = rule_views(LITERAL_RULES@);
    let e = engine_without(disabled);
    lemma_literals();
    lemma_enabled(literals, disabled);
    assert forall|k: int| 0 <= k < e.literals.len() implies (#[trigger] e.literals[k]).pattern.len()
        > 0 by {
        assert(literals.contains(e.literals[k]));
        let j = choose|j: int| 0 <= j < literals.len() && literals[j] == e.literals[k];
        assert(literals[j] == rule_view(LITERAL_RULES@[j]));
    }
}

proof fn lemma_literal_row(disabled: Seq<Seq<char>>, k: int) -> (j: int)
    requires
        0 <= k < LITERAL_RULES@.len(),
        !disabled.contains(LITERAL_RULES@[k].1@),
    ensures
        0 <= j < engine_without(disabled).literals.len(),
        engine_without(disabled).literals[j] == rule_view(LITERAL_RULES@[k]),
{
    let literals = rule_views(LITERAL_RULES@);
    let e = engine_without(disabled);
    lemma_enabled(literals, disabled);
    assert(literals[k] == rule_view(LITERAL_RULES@[k]));
    assert(e.literals.contains(literals[k]));
    choose|j: int| 0 <= j < e.literals.len() && e.literals[j] == literals[k]
}

proof fn lemma_row_of_literal(disabled: Seq<Seq<char>>, j: int) -> (k: int)
    requires
        0 <= j < engine_without(disabled).literals.len(),
    ensures
        0 <= k < LITERAL_RULES@.len(),
        !disabled.contains(LITERAL_RULES@[k].1@),
        engine_without(disabled).literals[j] == rule_view(LITERAL_RULES@[k]),
{
    let literals = rule_views(LITERAL_RULES@);
    let e = engine_without(disabled);
    lemma_enabled(literals, disabled);
    assert(literals.contains(e.literals[j]));
    let k = choose|k: int| 0 <= k < literals.len() && literals[k] == e.literals[j];
    assert(literals[k] == rule_view(LITERAL_RULES@[k]));
    assert(!disabled.contains(e.literals[j].category));
    k
}

proof fn lemma_row_of_regex(disabled: Seq<Seq<char>>, j: int) -> (k: int)
    requires
        0 <= j < engine_without(disabled).regexes.len(),
    ensures
        0 <= k < REGEX_DEFS@.len(),
        !disabled.contains(REGEX_DEFS@[k].1@),
        engine_without(disabled).regexes[j] == rule_view(REGEX_DEFS@[k]),
{
    let regexes = rule_views(REGEX_DEFS@);
    let e = engine_without(disabled);
    lemma_enabled(regexes, disabled);
    assert(regexes.contains(e.regexes[j]));
    let k = choose|k: int| 0 <= k < regexes.len() && regexes[k] == e.regexes[j];
    assert(regexes[k] == rule_view(REGEX_DEFS@[k]));
    assert(!disabled.contains(e.regexes[j].category));
    k
}

proof fn lemma_literal_is_hit(e: EngineView, hay: Seq<char>, j: int) -> (i: int)
    requires
        e.literals.len() <= usize::MAX,
        forall|k: int| 0 <= k < e.literals.len() ==> (#[trigger] e.literals[k]).pattern.len() > 0,
        0 <= j < e.literals.len(),
        occurs_ignoring_case(hay, e.literals[j].pattern),
    ensures
        0 <= i < literal_hits(e.literals, hay).len(),
        i < text_hits(e, hay).len(),
        text_hits(e, hay)[i] == literal_hits(e.literals, hay)[i],
        literal_hits(e.literals, hay)[i] == (HitView {
            category: e.literals[j].category,
            pattern: e.literals[j].pattern,
            score: e.literals[j].score,
        }),
{
    let patterns = patterns_of(e.literals);
    let ids = overlapping_matches(patterns, hay);
    assert forall|k: int| 0 <= k < patterns.len() implies (#[trigger] patterns[k]).len() > 0 by {
        assert(patterns[k] == e.literals[k].pattern);
    }
    law_matches_are_occurrences(patterns, hay, j as usize);
    assert(patterns[j] == e.literals[j].pattern);
    let i = choose|i: int| 0 <= i < ids.len() && ids[i] == j as usize;
    assert(literal_hits(e.literals, hay)[i] == rule_hit(e.literals[j]));
    i
}

/// A literal of the table whose category is in use is hit wherever it stands in
/// a request: in any of the inspected texts, whatever stands before and after it
/// and whatever the case of its letters.
pub proof fn law_literal_is_hit_wherever_it_stands(
    disabled: Seq<Seq<char>>,
    req: RequestSummary,
    k: int,
    stage: int,
    before: Seq<char>,
    written: Seq<char>,
    after: Seq<char>,
)
    requires
        0 <= k < LITERAL_RULES@.len(),
        !disabled.contains(LITERAL_RULES@[k].1@),
        0 <= stage <= 2,
        same_letters(written, LITERAL_RULES@[k].0@),
        inspected_text(req, stage) == before + written + after,
    ensures
        exists|i: int|
            {
                &&& 0 <= i < hits_in(req, disabled).len()
                &&& (#[trigger] hits_in(req, disabled)[i]).category == LITERAL_RULES@[k].1@
                &&& hits_in(req, disabled)[i].pattern == LITERAL_RULES@[k].0@
            },
{
    let e = engine_without(disabled);
    let hay = inspected_text(req, stage);
    let j = lemma_literal_row(disabled, k);
    lemma_engine_literals(disabled);
    law_occurrence_ignores_case(before, written, after, LITERAL_RULES@[k].0@);
    let i = lemma_literal_is_hit(e, hay, j);
    lemma_stage_in_request(e, req, stage, i);
    lemma_hit_is_mentioned(e, req, stage_hits(e, req, stage)[i]);
    let hits = hits_in(req, disabled);
    let n = choose|n: int|
        0 <= n < hits.len() && (#[trigger] hits[n]).category == LITERAL_RULES@[k].1@
            && hits[n].pattern == LITERAL_RULES@[k].0@;
    assert(hits_in(req, disabled)[n].category == LITERAL_RULES@[k].1@);
}

/// A literal that stands in a request as it came counts with the score that the
/// table gives it, as one of the first hits.
pub proof fn law_literal_counts_with_its_score(
    disabled: Seq<Seq<char>>,
    req: RequestSummary,
    k: int,
    before: Seq<char>,
    written: Seq<char>,
    after: Seq<char>,
)
    requires
        0 <= k < LITERAL_RULES@.len(),
        !disabled.contains(LITERAL_RULES@[k].1@),
        same_letters(written, LITERAL_RULES@[k].0@),
        whole(req) == before + written + after,
    ensures
        exists|i: int, n: int|
            {
                &&& 0 <= i < hits_in(req, disabled).len()
                &&& 0 <= n < LITERAL_RULES@.len()
                &&& LITERAL_RULES@[n].0@ == LITERAL_RULES@[k].0@
                &&& LITERAL_RULES@[n].1@ == LITERAL_RULES@[k].1@
                &&& (#[trigger] hits_in(req, disabled)[i]) == (HitView {
                    category: LITERAL_RULES@[k].1@,
                    pattern: LITERAL_RULES@[k].0@,
                    score: (#[trigger] LITERAL_RULES@[n]).2,
                })
            },
{
    let e = engine_without(disabled);
    let hay = whole(req);
    let c = LITERAL_RULES@[k].1@;
    let p = LITERAL_RULES@[k].0@;
    lemma_stages(req);
    assert(hay == inspected_text(req, 0));
    let j = lemma_literal_row(disabled, k);
    lemma_engine_literals(disabled);
    law_occurrence_ignores_case(before, written, after, p);
    let at = lemma_literal_is_hit(e, hay, j);
    let lits = literal_hits(e.literals, hay);
    let all = request_hits(e, req);
    let rest = all.skip(lits.len() as int);
    assert(all =~= lits + rest);
    let first = all_noted(Seq::empty(), lits);
    assert(lits[at].category == c && lits[at].pattern == p);
    assert(mentions(lits, c, p));
    lemma_all_noted_keeps(Seq::empty(), lits, c, p);
    let i = choose|i: int|
        0 <= i < first.len() && (#[trigger] first[i]).category == c && first[i].pattern == p;
    lemma_noted_come_from(Seq::empty(), lits);
    assert(lits.contains(first[i]));
    let x = choose|x: int| 0 <= x < lits.len() && lits[x] == first[i];
    let ids = overlapping_matches(patterns_of(e.literals), hay);
    lemma_literals_found(e, ids, hay);
    assert(ids[x] < e.literals.len());
    assert(lits[x] == rule_hit(e.literals[ids[x] as int]));
    let n = lemma_row_of_literal(disabled, ids[x] as int);
    lemma_all_noted_concat(Seq::empty(), lits, rest);
    lemma_noted_extends(first, rest);
    assert(all_noted(first, rest).take(first.len() as int)[i] == first[i]);
    assert(hits_in(req, disabled)[i] == first[i]);
    assert(LITERAL_RULES@[n].2 == first[i].score);
}

/// A regular expression of the table whose category is in use is hit in every
/// inspected text that it matches, by the text of its first match there.
pub proof fn law_regex_is_hit_wherever_it_matches(
    disabled: Seq<Seq<char>>,
    req: RequestSummary,
    k: int,
    stage: int,
    m: Seq<char>,
)
    requires
        0 <= k < REGEX_DEFS@.len(),
        !disabled.contains(REGEX_DEFS@[k].1@),
        0 <= stage <= 2,
        regex_first_match(REGEX_DEFS@[k].0@, inspected_text(req, stage)) == Some(m),
    ensures
        exists|i: int|
            {
                &&& 0 <= i < hits_in(req, disabled).len()
                &&& (#[trigger] hits_in(req, disabled)[i]).category == REGEX_DEFS@[k].1@
                &&& hits_in(req, disabled)[i].pattern == m
            },
{
    let e = engine_without(disabled);
    let hay = inspected_text(req, stage);
    let regexes = rule_views(REGEX_DEFS@);
    lemma_enabled(regexes, disabled);
    assert(regexes[k] == rule_view(REGEX_DEFS@[k]));
    assert(e.regexes.contains(regexes[k]));
    let j = choose|j: int| 0 <= j < e.regexes.len() && e.regexes[j] == regexes[k];
    let h = HitView { category: REGEX_DEFS@[k].1@, pattern: m, score: REGEX_DEFS@[k].2 };
    lemma_regex_is_hit(e.regexes, hay, j, m);
    let rest = regex_hits(e.regexes, hay);
    let x = choose|x: int| 0 <= x < rest.len() && rest[x] == h;
    let n = literal_hits(e.literals, hay).len();
    assert(text_hits(e, hay)[n + x] == h);
    lemma_stage_in_request(e, req, stage, n + x);
    lemma_hit_is_mentioned(e, req, h);
    let hits = hits_in(req, disabled);
    let i = choose|i: int|
        0 <= i < hits.len() && (#[trigger] hits[i]).category == h.category && hits[i].pattern
            == h.pattern;
    assert(hits_in(req, disabled)[i].category == h.category);
}

proof fn lemma_regex_is_hit(rules: Seq<RuleView>, hay: Seq<char>, j: int, m: Seq<char>)
    requires
        0 <= j < rules.len(),
        regex_first_match(rules[j].pattern, hay) == Some(m),
    ensures
        regex_hits(rules, hay).contains(
            HitView { category: rules[j].category, pattern: m, score: rules[j].score },
        ),
    decreases rules.len(),
{
    let h = HitView { category: rules[j].category, pattern: m, score: rules[j].score };
    let front = rules.drop_last();
    let before = regex_hits(front, hay);
    let after = regex_hits(rules, hay);
    if j < front.len() {
        assert(front[j] == rules[j]);
        lemma_regex_is_hit(front, hay, j, m);
        let i = choose|i: int| 0 <= i < before.len() && before[i] == h;
        assert(after[i] == h);
    } else {
        assert(after[before.len() as int] == h);
    }
}

/// A scanner of the table is hit, with its score, by every user agent that holds
/// its name, whatever stands before and after it and whatever the case of its
/// letters, unless scanners are not looked for.
pub proof fn law_scanner_is_hit_wherever_its_name_stands(
    disabled: Seq<Seq<char>>,
    req: RequestSummary,
    k: int,
    before: Seq<char>,
    written: Seq<char>,
    after: Seq<char>,
)
    requires
        0 <= k < SCANNER_UA@.len(),
        !disabled.contains("Scanner"@),
        same_letters(written, SCANNER_UA@[k].0@),
        req.user_agent@ == before + written + after,
    ensures
        exists|i: int|
            {
                &&& 0 <= i < hits_in(req, disabled).len()
                &&& (#[trigger] hits_in(req, disabled)[i]) == (HitView {
                    category: "Scanner"@,
                    pattern: SCANNER_UA@[k].0@,
                    score: SCANNER_UA@[k].1,
                })
            },
{
    let e = engine_without(disabled);
    let agent = req.user_agent@;
    let name = SCANNER_UA@[k].0@;
    let h = HitView { category: "Scanner"@, pattern: name, score: SCANNER_UA@[k].1 };
    lemma_scanner_names();
    lemma_lower_name(k);
    law_occurrence_ignores_case(before, written, after, name);
    lemma_scanner_is_hit(SCANNER_UA@, agent, k);
    let scanners = scanner_hits(SCANNER_UA@, agent);
    let all = request_hits(e, req);
    let x = choose|x: int| 0 <= x < scanners.len() && scanners[x] == h;
    let n = all.len() - scanners.len();
    assert(all[n + x] == scanners[x]);
    lemma_hit_is_mentioned(e, req, h);
    let hits = hits_in(req, disabled);
    let i = choose|i: int|
        0 <= i < hits.len() && (#[trigger] hits[i]).category == h.category && hits[i].pattern
            == h.pattern;
    law_every_hit_has_its_rule(disabled, req, i);
    lemma_categories();
    assert(hits_in(req, disabled)[i] == h);
}

proof fn lemma_scanner_is_hit(rows: Seq<(&'static str, u32)>, agent: Seq<char>, k: int)
    requires
        0 <= k < rows.len(),
        occurs(ascii_lower_text(agent), rows[k].0@),
    ensures
        scanner_hits(rows, agent).contains(
            HitView { category: "Scanner"@, pattern: rows[k].0@, score: rows[k].1 },
        ),
    decreases rows.len(),
{
    let h = HitView { category: "Scanner"@, pattern: rows[k].0@, score: rows[k].1 };
    let front = rows.drop_last();
    let before = scanner_hits(front, agent);
    let after = scanner_hits(rows, agent);
    if k < front.len() {
        assert(front[k] == rows[k]);
        lemma_scanner_is_hit(front, agent, k);
        let i = choose|i: int| 0 <= i < before.len() && before[i] == h;
        assert(after[i] == h);
    } else {
        assert(after[before.len() as int] == h);
    }
}

/// No two scanners of the table have the same name.
proof fn lemma_scanner_names()
    ensures
        forall|i: int, j: int|
            0 <= i < SCANNER_UA@.len() && 0 <= j < SCANNER_UA@.len() && (#[trigger] SCANNER_UA@[i]).0@
                == (#[trigger] SCANNER_UA@[j]).0@ ==> i == j,
{
    reveal_strlit("sqlmap");
    reveal_strlit("nikto");
    reveal_strlit("nmap");
    reveal_strlit("masscan");
    reveal_strlit("acunetix");
    reveal_strlit("nessus");
    reveal_strlit("dirbuster");
    reveal_strlit("gobuster");
    reveal_strlit("wpscan");
    reveal_strlit("hydra");
    reveal_strlit("nuclei");
    reveal_strlit("burpsuite");
    reveal_strlit("zap");
    reveal_strlit("wfuzz");
    reveal_strlit("ffuf");
    assert forall|i: int, j: int|
        0 <= i < SCANNER_UA@.len() && 0 <= j < SCANNER_UA@.len() && (#[trigger] SCANNER_UA@[i]).0@
            == (#[trigger] SCANNER_UA@[j]).0@ implies i == j by {
        let a = SCANNER_UA@[i].0@;
        let b = SCANNER_UA@[j].0@;
        assert(a.len() == b.len());
        assert(a[0] == b[0] && a[1] == b[1] && a[2] == b[2] && a[a.len() - 1] == b[b.len() - 1]);
    }
}

/// The names of the scanners stand in the table in lower case.
proof fn lemma_lower_name(k: int)
    requires
        0 <= k < SCANNER_UA@.len(),
    ensures
        ascii_lower_text(SCANNER_UA@[k].0@) == SCANNER_UA@[k].0@,
{
    reveal_strlit("sqlmap");
    reveal_strlit("nikto");
    reveal_strlit("nmap");
    reveal_strlit("masscan");
    reveal_strlit("acunetix");
    reveal_strlit("nessus");
    reveal_strlit("dirbuster");
    reveal_strlit("gobuster");
    reveal_strlit("wpscan");
    reveal_strlit("hydra");
    reveal_strlit("nuclei");
    reveal_strlit("burpsuite");
    reveal_strlit("zap");
    reveal_strlit("wfuzz");
    reveal_strlit("ffuf");
    let name = SCANNER_UA@[k].0@;
    assert forall|i: int| 0 <= i < name.len() implies !('A' <= (#[trigger] name[i]) && name[i] <= 'Z') by {}
    assert(ascii_lower_text(name) =~= name);
}

/// A hit comes from a rule: from a literal of the table that one of the
/// inspected texts holds, from a regular expression of the table that matches
/// one of them there, or from a scanner of the table whose name the user agent
/// holds; with the category and the score of the table, and of no category that
/// is disabled.
pub proof fn law_every_hit_has_its_rule(disabled: Seq<Seq<char>>, req: RequestSummary, i: int)
    requires
        0 <= i < hits_in(req, disabled).len(),
    ensures
        ({
            let h = hits_in(req, disabled)[i];
            &&& !disabled.contains(h.category)
            &&& {
                ||| exists|k: int, stage: int|
                    {
                        &&& 0 <= k < LITERAL_RULES@.len()
                        &&& 0 <= stage <= 2
                        &&& h.pattern == (#[trigger] LITERAL_RULES@[k]).0@
                        &&& h.category == LITERAL_RULES@[k].1@
                        &&& h.score == LITERAL_RULES@[k].2
                        &&& holds(#[trigger] inspected_text(req, stage), h.pattern)
                    }
                ||| exists|k: int, stage: int|
                    {
                        &&& 0 <= k < REGEX_DEFS@.len()
                        &&& 0 <= stage <= 2
                        &&& h.category == (#[trigger] REGEX_DEFS@[k]).1@
                        &&& h.score == REGEX_DEFS@[k].2
                        &&& regex_first_match(
                            REGEX_DEFS@[k].0@,
                            #[trigger] inspected_text(req, stage),
                        ) == Some(h.pattern)
                    }
                ||| exists|k: int|
                    {
                        &&& 0 <= k < SCANNER_UA@.len()
                        &&& h.category == "Scanner"@
                        &&& h.pattern == (#[trigger] SCANNER_UA@[k]).0@
                        &&& h.score == SCANNER_UA@[k].1
                        &&& holds(req.user_agent@, h.pattern)
                    }
            }
        }),
{
    let e = engine_without(disabled);
    let hits = hits_in(req, disabled);
    let h = hits[i];
    let all = request_hits(e, req);
    lemma_noted_come_from(Seq::empty(), all);
    assert(all.contains(h));
    lemma_request_comes_from(e, req, h);
    if stage_hits(e, req, 0).contains(h) {
        lemma_stage_hit(disabled, req, 0, h);
    } else if stage_hits(e, req, 1).contains(h) {
        lemma_stage_hit(disabled, req, 1, h);
    } else if stage_hits(e, req, 2).contains(h) {
        lemma_stage_hit(disabled, req, 2, h);
    } else {
        let agent = req.user_agent@;
        let scanners = scanner_hits(SCANNER_UA@, agent);
        let x = choose|x: int| 0 <= x < scanners.len() && scanners[x] == h;
        lemma_scanners_earned(SCANNER_UA@, agent);
        let k = choose|k: int|
            0 <= k < SCANNER_UA@.len() && hit_of_scanner(
                #[trigger] SCANNER_UA@[k],
                agent,
                scanners[x],
            );
        lemma_lower_name(k);
        let name = SCANNER_UA@[k].0@;
        assert(occurs_ignoring_case(agent, name));
        law_what_occurs_is_there(agent, name);
        let at = choose|at: int|
            0 <= at && at + name.len() <= agent.len() && same_letters(
                #[trigger] agent.subrange(at, at + name.len()),
                name,
            );
        assert(holds(agent, name));
    }
}

proof fn lemma_stage_hit(
    disabled: Seq<Seq<char>>,
    req: RequestSummary,
    stage: int,
    h: HitView,
)
    requires
        0 <= stage <= 2,
        stage_hits(engine_without(disabled), req, stage).contains(h),
    ensures
        !disabled.contains(h.category),
        ({
            ||| exists|k: int|
                {
                    &&& 0 <= k < LITERAL_RULES@.len()
                    &&& h.pattern == (#[trigger] LITERAL_RULES@[k]).0@
                    &&& h.category == LITERAL_RULES@[k].1@
                    &&& h.score == LITERAL_RULES@[k].2
                    &&& holds(inspected_text(req, stage), h.pattern)
                }
            ||| exists|k: int|
                {
                    &&& 0 <= k < REGEX_DEFS@.len()
                    &&& h.category == (#[trigger] REGEX_DEFS@[k]).1@
                    &&& h.score == REGEX_DEFS@[k].2
                    &&& regex_first_match(REGEX_DEFS@[k].0@, inspected_text(req, stage)) == Some(
                        h.pattern,
                    )
                }
        }),
{
    let e = engine_without(disabled);
    let hay = inspected_text(req, stage);
    let all = text_hits(e, hay);
    let lits = literal_hits(e.literals, hay);
    let x = choose|x: int| 0 <= x < all.len() && all[x] == h;
    lemma_engine_literals(disabled);
    if x < lits.len() {
        let ids = overlapping_matches(patterns_of(e.literals), hay);
        lemma_literals_found(e, ids, hay);
        assert(ids[x] < e.literals.len());
        assert(lits[x] == rule_hit(e.literals[ids[x] as int]));
        let k = lemma_row_of_literal(disabled, ids[x] as int);
        law_what_occurs_is_there(hay, h.pattern);
        let at = choose|at: int|
            0 <= at && at + h.pattern.len() <= hay.len() && same_letters(
                #[trigger] hay.subrange(at, at + h.pattern.len()),
                h.pattern,
            );
        assert(holds(hay, h.pattern));
        assert(LITERAL_RULES@[k].2 == h.score);
    } else {
        let rest = regex_hits(e.regexes, hay);
        assert(rest[x - lits.len()] == h);
        lemma_regex_hits_come_from(e.regexes, hay);
        let j = choose|j: int|
            0 <= j < e.regexes.len() && hit_of_regex(
                #[trigger] e.regexes[j],
                hay,
                rest[x - lits.len()],
            );
        let k = lemma_row_of_regex(disabled, j);
        assert(REGEX_DEFS@[k].2 == h.score);
    }
}

/// Each category and pattern is hit once; what is found in the request as it came
/// stands before what comes to light by decoding, and scanners stand last.
pub proof fn law_hits_are_in_order(disabled: Seq<Seq<char>>, req: RequestSummary)
    ensures
        forall|i: int, j: int|
            0 <= i < j < hits_in(req, disabled).len() ==> (#[trigger] hits_in(
                req,
                disabled,
            )[i]).category != (#[trigger] hits_in(req, disabled)[j]).category || hits_in(
                req,
                disabled,
            )[i].pattern != hits_in(req, disabled)[j].pattern,
        forall|i: int, j: int|
            0 <= i < j < hits_in(req, disabled).len() && (#[trigger] hits_in(
                req,
                disabled,
            )[i]).category == "Scanner"@ ==> (#[trigger] hits_in(req, disabled)[j]).category
                == "Scanner"@,
        forall|i: int, j: int|
            0 <= i < j < hits_in(req, disabled).len() && text_hits(
                engine_without(disabled),
                whole(req),
            ).contains(#[trigger] hits_in(req, disabled)[j]) ==> text_hits(
                engine_without(disabled),
                whole(req),
            ).contains(#[trigger] hits_in(req, disabled)[i]),
{
    let e = engine_without(disabled);
    let all = request_hits(e, req);
    let hits = hits_in(req, disabled);
    lemma_stages(req);
    law_hits_are_distinct(all);
    let raw = text_hits(e, raw_text(req));
    let rest = all.skip(raw.len() as int);
    assert(all =~= raw + rest);
    let first = all_noted(Seq::empty(), raw);
    lemma_all_noted_concat(Seq::empty(), raw, rest);
    lemma_noted_extends(first, rest);
    lemma_noted_come_from(Seq::empty(), raw);
    assert forall|i: int, j: int|
        0 <= i < j < hits.len() && raw.contains(#[trigger] hits[j]) implies raw.contains(
        #[trigger] hits[i],
    ) by {
        if i < first.len() {
            assert(hits.take(first.len() as int)[i] == first[i]);
        } else {
            let x = choose|x: int| 0 <= x < raw.len() && raw[x] == hits[j];
            assert(mentions(raw, raw[x].category, raw[x].pattern));
            lemma_all_noted_keeps(Seq::empty(), raw, hits[j].category, hits[j].pattern);
            let y = choose|y: int|
                0 <= y < first.len() && (#[trigger] first[y]).category == hits[j].category
                    && first[y].pattern == hits[j].pattern;
            assert(hits.take(first.len() as int)[y] == first[y]);
            assert(hits[y] == first[y]);
        }
    }
    let scanners = if e.scanner {
        scanner_hits(SCANNER_UA@, req.user_agent@)
    } else {
        Seq::empty()
    };
    let found = all.take(all.len() - scanners.len());
    assert(all =~= found + scanners);
    let front = all_noted(Seq::empty(), found);
    lemma_all_noted_concat(Seq::empty(), found, scanners);
    lemma_noted_extends(front, scanners);
    lemma_noted_tail(front, scanners);
    lemma_noted_come_from(Seq::empty(), found);
    lemma_scanners_earned(SCANNER_UA@, req.user_agent@);
    lemma_categories();
    assert forall|i: int, j: int|
        0 <= i < j < hits.len() && (#[trigger] hits[i]).category == "Scanner"@ implies (
    #[trigger] hits[j]).category == "Scanner"@ by {
        if i < front.len() {
            assert(hits.take(front.len() as int)[i] == front[i]);
            assert(found.contains(front[i]));
            let x = choose|x: int| 0 <= x < found.len() && found[x] == front[i];
            let b = text_hits(e, decoded_text(req));
            let c = text_hits(e, unescaped_text(req));
            if x < raw.len() {
                assert(raw[x] == hits[i]);
                lemma_stage_hit(disabled, req, 0, hits[i]);
            } else if x < raw.len() + b.len() {
                assert(b[x - raw.len()] == hits[i]);
                lemma_stage_hit(disabled, req, 1, hits[i]);
            } else {
                assert(c[x - raw.len() - b.len()] == hits[i]);
                lemma_stage_hit(disabled, req, 2, hits[i]);
            }
        } else {
            assert(scanners.contains(hits[j]));
            let x = choose|x: int| 0 <= x < scanners.len() && scanners[x] == hits[j];
            let k = choose|k: int|
                0 <= k < SCANNER_UA@.len() && hit_of_scanner(
                    #[trigger] SCANNER_UA@[k],
                    req.user_agent@,
                    scanners[x],
                );
        }
    }
}

proof fn lemma_noted_tail(hits: Seq<HitView>, more: Seq<HitView>)
    ensures
        forall|i: int|
            hits.len() <= i < all_noted(hits, more).len() ==> more.contains(
                #[trigger] all_noted(hits, more)[i],
            ),
    decreases more.len(),
{
    if more.len() > 0 {
        let front = more.drop_last();
        lemma_noted_tail(hits, front);
        lemma_noted_extends(hits, front);
        let before = all_noted(hits, front);
        let after = all_noted(hits, more);
        assert forall|i: int| hits.len() <= i < after.len() implies more.contains(
            #[trigger] after[i],
        ) by {
            if i < before.len() {
                assert(after[i] == before[i]);
                let x = choose|x: int| 0 <= x < front.len() && front[x] == before[i];
                assert(more[x] == after[i]);
            } else {
                assert(more[more.len() - 1] == after[i]);
            }
        }
    }
}

/// The total of some hits is the sum of their scores.
pub proof fn law_total_is_the_sum(hits: Seq<HitView>, h: HitView)
    ensures
        total_score(Seq::empty()) == 0,
        total_score(hits.push(h)) == total_score(hits) + h.score,
{
    assert(hits.push(h).drop_last() =~= hits);
}

/// A verdict is to block from the one threshold on, suspicious from the other,
/// and else to let through. It gives the score, and of every hit, in their order,
/// its category and its pattern as a reason; a block names the category of a hit
/// than which none scores higher.
pub proof fn law_verdict_goes_by_the_score(det: DetectionView, block: u32, suspicious: u32, i: int)
    ensures
        match verdict_of(det, block, suspicious) {
            VerdictView::Block { score, threat, reasons } => {
                &&& det.score >= block
                &&& score == det.score
                &&& reasons.len() == det.hits.len()
                &&& 0 <= i < det.hits.len() ==> reasons[i] == det.hits[i].category + seq![':', ' ']
                    + det.hits[i].pattern
                &&& det.hits.len() == 0 ==> threat == "unknown"@
                &&& det.hits.len() > 0 ==> exists|k: int|
                    {
                        &&& 0 <= k < det.hits.len()
                        &&& threat == (#[trigger] det.hits[k]).category
                        &&& forall|j: int|
                            0 <= j < det.hits.len() ==> (#[trigger] det.hits[j]).score
                                <= det.hits[k].score
                        &&& forall|j: int|
                            k < j < det.hits.len() ==> (#[trigger] det.hits[j]).score
                                < det.hits[k].score
                    }
            },
            VerdictView::Suspicious { score, reasons } => {
                &&& suspicious <= det.score < block
                &&& score == det.score
                &&& reasons.len() == det.hits.len()
                &&& 0 <= i < det.hits.len() ==> reasons[i] == det.hits[i].category + seq![':', ' ']
                    + det.hits[i].pattern
            },
            VerdictView::Allow => det.score < block && det.score < suspicious,
        },
{
    reveal_strlit(": ");
    assert(": "@ =~= seq![':', ' ']);
    if det.hits.len() > 0 {
        law_top_hit_is_last_maximum(det.hits);
    }
}

/// No hit is lost in the total, and a hit more never lowers it.
pub proof fn law_every_hit_counts(hits: Seq<HitView>, i: int)
    requires
        0 <= i < hits.len(),
    ensures
        total_score(hits) >= hits[i].score,
    decreases hits.len(),
{
    let front = hits.drop_last();
    if i < front.len() {
        assert(front[i] == hits[i]);
        law_every_hit_counts(front, i);
    }
}

/// The main threat is the category of the last of the hits that score highest,
/// and there is none where nothing was hit.
pub proof fn law_main_threat(before: Seq<HitView>, h: HitView, after: Seq<HitView>)
    requires
        forall|i: int| 0 <= i < before.len() ==> (#[trigger] before[i]).score <= h.score,
        forall|i: int| 0 <= i < after.len() ==> (#[trigger] after[i]).score < h.score,
    ensures
        main_threat(before.push(h) + after) == Some(h.category),
        main_threat(Seq::empty()) is None,
{
    let all = before.push(h) + after;
    let k = before.len() as int;
    law_top_hit_is_last_maximum(all);
    let t = top_hit(all);
    assert(all[k] == h);
    if t < k {
        assert(all[t] == before[t]);
        assert(all[k].score < all[t].score);
    } else if t > k {
        assert(all[t] == after[t - k - 1]);
        assert(all[k].score <= all[t].score);
    }
}

/// What was found in a text, of the three texts of a request.
pub open spec fn found_at(raw: Found, decoded: Found, unescaped: Found, stage: int) -> Found {
    if stage == 0 {
        raw
    } else if stage == 1 {
        decoded
    } else {
        unescaped
    }
}

/// Every literal and every regular expression that was found in one of the three
/// texts is hit.
pub proof fn law_what_was_found_is_hit(
    e: EngineView,
    raw: Found,
    decoded: Found,
    unescaped: Found,
    agent: Seq<char>,
    stage: int,
    i: int,
)
    requires
        0 <= stage <= 2,
        fits(e, found_at(raw, decoded, unescaped, stage)),
    ensures
        ({
            let f = found_at(raw, decoded, unescaped, stage);
            let hits = collected(e, raw, decoded, unescaped, agent).hits;
            &&& 0 <= i < f.literals@.len() ==> mentions(
                hits,
                e.literals[f.literals@[i] as int].category,
                e.literals[f.literals@[i] as int].pattern,
            )
            &&& 0 <= i < f.regexes@.len() && f.regexes@[i] is Some ==> mentions(
                hits,
                e.regexes[i].category,
                f.regexes@[i]->0@,
            )
        }),
{
    let f = found_at(raw, decoded, unescaped, stage);
    let scanners = if e.scanner {
        scanner_hits(SCANNER_UA@, agent)
    } else {
        Seq::empty()
    };
    let a = found_hits(e, raw);
    let b = found_hits(e, decoded);
    let c = found_hits(e, unescaped);
    let all = a + b + c + scanners;
    let here = found_hits(e, f);
    let from = if stage == 0 {
        0
    } else if stage == 1 {
        a.len() as int
    } else {
        (a.len() + b.len()) as int
    };
    assert forall|x: int| 0 <= x < here.len() implies all[from + x] == #[trigger] here[x] by {}
    if 0 <= i < f.literals@.len() {
        let h = rule_hit(e.literals[f.literals@[i] as int]);
        assert(here[i] == h);
        assert(all[from + i] == h);
        assert(mentions(all, h.category, h.pattern));
        lemma_all_noted_keeps(Seq::empty(), all, h.category, h.pattern);
    }
    if 0 <= i < f.regexes@.len() && f.regexes@[i] is Some {
        let views = match_views(f.regexes@);
        assert(views[i] == Some(f.regexes@[i]->0@));
        let x = lemma_match_is_hit(e.regexes, views, i);
        let n = f.literals@.len() as int;
        let h = match_hits(e.regexes, views)[x];
        assert(here[n + x] == h);
        assert(all[from + n + x] == h);
        assert(mentions(all, h.category, h.pattern));
        lemma_all_noted_keeps(Seq::empty(), all, h.category, h.pattern);
    }
}

proof fn lemma_match_is_hit(
    rules: Seq<RuleView>,
    matches: Seq<Option<Seq<char>>>,
    i: int,
) -> (x: int)
    requires
        0 <= i < rules.len(),
        matches[i] is Some,
    ensures
        0 <= x < match_hits(rules, matches).len(),
        match_hits(rules, matches)[x] == (HitView {
            category: rules[i].category,
            pattern: matches[i]->0,
            score: rules[i].score,
        }),
    decreases rules.len(),
{
    let front = rules.drop_last();
    if i < front.len() {
        assert(front[i] == rules[i]);
        lemma_match_is_hit(front, matches, i)
    } else {
        match_hits(front, matches).len() as int
    }
}

/// An engine can be built where the literals in use fit into an automaton and the
/// regular expressions in use compile, and is refused nowhere else.
pub proof fn law_engine_is_built(disabled: Seq<Seq<char>>, error: EngineError)
    ensures
        not_buildable(disabled, error) ==> !buildable(disabled),
        automaton_builds(patterns_of(engine_without(disabled).literals)) && (forall|k: int|
            0 <= k < REGEX_DEFS@.len() && !disabled.contains((#[trigger] REGEX_DEFS@[k]).1@)
                ==> regex_compiles(REGEX_DEFS@[k].0@)) ==> buildable(disabled),
{
    let e = engine_without(disabled);
    if automaton_builds(patterns_of(e.literals)) && (forall|k: int|
        0 <= k < REGEX_DEFS@.len() && !disabled.contains((#[trigger] REGEX_DEFS@[k]).1@)
            ==> regex_compiles(REGEX_DEFS@[k].0@)) {
        assert forall|i: int| 0 <= i < e.regexes.len() implies regex_compiles(
            (#[trigger] e.regexes[i]).pattern,
        ) by {
            let k = lemma_row_of_regex(disabled, i);
            assert(regex_compiles(REGEX_DEFS@[k].0@));
        }
    }
}

/// The hits in one text are those of the literals, in the order in which they
/// were met, and then the first matches of the regular expressions, in the order
/// of the table.
pub proof fn law_hits_of_a_text(
    e: EngineView,
    hay: Seq<char>,
    i: int,
    rules: Seq<RuleView>,
    r: RuleView,
)
    ensures
        ({
            let met = overlapping_matches(patterns_of(e.literals), hay);
            let hits = text_hits(e, hay);
            let rest = regex_hits(e.regexes, hay);
            &&& hits.len() == met.len() + rest.len()
            &&& 0 <= i < met.len() ==> hits[i] == (HitView {
                category: e.literals[met[i] as int].category,
                pattern: e.literals[met[i] as int].pattern,
                score: e.literals[met[i] as int].score,
            })
            &&& 0 <= i < rest.len() ==> hits[met.len() + i] == rest[i]
        }),
        regex_hits(Seq::empty(), hay) == Seq::<HitView>::empty(),
        regex_hits(rules.push(r), hay) == match regex_first_match(r.pattern, hay) {
            Some(m) => regex_hits(rules, hay).push(
                HitView { category: r.category, pattern: m, score: r.score },
            ),
            None => regex_hits(rules, hay),
        },
{
    assert(rules.push(r).drop_last() =~= rules);
}

/// The hits in a request are those in the text as it came, in the decoded one and
/// in the one without escapes, and then those of the scanners in the order of
/// their table.
pub proof fn law_hits_of_a_request(
    e: EngineView,
    req: RequestSummary,
    rows: Seq<(&'static str, u32)>,
    row: (&'static str, u32),
    agent: Seq<char>,
)
    ensures
        e.scanner ==> request_hits(e, req) == text_hits(e, inspected_text(req, 0)) + text_hits(
            e,
            inspected_text(req, 1),
        ) + text_hits(e, inspected_text(req, 2)) + scanner_hits(SCANNER_UA@, req.user_agent@),
        !e.scanner ==> request_hits(e, req) == text_hits(e, inspected_text(req, 0)) + text_hits(
            e,
            inspected_text(req, 1),
        ) + text_hits(e, inspected_text(req, 2)),
        scanner_hits(Seq::empty(), agent) == Seq::<HitView>::empty(),
        scanner_hits(rows.push(row), agent) == if occurs(ascii_lower_text(agent), row.0@) {
            scanner_hits(rows, agent).push(
                HitView { category: "Scanner"@, pattern: row.0@, score: row.1 },
            )
        } else {
            scanner_hits(rows, agent)
        },
{
    lemma_stages(req);
    assert(rows.push(row).drop_last() =~= rows);
    if !e.scanner {
        assert(request_hits(e, req) =~= text_hits(e, inspected_text(req, 0)) + text_hits(
            e,
            inspected_text(req, 1),
        ) + text_hits(e, inspected_text(req, 2)));
    }
}

/// Of the hits in a request each category and pattern is kept once, with the
/// score and at the place of its first hit.
pub proof fn law_first_hit_is_kept(found: Seq<HitView>, h: HitView)
    ensures
        all_noted(Seq::empty(), Seq::empty()) == Seq::<HitView>::empty(),
        all_noted(Seq::empty(), found.push(h)) == if exists|i: int|
            0 <= i < found.len() && (#[trigger] found[i]).category == h.category && found[i].pattern
                == h.pattern {
            all_noted(Seq::empty(), found)
        } else {
            all_noted(Seq::empty(), found).push(h)
        },
{
    let kept = all_noted(Seq::empty(), found);
    assert(found.push(h).drop_last() =~= found);
    if mentions(found, h.category, h.pattern) {
        lemma_all_noted_keeps(Seq::empty(), found, h.category, h.pattern);
    }
    if mentions(kept, h.category, h.pattern) {
        let i = choose|i: int|
            0 <= i < kept.len() && (#[trigger] kept[i]).category == h.category && kept[i].pattern
                == h.pattern;
        lemma_noted_come_from(Seq::empty(), found);
        assert(found.contains(kept[i]));
        let j = choose|j: int| 0 <= j < found.len() && found[j] == kept[i];
        assert(found[j].category == h.category);
    }
}

/// What an inspection gives is what is kept of the hits in the request, and the
/// sum of their scores.
pub proof fn law_inspection(e: EngineView, req: RequestSummary)
    ensures
        inspected(e, req).hits == all_noted(Seq::empty(), request_hits(e, req)),
        total_score(inspected(e, req).hits) <= u32::MAX ==> inspected(e, req).score == total_score(
            inspected(e, req).hits,
        ),
{
}

/// What is made of findings: they are noted in the order of the texts, the literals
/// of each text before its regular expressions, and the scanners after all.
pub proof fn law_collection(
    e: EngineView,
    raw: Found,
    decoded: Found,
    unescaped: Found,
    agent: Seq<char>,
    f: Found,
    i: int,
    rules: Seq<RuleView>,
    r: RuleView,
    matches: Seq<Option<Seq<char>>>,
)
    ensures
        ({
            let all = found_hits(e, raw) + found_hits(e, decoded) + found_hits(e, unescaped);
            let c = collected(e, raw, decoded, unescaped, agent);
            &&& e.scanner ==> c.hits == all_noted(
                Seq::empty(),
                all + scanner_hits(SCANNER_UA@, agent),
            )
            &&& !e.scanner ==> c.hits == all_noted(Seq::empty(), all)
            &&& total_score(c.hits) <= u32::MAX ==> c.score == total_score(c.hits)
        }),
        ({
            let n = f.literals@.len();
            let rest = match_hits(e.regexes, match_views(f.regexes@));
            &&& found_hits(e, f).len() == n + rest.len()
            &&& 0 <= i < n ==> found_hits(e, f)[i] == (HitView {
                category: e.literals[f.literals@[i] as int].category,
                pattern: e.literals[f.literals@[i] as int].pattern,
                score: e.literals[f.literals@[i] as int].score,
            })
            &&& 0 <= i < rest.len() ==> found_hits(e, f)[n + i] == rest[i]
        }),
        match_hits(Seq::empty(), matches) == Seq::<HitView>::empty(),
        match_hits(rules.push(r), matches) == match matches[rules.len() as int] {
            Some(m) => match_hits(rules, matches).push(
                HitView { category: r.category, pattern: m, score: r.score },
            ),
            None => match_hits(rules, matches),
        },
{
    assert(rules.push(r).drop_last() =~= rules);
    if !e.scanner {
        let all = found_hits(e, raw) + found_hits(e, decoded) + found_hits(e, unescaped);
        assert(all + Seq::<HitView>::empty() =~= all);
    }
}

} // verus!
