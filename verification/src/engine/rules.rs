//! The first tier: local rules, run over a request as it came, percent decoded
//! and with its escapes replaced.

use aho_corasick::AhoCorasick;
use regex::Regex;
use vstd::prelude::*;
use vstd::set_lib::*;
use vstd::string::*;

use super::decode::{
    decode_escapes, escapes_decoded, percent_decode_lossy, percent_decoded_text,
};
use super::matcher::{
    automaton_builds, automaton_patterns, automaton_reports_overlaps, build_automaton,
    compile_regex, find_overlapping, find_regex, law_matches_are_occurrences, overlapping_matches,
    regex_compiles, regex_first_match, regex_source, slice_texts,
};
use super::table::{
    lemma_literals, lemma_scores, rule_view, rule_views, RuleView, LITERAL_RULES, REGEX_DEFS, SCANNER, SCANNER_UA,
};
use super::verdict::{
    hit_views, total_score, Detection, DetectionView, Hit, HitView, RequestSummary,
};
use crate::text::{
    ascii_lower_chars, ascii_lower_text, chars_of, contains, is_among, occurs, occurs_at,
    occurs_ignoring_case, same_text, texts,
};

verus! {

/// Which rules an engine runs.
pub struct EngineView {
    pub literals: Seq<RuleView>,
    pub regexes: Seq<RuleView>,
    pub scanner: bool,
}

/// The rules of a table whose category is not disabled, in their order.
pub open spec fn enabled(table: Seq<RuleView>, disabled: Seq<Seq<char>>) -> Seq<RuleView>
    decreases table.len(),
{
    if table.len() == 0 {
        Seq::empty()
    } else if disabled.contains(table.last().category) {
        enabled(table.drop_last(), disabled)
    } else {
        enabled(table.drop_last(), disabled).push(table.last())
    }
}

/// The rules that are left where some categories are disabled.
pub open spec fn engine_without(disabled: Seq<Seq<char>>) -> EngineView {
    EngineView {
        literals: enabled(rule_views(LITERAL_RULES@), disabled),
        regexes: enabled(rule_views(REGEX_DEFS@), disabled),
        scanner: !disabled.contains(SCANNER@),
    }
}

/// The patterns of some rules.
pub open spec fn patterns_of(rules: Seq<RuleView>) -> Seq<Seq<char>> {
    rules.map_values(|r: RuleView| r.pattern)
}

/// Do the rules that are left fit into an automaton, and do all their regular
/// expressions compile?
pub open spec fn buildable(disabled: Seq<Seq<char>>) -> bool {
    let e = engine_without(disabled);
    &&& automaton_builds(patterns_of(e.literals))
    &&& forall|i: int|
        0 <= i < e.regexes.len() ==> regex_compiles((#[trigger] e.regexes[i]).pattern)
}

/// Why an engine could not be built.
#[derive(Debug)]
pub enum EngineError {
    /// The literals do not fit into an automaton.
    Literals,
    /// This regular expression does not compile.
    Regex(String),
}

/// The reason why no engine can be built without the disabled categories: the
/// literals, or else the first regular expression that does not compile.
pub open spec fn not_buildable(disabled: Seq<Seq<char>>, error: EngineError) -> bool {
    let e = engine_without(disabled);
    match error {
        EngineError::Literals => !automaton_builds(patterns_of(e.literals)),
        EngineError::Regex(p) => {
            &&& automaton_builds(patterns_of(e.literals))
            &&& exists|i: int|
                {
                    &&& 0 <= i < e.regexes.len()
                    &&& p@ == (#[trigger] e.regexes[i]).pattern
                    &&& !regex_compiles(e.regexes[i].pattern)
                    &&& forall|j: int|
                        0 <= j < i ==> regex_compiles((#[trigger] e.regexes[j]).pattern)
                }
        },
    }
}

/// A rule that matched by its pattern.
pub open spec fn rule_hit(r: RuleView) -> HitView {
    HitView { category: r.category, pattern: r.pattern, score: r.score }
}

/// The hits of the literals with some numbers.
pub open spec fn id_hits(rules: Seq<RuleView>, ids: Seq<usize>) -> Seq<HitView> {
    ids.map_values(|k: usize| rule_hit(rules[k as int]))
}

/// The hits of literals in a text: one for each match.
pub open spec fn literal_hits(rules: Seq<RuleView>, hay: Seq<char>) -> Seq<HitView> {
    id_hits(rules, overlapping_matches(patterns_of(rules), hay))
}

/// The hits of regular expressions that matched some texts, or nothing.
pub open spec fn match_hits(
    rules: Seq<RuleView>,
    matches: Seq<Option<Seq<char>>>,
) -> Seq<HitView>
    decreases rules.len(),
{
    if rules.len() == 0 {
        Seq::empty()
    } else {
        let front = match_hits(rules.drop_last(), matches);
        let r = rules.last();
        match matches[rules.len() - 1] {
            Some(m) => front.push(HitView { category: r.category, pattern: m, score: r.score }),
            None => front,
        }
    }
}

/// The hits of regular expressions in a text: the first match of each.
pub open spec fn regex_hits(rules: Seq<RuleView>, hay: Seq<char>) -> Seq<HitView>
    decreases rules.len(),
{
    if rules.len() == 0 {
        Seq::empty()
    } else {
        let front = regex_hits(rules.drop_last(), hay);
        let r = rules.last();
        match regex_first_match(r.pattern, hay) {
            Some(m) => front.push(HitView { category: r.category, pattern: m, score: r.score }),
            None => front,
        }
    }
}

/// All hits in a text, repeated ones included.
pub open spec fn text_hits(e: EngineView, hay: Seq<char>) -> Seq<HitView> {
    literal_hits(e.literals, hay) + regex_hits(e.regexes, hay)
}

/// What the searches found in one text.
#[derive(Debug)]
pub struct Found {
    /// The numbers of the literals, one for each match.
    pub literals: Vec<usize>,
    /// The text that each regular expression matched, if it matched one.
    pub regexes: Vec<Option<String>>,
}

/// The matched texts.
pub open spec fn match_views(matches: Seq<Option<String>>) -> Seq<Option<Seq<char>>> {
    Seq::new(
        matches.len(),
        |i: int|
            match matches[i] {
                Some(m) => Some(m@),
                None => None,
            },
    )
}

/// What was found speaks of the rules of the engine.
pub open spec fn fits(e: EngineView, f: Found) -> bool {
    &&& f.regexes@.len() == e.regexes.len()
    &&& forall|i: int| 0 <= i < f.literals@.len() ==> (#[trigger] f.literals@[i]) < e.literals.len()
}

/// The hits in one text by what was found in it, repeated ones included.
pub open spec fn found_hits(e: EngineView, f: Found) -> Seq<HitView> {
    id_hits(e.literals, f.literals@) + match_hits(e.regexes, match_views(f.regexes@))
}

/// What the rules make of what was found in the text as it came, in the decoded
/// text and in the text without escapes, and of a user agent.
pub open spec fn collected(
    e: EngineView,
    raw: Found,
    decoded: Found,
    unescaped: Found,
    agent: Seq<char>,
) -> DetectionView {
    let hits = all_noted(
        Seq::empty(),
        found_hits(e, raw) + found_hits(e, decoded) + found_hits(e, unescaped) + (if e.scanner {
            scanner_hits(SCANNER_UA@, agent)
        } else {
            Seq::empty()
        }),
    );
    DetectionView { score: total_score(hits) as u32, hits }
}

/// A scanner as a hit.
pub open spec fn scanner_hit(row: (&'static str, u32)) -> HitView {
    HitView { category: SCANNER@, pattern: row.0@, score: row.1 }
}

/// The scanners whose names stand in a user agent, ASCII case ignored.
pub open spec fn scanner_hits(rows: Seq<(&'static str, u32)>, agent: Seq<char>) -> Seq<HitView>
    decreases rows.len(),
{
    if rows.len() == 0 {
        Seq::empty()
    } else if occurs(ascii_lower_text(agent), rows.last().0@) {
        scanner_hits(rows.drop_last(), agent).push(scanner_hit(rows.last()))
    } else {
        scanner_hits(rows.drop_last(), agent)
    }
}

/// Is there a hit of this category and pattern?
pub open spec fn mentions(hits: Seq<HitView>, category: Seq<char>, pattern: Seq<char>) -> bool {
    exists|i: int|
        0 <= i < hits.len() && (#[trigger] hits[i]).category == category && hits[i].pattern
            == pattern
}

/// The hits with one more, unless its category and pattern are there already.
pub open spec fn noted(hits: Seq<HitView>, h: HitView) -> Seq<HitView> {
    if mentions(hits, h.category, h.pattern) {
        hits
    } else {
        hits.push(h)
    }
}

/// The hits with some more noted, one after the other.
pub open spec fn all_noted(hits: Seq<HitView>, more: Seq<HitView>) -> Seq<HitView>
    decreases more.len(),
{
    if more.len() == 0 {
        hits
    } else {
        noted(all_noted(hits, more.drop_last()), more.last())
    }
}

/// The inspected text of a request as it came.
pub open spec fn raw_text(req: RequestSummary) -> Seq<char> {
    req.path@ + " "@ + req.query@ + " "@ + req.body@ + " "@ + req.headers@
}

/// The inspected text, percent decoded.
pub open spec fn decoded_text(req: RequestSummary) -> Seq<char> {
    percent_decoded_text(raw_text(req))
}

/// The inspected text, percent decoded and with its escapes replaced.
pub open spec fn unescaped_text(req: RequestSummary) -> Seq<char> {
    escapes_decoded(decoded_text(req))
}

/// All hits in a request, repeated ones included.
pub open spec fn request_hits(e: EngineView, req: RequestSummary) -> Seq<HitView> {
    text_hits(e, raw_text(req)) + text_hits(e, decoded_text(req)) + text_hits(
        e,
        unescaped_text(req),
    ) + (if e.scanner {
        scanner_hits(SCANNER_UA@, req.user_agent@)
    } else {
        Seq::empty()
    })
}

/// What the rules find in a request: each category and pattern once, in the
/// order in which they are first hit, and the sum of their scores.
pub open spec fn inspected(e: EngineView, req: RequestSummary) -> DetectionView {
    let hits = all_noted(Seq::empty(), request_hits(e, req));
    DetectionView { score: total_score(hits) as u32, hits }
}

/// The hit is that of a regular expression in a text.
pub open spec fn hit_of_regex(r: RuleView, hay: Seq<char>, h: HitView) -> bool {
    &&& h.category == r.category
    &&& h.score == r.score
    &&& regex_first_match(r.pattern, hay) == Some(h.pattern)
}

/// The hit is that of a scanner in a user agent.
pub open spec fn hit_of_scanner(row: (&'static str, u32), agent: Seq<char>, h: HitView) -> bool {
    h == scanner_hit(row) && occurs(ascii_lower_text(agent), row.0@)
}

/// The hit is that of an enabled rule in a text: of a literal that stands there,
/// ASCII case ignored, or of the first match of a regular expression, which
/// stands there too.
pub open spec fn earned_in(e: EngineView, hay: Seq<char>, h: HitView) -> bool {
    ||| exists|k: int|
        0 <= k < e.literals.len() && h == rule_hit(#[trigger] e.literals[k])
            && occurs_ignoring_case(hay, e.literals[k].pattern)
    ||| exists|k: int|
        0 <= k < e.regexes.len() && hit_of_regex(#[trigger] e.regexes[k], hay, h) && occurs(
            hay,
            h.pattern,
        )
}

/// The hit is that of an enabled rule in one of the inspected texts of a
/// request, or that of a scanner in its user agent.
pub open spec fn earned(e: EngineView, req: RequestSummary, h: HitView) -> bool {
    ||| earned_in(e, raw_text(req), h)
    ||| earned_in(e, decoded_text(req), h)
    ||| earned_in(e, unescaped_text(req), h)
    ||| e.scanner && exists|k: int|
        0 <= k < SCANNER_UA@.len() && hit_of_scanner(
            #[trigger] SCANNER_UA@[k],
            req.user_agent@,
            h,
        )
}

/// Is there an enabled rule of this category?
pub open spec fn has_category(e: EngineView, category: Seq<char>) -> bool {
    ||| exists|k: int| 0 <= k < e.literals.len() && (#[trigger] e.literals[k]).category == category
    ||| exists|k: int| 0 <= k < e.regexes.len() && (#[trigger] e.regexes[k]).category == category
    ||| e.scanner && category == SCANNER@
}

/// The rules of the first tier, ready to run.
pub struct RuleEngine {
    literals: AhoCorasick,
    /// The literals by their numbers in the automaton.
    literal_rules: Vec<(&'static str, &'static str, u32)>,
    regexes: Vec<(Regex, &'static str, u32)>,
    scanner_enabled: bool,
}

/// A compiled regular expression as a rule.
pub open spec fn regex_view(row: (Regex, &'static str, u32)) -> RuleView {
    RuleView { pattern: regex_source(row.0), category: row.1@, score: row.2 }
}

/// Compiled regular expressions as rules.
pub open spec fn regex_views(rows: Seq<(Regex, &'static str, u32)>) -> Seq<RuleView> {
    Seq::new(rows.len(), |i: int| regex_view(rows[i]))
}

impl View for RuleEngine {
    type V = EngineView;

    closed spec fn view(&self) -> EngineView {
        EngineView {
            literals: rule_views(self.literal_rules@),
            regexes: regex_views(self.regexes@),
            scanner: self.scanner_enabled,
        }
    }
}

/// No more rules than the tables hold, none of a score of 0 or above 100, and no
/// empty literal.
spec fn moderate(e: EngineView) -> bool {
    &&& e.literals.len() <= LITERAL_RULES@.len()
    &&& e.regexes.len() <= REGEX_DEFS@.len()
    &&& forall|k: int| 0 <= k < e.literals.len() ==> 0 < (#[trigger] e.literals[k]).score <= 100
    &&& forall|k: int| 0 <= k < e.literals.len() ==> (#[trigger] e.literals[k]).pattern.len() > 0
    &&& forall|k: int| 0 <= k < e.regexes.len() ==> 0 < (#[trigger] e.regexes[k]).score <= 100
}

/// There are no more hits than literals and `extra` others, and none of them
/// scores above 100.
spec fn within(e: EngineView, hits: Seq<HitView>, extra: nat) -> bool {
    &&& exists|ids: Set<int>|
        {
            &&& #[trigger] ids.subset_of(set_int_range(0, e.literals.len() as int))
            &&& hits.len() <= ids.len() + extra
            &&& forall|k: int| #[trigger]
                ids.contains(k) ==> mentions(
                    hits,
                    e.literals[k].category,
                    e.literals[k].pattern,
                )
        }
    &&& forall|i: int| 0 <= i < hits.len() ==> (#[trigger] hits[i]).score <= 100
}

proof fn lemma_total_bound(hits: Seq<HitView>)
    requires
        forall|i: int| 0 <= i < hits.len() ==> (#[trigger] hits[i]).score <= 100,
    ensures
        total_score(hits) <= 100 * hits.len(),
    decreases hits.len(),
{
    if hits.len() > 0 {
        let front = hits.drop_last();
        assert forall|i: int| 0 <= i < front.len() implies (#[trigger] front[i]).score <= 100 by {
            assert(front[i] == hits[i]);
        }
        lemma_total_bound(front);
    }
}

proof fn lemma_within_bound(e: EngineView, hits: Seq<HitView>, extra: nat)
    requires
        within(e, hits, extra),
        moderate(e),
    ensures
        hits.len() <= e.literals.len() + extra,
        total_score(hits) <= 100 * (LITERAL_RULES@.len() + extra),
{
    let ids = choose|ids: Set<int>|
        {
            &&& #[trigger] ids.subset_of(set_int_range(0, e.literals.len() as int))
            &&& hits.len() <= ids.len() + extra
            &&& forall|k: int| #[trigger]
                ids.contains(k) ==> mentions(
                    hits,
                    e.literals[k].category,
                    e.literals[k].pattern,
                )
        };
    lemma_int_range(0, e.literals.len() as int);
    lemma_len_subset(ids, set_int_range(0, e.literals.len() as int));
    lemma_total_bound(hits);
}

proof fn lemma_mentions_push(
    hits: Seq<HitView>,
    h: HitView,
    category: Seq<char>,
    pattern: Seq<char>,
)
    ensures
        mentions(hits, category, pattern) ==> mentions(hits.push(h), category, pattern),
        mentions(hits.push(h), h.category, h.pattern),
        mentions(hits.push(h), category, pattern) ==> mentions(hits, category, pattern) || (
        h.category == category && h.pattern == pattern),
{
    let more = hits.push(h);
    if mentions(hits, category, pattern) {
        let i = choose|i: int|
            0 <= i < hits.len() && (#[trigger] hits[i]).category == category && hits[i].pattern
                == pattern;
        assert(more[i] == hits[i]);
    }
    assert(more[hits.len() as int] == h);
    if mentions(more, category, pattern) {
        let i = choose|i: int|
            0 <= i < more.len() && (#[trigger] more[i]).category == category && more[i].pattern
                == pattern;
        if i < hits.len() {
            assert(hits[i] == more[i]);
        }
    }
}

proof fn lemma_note_literal(e: EngineView, hits: Seq<HitView>, extra: nat, k: int)
    requires
        within(e, hits, extra),
        moderate(e),
        0 <= k < e.literals.len(),
    ensures
        within(e, noted(hits, rule_hit(e.literals[k])), extra),
{
    let h = rule_hit(e.literals[k]);
    if !mentions(hits, h.category, h.pattern) {
        let ids = choose|ids: Set<int>|
            {
                &&& #[trigger] ids.subset_of(set_int_range(0, e.literals.len() as int))
                &&& hits.len() <= ids.len() + extra
                &&& forall|k: int| #[trigger]
                    ids.contains(k) ==> mentions(
                        hits,
                        e.literals[k].category,
                        e.literals[k].pattern,
                    )
            };
        lemma_int_range(0, e.literals.len() as int);
        lemma_len_subset(ids, set_int_range(0, e.literals.len() as int));
        let more = ids.insert(k);
        let after = hits.push(h);
        assert forall|j: int| #[trigger] more.contains(j) implies mentions(
            after,
            e.literals[j].category,
            e.literals[j].pattern,
        ) by {
            lemma_mentions_push(hits, h, e.literals[j].category, e.literals[j].pattern);
        }
        assert(more.subset_of(set_int_range(0, e.literals.len() as int)));
        assert forall|i: int| 0 <= i < after.len() implies (#[trigger] after[i]).score <= 100 by {
            if i < hits.len() {
                assert(after[i] == hits[i]);
            }
        }
    }
}

proof fn lemma_note_other(e: EngineView, hits: Seq<HitView>, extra: nat, h: HitView)
    requires
        within(e, hits, extra),
        h.score <= 100,
    ensures
        within(e, noted(hits, h), extra + 1),
{
    let ids = choose|ids: Set<int>|
        {
            &&& #[trigger] ids.subset_of(set_int_range(0, e.literals.len() as int))
            &&& hits.len() <= ids.len() + extra
            &&& forall|k: int| #[trigger]
                ids.contains(k) ==> mentions(
                    hits,
                    e.literals[k].category,
                    e.literals[k].pattern,
                )
        };
    let after = noted(hits, h);
    assert forall|j: int| #[trigger] ids.contains(j) implies mentions(
        after,
        e.literals[j].category,
        e.literals[j].pattern,
    ) by {
        lemma_mentions_push(hits, h, e.literals[j].category, e.literals[j].pattern);
    }
    assert(ids.subset_of(set_int_range(0, e.literals.len() as int)));
    assert forall|i: int| 0 <= i < after.len() implies (#[trigger] after[i]).score <= 100 by {
        if i < hits.len() {
            assert(after[i] == hits[i]);
        }
    }
}

proof fn lemma_within_more(e: EngineView, hits: Seq<HitView>, extra: nat, more: nat)
    requires
        within(e, hits, extra),
        extra <= more,
    ensures
        within(e, hits, more),
{
    let ids = choose|ids: Set<int>|
        {
            &&& #[trigger] ids.subset_of(set_int_range(0, e.literals.len() as int))
            &&& hits.len() <= ids.len() + extra
            &&& forall|k: int| #[trigger]
                ids.contains(k) ==> mentions(
                    hits,
                    e.literals[k].category,
                    e.literals[k].pattern,
                )
        };
    assert(ids.subset_of(set_int_range(0, e.literals.len() as int)));
}

proof fn lemma_within_empty(e: EngineView)
    ensures
        within(e, Seq::empty(), 0),
{
    let ids = Set::<int>::empty();
    assert(ids.subset_of(set_int_range(0, e.literals.len() as int)));
}

pub(crate) proof fn lemma_all_noted_concat(hits: Seq<HitView>, a: Seq<HitView>, b: Seq<HitView>)
    ensures
        all_noted(hits, a + b) == all_noted(all_noted(hits, a), b),
    decreases b.len(),
{
    if b.len() == 0 {
        assert(a + b == a);
    } else {
        assert((a + b).drop_last() == a + b.drop_last());
        lemma_all_noted_concat(hits, a, b.drop_last());
    }
}

pub(crate) proof fn lemma_all_noted_keeps(
    hits: Seq<HitView>,
    more: Seq<HitView>,
    category: Seq<char>,
    pattern: Seq<char>,
)
    requires
        mentions(hits, category, pattern) || mentions(more, category, pattern),
    ensures
        mentions(all_noted(hits, more), category, pattern),
    decreases more.len(),
{
    if more.len() > 0 {
        let before = all_noted(hits, more.drop_last());
        let h = more.last();
        if h.category == category && h.pattern == pattern {
            lemma_mentions_push(before, h, category, pattern);
        } else {
            if mentions(more, category, pattern) {
                let i = choose|i: int|
                    0 <= i < more.len() && (#[trigger] more[i]).category == category
                        && more[i].pattern == pattern;
                assert(more.drop_last()[i] == more[i]);
            }
            lemma_all_noted_keeps(hits, more.drop_last(), category, pattern);
            lemma_mentions_push(before, h, category, pattern);
        }
    }
}

proof fn lemma_noted_score(hits: Seq<HitView>, h: HitView)
    ensures
        total_score(noted(hits, h)) == total_score(hits) + if mentions(hits, h.category, h.pattern) {
            0
        } else {
            h.score as nat
        },
{
    assert(hits.push(h).drop_last() == hits);
}

/// Notes a hit, unless its category and pattern are there already.
fn record(det: &mut Detection, category: &str, pattern: String, score: u32)
    requires
        mentions(old(det)@.hits, category@, pattern@) || old(det).score + score <= u32::MAX,
    ensures
        mentions(old(det)@.hits, category@, pattern@) ==> *final(det) == *old(det),
        !mentions(old(det)@.hits, category@, pattern@) ==> final(det)@ == (DetectionView {
            score: (old(det).score + score) as u32,
            hits: old(det)@.hits.push(
                HitView { category: category@, pattern: pattern@, score },
            ),
        }),
{
    let ghost h = HitView { category: category@, pattern: pattern@, score };
    let ghost before = det@.hits;
    let mut i: usize = 0;
    while i < det.hits.len()
        invariant
            i <= det.hits@.len(),
            before == det@.hits,
            h == (HitView { category: category@, pattern: pattern@, score }),
            *det == *old(det),
            forall|j: int|
                0 <= j < i ==> (#[trigger] before[j]).category != h.category || before[j].pattern
                    != h.pattern,
        decreases det.hits@.len() - i,
    {
        if same_text(det.hits[i].category.as_str(), category) && same_text(
            det.hits[i].pattern.as_str(),
            pattern.as_str(),
        ) {
            assert(before[i as int].category == h.category);
            assert(mentions(before, h.category, h.pattern));
            return;
        }
        i += 1;
    }
    assert(!mentions(before, h.category, h.pattern));
    det.score = det.score + score;
    det.hits.push(Hit { category: category.to_owned(), pattern, score });
    assert(hit_views(det.hits@) == before.push(h));
}

impl RuleEngine {
    #[verifier::type_invariant]
    spec fn well_formed(self) -> bool {
        &&& automaton_reports_overlaps(self.literals)
        &&& automaton_patterns(self.literals) == patterns_of(rule_views(self.literal_rules@))
        &&& moderate(
            EngineView {
                literals: rule_views(self.literal_rules@),
                regexes: regex_views(self.regexes@),
                scanner: self.scanner_enabled,
            },
        )
    }

    /// The literals whose category is not disabled.
    fn enabled_literals(disabled: &[String]) -> (r: Vec<(&'static str, &'static str, u32)>)
        ensures
            rule_views(r@) == enabled(rule_views(LITERAL_RULES@), texts(disabled@)),
            r@.len() <= LITERAL_RULES@.len(),
            forall|i: int| 0 <= i < r@.len() ==> 0 < (#[trigger] r@[i]).2 <= 100,
            forall|i: int| 0 <= i < r@.len() ==> (#[trigger] r@[i]).0@.len() > 0,
    {
        let mut r: Vec<(&'static str, &'static str, u32)> = Vec::new();
        let ghost table = rule_views(LITERAL_RULES@);
        let n: usize = LITERAL_RULES.len();
        let mut i: usize = 0;
        proof {
            lemma_scores();
            lemma_literals();
            assert(rule_views(r@) =~= enabled(table.take(0), texts(disabled@)));
        }
        while i < n
            invariant
                i <= n == LITERAL_RULES@.len(),
                table == rule_views(LITERAL_RULES@),
                rule_views(r@) == enabled(table.take(i as int), texts(disabled@)),
                r@.len() <= i,
                forall|j: int| 0 <= j < r@.len() ==> 0 < (#[trigger] r@[j]).2 <= 100,
                forall|j: int| 0 <= j < r@.len() ==> (#[trigger] r@[j]).0@.len() > 0,
                forall|j: int|
                    0 <= j < LITERAL_RULES@.len() ==> 0 < (#[trigger] LITERAL_RULES@[j]).2 <= 100,
                forall|j: int|
                    0 <= j < LITERAL_RULES@.len() ==> (#[trigger] LITERAL_RULES@[j]).0@.len() > 0,
            decreases n - i,
        {
            proof {
                assert(table.take(i + 1).drop_last() == table.take(i as int));
                assert(table.take(i + 1).last() == rule_view(LITERAL_RULES@[i as int]));
            }
            let row: (&'static str, &'static str, u32) = LITERAL_RULES[i];
            if !is_among(disabled, row.1) {
                let ghost before = r@;
                r.push(row);
                assert(rule_views(r@) =~= rule_views(before).push(rule_view(row)));
            }
            i += 1;
        }
        assert(table.take(i as int) == table);
        r
    }

    /// The regular expressions whose category is not disabled.
    fn enabled_regexes(disabled: &[String]) -> (r: Vec<(&'static str, &'static str, u32)>)
        ensures
            rule_views(r@) == enabled(rule_views(REGEX_DEFS@), texts(disabled@)),
            r@.len() <= REGEX_DEFS@.len(),
            forall|i: int| 0 <= i < r@.len() ==> 0 < (#[trigger] r@[i]).2 <= 100,
    {
        let mut r: Vec<(&'static str, &'static str, u32)> = Vec::new();
        let ghost table = rule_views(REGEX_DEFS@);
        let n: usize = REGEX_DEFS.len();
        let mut i: usize = 0;
        proof {
            lemma_scores();
            assert(rule_views(r@) =~= enabled(table.take(0), texts(disabled@)));
        }
        while i < n
            invariant
                i <= n == REGEX_DEFS@.len(),
                table == rule_views(REGEX_DEFS@),
                rule_views(r@) == enabled(table.take(i as int), texts(disabled@)),
                r@.len() <= i,
                forall|j: int| 0 <= j < r@.len() ==> 0 < (#[trigger] r@[j]).2 <= 100,
                forall|j: int|
                    0 <= j < REGEX_DEFS@.len() ==> 0 < (#[trigger] REGEX_DEFS@[j]).2 <= 100,
            decreases n - i,
        {
            proof {
                assert(table.take(i + 1).drop_last() == table.take(i as int));
                assert(table.take(i + 1).last() == rule_view(REGEX_DEFS@[i as int]));
            }
            let row: (&'static str, &'static str, u32) = REGEX_DEFS[i];
            if !is_among(disabled, row.1) {
                let ghost before = r@;
                r.push(row);
                assert(rule_views(r@) =~= rule_views(before).push(rule_view(row)));
            }
            i += 1;
        }
        assert(table.take(i as int) == table);
        r
    }

    /// The patterns of some rules.
    fn patterns(rules: &Vec<(&'static str, &'static str, u32)>) -> (r: Vec<&'static str>)
        ensures
            slice_texts(r@) == patterns_of(rule_views(rules@)),
    {
        let mut r: Vec<&'static str> = Vec::new();
        let mut i: usize = 0;
        while i < rules.len()
            invariant
                i <= rules@.len(),
                r@.len() == i,
                forall|j: int| 0 <= j < i ==> (#[trigger] r@[j]) == rules@[j].0,
            decreases rules@.len() - i,
        {
            r.push(rules[i].0);
            i += 1;
        }
        assert(slice_texts(r@) =~= patterns_of(rule_views(rules@)));
        r
    }

    /// An engine with all rules.
    pub fn new() -> (r: Self)
        requires
            buildable(Seq::empty()),
        ensures
            r@ == engine_without(Seq::empty()),
    {
        let none: Vec<String> = Vec::new();
        assert(texts(none@) == Seq::<Seq<char>>::empty());
        Self::new_filtered(none.as_slice())
    }

    /// An engine without the rules of the disabled categories. The category of
    /// the scanners is `Scanner`.
    pub fn new_filtered(disabled: &[String]) -> (r: Self)
        requires
            buildable(texts(disabled@)),
        ensures
            r@ == engine_without(texts(disabled@)),
    {
        let literal_rules: Vec<(&'static str, &'static str, u32)> = Self::enabled_literals(
            disabled,
        );
        let patterns: Vec<&'static str> = Self::patterns(&literal_rules);
        let literals: AhoCorasick = build_automaton(&patterns).unwrap();

        let defs: Vec<(&'static str, &'static str, u32)> = Self::enabled_regexes(disabled);
        let ghost e = engine_without(texts(disabled@));
        let mut regexes: Vec<(Regex, &'static str, u32)> = Vec::new();
        let mut i: usize = 0;
        while i < defs.len()
            invariant
                i <= defs@.len(),
                regexes@.len() == i,
                rule_views(defs@) == e.regexes,
                forall|j: int|
                    0 <= j < e.regexes.len() ==> regex_compiles((#[trigger] e.regexes[j]).pattern),
                forall|j: int|
                    0 <= j < i ==> regex_view(#[trigger] regexes@[j]) == rule_view(defs@[j]),
            decreases defs@.len() - i,
        {
            assert(e.regexes[i as int] == rule_view(defs@[i as int]));
            let re: Regex = compile_regex(defs[i].0).unwrap();
            regexes.push((re, defs[i].1, defs[i].2));
            i += 1;
        }
        let scanner_enabled: bool = !is_among(disabled, SCANNER);
        proof {
            assert(regex_views(regexes@) =~= rule_views(defs@));
            assert forall|k: int| 0 <= k < rule_views(literal_rules@).len() implies 0 < (
            #[trigger] rule_views(literal_rules@)[k]).score <= 100 by {
                assert(0 < literal_rules@[k].2 <= 100);
            }
            assert forall|k: int| 0 <= k < rule_views(literal_rules@).len() implies (
            #[trigger] rule_views(literal_rules@)[k]).pattern.len() > 0 by {
                assert(literal_rules@[k].0@.len() > 0);
            }
            assert forall|k: int| 0 <= k < regex_views(regexes@).len() implies 0 < (
            #[trigger] regex_views(regexes@)[k]).score <= 100 by {
                assert(rule_views(defs@)[k] == regex_views(regexes@)[k]);
                assert(0 < defs@[k].2 <= 100);
            }
        }
        RuleEngine { literals, literal_rules, regexes, scanner_enabled }
    }

    /// Can an engine be built without the rules of the disabled categories, or
    /// why not?
    fn check(disabled: &[String]) -> (r: Result<(), EngineError>)
        ensures
            match r {
                Ok(_) => buildable(texts(disabled@)),
                Err(e) => not_buildable(texts(disabled@), e),
            },
    {
        let ghost e = engine_without(texts(disabled@));
        let literal_rules: Vec<(&'static str, &'static str, u32)> = Self::enabled_literals(
            disabled,
        );
        let patterns: Vec<&'static str> = Self::patterns(&literal_rules);
        match build_automaton(&patterns) {
            Ok(_) => {},
            Err(_) => {
                return Err(EngineError::Literals);
            },
        }
        let defs: Vec<(&'static str, &'static str, u32)> = Self::enabled_regexes(disabled);
        let mut i: usize = 0;
        while i < defs.len()
            invariant
                i <= defs@.len(),
                e == engine_without(texts(disabled@)),
                automaton_builds(patterns_of(e.literals)),
                rule_views(defs@) == e.regexes,
                forall|j: int| 0 <= j < i ==> regex_compiles((#[trigger] e.regexes[j]).pattern),
            decreases defs@.len() - i,
        {
            assert(e.regexes[i as int] == rule_view(defs@[i as int]));
            match compile_regex(defs[i].0) {
                Ok(_) => {},
                Err(_) => {
                    return Err(EngineError::Regex(defs[i].0.to_owned()));
                },
            }
            i += 1;
        }
        Ok(())
    }

    /// An engine with all rules, or the reason why there is none.
    pub fn try_new() -> (r: Result<Self, EngineError>)
        ensures
            match r {
                Ok(e) => buildable(Seq::empty()) && e@ == engine_without(Seq::empty()),
                Err(e) => not_buildable(Seq::empty(), e),
            },
    {
        let none: Vec<String> = Vec::new();
        assert(texts(none@) == Seq::<Seq<char>>::empty());
        match Self::check(none.as_slice()) {
            Ok(_) => Ok(Self::new()),
            Err(e) => Err(e),
        }
    }

    /// An engine without the rules of the disabled categories, or the reason
    /// why there is none.
    pub fn try_new_filtered(disabled: &[String]) -> (r: Result<Self, EngineError>)
        ensures
            match r {
                Ok(e) => buildable(texts(disabled@)) && e@ == engine_without(texts(disabled@)),
                Err(e) => not_buildable(texts(disabled@), e),
            },
    {
        match Self::check(disabled) {
            Ok(_) => Ok(Self::new_filtered(disabled)),
            Err(e) => Err(e),
        }
    }

    /// What the searches find in one text.
    fn search(&self, hay: &str) -> (r: Found)
        ensures
            fits(self@, r),
            found_hits(self@, r) == text_hits(self@, hay@),
            forall|k: int|
                0 <= k < self@.literals.len() && occurs_ignoring_case(
                    hay@,
                    (#[trigger] self@.literals[k]).pattern,
                ) ==> mentions(
                    text_hits(self@, hay@),
                    self@.literals[k].category,
                    self@.literals[k].pattern,
                ),
            forall|i: int|
                0 <= i < text_hits(self@, hay@).len() ==> earned_in(
                    self@,
                    hay@,
                    #[trigger] text_hits(self@, hay@)[i],
                ),
    {
        proof {
            use_type_invariant(self);
        }
        let ghost e = self@;
        proof {
            assert forall|k: int| 0 <= k < patterns_of(e.literals).len() implies (
            #[trigger] patterns_of(e.literals)[k]).len() > 0 by {
                assert(patterns_of(e.literals)[k] == e.literals[k].pattern);
            }
        }
        let ids: Vec<usize> = find_overlapping(&self.literals, hay);
        let mut regexes: Vec<Option<String>> = Vec::new();
        let mut n: usize = 0;
        while n < self.regexes.len()
            invariant
                n <= self.regexes@.len(),
                n == regexes@.len(),
                e == self@,
                e.regexes == regex_views(self.regexes@),
                forall|j: int|
                    0 <= j < n ==> (#[trigger] match_views(regexes@)[j]) == regex_first_match(
                        e.regexes[j].pattern,
                        hay@,
                    ),
                forall|j: int|
                    0 <= j < n ==> (regex_first_match((#[trigger] e.regexes[j]).pattern, hay@)
                        matches Some(m) ==> occurs(hay@, m)),
            decreases self.regexes@.len() - n,
        {
            let ghost before = match_views(regexes@);
            let m: Option<String> = find_regex(&self.regexes[n].0, hay);
            regexes.push(m);
            proof {
                assert(e.regexes[n as int] == regex_view(self.regexes@[n as int]));
                assert forall|j: int| 0 <= j < n + 1 implies (#[trigger] match_views(regexes@)[j])
                    == regex_first_match(e.regexes[j].pattern, hay@) by {
                    if j < n {
                        assert(match_views(regexes@)[j] == before[j]);
                    }
                }
            }
            n += 1;
        }
        proof {
            lemma_match_hits(e.regexes, match_views(regexes@), hay@);
            lemma_literals_found(e, ids@, hay@);
            lemma_text_hits_earned(e, hay@);
        }
        Found { literals: ids, regexes }
    }

    /// Notes the hits in one text by what was found in it.
    fn note(&self, det: &mut Detection, found: &Found, Ghost(extra): Ghost<nat>)
        requires
            fits(self@, *found),
            old(det)@.score == total_score(old(det)@.hits),
            within(self@, old(det)@.hits, extra),
            extra <= 100,
        ensures
            final(det)@.score == total_score(final(det)@.hits),
            final(det)@.hits == all_noted(old(det)@.hits, found_hits(self@, *found)),
            within(self@, final(det)@.hits, extra + REGEX_DEFS@.len()),
    {
        proof {
            use_type_invariant(self);
        }
        let ghost e = self@;
        let ghost start = det@.hits;
        let ghost lits = id_hits(e.literals, found.literals@);
        let mut i: usize = 0;
        while i < found.literals.len()
            invariant
                i <= found.literals@.len(),
                e == self@,
                e.literals == rule_views(self.literal_rules@),
                moderate(e),
                extra <= 100,
                lits == id_hits(e.literals, found.literals@),
                forall|j: int|
                    0 <= j < found.literals@.len() ==> (#[trigger] found.literals@[j])
                        < e.literals.len(),
                det@.score == total_score(det@.hits),
                within(e, det@.hits, extra),
                det@.hits == all_noted(start, lits.take(i as int)),
            decreases found.literals@.len() - i,
        {
            let k: usize = found.literals[i];
            let rule: (&'static str, &'static str, u32) = self.literal_rules[k];
            proof {
                lemma_within_bound(e, det@.hits, extra);
                lemma_note_literal(e, det@.hits, extra, k as int);
                lemma_noted_score(det@.hits, rule_hit(e.literals[k as int]));
                assert(e.literals[k as int].score <= 100);
                assert(rule_view(rule) == e.literals[k as int]);
                assert(lits.take(i + 1).drop_last() == lits.take(i as int));
                assert(lits.take(i + 1).last() == rule_hit(e.literals[k as int]));
            }
            record(det, rule.1, rule.0.to_owned(), rule.2);
            i += 1;
        }
        assert(lits.take(i as int) == lits);
        let ghost middle = det@.hits;
        let ghost matches = match_views(found.regexes@);
        let mut n: usize = 0;
        while n < self.regexes.len()
            invariant
                n <= self.regexes@.len(),
                found.regexes@.len() == self.regexes@.len(),
                matches == match_views(found.regexes@),
                e == self@,
                e.regexes == regex_views(self.regexes@),
                moderate(e),
                extra <= 100,
                det@.score == total_score(det@.hits),
                within(e, det@.hits, extra + n as nat),
                det@.hits == all_noted(middle, match_hits(e.regexes.take(n as int), matches)),
            decreases self.regexes@.len() - n,
        {
            proof {
                lemma_within_bound(e, det@.hits, extra + n as nat);
                assert(e.regexes.take(n + 1).drop_last() == e.regexes.take(n as int));
                assert(e.regexes.take(n + 1).last() == e.regexes[n as int]);
                assert(e.regexes[n as int] == regex_view(self.regexes@[n as int]));
                assert(e.regexes[n as int].score <= 100);
            }
            let ghost front = match_hits(e.regexes.take(n as int), matches);
            let ghost next = match_hits(e.regexes.take(n + 1), matches);
            match &found.regexes[n] {
                Some(m) => {
                    proof {
                        let h = HitView {
                            category: e.regexes[n as int].category,
                            pattern: m@,
                            score: e.regexes[n as int].score,
                        };
                        assert(matches[n as int] == Some(m@));
                        lemma_note_other(e, det@.hits, extra + n as nat, h);
                        lemma_noted_score(det@.hits, h);
                        assert(next == front.push(h));
                        assert(next.drop_last() == front);
                    }
                    record(det, self.regexes[n].1, m.clone(), self.regexes[n].2);
                },
                None => {
                    proof {
                        assert(matches[n as int] is None);
                        lemma_within_more(e, det@.hits, extra + n as nat, extra + n as nat + 1);
                    }
                },
            }
            n += 1;
        }
        proof {
            assert(e.regexes.take(n as int) == e.regexes);
            lemma_within_more(e, det@.hits, extra + n as nat, extra + REGEX_DEFS@.len());
            lemma_all_noted_concat(start, lits, match_hits(e.regexes, matches));
        }
    }

    /// What the rules make of what was found in the text of a request as it
    /// came, in its decoded text and in its text without escapes, and of its user
    /// agent: each category and pattern counts once.
    pub fn collect(
        &self,
        raw: &Found,
        decoded: &Found,
        unescaped: &Found,
        user_agent: &str,
    ) -> (r: Detection)
        requires
            fits(self@, *raw),
            fits(self@, *decoded),
            fits(self@, *unescaped),
        ensures
            r@ == collected(self@, *raw, *decoded, *unescaped, user_agent@),
            r.score == total_score(r@.hits),
    {
        proof {
            use_type_invariant(self);
        }
        let ghost e = self@;
        let mut det: Detection = Detection::default();
        let ghost none = det@.hits;
        let ghost first = found_hits(e, *raw);
        let ghost second = found_hits(e, *decoded);
        let ghost third = found_hits(e, *unescaped);
        proof {
            assert(none =~= Seq::empty());
            lemma_within_empty(e);
        }
        self.note(&mut det, raw, Ghost(0));
        self.note(&mut det, decoded, Ghost(REGEX_DEFS@.len()));
        self.note(&mut det, unescaped, Ghost(2 * REGEX_DEFS@.len()));
        let ghost found = first + second + third;
        proof {
            lemma_all_noted_concat(none, first, second);
            lemma_all_noted_concat(none, first + second, third);
            assert(det@.hits == all_noted(none, found));
        }
        let ghost others: nat = 3 * REGEX_DEFS@.len();
        let ghost scanners: Seq<HitView> = Seq::empty();
        if self.scanner_enabled {
            let agent: Vec<char> = ascii_lower_chars(chars_of(user_agent).as_slice());
            let n: usize = SCANNER_UA.len();
            let ghost middle = det@.hits;
            let mut i: usize = 0;
            proof {
                lemma_scores();
                assert(SCANNER_UA@.take(0).len() == 0);
            }
            while i < n
                invariant
                    i <= n == SCANNER_UA@.len(),
                    n <= 100,
                    others == 3 * REGEX_DEFS@.len(),
                    e == self@,
                    moderate(e),
                    agent@ == ascii_lower_text(user_agent@),
                    det@.score == total_score(det@.hits),
                    within(e, det@.hits, others + i as nat),
                    det@.hits == all_noted(
                        middle,
                        scanner_hits(SCANNER_UA@.take(i as int), user_agent@),
                    ),
                    forall|j: int|
                        0 <= j < SCANNER_UA@.len() ==> 0 < (#[trigger] SCANNER_UA@[j]).1 <= 100,
                decreases n - i,
            {
                let row: (&'static str, u32) = SCANNER_UA[i];
                let ghost front = scanner_hits(SCANNER_UA@.take(i as int), user_agent@);
                let ghost next = scanner_hits(SCANNER_UA@.take(i + 1), user_agent@);
                proof {
                    lemma_within_bound(e, det@.hits, others + i as nat);
                    assert(SCANNER_UA@.take(i + 1).drop_last() == SCANNER_UA@.take(i as int));
                    assert(SCANNER_UA@.take(i + 1).last() == row);
                    assert(SCANNER_UA@[i as int].1 <= 100);
                }
                let needle: Vec<char> = chars_of(row.0);
                if contains(agent.as_slice(), needle.as_slice()) {
                    proof {
                        lemma_note_other(e, det@.hits, others + i as nat, scanner_hit(row));
                        lemma_noted_score(det@.hits, scanner_hit(row));
                        assert(next == front.push(scanner_hit(row)));
                        assert(next.drop_last() == front);
                    }
                    record(&mut det, SCANNER, row.0.to_owned(), row.1);
                } else {
                    proof {
                        lemma_within_more(e, det@.hits, others + i as nat, others + i as nat + 1);
                    }
                }
                i += 1;
            }
            proof {
                assert(SCANNER_UA@.take(i as int) == SCANNER_UA@);
                scanners = scanner_hits(SCANNER_UA@, user_agent@);
                lemma_within_bound(e, det@.hits, others + SCANNER_UA@.len());
            }
        } else {
            proof {
                lemma_within_bound(e, det@.hits, others);
            }
        }
        proof {
            lemma_all_noted_concat(none, found, scanners);
        }
        det
    }

    /// What the rules find in a request.
    pub fn inspect(&self, req: &RequestSummary) -> (r: Detection)
        ensures
            r@ == inspected(self@, *req),
            r.score == total_score(r@.hits),
            forall|k: int|
                0 <= k < self@.literals.len() && (occurs_ignoring_case(
                    raw_text(*req),
                    (#[trigger] self@.literals[k]).pattern,
                ) || occurs_ignoring_case(decoded_text(*req), self@.literals[k].pattern)
                    || occurs_ignoring_case(unescaped_text(*req), self@.literals[k].pattern))
                    ==> mentions(r@.hits, self@.literals[k].category, self@.literals[k].pattern),
            forall|i: int|
                0 <= i < r@.hits.len() ==> earned(self@, *req, #[trigger] r@.hits[i]),
            forall|i: int| 0 <= i < r@.hits.len() ==> 0 < (#[trigger] r@.hits[i]).score <= 100,
            r.score == 0 <==> r@.hits.len() == 0,
    {
        proof {
            use_type_invariant(self);
        }
        let mut raw: String = req.path.clone();
        raw.append(" ");
        raw.append(req.query.as_str());
        raw.append(" ");
        raw.append(req.body.as_str());
        raw.append(" ");
        raw.append(req.headers.as_str());
        let decoded: String = percent_decode_lossy(raw.as_str());
        let fully: String = decode_escapes(decoded.as_str());
        let in_raw: Found = self.search(raw.as_str());
        let in_decoded: Found = self.search(decoded.as_str());
        let in_fully: Found = self.search(fully.as_str());
        let det: Detection = self.collect(
            &in_raw,
            &in_decoded,
            &in_fully,
            req.user_agent.as_str(),
        );
        proof {
            let e = self@;
            let first = text_hits(e, raw_text(*req));
            let second = text_hits(e, decoded_text(*req));
            let third = text_hits(e, unescaped_text(*req));
            let found = first + second + third;
            let scanners = if e.scanner {
                scanner_hits(SCANNER_UA@, req.user_agent@)
            } else {
                Seq::empty()
            };
            let all = found + scanners;
            assert(all =~= request_hits(e, *req));
            lemma_scanners_earned(SCANNER_UA@, req.user_agent@);
            assert forall|i: int| 0 <= i < all.len() implies earned(
                e,
                *req,
                #[trigger] all[i],
            ) by {
                if i < first.len() {
                    assert(all[i] == first[i]);
                } else if i < first.len() + second.len() {
                    assert(all[i] == second[i - first.len()]);
                } else if i < found.len() {
                    assert(all[i] == third[i - first.len() - second.len()]);
                } else {
                    assert(all[i] == scanners[i - found.len()]);
                }
            }
            lemma_scores();
            lemma_noted_come_from(Seq::empty(), all);
            assert forall|k: int|
                0 <= k < e.literals.len() && (occurs_ignoring_case(
                    raw_text(*req),
                    (#[trigger] e.literals[k]).pattern,
                ) || occurs_ignoring_case(decoded_text(*req), e.literals[k].pattern)
                    || occurs_ignoring_case(unescaped_text(*req), e.literals[k].pattern)) implies
            mentions(det@.hits, e.literals[k].category, e.literals[k].pattern) by {
                let c = e.literals[k].category;
                let p = e.literals[k].pattern;
                lemma_mentions_concat(first, second, c, p);
                lemma_mentions_concat(first + second, third, c, p);
                lemma_mentions_concat(found, scanners, c, p);
                lemma_all_noted_keeps(Seq::empty(), all, c, p);
            }
            assert forall|i: int| 0 <= i < det@.hits.len() implies earned(
                e,
                *req,
                #[trigger] det@.hits[i],
            ) && 0 < det@.hits[i].score <= 100 by {
                assert(all.contains(det@.hits[i]));
            }
            if det@.hits.len() > 0 {
                assert(det@.hits.last() == det@.hits[det@.hits.len() - 1]);
            }
        }
        det
    }
}

proof fn lemma_match_hits(
    rules: Seq<RuleView>,
    matches: Seq<Option<Seq<char>>>,
    hay: Seq<char>,
)
    requires
        rules.len() <= matches.len(),
        forall|j: int|
            0 <= j < rules.len() ==> (#[trigger] matches[j]) == regex_first_match(
                rules[j].pattern,
                hay,
            ),
    ensures
        match_hits(rules, matches) == regex_hits(rules, hay),
    decreases rules.len(),
{
    if rules.len() > 0 {
        let front = rules.drop_last();
        assert forall|j: int| 0 <= j < front.len() implies (#[trigger] matches[j])
            == regex_first_match(front[j].pattern, hay) by {
            assert(front[j] == rules[j]);
        }
        lemma_match_hits(front, matches, hay);
        assert(matches[rules.len() - 1] == regex_first_match(rules.last().pattern, hay));
    }
}

pub(crate) proof fn lemma_literals_found(e: EngineView, ids: Seq<usize>, hay: Seq<char>)
    requires
        e.literals.len() <= usize::MAX,
        forall|k: int| 0 <= k < e.literals.len() ==> (#[trigger] e.literals[k]).pattern.len() > 0,
        ids == overlapping_matches(patterns_of(e.literals), hay),
    ensures
        forall|i: int|
            0 <= i < ids.len() ==> (#[trigger] ids[i]) < e.literals.len() && occurs_ignoring_case(
                hay,
                e.literals[ids[i] as int].pattern,
            ),
        forall|k: int|
            0 <= k < e.literals.len() && occurs_ignoring_case(
                hay,
                (#[trigger] e.literals[k]).pattern,
            ) ==> mentions(text_hits(e, hay), e.literals[k].category, e.literals[k].pattern),
{
    let patterns = patterns_of(e.literals);
    assert forall|k: int| 0 <= k < patterns.len() implies (#[trigger] patterns[k]).len() > 0 by {
        assert(patterns[k] == e.literals[k].pattern);
    }
    assert forall|i: int| 0 <= i < ids.len() implies (#[trigger] ids[i]) < e.literals.len()
        && occurs_ignoring_case(hay, e.literals[ids[i] as int].pattern) by {
        assert(ids.contains(ids[i]));
        law_matches_are_occurrences(patterns, hay, ids[i]);
    }
    assert forall|k: int|
        0 <= k < e.literals.len() && occurs_ignoring_case(
            hay,
            (#[trigger] e.literals[k]).pattern,
        ) implies mentions(text_hits(e, hay), e.literals[k].category, e.literals[k].pattern) by {
        law_matches_are_occurrences(patterns, hay, k as usize);
        assert(patterns[k] == e.literals[k].pattern);
        let i = choose|i: int| 0 <= i < ids.len() && ids[i] == k as usize;
        let lits = literal_hits(e.literals, hay);
        assert(lits[i] == rule_hit(e.literals[k]));
        assert(text_hits(e, hay)[i] == lits[i]);
    }
}

pub(crate) proof fn lemma_regex_hits_come_from(rules: Seq<RuleView>, hay: Seq<char>)
    ensures
        forall|i: int|
            0 <= i < regex_hits(rules, hay).len() ==> exists|k: int|
                0 <= k < rules.len() && hit_of_regex(
                    #[trigger] rules[k],
                    hay,
                    #[trigger] regex_hits(rules, hay)[i],
                ),
    decreases rules.len(),
{
    if rules.len() > 0 {
        let front = rules.drop_last();
        lemma_regex_hits_come_from(front, hay);
        let before = regex_hits(front, hay);
        let after = regex_hits(rules, hay);
        assert forall|i: int| 0 <= i < after.len() implies exists|k: int|
            0 <= k < rules.len() && hit_of_regex(#[trigger] rules[k], hay, #[trigger] after[i]) by {
            if i < before.len() {
                assert(after[i] == before[i]);
                let k = choose|k: int|
                    0 <= k < front.len() && hit_of_regex(#[trigger] front[k], hay, before[i]);
                assert(rules[k] == front[k]);
            } else {
                assert(hit_of_regex(rules[rules.len() - 1], hay, after[i]));
            }
        }
    }
}

proof fn lemma_text_hits_earned(e: EngineView, hay: Seq<char>)
    requires
        e.literals.len() <= usize::MAX,
        forall|k: int| 0 <= k < e.literals.len() ==> (#[trigger] e.literals[k]).pattern.len() > 0,
        forall|k: int|
            0 <= k < e.regexes.len() ==> (regex_first_match(
                (#[trigger] e.regexes[k]).pattern,
                hay,
            ) matches Some(m) ==> occurs(hay, m)),
    ensures
        forall|i: int|
            0 <= i < text_hits(e, hay).len() ==> earned_in(e, hay, #[trigger] text_hits(e, hay)[i]),
{
    let ids = overlapping_matches(patterns_of(e.literals), hay);
    let lits = literal_hits(e.literals, hay);
    let rest = regex_hits(e.regexes, hay);
    let all = text_hits(e, hay);
    lemma_literals_found(e, ids, hay);
    lemma_regex_hits_come_from(e.regexes, hay);
    assert forall|i: int| 0 <= i < all.len() implies earned_in(e, hay, #[trigger] all[i]) by {
        if i < lits.len() {
            let k = ids[i] as int;
            assert(all[i] == rule_hit(e.literals[k]));
        } else {
            assert(all[i] == rest[i - lits.len()]);
            let k = choose|k: int|
                0 <= k < e.regexes.len() && hit_of_regex(
                    #[trigger] e.regexes[k],
                    hay,
                    rest[i - lits.len()],
                );
            assert(hit_of_regex(e.regexes[k], hay, all[i]));
        }
    }
}

pub(crate) proof fn lemma_scanners_earned(rows: Seq<(&'static str, u32)>, agent: Seq<char>)
    ensures
        forall|i: int|
            0 <= i < scanner_hits(rows, agent).len() ==> exists|k: int|
                0 <= k < rows.len() && hit_of_scanner(
                    #[trigger] rows[k],
                    agent,
                    #[trigger] scanner_hits(rows, agent)[i],
                ),
    decreases rows.len(),
{
    if rows.len() > 0 {
        let front = rows.drop_last();
        lemma_scanners_earned(front, agent);
        let before = scanner_hits(front, agent);
        let after = scanner_hits(rows, agent);
        assert forall|i: int| 0 <= i < after.len() implies exists|k: int|
            0 <= k < rows.len() && hit_of_scanner(
                #[trigger] rows[k],
                agent,
                #[trigger] after[i],
            ) by {
            if i < before.len() {
                assert(after[i] == before[i]);
                let k = choose|k: int|
                    0 <= k < front.len() && hit_of_scanner(#[trigger] front[k], agent, before[i]);
                assert(rows[k] == front[k]);
            } else {
                assert(hit_of_scanner(rows[rows.len() - 1], agent, after[i]));
            }
        }
    }
}

proof fn lemma_mentions_concat(
    a: Seq<HitView>,
    b: Seq<HitView>,
    category: Seq<char>,
    pattern: Seq<char>,
)
    ensures
        mentions(a, category, pattern) || mentions(b, category, pattern) ==> mentions(
            a + b,
            category,
            pattern,
        ),
{
    if mentions(a, category, pattern) {
        let i = choose|i: int|
            0 <= i < a.len() && (#[trigger] a[i]).category == category && a[i].pattern == pattern;
        assert((a + b)[i] == a[i]);
    } else if mentions(b, category, pattern) {
        let i = choose|i: int|
            0 <= i < b.len() && (#[trigger] b[i]).category == category && b[i].pattern == pattern;
        assert((a + b)[a.len() + i] == b[i]);
    }
}

pub(crate) proof fn lemma_noted_come_from(hits: Seq<HitView>, more: Seq<HitView>)
    ensures
        forall|i: int|
            0 <= i < all_noted(hits, more).len() ==> hits.contains(
                #[trigger] all_noted(hits, more)[i],
            ) || more.contains(all_noted(hits, more)[i]),
    decreases more.len(),
{
    if more.len() > 0 {
        let front = more.drop_last();
        lemma_noted_come_from(hits, front);
        let before = all_noted(hits, front);
        let after = all_noted(hits, more);
        assert forall|i: int| 0 <= i < after.len() implies hits.contains(#[trigger] after[i])
            || more.contains(after[i]) by {
            if i < before.len() {
                assert(after[i] == before[i]);
                if front.contains(before[i]) {
                    let j = choose|j: int| 0 <= j < front.len() && front[j] == before[i];
                    assert(more[j] == before[i]);
                }
            } else {
                assert(after[i] == more[more.len() - 1]);
            }
        }
    } else {
        assert forall|i: int| 0 <= i < hits.len() implies hits.contains(#[trigger] hits[i]) by {}
    }
}

/// No two hits of a detection have the same category and pattern.
pub proof fn law_hits_are_distinct(hits: Seq<HitView>)
    ensures
        forall|i: int, j: int|
            0 <= i < j < all_noted(Seq::empty(), hits).len() ==> (#[trigger] all_noted(
                Seq::empty(),
                hits,
            )[i]).category != (#[trigger] all_noted(Seq::empty(), hits)[j]).category || all_noted(
                Seq::empty(),
                hits,
            )[i].pattern != all_noted(Seq::empty(), hits)[j].pattern,
    decreases hits.len(),
{
    if hits.len() > 0 {
        law_hits_are_distinct(hits.drop_last());
        let before = all_noted(Seq::empty(), hits.drop_last());
        let after = all_noted(Seq::empty(), hits);
        let h = hits.last();
        assert forall|i: int, j: int| 0 <= i < j < after.len() implies (
        #[trigger] after[i]).category != (#[trigger] after[j]).category || after[i].pattern
            != after[j].pattern by {
            assert(before[i] == after[i]);
            if j < before.len() {
                assert(before[j] == after[j]);
            } else {
                assert(after[j] == h);
                assert(!mentions(before, h.category, h.pattern));
            }
        }
    }
}

/// Every hit in a request is mentioned in its detection.
pub proof fn law_no_hit_is_lost(e: EngineView, req: RequestSummary, i: int)
    requires
        0 <= i < request_hits(e, req).len(),
    ensures
        mentions(
            inspected(e, req).hits,
            request_hits(e, req)[i].category,
            request_hits(e, req)[i].pattern,
        ),
{
    let all = request_hits(e, req);
    assert(mentions(all, all[i].category, all[i].pattern));
    lemma_all_noted_keeps(Seq::empty(), all, all[i].category, all[i].pattern);
}

pub(crate) proof fn lemma_enabled(table: Seq<RuleView>, disabled: Seq<Seq<char>>)
    ensures
        enabled(table, disabled).len() <= table.len(),
        forall|i: int|
            0 <= i < enabled(table, disabled).len() ==> table.contains(
                #[trigger] enabled(table, disabled)[i],
            ),
        forall|i: int|
            0 <= i < enabled(table, disabled).len() ==> !disabled.contains(
                (#[trigger] enabled(table, disabled)[i]).category,
            ),
        forall|k: int|
            0 <= k < table.len() && !disabled.contains((#[trigger] table[k]).category)
                ==> enabled(table, disabled).contains(table[k]),
    decreases table.len(),
{
    if table.len() > 0 {
        let front = table.drop_last();
        lemma_enabled(front, disabled);
        let before = enabled(front, disabled);
        let after = enabled(table, disabled);
        assert forall|i: int| 0 <= i < after.len() implies !disabled.contains(
            (#[trigger] after[i]).category,
        ) && table.contains(after[i]) by {
            if i < before.len() {
                assert(after[i] == before[i]);
                let k = choose|k: int| 0 <= k < front.len() && front[k] == before[i];
                assert(table[k] == after[i]);
            } else {
                assert(table[table.len() - 1] == after[i]);
            }
        }
        assert forall|k: int|
            0 <= k < table.len() && !disabled.contains(
                (#[trigger] table[k]).category,
            ) implies after.contains(table[k]) by {
            if k < front.len() {
                assert(front[k] == table[k]);
                let i = choose|i: int| 0 <= i < before.len() && before[i] == front[k];
                assert(after[i] == table[k]);
            } else {
                assert(after[before.len() as int] == table[k]);
            }
        }
    }
}

/// An engine has no rule of a disabled category, and it has every rule of the
/// tables whose category is not disabled.
pub proof fn law_disabled_categories_are_skipped(disabled: Seq<Seq<char>>)
    ensures
        forall|c: Seq<char>|
            disabled.contains(c) ==> !(#[trigger] has_category(engine_without(disabled), c)),
        forall|k: int|
            0 <= k < LITERAL_RULES@.len() && !disabled.contains(
                (#[trigger] LITERAL_RULES@[k]).1@,
            ) ==> engine_without(disabled).literals.contains(rule_view(LITERAL_RULES@[k])),
        forall|k: int|
            0 <= k < REGEX_DEFS@.len() && !disabled.contains((#[trigger] REGEX_DEFS@[k]).1@)
                ==> engine_without(disabled).regexes.contains(rule_view(REGEX_DEFS@[k])),
{
    let lits = rule_views(LITERAL_RULES@);
    let res = rule_views(REGEX_DEFS@);
    lemma_enabled(lits, disabled);
    lemma_enabled(res, disabled);
    assert forall|k: int|
        0 <= k < LITERAL_RULES@.len() && !disabled.contains(
            (#[trigger] LITERAL_RULES@[k]).1@,
        ) implies engine_without(disabled).literals.contains(rule_view(LITERAL_RULES@[k])) by {
        assert(lits[k] == rule_view(LITERAL_RULES@[k]));
    }
    assert forall|k: int|
        0 <= k < REGEX_DEFS@.len() && !disabled.contains(
            (#[trigger] REGEX_DEFS@[k]).1@,
        ) implies engine_without(disabled).regexes.contains(rule_view(REGEX_DEFS@[k])) by {
        assert(res[k] == rule_view(REGEX_DEFS@[k]));
    }
}

proof fn lemma_occurs_in_concat(a: Seq<char>, s: Seq<char>, b: Seq<char>, needle: Seq<char>)
    requires
        occurs_ignoring_case(s, needle),
    ensures
        occurs_ignoring_case(a + s + b, needle),
{
    let hay = ascii_lower_text(s);
    let n = ascii_lower_text(needle);
    let at = choose|at: int| #[trigger] occurs_at(hay, n, at);
    let whole = ascii_lower_text(a + s + b);
    assert(whole.subrange(a.len() + at, a.len() + at + n.len()) =~= hay.subrange(
        at,
        at + n.len(),
    ));
    assert(occurs_at(whole, n, a.len() + at));
}

/// What stands in the path, in the query, in the body or in a header stands in
/// the inspected text.
pub proof fn law_every_part_is_inspected(req: RequestSummary, needle: Seq<char>)
    ensures
        occurs_ignoring_case(req.path@, needle) ==> occurs_ignoring_case(raw_text(req), needle),
        occurs_ignoring_case(req.query@, needle) ==> occurs_ignoring_case(raw_text(req), needle),
        occurs_ignoring_case(req.body@, needle) ==> occurs_ignoring_case(raw_text(req), needle),
        occurs_ignoring_case(req.headers@, needle) ==> occurs_ignoring_case(raw_text(req), needle),
{
    let none = Seq::<char>::empty();
    let raw = raw_text(req);
    let p = req.path@;
    let q = req.query@;
    let b = req.body@;
    let h = req.headers@;
    if occurs_ignoring_case(p, needle) {
        let after = " "@ + q + " "@ + b + " "@ + h;
        lemma_occurs_in_concat(none, p, after, needle);
        assert(none + p + after =~= raw);
    }
    if occurs_ignoring_case(q, needle) {
        let after = " "@ + b + " "@ + h;
        lemma_occurs_in_concat(p + " "@, q, after, needle);
        assert(p + " "@ + q + after =~= raw);
    }
    if occurs_ignoring_case(b, needle) {
        let after = " "@ + h;
        lemma_occurs_in_concat(p + " "@ + q + " "@, b, after, needle);
        assert(p + " "@ + q + " "@ + b + after =~= raw);
    }
    if occurs_ignoring_case(h, needle) {
        lemma_occurs_in_concat(p + " "@ + q + " "@ + b + " "@, h, none, needle);
        assert(p + " "@ + q + " "@ + b + " "@ + h + none =~= raw);
    }
}

} // verus!
