//! How the findings of different engines, and of different requests, relate.

use vstd::prelude::*;
use vstd::string::*;

use super::matcher::{
    ending_at, ending_of_length, lemma_ending_of_length, matches_at, matches_until,
    overlapping_matches,
};
use super::rules::{
    all_noted, decoded_text, enabled, engine_without, has_category, hit_of_regex, hit_of_scanner, id_hits,
    inspected, lemma_enabled, lemma_literals_found, lemma_regex_hits_come_from,
    lemma_scanners_earned, literal_hits, mentions, patterns_of, raw_text, regex_hits,
    request_hits, rule_hit, scanner_hits, text_hits, unescaped_text, EngineView,
};
use super::table::{
    lemma_categories, lemma_literals, rule_view, rule_views, RuleView, LITERAL_RULES, REGEX_DEFS,
    SCANNER, SCANNER_UA,
};
use super::verdict::{total_score, HitView, RequestSummary};
use crate::text::same_ignoring_case;

verus! {

/// The hits of the categories that are to be kept, in their order.
pub open spec fn hits_where(
    hits: Seq<HitView>,
    keep: spec_fn(Seq<char>) -> bool,
) -> Seq<HitView>
    decreases hits.len(),
{
    if hits.len() == 0 {
        Seq::empty()
    } else {
        let front = hits_where(hits.drop_last(), keep);
        if keep(hits.last().category) {
            front.push(hits.last())
        } else {
            front
        }
    }
}

/// All categories but some.
pub open spec fn not_among(names: Seq<Seq<char>>) -> spec_fn(Seq<char>) -> bool {
    |c: Seq<char>| !names.contains(c)
}

/// The category of the scanners.
pub open spec fn is_scanner() -> spec_fn(Seq<char>) -> bool {
    |c: Seq<char>| c == SCANNER@
}

/// All categories but that of the scanners.
pub open spec fn is_no_scanner() -> spec_fn(Seq<char>) -> bool {
    |c: Seq<char>| c != SCANNER@
}

proof fn lemma_where_concat(
    a: Seq<HitView>,
    b: Seq<HitView>,
    keep: spec_fn(Seq<char>) -> bool,
)
    ensures
        hits_where(a + b, keep) == hits_where(a, keep) + hits_where(b, keep),
    decreases b.len(),
{
    if b.len() == 0 {
        assert(a + b == a);
        assert(hits_where(a, keep) + hits_where(b, keep) == hits_where(a, keep));
    } else {
        assert((a + b).drop_last() == a + b.drop_last());
        lemma_where_concat(a, b.drop_last(), keep);
        assert(hits_where(a + b, keep) =~= hits_where(a, keep) + hits_where(b, keep));
    }
}

proof fn lemma_where_all(hits: Seq<HitView>, keep: spec_fn(Seq<char>) -> bool)
    requires
        forall|i: int| 0 <= i < hits.len() ==> keep((#[trigger] hits[i]).category),
    ensures
        hits_where(hits, keep) == hits,
    decreases hits.len(),
{
    if hits.len() > 0 {
        let front = hits.drop_last();
        assert forall|i: int| 0 <= i < front.len() implies keep((#[trigger] front[i]).category) by {
            assert(front[i] == hits[i]);
        }
        lemma_where_all(front, keep);
        assert(keep(hits[hits.len() - 1].category));
        assert(front.push(hits.last()) =~= hits);
    } else {
        assert(hits_where(hits, keep) =~= hits);
    }
}

proof fn lemma_where_none(hits: Seq<HitView>, keep: spec_fn(Seq<char>) -> bool)
    requires
        forall|i: int| 0 <= i < hits.len() ==> !keep((#[trigger] hits[i]).category),
    ensures
        hits_where(hits, keep) == Seq::<HitView>::empty(),
    decreases hits.len(),
{
    if hits.len() > 0 {
        let front = hits.drop_last();
        assert forall|i: int| 0 <= i < front.len() implies !keep(
            (#[trigger] front[i]).category,
        ) by {
            assert(front[i] == hits[i]);
        }
        lemma_where_none(front, keep);
        assert(!keep(hits[hits.len() - 1].category));
    }
}

proof fn lemma_where_mentions(
    hits: Seq<HitView>,
    keep: spec_fn(Seq<char>) -> bool,
    category: Seq<char>,
    pattern: Seq<char>,
)
    requires
        keep(category),
    ensures
        mentions(hits_where(hits, keep), category, pattern) == mentions(hits, category, pattern),
    decreases hits.len(),
{
    if hits.len() > 0 {
        let front = hits.drop_last();
        let h = hits.last();
        lemma_where_mentions(front, keep, category, pattern);
        assert(hits =~= front.push(h));
        lemma_mentions_last(front, h, category, pattern);
        lemma_mentions_last(hits_where(front, keep), h, category, pattern);
    }
}

proof fn lemma_mentions_last(
    hits: Seq<HitView>,
    h: HitView,
    category: Seq<char>,
    pattern: Seq<char>,
)
    ensures
        mentions(hits.push(h), category, pattern) == (mentions(hits, category, pattern) || (
        h.category == category && h.pattern == pattern)),
{
    let more = hits.push(h);
    assert(more[hits.len() as int] == h);
    if mentions(hits, category, pattern) {
        let i = choose|i: int|
            0 <= i < hits.len() && (#[trigger] hits[i]).category == category && hits[i].pattern
                == pattern;
        assert(more[i] == hits[i]);
    }
    if mentions(more, category, pattern) {
        let i = choose|i: int|
            0 <= i < more.len() && (#[trigger] more[i]).category == category && more[i].pattern
                == pattern;
        if i < hits.len() {
            assert(hits[i] == more[i]);
        }
    }
}

proof fn lemma_where_noted(
    hits: Seq<HitView>,
    more: Seq<HitView>,
    keep: spec_fn(Seq<char>) -> bool,
)
    ensures
        hits_where(all_noted(hits, more), keep) == all_noted(
            hits_where(hits, keep),
            hits_where(more, keep),
        ),
    decreases more.len(),
{
    if more.len() > 0 {
        let front = more.drop_last();
        let h = more.last();
        let before = all_noted(hits, front);
        lemma_where_noted(hits, front, keep);
        assert(before.push(h).drop_last() == before);
        if keep(h.category) {
            lemma_where_mentions(before, keep, h.category, h.pattern);
            let kept = hits_where(front, keep);
            assert(kept.push(h).drop_last() == kept);
        }
    }
}

proof fn lemma_where_score(hits: Seq<HitView>, keep: spec_fn(Seq<char>) -> bool)
    ensures
        total_score(hits_where(hits, keep)) <= total_score(hits),
    decreases hits.len(),
{
    if hits.len() > 0 {
        let front = hits.drop_last();
        lemma_where_score(front, keep);
        let kept = hits_where(front, keep);
        assert(kept.push(hits.last()).drop_last() == kept);
    }
}

proof fn lemma_where_keeps(hits: Seq<HitView>, keep: spec_fn(Seq<char>) -> bool)
    ensures
        forall|i: int|
            0 <= i < hits_where(hits, keep).len() ==> keep(
                (#[trigger] hits_where(hits, keep)[i]).category,
            ),
    decreases hits.len(),
{
    if hits.len() > 0 {
        lemma_where_keeps(hits.drop_last(), keep);
        let before = hits_where(hits.drop_last(), keep);
        let after = hits_where(hits, keep);
        assert forall|i: int| 0 <= i < after.len() implies keep((#[trigger] after[i]).category) by {
            if i < before.len() {
                assert(after[i] == before[i]);
            }
        }
    }
}

proof fn lemma_id_hits_concat(rules: Seq<RuleView>, a: Seq<usize>, b: Seq<usize>)
    ensures
        id_hits(rules, a + b) == id_hits(rules, a) + id_hits(rules, b),
{
    assert(id_hits(rules, a + b) =~= id_hits(rules, a) + id_hits(rules, b));
}

proof fn lemma_id_hits_of_prefix(rules: Seq<RuleView>, more: Seq<RuleView>, ids: Seq<usize>)
    requires
        forall|i: int| 0 <= i < ids.len() ==> (#[trigger] ids[i]) < rules.len(),
        rules.len() <= more.len(),
        forall|k: int| 0 <= k < rules.len() ==> more[k] == rules[k],
    ensures
        id_hits(more, ids) == id_hits(rules, ids),
{
    assert(id_hits(more, ids) =~= id_hits(rules, ids));
}

proof fn lemma_filtered_of_length(
    table: Seq<RuleView>,
    disabled: Seq<Seq<char>>,
    hay: Seq<char>,
    end: nat,
    len: nat,
)
    requires
        table.len() <= usize::MAX,
    ensures
        ({
            let e = enabled(table, disabled);
            id_hits(e, ending_of_length(patterns_of(e), hay, end, len)) == hits_where(
                id_hits(table, ending_of_length(patterns_of(table), hay, end, len)),
                not_among(disabled),
            )
        }),
    decreases table.len(),
{
    let e = enabled(table, disabled);
    let keep = not_among(disabled);
    let all = ending_of_length(patterns_of(table), hay, end, len);
    let some = ending_of_length(patterns_of(e), hay, end, len);
    if table.len() == 0 {
        assert(id_hits(e, some) =~= hits_where(id_hits(table, all), keep));
    } else {
        let front = table.drop_last();
        let last = table.last();
        let e_front = enabled(front, disabled);
        let front_all = ending_of_length(patterns_of(front), hay, end, len);
        let front_some = ending_of_length(patterns_of(e_front), hay, end, len);
        lemma_filtered_of_length(front, disabled, hay, end, len);
        lemma_enabled(front, disabled);
        lemma_ending_of_length(patterns_of(front), hay, end, len);
        lemma_ending_of_length(patterns_of(e_front), hay, end, len);
        assert forall|i: int| 0 <= i < front_all.len() implies (#[trigger] front_all[i])
            < front.len() by {
            assert(matches_at(patterns_of(front), hay, end, front_all[i]));
        }
        assert forall|i: int| 0 <= i < front_some.len() implies (#[trigger] front_some[i])
            < e_front.len() by {
            assert(matches_at(patterns_of(e_front), hay, end, front_some[i]));
        }
        lemma_id_hits_of_prefix(front, table, front_all);
        lemma_id_hits_of_prefix(e_front, e, front_some);
        assert(patterns_of(table).drop_last() =~= patterns_of(front));
        assert(patterns_of(table).last() == last.pattern);
        let n = (table.len() - 1) as usize;
        assert(id_hits(table, front_all.push(n)) =~= id_hits(table, front_all).push(
            rule_hit(last),
        ));
        assert(id_hits(table, front_all).push(rule_hit(last)).drop_last() =~= id_hits(
            table,
            front_all,
        ));
        if disabled.contains(last.category) {
            assert(e == e_front);
        } else {
            assert(patterns_of(e).drop_last() =~= patterns_of(e_front));
            assert(patterns_of(e).last() == last.pattern);
            let m = (e.len() - 1) as usize;
            assert(id_hits(e, front_some.push(m)) =~= id_hits(e, front_some).push(rule_hit(last)));
        }
    }
}

proof fn lemma_filtered_at(
    table: Seq<RuleView>,
    disabled: Seq<Seq<char>>,
    hay: Seq<char>,
    end: nat,
    longest: nat,
)
    requires
        table.len() <= usize::MAX,
    ensures
        ({
            let e = enabled(table, disabled);
            id_hits(e, ending_at(patterns_of(e), hay, end, longest)) == hits_where(
                id_hits(table, ending_at(patterns_of(table), hay, end, longest)),
                not_among(disabled),
            )
        }),
    decreases longest,
{
    let e = enabled(table, disabled);
    let keep = not_among(disabled);
    if longest == 0 {
        assert(id_hits(e, Seq::empty()) =~= hits_where(id_hits(table, Seq::empty()), keep));
    } else {
        let less = (longest - 1) as nat;
        lemma_filtered_of_length(table, disabled, hay, end, longest);
        lemma_filtered_at(table, disabled, hay, end, less);
        let a = ending_of_length(patterns_of(table), hay, end, longest);
        let b = ending_at(patterns_of(table), hay, end, less);
        lemma_id_hits_concat(table, a, b);
        lemma_where_concat(id_hits(table, a), id_hits(table, b), keep);
        lemma_id_hits_concat(
            e,
            ending_of_length(patterns_of(e), hay, end, longest),
            ending_at(patterns_of(e), hay, end, less),
        );
    }
}

proof fn lemma_filtered_until(
    table: Seq<RuleView>,
    disabled: Seq<Seq<char>>,
    hay: Seq<char>,
    end: nat,
)
    requires
        table.len() <= usize::MAX,
    ensures
        ({
            let e = enabled(table, disabled);
            id_hits(e, matches_until(patterns_of(e), hay, end)) == hits_where(
                id_hits(table, matches_until(patterns_of(table), hay, end)),
                not_among(disabled),
            )
        }),
    decreases end,
{
    let e = enabled(table, disabled);
    let keep = not_among(disabled);
    if end == 0 {
        assert(id_hits(e, Seq::empty()) =~= hits_where(id_hits(table, Seq::empty()), keep));
    } else {
        let less = (end - 1) as nat;
        lemma_filtered_until(table, disabled, hay, less);
        lemma_filtered_at(table, disabled, hay, end, end);
        let a = matches_until(patterns_of(table), hay, less);
        let b = ending_at(patterns_of(table), hay, end, end);
        lemma_id_hits_concat(table, a, b);
        lemma_where_concat(id_hits(table, a), id_hits(table, b), keep);
        lemma_id_hits_concat(
            e,
            matches_until(patterns_of(e), hay, less),
            ending_at(patterns_of(e), hay, end, end),
        );
    }
}

proof fn lemma_filtered_regexes(
    table: Seq<RuleView>,
    disabled: Seq<Seq<char>>,
    hay: Seq<char>,
)
    ensures
        regex_hits(enabled(table, disabled), hay) == hits_where(
            regex_hits(table, hay),
            not_among(disabled),
        ),
    decreases table.len(),
{
    if table.len() > 0 {
        let front = table.drop_last();
        lemma_filtered_regexes(front, disabled, hay);
        let before = regex_hits(front, hay);
        let e_front = enabled(front, disabled);
        assert(e_front.push(table.last()).drop_last() == e_front);
        assert forall|h: HitView| (#[trigger] before.push(h)).drop_last() == before by {
            assert(before.push(h).drop_last() =~= before);
        }
    }
}

proof fn lemma_enabled_all(table: Seq<RuleView>)
    ensures
        enabled(table, Seq::empty()) == table,
    decreases table.len(),
{
    if table.len() > 0 {
        lemma_enabled_all(table.drop_last());
        assert(table.drop_last().push(table.last()) =~= table);
    } else {
        assert(enabled(table, Seq::empty()) =~= table);
    }
}

proof fn lemma_filtered_text(disabled: Seq<Seq<char>>, hay: Seq<char>)
    ensures
        text_hits(engine_without(disabled), hay) == hits_where(
            text_hits(engine_without(Seq::empty()), hay),
            not_among(disabled),
        ),
{
    let literals = rule_views(LITERAL_RULES@);
    let regexes = rule_views(REGEX_DEFS@);
    lemma_enabled_all(literals);
    lemma_enabled_all(regexes);
    lemma_filtered_until(literals, disabled, hay, hay.len());
    lemma_filtered_regexes(regexes, disabled, hay);
    lemma_where_concat(
        literal_hits(literals, hay),
        regex_hits(regexes, hay),
        not_among(disabled),
    );
}

/// The hits of the scanners, if they are looked for.
spec fn scanners_of(e: EngineView, req: RequestSummary) -> Seq<HitView> {
    if e.scanner {
        scanner_hits(SCANNER_UA@, req.user_agent@)
    } else {
        Seq::empty()
    }
}

proof fn lemma_where_request(
    e: EngineView,
    req: RequestSummary,
    keep: spec_fn(Seq<char>) -> bool,
)
    ensures
        hits_where(request_hits(e, req), keep) == hits_where(text_hits(e, raw_text(req)), keep)
            + hits_where(text_hits(e, decoded_text(req)), keep) + hits_where(
            text_hits(e, unescaped_text(req)),
            keep,
        ) + hits_where(scanners_of(e, req), keep),
{
    let a = text_hits(e, raw_text(req));
    let b = text_hits(e, decoded_text(req));
    let c = text_hits(e, unescaped_text(req));
    lemma_where_concat(a, b, keep);
    lemma_where_concat(a + b, c, keep);
    lemma_where_concat(a + b + c, scanners_of(e, req), keep);
}

proof fn lemma_scanner_category(req: RequestSummary)
    ensures
        forall|i: int|
            0 <= i < scanner_hits(SCANNER_UA@, req.user_agent@).len() ==> (#[trigger] scanner_hits(
                SCANNER_UA@,
                req.user_agent@,
            )[i]).category == SCANNER@,
{
    let hits = scanner_hits(SCANNER_UA@, req.user_agent@);
    lemma_scanners_earned(SCANNER_UA@, req.user_agent@);
    assert forall|i: int| 0 <= i < hits.len() implies (#[trigger] hits[i]).category == SCANNER@ by {
        let k = choose|k: int|
            0 <= k < SCANNER_UA@.len() && hit_of_scanner(
                #[trigger] SCANNER_UA@[k],
                req.user_agent@,
                hits[i],
            );
    }
}

/// Without some categories just the other hits of the engine with all rules are
/// left, in their order; so none is of a disabled category, and the score is no
/// higher.
pub proof fn law_disabling_leaves_the_other_hits(disabled: Seq<Seq<char>>, req: RequestSummary)
    ensures
        ({
            let full = inspected(engine_without(Seq::empty()), req);
            let part = inspected(engine_without(disabled), req);
            &&& part.hits == hits_where(full.hits, not_among(disabled))
            &&& forall|i: int|
                0 <= i < part.hits.len() ==> !disabled.contains((#[trigger] part.hits[i]).category)
            &&& total_score(part.hits) <= total_score(full.hits)
        }),
{
    let all = engine_without(Seq::empty());
    let some = engine_without(disabled);
    let keep = not_among(disabled);
    lemma_filtered_text(disabled, raw_text(req));
    lemma_filtered_text(disabled, decoded_text(req));
    lemma_filtered_text(disabled, unescaped_text(req));
    lemma_where_request(all, req, keep);
    lemma_scanner_category(req);
    assert(all.scanner);
    if disabled.contains(SCANNER@) {
        lemma_where_none(scanners_of(all, req), keep);
    } else {
        lemma_where_all(scanners_of(all, req), keep);
    }
    assert(request_hits(some, req) == hits_where(request_hits(all, req), keep));
    lemma_where_noted(Seq::empty(), request_hits(all, req), keep);
    assert(hits_where(Seq::<HitView>::empty(), keep) == Seq::<HitView>::empty());
    lemma_where_score(inspected(all, req).hits, keep);
    lemma_where_keeps(inspected(all, req).hits, keep);
}

proof fn lemma_enabled_push(table: Seq<RuleView>, disabled: Seq<Seq<char>>, name: Seq<char>)
    requires
        forall|k: int| 0 <= k < table.len() ==> (#[trigger] table[k]).category != name,
    ensures
        enabled(table, disabled.push(name)) == enabled(table, disabled),
    decreases table.len(),
{
    if table.len() > 0 {
        let front = table.drop_last();
        assert forall|k: int| 0 <= k < front.len() implies (#[trigger] front[k]).category
            != name by {
            assert(front[k] == table[k]);
        }
        lemma_enabled_push(front, disabled, name);
        lemma_contains_push(disabled, name, table[table.len() - 1].category);
    }
}

proof fn lemma_contains_push(names: Seq<Seq<char>>, name: Seq<char>, other: Seq<char>)
    requires
        other != name,
    ensures
        names.push(name).contains(other) == names.contains(other),
{
    let more = names.push(name);
    if names.contains(other) {
        let i = choose|i: int| 0 <= i < names.len() && names[i] == other;
        assert(more[i] == other);
    }
    if more.contains(other) {
        let i = choose|i: int| 0 <= i < more.len() && more[i] == other;
        assert(names[i] == other);
    }
}

/// To disable a category that no rule is of changes nothing.
pub proof fn law_unknown_categories_change_nothing(disabled: Seq<Seq<char>>, name: Seq<char>)
    requires
        !has_category(engine_without(Seq::empty()), name),
    ensures
        engine_without(disabled.push(name)) == engine_without(disabled),
{
    let all = engine_without(Seq::empty());
    let literals = rule_views(LITERAL_RULES@);
    let regexes = rule_views(REGEX_DEFS@);
    lemma_enabled_all(literals);
    lemma_enabled_all(regexes);
    assert(all.scanner);
    assert(name != SCANNER@);
    assert forall|k: int| 0 <= k < literals.len() implies (#[trigger] literals[k]).category
        != name by {
        assert(all.literals[k].category == literals[k].category);
    }
    assert forall|k: int| 0 <= k < regexes.len() implies (#[trigger] regexes[k]).category
        != name by {
        assert(all.regexes[k].category == regexes[k].category);
    }
    lemma_enabled_push(literals, disabled, name);
    lemma_enabled_push(regexes, disabled, name);
    lemma_contains_push(disabled, name, SCANNER@);
}

/// The method and the client's address do not count: requests that agree in
/// everything else are found to be the same.
pub proof fn law_method_and_client_do_not_count(
    e: EngineView,
    a: RequestSummary,
    b: RequestSummary,
)
    requires
        a.path@ == b.path@,
        a.query@ == b.query@,
        a.body@ == b.body@,
        a.headers@ == b.headers@,
        a.user_agent@ == b.user_agent@,
    ensures
        inspected(e, a) == inspected(e, b),
{
}

/// The user agent leads to no other hits than those of scanners: requests that
/// agree in path, query, body and headers have the same other hits.
pub proof fn law_agent_leads_to_scanner_hits_only(
    e: EngineView,
    a: RequestSummary,
    b: RequestSummary,
)
    requires
        a.path@ == b.path@,
        a.query@ == b.query@,
        a.body@ == b.body@,
        a.headers@ == b.headers@,
    ensures
        hits_where(inspected(e, a).hits, is_no_scanner()) == hits_where(
            inspected(e, b).hits,
            is_no_scanner(),
        ),
{
    let keep = is_no_scanner();
    lemma_where_noted(Seq::empty(), request_hits(e, a), keep);
    lemma_where_noted(Seq::empty(), request_hits(e, b), keep);
    lemma_where_request(e, a, keep);
    lemma_where_request(e, b, keep);
    lemma_scanner_category(a);
    lemma_scanner_category(b);
    lemma_where_none(scanners_of(e, a), keep);
    lemma_where_none(scanners_of(e, b), keep);
}

proof fn lemma_text_has_no_scanner(disabled: Seq<Seq<char>>, hay: Seq<char>)
    ensures
        hits_where(text_hits(engine_without(disabled), hay), is_scanner()) == Seq::<
            HitView,
        >::empty(),
{
    let e = engine_without(disabled);
    let keep = is_scanner();
    let literals = rule_views(LITERAL_RULES@);
    let regexes = rule_views(REGEX_DEFS@);
    let ids = overlapping_matches(patterns_of(e.literals), hay);
    let lits = literal_hits(e.literals, hay);
    let rest = regex_hits(e.regexes, hay);
    let all = text_hits(e, hay);
    lemma_categories();
    lemma_literals();
    lemma_enabled(literals, disabled);
    lemma_enabled(regexes, disabled);
    assert forall|k: int| 0 <= k < e.literals.len() implies (#[trigger] e.literals[k]).category
        != SCANNER@ && e.literals[k].pattern.len() > 0 by {
        assert(literals.contains(e.literals[k]));
        let j = choose|j: int| 0 <= j < literals.len() && literals[j] == e.literals[k];
        assert(literals[j] == rule_view(LITERAL_RULES@[j]));
    }
    assert forall|k: int| 0 <= k < e.regexes.len() implies (#[trigger] e.regexes[k]).category
        != SCANNER@ by {
        assert(regexes.contains(e.regexes[k]));
        let j = choose|j: int| 0 <= j < regexes.len() && regexes[j] == e.regexes[k];
        assert(regexes[j] == rule_view(REGEX_DEFS@[j]));
    }
    lemma_literals_found(e, ids, hay);
    lemma_regex_hits_come_from(e.regexes, hay);
    assert forall|i: int| 0 <= i < all.len() implies !keep((#[trigger] all[i]).category) by {
        if i < lits.len() {
            assert(ids[i] < e.literals.len());
            assert(all[i] == rule_hit(e.literals[ids[i] as int]));
        } else {
            assert(all[i] == rest[i - lits.len()]);
            let k = choose|k: int|
                0 <= k < e.regexes.len() && hit_of_regex(
                    #[trigger] e.regexes[k],
                    hay,
                    rest[i - lits.len()],
                );
            assert(e.regexes[k].category != SCANNER@);
        }
    }
    lemma_where_none(all, keep);
}

proof fn lemma_same_agent(rows: Seq<(&'static str, u32)>, a: Seq<char>, b: Seq<char>)
    requires
        same_ignoring_case(a, b),
    ensures
        scanner_hits(rows, a) == scanner_hits(rows, b),
    decreases rows.len(),
{
    if rows.len() > 0 {
        lemma_same_agent(rows.drop_last(), a, b);
    }
}

/// Scanners are found by the user agent alone, ASCII case ignored: requests that
/// agree in it have the same hits of scanners, whatever else they hold.
pub proof fn law_scanners_are_found_by_the_agent(
    disabled: Seq<Seq<char>>,
    a: RequestSummary,
    b: RequestSummary,
)
    requires
        same_ignoring_case(a.user_agent@, b.user_agent@),
    ensures
        ({
            let e = engine_without(disabled);
            hits_where(inspected(e, a).hits, is_scanner()) == hits_where(
                inspected(e, b).hits,
                is_scanner(),
            )
        }),
{
    let e = engine_without(disabled);
    let keep = is_scanner();
    lemma_where_noted(Seq::empty(), request_hits(e, a), keep);
    lemma_where_noted(Seq::empty(), request_hits(e, b), keep);
    lemma_where_request(e, a, keep);
    lemma_where_request(e, b, keep);
    lemma_text_has_no_scanner(disabled, raw_text(a));
    lemma_text_has_no_scanner(disabled, decoded_text(a));
    lemma_text_has_no_scanner(disabled, unescaped_text(a));
    lemma_text_has_no_scanner(disabled, raw_text(b));
    lemma_text_has_no_scanner(disabled, decoded_text(b));
    lemma_text_has_no_scanner(disabled, unescaped_text(b));
    lemma_same_agent(SCANNER_UA@, a.user_agent@, b.user_agent@);
}

} // verus!
