//! What the laws speak of is what the values hold: nothing is lost or changed
//! between a value and its view, and what a function asks of its arguments is no
//! more than that its counts can be kept.

use vstd::prelude::*;
use vstd::string::*;

use crate::cli::{CliCommand, CommandView};
use crate::engine::llm::LlmDecision;
use crate::engine::matcher::slice_texts;
use crate::engine::ngram::NgramClassifier;
use crate::engine::rules::match_views;
use crate::engine::table::rule_views;
use crate::engine::verdict::{Detection, Hit, Verdict, VerdictView};
use crate::eval::report::{sums_fit, LlmStats};
use crate::eval::tally::{
    can_count, cell, entry_views, files, has_room_for, no_stats, no_tally, plausible, Entry,
    EntryView, Stats, Tally, TallyView,
};
use crate::json::{object_view, Json, JsonView};
use crate::learn::trial::{scored_views, Scored};
use crate::learn::Candidate;
use crate::pipeline::{client_countable, ip_view, Outcome, Step, StepView};
use crate::proxy::{header_views, hop_views};
use crate::state::{blocks_of, countable, ControlsView};
use crate::text::texts;

verus! {

/// An address, a text or nothing is what it was.
pub proof fn law_optional_texts(s: &str, hops: Seq<Option<String>>, i: int)
    ensures
        ip_view(Some(s)) == Some(s@),
        ip_view(None) is None,
        hop_views(hops).len() == hops.len(),
        match_views(hops).len() == hops.len(),
        0 <= i < hops.len() ==> (hop_views(hops)[i] is Some <==> hops[i] is Some),
        0 <= i < hops.len() ==> (match_views(hops)[i] is Some <==> hops[i] is Some),
        0 <= i < hops.len() && hops[i] is Some ==> hop_views(hops)[i]->0 == hops[i]->0@,
        0 <= i < hops.len() && hops[i] is Some ==> match_views(hops)[i]->0 == hops[i]->0@,
{
}

/// Each header is known by its name and its value, at its place.
pub proof fn law_headers(headers: Seq<(String, String)>, i: int)
    ensures
        header_views(headers).len() == headers.len(),
        0 <= i < headers.len() ==> header_views(headers)[i].0 == headers[i].0@,
        0 <= i < headers.len() ==> header_views(headers)[i].1 == headers[i].1@,
{
}

/// A hit, a detection and a verdict are what they hold.
pub proof fn law_detections(h: Hit, d: Detection, v: Verdict, i: int)
    ensures
        h@.category == h.category@,
        h@.pattern == h.pattern@,
        h@.score == h.score,
        d@.score == d.score,
        d@.hits.len() == d.hits@.len(),
        0 <= i < d.hits@.len() ==> d@.hits[i] == d.hits@[i]@,
        v is Allow <==> v@ is Allow,
        v matches Verdict::Suspicious { score, reasons } ==> v@ == (VerdictView::Suspicious {
            score,
            reasons: texts(reasons@),
        }),
        v matches Verdict::Block { score, threat, reasons } ==> v@ == (VerdictView::Block {
            score,
            threat: threat@,
            reasons: texts(reasons@),
        }),
{
}

/// A rule is its pattern, its category and its score; a table of rules has them
/// all, in its order.
pub proof fn law_rules(rows: Seq<(&'static str, &'static str, u32)>, i: int)
    ensures
        rule_views(rows).len() == rows.len(),
        0 <= i < rows.len() ==> rule_views(rows)[i].pattern == rows[i].0@,
        0 <= i < rows.len() ==> rule_views(rows)[i].category == rows[i].1@,
        0 <= i < rows.len() ==> rule_views(rows)[i].score == rows[i].2,
{
}

/// The texts of some slices, in their order.
pub proof fn law_slices(v: Seq<&'static str>, i: int)
    ensures
        slice_texts(v).len() == v.len(),
        0 <= i < v.len() ==> slice_texts(v)[i] == v[i]@,
{
}

/// A model is its weights, its bias and its lengths.
pub proof fn law_models(m: NgramClassifier)
    ensures
        m@.weights == m.weights@,
        m@.bias == m.bias,
        m@.nmin == m.nmin,
        m@.nmax == m.nmax,
{
}

/// A decision of the model is what it holds.
pub proof fn law_decisions(d: LlmDecision)
    ensures
        d@.block == d.block,
        d@.threat == d.threat@,
        d@.reason == d.reason@,
        d@.source == d.source@,
        d@.analysis == d.analysis@,
{
}

/// An outcome and a step are what they hold.
pub proof fn law_steps(o: Outcome, s: Step)
    ensures
        o@.action == o.action,
        o@.score == o.score,
        o@.threat is Some <==> o.threat is Some,
        o.threat is Some ==> o@.threat->0 == o.threat->0@,
        o@.detail == o.detail@,
        o@.tier == o.tier@,
        s matches Step::Respond { status, body, outcome } ==> s@ == (StepView::Respond {
            status,
            body: body@,
            outcome: outcome@,
        }),
        s matches Step::Forward { outcome } ==> s@ == (StepView::Forward { outcome: outcome@ }),
{
}

/// A command is what it holds.
pub proof fn law_command_views(c: CliCommand)
    ensures
        match c {
            CliCommand::Run(p) => c@ == CommandView::Run(p@),
            CliCommand::Eval(a) => c@ == CommandView::Eval(texts(a@)),
            CliCommand::Learn(a) => c@ == CommandView::Learn(texts(a@)),
            CliCommand::GetHealth => c@ is GetHealth,
            CliCommand::GetBypass => c@ is GetBypass,
            CliCommand::GetBlacklist => c@ is GetBlacklist,
            CliCommand::AddBypass(p) => c@ == CommandView::AddBypass(p@),
            CliCommand::RemoveBypass(p) => c@ == CommandView::RemoveBypass(p@),
            CliCommand::Help => c@ is Help,
            CliCommand::Unknown => c@ is Unknown,
        },
{
}

/// A JSON value is what it holds, list by list and member by member.
pub proof fn law_json(j: Json, i: int)
    ensures
        j is Null <==> j@ is Null,
        j matches Json::Bool(b) ==> j@ == JsonView::Bool(b),
        j matches Json::Number(n) ==> j@ == JsonView::Number(n@),
        j matches Json::Text(t) ==> j@ == JsonView::Text(t@),
        j matches Json::List(items) ==> j@ is List && j@->List_0.len() == items@.len() && (0 <= i
            < items@.len() ==> j@->List_0[i] == items@[i]@),
        j matches Json::Object(members) ==> j@ is Object && j@->Object_0.len() == members@.len() && (
        0 <= i < members@.len() ==> j@->Object_0[i].0 == members@[i].0@ && j@->Object_0[i].1
            == members@[i].1@),
{
    reveal_with_fuel(object_view, 2);
    if let Json::Object(members) = j {
        assert(j@ == JsonView::Object(object_view(members@)));
        assert(object_view(members@).len() == members@.len());
        if 0 <= i < members@.len() {
            assert(object_view(members@)[i] == (members@[i].0@, members@[i].1@));
        }
    }
}

/// What an evaluation keeps is what it holds, entry by entry.
pub proof fn law_tallies(t: Tally, i: int)
    ensures
        t@.stats == t.stats,
        t@.white_hits == entry_views(t.white_hit_rules@),
        t@.threats == entry_views(t.black_threats@),
        t@.missed.len() == t.missed_black@.len(),
        t@.alarms.len() == t.fp_white@.len(),
        t@.gray.len() == t.susp_samples@.len(),
        0 <= i < t.missed_black@.len() ==> t@.missed[i] == (
            t.missed_black@[i].path@,
            t.missed_black@[i].score,
        ),
        0 <= i < t.fp_white@.len() ==> t@.alarms[i] == (
            t.fp_white@[i].path@,
            t.fp_white@[i].score,
            t.fp_white@[i].reasons@,
        ),
        0 <= i < t.susp_samples@.len() ==> t@.gray[i] == (
            t.susp_samples@[i].path@,
            t.susp_samples@[i].is_black,
            t.susp_samples@[i].summary,
        ),
{
}

/// Each entry is known by its category, its pattern and its count.
pub proof fn law_entries(entries: Seq<Entry>, i: int)
    ensures
        entry_views(entries).len() == entries.len(),
        0 <= i < entries.len() ==> entry_views(entries)[i] == (EntryView {
            category: entries[i].category@,
            pattern: entries[i].pattern@,
            count: entries[i].count,
        }),
{
}

/// A tried rule is what it holds.
pub proof fn law_tried_rules(v: Seq<Scored>, c: Candidate, i: int)
    ensures
        scored_views(v).len() == v.len(),
        0 <= i < v.len() ==> scored_views(v)[i].cand == v[i].cand@,
        0 <= i < v.len() ==> scored_views(v)[i].detect == v[i].detect,
        0 <= i < v.len() ==> scored_views(v)[i].fp == v[i].fp,
        0 <= i < v.len() ==> scored_views(v)[i].regex_ok == v[i].regex_ok,
        c@.pattern == c.pattern@,
        c@.is_regex == c.is_regex,
        c@.category == c.category@,
        c@.score == c.score,
        c@.rationale == c.rationale@,
{
}

/// An evaluation starts with nothing.
pub proof fn law_evaluation_starts_empty()
    ensures
        files(no_stats()) == 0,
        no_stats().ngram_elevated_black == 0,
        no_stats().ngram_elevated_white == 0,
        no_tally().stats == no_stats(),
        no_tally().white_hits.len() == 0,
        no_tally().threats.len() == 0,
        no_tally().missed.len() == 0,
        no_tally().alarms.len() == 0,
        no_tally().gray.len() == 0,
{
}

/// A block can be counted as long as the count of its client is not at its
/// maximum, and always where none is kept.
pub proof fn law_blocks_can_be_counted(c: ControlsView, ip: Seq<char>)
    ensures
        countable(c, ip) <==> c.threshold == 0 || blocks_of(c, ip) < u32::MAX,
        client_countable(c, None),
        client_countable(c, Some(ip)) <==> countable(c, ip),
{
}

/// A sample can be counted as long as no count of the evaluation would pass its
/// maximum.
pub proof fn law_samples_can_be_counted(t: TallyView, hits: nat)
    requires
        hits <= u32::MAX,
    ensures
        has_room_for(t, hits) <==> {
            &&& t.stats.black_block + t.stats.black_susp + t.stats.black_allow + t.stats.white_block
                + t.stats.white_susp + t.stats.white_allow + t.stats.parse_failed < u32::MAX
            &&& t.stats.ngram_elevated_black < u32::MAX
            &&& t.stats.ngram_elevated_white < u32::MAX
            &&& forall|i: int|
                0 <= i < t.white_hits.len() ==> (#[trigger] t.white_hits[i]).count + hits
                    <= u32::MAX
            &&& forall|i: int|
                0 <= i < t.threats.len() ==> (#[trigger] t.threats[i]).count < u32::MAX
        },
        can_count(t.threats, 1) <==> forall|i: int|
            0 <= i < t.threats.len() ==> (#[trigger] t.threats[i]).count < u32::MAX,
{
}

/// Counts are plausible where the classifier raised no more than the rules let
/// through and the samples are no more than can be counted; the figures of the
/// model need no more than that its sums can be kept.
pub proof fn law_figures_can_be_given(s: Stats, l: LlmStats)
    ensures
        plausible(s) <==> {
            &&& s.ngram_elevated_black <= s.black_allow
            &&& s.ngram_elevated_white <= s.white_allow
            &&& s.black_block + s.black_susp + s.black_allow + s.white_block + s.white_susp
                + s.white_allow <= u32::MAX
        },
        sums_fit(s, l) <==> {
            &&& l.black_block + l.black_allow <= u32::MAX
            &&& l.white_block + l.white_allow <= u32::MAX
            &&& s.black_block + l.black_block <= u32::MAX
            &&& s.white_block + l.white_block <= u32::MAX
        },
{
}

/// Each label and verdict has its own count.
pub proof fn law_cells(s: Stats, v: VerdictView)
    ensures
        cell(s, true, v) == if v is Block {
            s.black_block
        } else if v is Suspicious {
            s.black_susp
        } else {
            s.black_allow
        },
        cell(s, false, v) == if v is Block {
            s.white_block
        } else if v is Suspicious {
            s.white_susp
        } else {
            s.white_allow
        },
{
}

} // verus!
