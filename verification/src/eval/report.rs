//! The report on an evaluation: the figures, the rankings and the texts.

use vstd::prelude::*;
use vstd::string::*;

use crate::engine::llm::LlmDecision;
use crate::eval::tally::{
    attacks, entry_views, normals, plausible, Entry, EntryView, Stats,
};
use crate::text::{chars_of, contains, has_prefix, occurs, occurs_at, same_text, texts};

verus! {

/// Where the samples are looked for by default.
pub const DEFAULT_SAMPLE_DIR: &'static str = "benchmarks/blazehttp";

/// Where the lists of failures are written.
pub const REPORT_DIR: &'static str = "target/eval";

/// How many rules the ranking of false alarms shows.
pub const TOP_DRIVERS: usize = 15;

/// What an evaluation is asked for.
#[derive(Debug)]
pub struct EvalArgs {
    /// The model is asked too.
    pub llm: bool,
    /// Where the samples are.
    pub dir: String,
}

/// The last argument that is no option, or the default.
pub open spec fn sample_dir(args: Seq<Seq<char>>) -> Seq<char>
    decreases args.len(),
{
    if args.len() == 0 {
        DEFAULT_SAMPLE_DIR@
    } else if occurs_at(args.last(), "-"@, 0) {
        sample_dir(args.drop_last())
    } else {
        args.last()
    }
}

/// What the arguments ask for: the option `--llm` may stand anywhere, other
/// options are ignored, and of several directories the last counts.
pub fn parse_args(args: &Vec<String>) -> (r: EvalArgs)
    ensures
        r.llm == texts(args@).contains("--llm"@),
        r.dir@ == sample_dir(texts(args@)),
{
    let mut llm = false;
    let mut dir: String = DEFAULT_SAMPLE_DIR.to_owned();
    let dash = chars_of("-");
    let ghost all = texts(args@);
    let mut i: usize = 0;
    while i < args.len()
        invariant
            i <= args@.len(),
            all == texts(args@),
            dash@ == "-"@,
            llm == all.take(i as int).contains("--llm"@),
            dir@ == sample_dir(all.take(i as int)),
        decreases args@.len() - i,
    {
        proof {
            assert(all.take(i + 1).drop_last() =~= all.take(i as int));
            assert(all.take(i + 1).last() == all[i as int]);
            assert(all.take(i + 1) =~= all.take(i as int).push(all[i as int]));
            lemma_push_contains(all.take(i as int), all[i as int], "--llm"@);
            reveal_strlit("-");
            reveal_strlit("--llm");
        }
        let a = chars_of(args[i].as_str());
        if same_text(args[i].as_str(), "--llm") {
            llm = true;
            assert("--llm"@.subrange(0, 1) =~= "-"@);
            assert(occurs_at(all[i as int], "-"@, 0));
        } else if !has_prefix(a.as_slice(), dash.as_slice()) {
            dir = args[i].clone();
        }
        i += 1;
    }
    assert(all.take(i as int) =~= all);
    EvalArgs { llm, dir }
}

proof fn lemma_push_contains(s: Seq<Seq<char>>, last: Seq<char>, x: Seq<char>)
    ensures
        s.push(last).contains(x) <==> s.contains(x) || last == x,
{
    let t = s.push(last);
    if s.contains(x) {
        let i = choose|i: int| 0 <= i < s.len() && s[i] == x;
        assert(t[i] == x);
    }
    if last == x {
        assert(t[s.len() as int] == x);
    }
    if t.contains(x) {
        let i = choose|i: int| 0 <= i < t.len() && t[i] == x;
        if i < s.len() {
            assert(s[i] == x);
        }
    }
}

/// The figures behind a set of rates: how many attacks and normal requests there
/// are, and how many of each are flagged.
#[derive(Debug, Clone, Copy)]
pub struct Metrics {
    /// Attacks that are flagged.
    pub tp: u32,
    /// Normal requests that are flagged.
    pub fp: u32,
    /// Attacks that are not.
    pub missed: u32,
    /// Samples that are judged right.
    pub right: u32,
    /// Samples that are flagged.
    pub flagged: u32,
    pub black: u32,
    pub white: u32,
    pub all: u32,
}

/// The figures for some flagged samples.
pub open spec fn metrics_of(tp: int, fp: int, s: Stats) -> Metrics {
    Metrics {
        tp: tp as u32,
        fp: fp as u32,
        missed: (attacks(s) - tp) as u32,
        right: (tp + normals(s) - fp) as u32,
        flagged: (tp + fp) as u32,
        black: attacks(s) as u32,
        white: normals(s) as u32,
        all: (attacks(s) + normals(s)) as u32,
    }
}

fn metrics(tp: u32, fp: u32, stats: &Stats) -> (r: Metrics)
    requires
        plausible(*stats),
        tp <= attacks(*stats),
        fp <= normals(*stats),
    ensures
        r == metrics_of(tp as int, fp as int, *stats),
{
    let black: u32 = stats.black_total();
    let white: u32 = stats.white_total();
    Metrics {
        tp,
        fp,
        missed: black - tp,
        right: tp + (white - fp),
        flagged: tp + fp,
        black,
        white,
        all: black + white,
    }
}

/// The figures if only a block flags a sample.
pub fn strict(stats: &Stats) -> (r: Metrics)
    requires
        plausible(*stats),
    ensures
        r == metrics_of(stats.black_block as int, stats.white_block as int, *stats),
{
    metrics(stats.black_block, stats.white_block, stats)
}

/// The figures if suspicion flags a sample too.
pub fn lenient(stats: &Stats) -> (r: Metrics)
    requires
        plausible(*stats),
    ensures
        r == metrics_of(
            stats.black_block + stats.black_susp,
            stats.white_block + stats.white_susp,
            *stats,
        ),
{
    metrics(
        stats.black_block + stats.black_susp,
        stats.white_block + stats.white_susp,
        stats,
    )
}

/// The figures if a block and an alarm of the classifier flag a sample.
pub fn two_tier(stats: &Stats) -> (r: Metrics)
    requires
        plausible(*stats),
    ensures
        r == metrics_of(
            stats.black_block + stats.ngram_elevated_black,
            stats.white_block + stats.ngram_elevated_white,
            *stats,
        ),
{
    metrics(
        stats.black_block + stats.ngram_elevated_black,
        stats.white_block + stats.ngram_elevated_white,
        stats,
    )
}

/// How the model judged the samples that it was asked about.
#[derive(Debug, Clone, Copy)]
pub struct LlmStats {
    pub black_block: u32,
    pub black_allow: u32,
    pub white_block: u32,
    pub white_allow: u32,
    /// Decisions that were made without the model.
    pub failures: u32,
}

/// The number of samples that the model was asked about.
pub open spec fn asked(s: LlmStats) -> int {
    s.black_block + s.black_allow + s.white_block + s.white_allow
}

/// With one decision more.
pub open spec fn with_decision(
    s: LlmStats,
    is_black: bool,
    block: bool,
    source: Seq<char>,
) -> LlmStats {
    let failures = if occurs(source, "(fail)"@) {
        (s.failures + 1) as u32
    } else {
        s.failures
    };
    match (is_black, block) {
        (true, true) => LlmStats { black_block: (s.black_block + 1) as u32, failures, ..s },
        (true, false) => LlmStats { black_allow: (s.black_allow + 1) as u32, failures, ..s },
        (false, true) => LlmStats { white_block: (s.white_block + 1) as u32, failures, ..s },
        (false, false) => LlmStats { white_allow: (s.white_allow + 1) as u32, failures, ..s },
    }
}

impl LlmStats {
    /// No decision yet.
    pub fn new() -> (r: Self)
        ensures
            asked(r) == 0,
            r.failures == 0,
    {
        LlmStats { black_block: 0, black_allow: 0, white_block: 0, white_allow: 0, failures: 0 }
    }

    /// Counts a decision.
    pub fn count(&mut self, is_black: bool, decision: &LlmDecision)
        requires
            asked(*old(self)) < u32::MAX,
            old(self).failures <= asked(*old(self)),
        ensures
            *final(self) == with_decision(*old(self), is_black, decision.block, decision.source@),
            asked(*final(self)) == asked(*old(self)) + 1,
            final(self).failures <= asked(*final(self)),
    {
        let source = chars_of(decision.source.as_str());
        let mark = chars_of("(fail)");
        if contains(source.as_slice(), mark.as_slice()) {
            self.failures = self.failures + 1;
        }
        if is_black {
            if decision.block {
                self.black_block = self.black_block + 1;
            } else {
                self.black_allow = self.black_allow + 1;
            }
        } else {
            if decision.block {
                self.white_block = self.white_block + 1;
            } else {
                self.white_allow = self.white_allow + 1;
            }
        }
    }
}

/// The figures on the model's part, and on the rules and the model together.
#[derive(Debug, Clone, Copy)]
pub struct LlmFigures {
    /// Attacks that the model was asked about.
    pub black: u32,
    /// Those of them that the classifier had raised.
    pub black_elevated: u32,
    /// Normal requests that the model was asked about.
    pub white: u32,
    pub white_elevated: u32,
    /// Attacks that were blocked in the end.
    pub final_tp: u32,
    /// Normal requests that were blocked in the end.
    pub final_fp: u32,
}

/// What is left of a number, or 0.
pub open spec fn left_of(a: int, b: int) -> int {
    if a >= b {
        a - b
    } else {
        0
    }
}

/// The sums of the counts are within what can be counted.
pub open spec fn sums_fit(s: Stats, l: LlmStats) -> bool {
    &&& l.black_block + l.black_allow <= u32::MAX
    &&& l.white_block + l.white_allow <= u32::MAX
    &&& s.black_block + l.black_block <= u32::MAX
    &&& s.white_block + l.white_block <= u32::MAX
}

/// The figures on the model's part.
pub fn llm_figures(stats: &Stats, llm: &LlmStats) -> (r: LlmFigures)
    requires
        sums_fit(*stats, *llm),
    ensures
        r.black == llm.black_block + llm.black_allow,
        r.black_elevated == left_of(llm.black_block + llm.black_allow, stats.black_susp as int),
        r.white == llm.white_block + llm.white_allow,
        r.white_elevated == left_of(llm.white_block + llm.white_allow, stats.white_susp as int),
        r.final_tp == stats.black_block + llm.black_block,
        r.final_fp == stats.white_block + llm.white_block,
{
    let black: u32 = llm.black_block + llm.black_allow;
    let white: u32 = llm.white_block + llm.white_allow;
    LlmFigures {
        black,
        black_elevated: black.saturating_sub(stats.black_susp),
        white,
        white_elevated: white.saturating_sub(stats.white_susp),
        final_tp: stats.black_block + llm.black_block,
        final_fp: stats.white_block + llm.white_block,
    }
}

/// A ranking with one entry more: behind those that count no less.
pub open spec fn placed(ranking: Seq<EntryView>, e: EntryView) -> Seq<EntryView>
    decreases ranking.len(),
{
    if ranking.len() == 0 {
        seq![e]
    } else if ranking.last().count >= e.count {
        ranking.push(e)
    } else {
        placed(ranking.drop_last(), e).push(ranking.last())
    }
}

/// The entries from the highest count down; those that count the same in their
/// order.
pub open spec fn ranked(entries: Seq<EntryView>) -> Seq<EntryView>
    decreases entries.len(),
{
    if entries.len() == 0 {
        Seq::empty()
    } else {
        placed(ranked(entries.drop_last()), entries.last())
    }
}

fn copy_of(e: &Entry) -> (r: Entry)
    ensures
        r@ == e@,
{
    Entry { category: e.category.clone(), pattern: e.pattern.clone(), count: e.count }
}

proof fn lemma_placed(ranking: Seq<EntryView>, e: EntryView, k: int)
    requires
        0 <= k <= ranking.len(),
        k > 0 ==> ranking[k - 1].count >= e.count,
        forall|j: int| k <= j < ranking.len() ==> (#[trigger] ranking[j]).count < e.count,
    ensures
        placed(ranking, e) == ranking.insert(k, e),
    decreases ranking.len(),
{
    if ranking.len() > k {
        let front = ranking.drop_last();
        assert(ranking[ranking.len() - 1].count < e.count);
        assert forall|j: int| k <= j < front.len() implies (#[trigger] front[j]).count
            < e.count by {
            assert(front[j] == ranking[j]);
        }
        lemma_placed(front, e, k);
        assert(placed(ranking, e) =~= ranking.insert(k, e));
    } else {
        assert(placed(ranking, e) =~= ranking.insert(k, e));
    }
}

/// The entries from the highest count down.
pub fn rank(entries: &Vec<Entry>) -> (r: Vec<Entry>)
    ensures
        entry_views(r@) == ranked(entry_views(entries@)),
{
    let mut r: Vec<Entry> = Vec::new();
    let ghost all = entry_views(entries@);
    let mut i: usize = 0;
    assert(entry_views(r@) =~= ranked(all.take(0)));
    while i < entries.len()
        invariant
            i <= entries@.len(),
            i == r@.len(),
            all == entry_views(entries@),
            entry_views(r@) == ranked(all.take(i as int)),
        decreases entries@.len() - i,
    {
        let mut k: usize = r.len();
        while k > 0 && r[k - 1].count < entries[i].count
            invariant
                k <= r@.len(),
                i < entries@.len(),
                forall|j: int|
                    k <= j < r@.len() ==> (#[trigger] entry_views(r@)[j]).count
                        < entries@[i as int].count,
            decreases k,
        {
            assert(entry_views(r@)[k - 1].count == r@[k - 1].count);
            k -= 1;
        }
        let ghost before = entry_views(r@);
        let e = copy_of(&entries[i]);
        proof {
            if k > 0 {
                assert(before[k - 1].count == r@[k - 1].count);
            }
            lemma_placed(before, e@, k as int);
            assert(all.take(i + 1).drop_last() =~= all.take(i as int));
            assert(all.take(i + 1).last() == e@);
        }
        r.insert(k, e);
        assert(entry_views(r@) =~= before.insert(k as int, e@));
        i += 1;
    }
    assert(all.take(i as int) =~= all);
    r
}

proof fn lemma_placed_sorted(ranking: Seq<EntryView>, e: EntryView)
    requires
        forall|i: int, j: int|
            0 <= i <= j < ranking.len() ==> (#[trigger] ranking[i]).count >= (
            #[trigger] ranking[j]).count,
    ensures
        forall|i: int, j: int|
            0 <= i <= j < placed(ranking, e).len() ==> (#[trigger] placed(ranking, e)[i]).count >= (
            #[trigger] placed(ranking, e)[j]).count,
        placed(ranking, e).to_multiset() == ranking.to_multiset().insert(e),
        placed(ranking, e).len() == ranking.len() + 1,
        forall|i: int| 0 <= i < placed(ranking, e).len() && ranking.len() > 0 ==> (
        #[trigger] placed(ranking, e)[i]).count >= ranking.last().count || placed(ranking, e)[i]
            == e,
    decreases ranking.len(),
{
    broadcast use vstd::seq_lib::group_to_multiset_ensures;

    let r = placed(ranking, e);
    if ranking.len() == 0 {
        assert(r =~= ranking.push(e));
    } else if ranking.last().count < e.count {
        let front = ranking.drop_last();
        assert forall|i: int, j: int| 0 <= i <= j < front.len() implies (#[trigger] front[i]).count
            >= (#[trigger] front[j]).count by {
            assert(front[i] == ranking[i]);
            assert(front[j] == ranking[j]);
        }
        lemma_placed_sorted(front, e);
        let p = placed(front, e);
        assert(r == p.push(ranking.last()));
        assert(front.push(ranking.last()) =~= ranking);
        assert(ranking.to_multiset() =~= front.to_multiset().insert(ranking.last()));
        assert(r.to_multiset() =~= p.to_multiset().insert(ranking.last()));
        assert(r.to_multiset() =~= ranking.to_multiset().insert(e));
        assert forall|i: int| 0 <= i < p.len() implies (#[trigger] p[i]).count
            >= ranking.last().count by {
            if p[i] != e {
                if front.len() > 0 {
                    assert(ranking[front.len() - 1].count >= ranking[ranking.len() - 1].count);
                    assert(p[i].count >= front.last().count);
                } else {
                    assert(p =~= seq![e]);
                }
            }
        }
        assert forall|i: int, j: int| 0 <= i <= j < r.len() implies (#[trigger] r[i]).count >= (
        #[trigger] r[j]).count by {
            if j < p.len() {
                assert(r[i] == p[i]);
                assert(r[j] == p[j]);
            } else if i < p.len() {
                assert(r[i] == p[i]);
            }
        }
        assert forall|i: int| 0 <= i < r.len() implies (#[trigger] r[i]).count
            >= ranking.last().count || r[i] == e by {
            if i < p.len() {
                assert(r[i] == p[i]);
            }
        }
    } else {
        assert(r =~= ranking.push(e));
        assert forall|i: int, j: int| 0 <= i <= j < r.len() implies (#[trigger] r[i]).count >= (
        #[trigger] r[j]).count by {
            if j < ranking.len() {
                assert(r[i] == ranking[i]);
                assert(r[j] == ranking[j]);
            } else if i < ranking.len() {
                assert(r[i] == ranking[i]);
                assert(ranking[i].count >= ranking[ranking.len() - 1].count);
            }
        }
        assert forall|i: int| 0 <= i < r.len() implies (#[trigger] r[i]).count
            >= ranking.last().count || r[i] == e by {
            if i < ranking.len() {
                assert(r[i] == ranking[i]);
                assert(ranking[i].count >= ranking[ranking.len() - 1].count);
            }
        }
    }
}

/// A ranking holds what it ranks, each entry as often, and no count in it is
/// higher than one before it.
pub proof fn law_ranking_is_sorted(entries: Seq<EntryView>)
    ensures
        forall|i: int, j: int|
            0 <= i <= j < ranked(entries).len() ==> (#[trigger] ranked(entries)[i]).count >= (
            #[trigger] ranked(entries)[j]).count,
        ranked(entries).to_multiset() == entries.to_multiset(),
        ranked(entries).len() == entries.len(),
    decreases entries.len(),
{
    broadcast use vstd::seq_lib::group_to_multiset_ensures;

    if entries.len() > 0 {
        let front = entries.drop_last();
        law_ranking_is_sorted(front);
        lemma_placed_sorted(ranked(front), entries.last());
        assert(front.push(entries.last()) =~= entries);
        assert(entries.to_multiset() =~= front.to_multiset().insert(entries.last()));
    } else {
        assert(ranked(entries) =~= entries);
    }
}

/// Flagging more samples finds no fewer attacks and raises no fewer false
/// alarms: the lenient figures are never below the strict ones.
pub proof fn law_lenient_flags_no_less(s: Stats)
    requires
        plausible(s),
    ensures
        ({
            let a = metrics_of(s.black_block as int, s.white_block as int, s);
            let b = metrics_of(
                s.black_block + s.black_susp,
                s.white_block + s.white_susp,
                s,
            );
            &&& a.tp <= b.tp
            &&& a.fp <= b.fp
            &&& b.missed <= a.missed
            &&& a.tp + a.missed == a.black
            &&& b.tp + b.missed == b.black
            &&& a.all == a.black + a.white
        }),
{
}

} // verus!
