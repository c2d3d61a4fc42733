//! What the report of an evaluation is for: its figures are those of the counts,
//! its rankings are in order, and every figure stands by its name.

use vstd::prelude::*;
use vstd::string::*;

use crate::eval::print::{
    alarm_lines, aligned, driver_lines, drivers_text, funnel_text, head_text, llm_report_text,
    metrics_text, missed_lines, quoted_text, report_text, share_text, spaces, threat_lines,
    threats_text, top, LlmRates, Rates, ReportRates,
};
use crate::eval::report::{left_of, metrics_of, placed, ranked, sample_dir, with_decision, LlmStats};
use crate::eval::tally::{attacks, normals, EntryView, Stats};
use crate::laws::eval::one;
use crate::text::{decimal, occurs, occurs_at};

verus! {

/// The argument is an option.
pub open spec fn is_option(arg: Seq<char>) -> bool {
    arg.len() > 0 && arg[0] == '-'
}

proof fn lemma_option(arg: Seq<char>)
    ensures
        occurs_at(arg, "-"@, 0) <==> is_option(arg),
{
    reveal_strlit("-");
    assert("-"@ =~= seq!['-']);
    if occurs_at(arg, "-"@, 0) {
        assert(arg.subrange(0, 1)[0] == arg[0]);
    }
    if is_option(arg) {
        assert(arg.subrange(0, 1) =~= "-"@);
    }
}

/// The samples are looked for in the last directory that is named, whatever
/// options follow it, and in the default one where none is.
pub proof fn law_last_directory_counts(
    before: Seq<Seq<char>>,
    dir: Seq<char>,
    options: Seq<Seq<char>>,
)
    requires
        !is_option(dir),
        forall|i: int| 0 <= i < options.len() ==> is_option(#[trigger] options[i]),
    ensures
        sample_dir(before.push(dir) + options) == dir,
        sample_dir(options) == "benchmarks/blazehttp"@,
    decreases options.len(),
{
    let all = before.push(dir) + options;
    if options.len() == 0 {
        assert(all.last() == dir);
        lemma_option(dir);
    } else {
        let fewer = options.drop_last();
        assert(all.last() == options[options.len() - 1]);
        lemma_option(options[options.len() - 1]);
        assert(all.drop_last() =~= before.push(dir) + fewer);
        assert forall|i: int| 0 <= i < fewer.len() implies is_option(#[trigger] fewer[i]) by {
            assert(fewer[i] == options[i]);
        }
        law_last_directory_counts(before, dir, fewer);
    }
}

/// The figures: what is not flagged of the attacks is missed, and right are the
/// attacks that are flagged and the normal requests that are not.
pub proof fn law_figures_follow_from_the_counts(tp: int, fp: int, s: Stats)
    requires
        0 <= tp <= s.black_block + s.black_susp + s.black_allow,
        0 <= fp <= s.white_block + s.white_susp + s.white_allow,
        s.black_block + s.black_susp + s.black_allow + s.white_block + s.white_susp + s.white_allow
            <= u32::MAX,
    ensures
        ({
            let m = metrics_of(tp, fp, s);
            &&& m.tp == tp
            &&& m.fp == fp
            &&& m.black == s.black_block + s.black_susp + s.black_allow
            &&& m.white == s.white_block + s.white_susp + s.white_allow
            &&& m.tp + m.missed == m.black
            &&& m.right + m.missed + m.fp == m.black + m.white
            &&& m.flagged == tp + fp
            &&& m.all == m.black + m.white
        }),
{
}

/// A decision of the model counts under its label and its word and nowhere else,
/// and as a failure besides if its source says so.
pub proof fn law_decision_counts_where_it_belongs(
    s: LlmStats,
    is_black: bool,
    block: bool,
    source: Seq<char>,
)
    requires
        s.black_block < u32::MAX,
        s.black_allow < u32::MAX,
        s.white_block < u32::MAX,
        s.white_allow < u32::MAX,
        s.failures < u32::MAX,
    ensures
        ({
            let t = with_decision(s, is_black, block, source);
            &&& t.black_block == s.black_block + one(is_black && block)
            &&& t.black_allow == s.black_allow + one(is_black && !block)
            &&& t.white_block == s.white_block + one(!is_black && block)
            &&& t.white_allow == s.white_allow + one(!is_black && !block)
            &&& t.failures == s.failures + one(occurs(source, "(fail)"@))
        }),
{
}

/// What is left is the difference, and nothing where there is none.
pub proof fn law_what_is_left(a: int, b: int)
    ensures
        a >= b ==> left_of(a, b) + b == a,
        a < b ==> left_of(a, b) == 0,
{
}

/// In a ranking each entry is placed in front of those that count less and behind
/// those that count no less and came before it.
pub proof fn law_entry_is_ranked(entries: Seq<EntryView>, e: EntryView) -> (at: int)
    ensures
        ranked(Seq::empty()) == Seq::<EntryView>::empty(),
        0 <= at <= ranked(entries).len(),
        ranked(entries.push(e)) == ranked(entries).take(at).push(e) + ranked(entries).skip(at),
        at > 0 ==> ranked(entries)[at - 1].count >= e.count,
        forall|i: int|
            at <= i < ranked(entries).len() ==> (#[trigger] ranked(entries)[i]).count < e.count,
{
    assert(entries.push(e).drop_last() =~= entries);
    lemma_placed(ranked(entries), e)
}

proof fn lemma_placed(ranking: Seq<EntryView>, e: EntryView) -> (at: int)
    ensures
        0 <= at <= ranking.len(),
        placed(ranking, e) == ranking.take(at).push(e) + ranking.skip(at),
        at > 0 ==> ranking[at - 1].count >= e.count,
        forall|i: int| at <= i < ranking.len() ==> (#[trigger] ranking[i]).count < e.count,
    decreases ranking.len(),
{
    let n = ranking.len() as int;
    if n == 0 || ranking.last().count >= e.count {
        assert(ranking.take(n).push(e) + ranking.skip(n) =~= ranking.push(e));
        if n == 0 {
            assert(placed(ranking, e) =~= ranking.push(e));
        }
        n
    } else {
        let front = ranking.drop_last();
        let at = lemma_placed(front, e);
        assert(front.take(at) =~= ranking.take(at));
        assert(placed(ranking, e) =~= ranking.take(at).push(e) + ranking.skip(at));
        assert forall|i: int| at <= i < ranking.len() implies (#[trigger] ranking[i]).count
            < e.count by {
            if i < front.len() {
                assert(front[i] == ranking[i]);
            }
        }
        at
    }
}

/// Numbers are aligned to the right: spaces stand in front up to the width, and
/// the number is never cut.
pub proof fn law_alignment(n: nat, width: nat)
    ensures
        aligned(n, width).len() == if decimal(n).len() >= width {
            decimal(n).len()
        } else {
            width
        },
        forall|i: int|
            0 <= i < aligned(n, width).len() - decimal(n).len() ==> (#[trigger] aligned(
                n,
                width,
            )[i]) == ' ',
        aligned(n, width).skip(aligned(n, width).len() - decimal(n).len()) == decimal(n),
{
    let a = aligned(n, width);
    assert(a.skip(a.len() - decimal(n).len()) =~= decimal(n));
}

/// The head of a report gives the directory, the thresholds and the counts, each
/// by its name.
pub proof fn law_head_gives_the_counts(dir: Seq<char>, block: u32, suspicious: u32, s: Stats)
    ensures
        head_text(dir, block, suspicious, s) == "== Limen 规则引擎评测(BlazeHTTP)==\n样本目录: "@ + dir
            + "\n阈值: block="@ + decimal(block as nat) + ", suspicious="@ + decimal(
            suspicious as nat,
        ) + "\n黑样本: "@ + decimal((s.black_block + s.black_susp + s.black_allow) as nat) + "  白样本: "@
            + decimal((s.white_block + s.white_susp + s.white_allow) as nat) + "  解析失败跳过: "@
            + decimal(s.parse_failed as nat)
            + "\n\n            Block   Suspicious   Allow\n  黑样本  "@ + aligned(
            s.black_block as nat,
            7,
        ) + " "@ + aligned(s.black_susp as nat, 10) + " "@ + aligned(s.black_allow as nat, 7)
            + "   (Block=直接拦截, Suspicious=送LLM, Allow=漏报)\n  白样本  "@ + aligned(
            s.white_block as nat,
            7,
        ) + " "@ + aligned(s.white_susp as nat, 10) + " "@ + aligned(s.white_allow as nat, 7)
            + "   (Block=误报, Suspicious=LLM负载, Allow=正确放行)\n\n"@,
{
}

/// The rates stand by their names, with the missed attacks beside the recall and
/// the false alarms beside their rate.
pub proof fn law_rates_stand_by_their_names(tp: int, fp: int, s: Stats, title: Seq<char>, r: Rates)
    requires
        0 <= tp <= attacks(s),
        0 <= fp <= normals(s),
        attacks(s) + normals(s) <= u32::MAX,
    ensures
        metrics_text(title, metrics_of(tp, fp, s), r) == title + ":\n  检出率 "@ + r.recall@
            + "%(漏报 "@ + decimal(
            (s.black_block + s.black_susp + s.black_allow - tp) as nat,
        ) + ")  误报率 "@ + r.fp_rate@ + "%(误报 "@ + decimal(fp as nat) + ")  精确率 "@ + r.precision@
            + "%  准确率 "@ + r.accuracy@ + "%  F1 "@ + r.f1@ + "\n\n"@,
{
}

/// The funnel gives what each tier caught, and their sums; without a classifier
/// it says that there is none.
pub proof fn law_funnel_gives_the_tiers(s: Stats)
    ensures
        funnel_text(s, false)
            == "== 三级漏斗(规则 → ngram → LLM) ==\n  (未配置 ngram_model,跳过第二层)\n\n"@,
        funnel_text(s, true) == "== 三级漏斗(规则 → ngram → LLM) ==\n  Tier1 规则直接 Block  黑"@ + aligned(
            s.black_block as nat,
            7,
        ) + "  白"@ + aligned(s.white_block as nat, 7) + "\n  Tier2 ngram 从 Allow 提升  黑"@ + aligned(
            s.ngram_elevated_black as nat,
            7,
        ) + "  白"@ + aligned(s.ngram_elevated_white as nat, 7)
            + "\n  二级合计送检(Suspicious): 规则"@ + decimal((s.black_susp + s.white_susp) as nat)
            + " + ngram提升"@ + decimal(
            (s.ngram_elevated_black + s.ngram_elevated_white) as nat,
        ) + " = "@ + decimal(
            (s.black_susp + s.white_susp + s.ngram_elevated_black + s.ngram_elevated_white) as nat,
        ) + " 条(黑"@ + decimal((s.black_susp + s.ngram_elevated_black) as nat) + " 白"@ + decimal(
            (s.white_susp + s.ngram_elevated_white) as nat,
        ) + ")\n  其中 Tier3 LLM: 见 --llm 四格报告\n\n"@,
{
}

/// Each rule of a ranking has its line, in its order; the fifteen that count most
/// are shown.
pub proof fn law_drivers_are_listed(entries: Seq<EntryView>, e: EntryView)
    ensures
        driver_lines(Seq::empty()) == Seq::<char>::empty(),
        driver_lines(entries.push(e)) == driver_lines(entries) + "  "@ + aligned(e.count as nat, 6)
            + "  ["@ + e.category + "] "@ + quoted_text(e.pattern) + "\n"@,
        ranked(entries).len() <= 15 ==> top(entries) == ranked(entries),
        ranked(entries).len() > 15 ==> top(entries) == ranked(entries).subrange(0, 15),
        drivers_text(Seq::empty()) == "白样本命中规则 Top 15(误报/LLM 负载驱动):\n"@ + Seq::empty()
            + "  (无)\n"@ + "\n"@,
        entries.len() > 0 ==> drivers_text(entries) == "白样本命中规则 Top 15(误报/LLM 负载驱动):\n"@
            + driver_lines(top(entries)) + "\n"@,
{
    assert(entries.push(e).drop_last() =~= entries);
    let none = Seq::<EntryView>::empty();
    assert(ranked(none).len() == 0);
    assert(driver_lines(top(none)) =~= Seq::<char>::empty());
    if entries.len() > 0 {
        assert(drivers_text(entries) =~= "白样本命中规则 Top 15(误报/LLM 负载驱动):\n"@ + driver_lines(
            top(entries),
        ) + "\n"@);
    }
}

/// Each threat has its line, from the most frequent down.
pub proof fn law_threats_are_listed(entries: Seq<EntryView>, e: EntryView)
    ensures
        threat_lines(Seq::empty()) == Seq::<char>::empty(),
        threat_lines(entries.push(e)) == threat_lines(entries) + "  "@ + aligned(e.count as nat, 6)
            + "  "@ + e.category + "\n"@,
        threats_text(entries) == "被检出黑样本的主威胁分布:\n"@ + threat_lines(ranked(entries)) + "\n"@,
{
    assert(entries.push(e).drop_last() =~= entries);
}

/// Each missed attack and each false alarm has its line, in its order.
pub proof fn law_failures_are_listed(
    missed: Seq<(Seq<char>, u32)>,
    alarms: Seq<(Seq<char>, u32, Seq<char>)>,
    path: Seq<char>,
    score: u32,
    reasons: Seq<char>,
)
    ensures
        missed_lines(Seq::empty()) == Seq::<char>::empty(),
        alarm_lines(Seq::empty()) == Seq::<char>::empty(),
        missed_lines(missed.push((path, score))) == missed_lines(missed) + path + "\tscore="@
            + decimal(score as nat) + "\n"@,
        alarm_lines(alarms.push((path, score, reasons))) == alarm_lines(alarms) + path
            + "\tscore="@ + decimal(score as nat) + "\t"@ + reasons + "\n"@,
{
    assert(missed.push((path, score)).drop_last() =~= missed);
    assert(alarms.push((path, score, reasons)).drop_last() =~= alarms);
}

/// The report gives, one after the other, the counts, the strict and the lenient
/// figures, the funnel, the figures of both tiers if there is a classifier, the
/// rankings, the speed if it is known, and where the lists are.
pub proof fn law_report_is_complete(
    dir: Seq<char>,
    block: u32,
    suspicious: u32,
    s: Stats,
    hits: Seq<EntryView>,
    threats: Seq<EntryView>,
    rates: ReportRates,
)
    ensures
        ({
            let strict = metrics_of(s.black_block as int, s.white_block as int, s);
            let lenient = metrics_of(s.black_block + s.black_susp, s.white_block + s.white_susp, s);
            let both = metrics_of(
                s.black_block + s.ngram_elevated_black,
                s.white_block + s.ngram_elevated_white,
                s,
            );
            report_text(dir, block, suspicious, s, hits, threats, rates) == head_text(
                dir,
                block,
                suspicious,
                s,
            ) + metrics_text("严格口径(仅 Block 算拦截)"@, strict, rates.strict) + metrics_text(
                "宽松口径(Block+Suspicious 都算命中,假设 LLM 研判完美)"@,
                lenient,
                rates.lenient,
            ) + funnel_text(s, rates.two_tier is Some) + (if rates.two_tier is Some {
                metrics_text("规则+ngram 两级口径"@, both, rates.two_tier->0)
            } else {
                Seq::empty()
            }) + drivers_text(hits) + threats_text(threats) + (if rates.speed is Some {
                rates.speed->0@ + "\n"@
            } else {
                Seq::empty()
            }) + "明细: "@ + "target/eval"@ + "/missed_black.txt, "@ + "target/eval"@
                + "/fp_white.txt\n"@
        }),
{
}

/// A share is given with its rate and the two numbers behind it.
pub proof fn law_shares(rate: Seq<char>, part: nat, all: nat)
    ensures
        share_text(rate, part, all) == rate + "% ("@ + decimal(part) + "/"@ + decimal(all) + ")\n"@,
{
}

/// The report on the model gives what it was asked about and by whom, what it
/// said, how often it failed, and what is blocked in the end.
pub proof fn law_model_report_is_complete(s: Stats, l: LlmStats, rates: LlmRates)
    ensures
        ({
            let black = l.black_block + l.black_allow;
            let white = l.white_block + l.white_allow;
            llm_report_text(s, l, rates)
                == "\n== LLM 二级研判(灰色地带:规则 Suspicious + ngram 提升)==\n送检黑样本: "@ + decimal(
                black as nat,
            ) + "(其中规则 "@ + decimal(s.black_susp as nat) + " + ngram 提升 "@ + decimal(
                left_of(black, s.black_susp as int) as nat,
            ) + ")  送检白样本: "@ + decimal(white as nat) + "(规则 "@ + decimal(s.white_susp as nat)
                + " + ngram 提升 "@ + decimal(left_of(white, s.white_susp as int) as nat)
                + ")\n\n            LLM Block   LLM Allow\n  灰色黑    "@ + aligned(
                l.black_block as nat,
                8,
            ) + "   "@ + aligned(l.black_allow as nat, 8) + "\n  灰色白    "@ + aligned(
                l.white_block as nat,
                8,
            ) + "   "@ + aligned(l.white_allow as nat, 8) + "\n\nLLM 拦截送检黑样本比例: "@ + share_text(
                rates.recall@,
                l.black_block as nat,
                black as nat,
            ) + "LLM 误拦送检白样本比例: "@ + share_text(
                rates.fp_rate@,
                l.white_block as nat,
                white as nat,
            ) + "LLM 调用失败数: "@ + decimal(l.failures as nat) + "\n"@ + (if rates.avg_ms is Some {
                "平均每样本 LLM 耗时: "@ + rates.avg_ms->0@ + " ms\n"@
            } else {
                Seq::empty()
            }) + "\n== 端到端(规则+LLM)==\n最终检出率: "@ + share_text(
                rates.final_recall@,
                (s.black_block + l.black_block) as nat,
                (s.black_block + s.black_susp + s.black_allow) as nat,
            ) + "最终误报率: "@ + share_text(
                rates.final_fp_rate@,
                (s.white_block + l.white_block) as nat,
                (s.white_block + s.white_susp + s.white_allow) as nat,
            )
        }),
{
}

} // verus!
