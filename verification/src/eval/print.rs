//! The texts of a report. The rates in them are fractions and come written out;
//! everything else is put together here.

use vstd::prelude::*;
use vstd::string::*;

use crate::eval::report::{
    left_of, lenient, llm_figures, metrics_of, rank, ranked, strict, sums_fit, two_tier,
    LlmStats, Metrics, REPORT_DIR, TOP_DRIVERS,
};
use crate::eval::tally::{
    alarm_views, attacks, entry_views, missed_views, normals, plausible, Entry, EntryView,
    FalseAlarm, Missed, Stats,
};
use crate::text::{chars_of, decimal, decimal_of};

verus! {

/// The text that `{:?}` makes of a string.
pub uninterp spec fn quoted_text(s: Seq<char>) -> Seq<char>;

/// The `Debug` formatting of `str`: the text in quotes with its escapes, named.
#[verifier::external_body]
fn quoted(s: &str) -> (r: String)
    ensures
        r@ == quoted_text(s@),
{
    format!("{:?}", s)
}

/// Some spaces.
pub open spec fn spaces(n: nat) -> Seq<char> {
    Seq::new(n, |i: int| ' ')
}

/// A number in decimal notation, with spaces in front up to a width.
pub open spec fn aligned(n: nat, width: nat) -> Seq<char> {
    let d = decimal(n);
    if d.len() >= width {
        d
    } else {
        spaces((width - d.len()) as nat) + d
    }
}

/// A number in decimal notation, with spaces in front up to a width.
pub fn align(n: u32, width: usize) -> (r: String)
    ensures
        r@ == aligned(n as nat, width as nat),
{
    let d = decimal_of(n as u64);
    let len: usize = chars_of(d.as_str()).len();
    let mut r: String = String::new();
    let mut i: usize = len;
    assert(r@ =~= spaces(0));
    while i < width
        invariant
            len <= i,
            len <= width ==> i <= width,
            len >= width ==> i == len,
            r@ == spaces((i - len) as nat),
        decreases width - i,
    {
        r.push(' ');
        assert(r@ =~= spaces((i + 1 - len) as nat));
        i += 1;
    }
    r.append(d.as_str());
    if len >= width {
        assert(r@ =~= decimal(n as nat));
    }
    r
}

/// What the samples are and how the rules judged them.
pub open spec fn head_text(dir: Seq<char>, block: u32, suspicious: u32, s: Stats) -> Seq<char> {
    "== Limen 规则引擎评测(BlazeHTTP)==\n样本目录: "@ + dir + "\n阈值: block="@ + decimal(block as nat)
        + ", suspicious="@ + decimal(suspicious as nat) + "\n黑样本: "@ + decimal(
        attacks(s) as nat,
    ) + "  白样本: "@ + decimal(normals(s) as nat) + "  解析失败跳过: "@ + decimal(s.parse_failed as nat)
        + "\n\n            Block   Suspicious   Allow\n  黑样本  "@ + aligned(s.black_block as nat, 7)
        + " "@ + aligned(s.black_susp as nat, 10) + " "@ + aligned(s.black_allow as nat, 7)
        + "   (Block=直接拦截, Suspicious=送LLM, Allow=漏报)\n  白样本  "@ + aligned(s.white_block as nat, 7)
        + " "@ + aligned(s.white_susp as nat, 10) + " "@ + aligned(s.white_allow as nat, 7)
        + "   (Block=误报, Suspicious=LLM负载, Allow=正确放行)\n\n"@
}

/// What the samples are and how the rules judged them.
pub fn report_head(dir: &str, block_th: u32, susp_th: u32, stats: &Stats) -> (r: String)
    requires
        attacks(*stats) <= u32::MAX,
        normals(*stats) <= u32::MAX,
    ensures
        r@ == head_text(dir@, block_th, susp_th, *stats),
{
    let mut r: String = "== Limen 规则引擎评测(BlazeHTTP)==\n样本目录: ".to_owned();
    r.append(dir);
    r.append("\n阈值: block=");
    r.append(decimal_of(block_th as u64).as_str());
    r.append(", suspicious=");
    r.append(decimal_of(susp_th as u64).as_str());
    r.append("\n黑样本: ");
    r.append(decimal_of(stats.black_total() as u64).as_str());
    r.append("  白样本: ");
    r.append(decimal_of(stats.white_total() as u64).as_str());
    r.append("  解析失败跳过: ");
    r.append(decimal_of(stats.parse_failed as u64).as_str());
    r.append("\n\n            Block   Suspicious   Allow\n  黑样本  ");
    r.append(align(stats.black_block, 7).as_str());
    r.append(" ");
    r.append(align(stats.black_susp, 10).as_str());
    r.append(" ");
    r.append(align(stats.black_allow, 7).as_str());
    r.append("   (Block=直接拦截, Suspicious=送LLM, Allow=漏报)\n  白样本  ");
    r.append(align(stats.white_block, 7).as_str());
    r.append(" ");
    r.append(align(stats.white_susp, 10).as_str());
    r.append(" ");
    r.append(align(stats.white_allow, 7).as_str());
    r.append("   (Block=误报, Suspicious=LLM负载, Allow=正确放行)\n\n");
    r
}

/// Rates, written out.
#[derive(Debug)]
pub struct Rates {
    pub recall: String,
    pub fp_rate: String,
    pub precision: String,
    pub accuracy: String,
    pub f1: String,
}

/// Some figures and the rates that they give.
pub open spec fn metrics_text(title: Seq<char>, m: Metrics, r: Rates) -> Seq<char> {
    title + ":\n  检出率 "@ + r.recall@ + "%(漏报 "@ + decimal(m.missed as nat) + ")  误报率 "@
        + r.fp_rate@ + "%(误报 "@ + decimal(m.fp as nat) + ")  精确率 "@ + r.precision@ + "%  准确率 "@
        + r.accuracy@ + "%  F1 "@ + r.f1@ + "\n\n"@
}

/// Some figures and the rates that they give.
pub fn print_metrics(title: &str, m: &Metrics, rates: &Rates) -> (r: String)
    ensures
        r@ == metrics_text(title@, *m, *rates),
{
    let mut r: String = title.to_owned();
    r.append(":\n  检出率 ");
    r.append(rates.recall.as_str());
    r.append("%(漏报 ");
    r.append(decimal_of(m.missed as u64).as_str());
    r.append(")  误报率 ");
    r.append(rates.fp_rate.as_str());
    r.append("%(误报 ");
    r.append(decimal_of(m.fp as u64).as_str());
    r.append(")  精确率 ");
    r.append(rates.precision.as_str());
    r.append("%  准确率 ");
    r.append(rates.accuracy.as_str());
    r.append("%  F1 ");
    r.append(rates.f1.as_str());
    r.append("\n\n");
    r
}

/// How many samples each tier caught.
pub open spec fn funnel_text(s: Stats, ngram_configured: bool) -> Seq<char> {
    if ngram_configured {
        "== 三级漏斗(规则 → ngram → LLM) ==\n  Tier1 规则直接 Block  黑"@ + aligned(s.black_block as nat, 7)
            + "  白"@ + aligned(s.white_block as nat, 7) + "\n  Tier2 ngram 从 Allow 提升  黑"@ + aligned(
            s.ngram_elevated_black as nat,
            7,
        ) + "  白"@ + aligned(s.ngram_elevated_white as nat, 7)
            + "\n  二级合计送检(Suspicious): 规则"@ + decimal((s.black_susp + s.white_susp) as nat)
            + " + ngram提升"@ + decimal((s.ngram_elevated_black + s.ngram_elevated_white) as nat) + " = "@
            + decimal(
            (s.black_susp + s.white_susp + s.ngram_elevated_black + s.ngram_elevated_white) as nat,
        ) + " 条(黑"@ + decimal((s.black_susp + s.ngram_elevated_black) as nat) + " 白"@ + decimal(
            (s.white_susp + s.ngram_elevated_white) as nat,
        ) + ")\n  其中 Tier3 LLM: 见 --llm 四格报告\n\n"@
    } else {
        "== 三级漏斗(规则 → ngram → LLM) ==\n  (未配置 ngram_model,跳过第二层)\n\n"@
    }
}

/// How many samples each tier caught.
pub fn report_funnel(stats: &Stats, ngram_configured: bool) -> (r: String)
    requires
        plausible(*stats),
    ensures
        r@ == funnel_text(*stats, ngram_configured),
{
    if !ngram_configured {
        return "== 三级漏斗(规则 → ngram → LLM) ==\n  (未配置 ngram_model,跳过第二层)\n\n".to_owned();
    }
    let rules: u32 = stats.black_susp + stats.white_susp;
    let raised: u32 = stats.ngram_elevated_black + stats.ngram_elevated_white;
    let mut r: String =
        "== 三级漏斗(规则 → ngram → LLM) ==\n  Tier1 规则直接 Block  黑".to_owned();
    r.append(align(stats.black_block, 7).as_str());
    r.append("  白");
    r.append(align(stats.white_block, 7).as_str());
    r.append("\n  Tier2 ngram 从 Allow 提升  黑");
    r.append(align(stats.ngram_elevated_black, 7).as_str());
    r.append("  白");
    r.append(align(stats.ngram_elevated_white, 7).as_str());
    r.append("\n  二级合计送检(Suspicious): 规则");
    r.append(decimal_of(rules as u64).as_str());
    r.append(" + ngram提升");
    r.append(decimal_of(raised as u64).as_str());
    r.append(" = ");
    r.append(decimal_of((rules + raised) as u64).as_str());
    r.append(" 条(黑");
    r.append(decimal_of((stats.black_susp + stats.ngram_elevated_black) as u64).as_str());
    r.append(" 白");
    r.append(decimal_of((stats.white_susp + stats.ngram_elevated_white) as u64).as_str());
    r.append(")\n  其中 Tier3 LLM: 见 --llm 四格报告\n\n");
    r
}

/// The lines of a ranking of rules.
pub open spec fn driver_lines(entries: Seq<EntryView>) -> Seq<char>
    decreases entries.len(),
{
    if entries.len() == 0 {
        Seq::empty()
    } else {
        driver_lines(entries.drop_last()) + "  "@ + aligned(entries.last().count as nat, 6) + "  ["@
            + entries.last().category + "] "@ + quoted_text(entries.last().pattern) + "\n"@
    }
}

/// The first entries of a ranking.
pub open spec fn top(entries: Seq<EntryView>) -> Seq<EntryView> {
    let r = ranked(entries);
    if r.len() <= TOP_DRIVERS {
        r
    } else {
        r.take(TOP_DRIVERS as int)
    }
}

/// The rules that normal requests hit most.
pub open spec fn drivers_text(entries: Seq<EntryView>) -> Seq<char> {
    "白样本命中规则 Top 15(误报/LLM 负载驱动):\n"@ + driver_lines(top(entries)) + (if entries.len() == 0 {
        "  (无)\n"@
    } else {
        Seq::empty()
    }) + "\n"@
}

/// The rules that normal requests hit most.
pub fn report_drivers(entries: &Vec<Entry>) -> (r: String)
    ensures
        r@ == drivers_text(entry_views(entries@)),
{
    let ranking = rank(entries);
    let ghost all = ranked(entry_views(entries@));
    let ghost shown = top(entry_views(entries@));
    let mut lines: String = String::new();
    let mut i: usize = 0;
    assert(shown.take(0) =~= Seq::<EntryView>::empty());
    while i < ranking.len() && i < TOP_DRIVERS
        invariant
            i <= ranking@.len(),
            i <= TOP_DRIVERS,
            all == entry_views(ranking@),
            shown == (if all.len() <= TOP_DRIVERS {
                all
            } else {
                all.take(TOP_DRIVERS as int)
            }),
            lines@ == driver_lines(shown.take(i as int)),
        decreases ranking@.len() - i,
    {
        proof {
            assert(shown.take(i + 1).drop_last() =~= shown.take(i as int));
            assert(shown.take(i + 1).last() == ranking@[i as int]@);
        }
        lines.append("  ");
        lines.append(align(ranking[i].count, 6).as_str());
        lines.append("  [");
        lines.append(ranking[i].category.as_str());
        lines.append("] ");
        lines.append(quoted(ranking[i].pattern.as_str()).as_str());
        lines.append("\n");
        i += 1;
    }
    assert(shown.take(i as int) =~= shown);
    let mut r: String = "白样本命中规则 Top 15(误报/LLM 负载驱动):\n".to_owned();
    r.append(lines.as_str());
    if entries.len() == 0 {
        r.append("  (无)\n");
    } else {
        assert(r@ + Seq::<char>::empty() =~= r@);
    }
    r.append("\n");
    r
}

/// The lines of a ranking of threats.
pub open spec fn threat_lines(entries: Seq<EntryView>) -> Seq<char>
    decreases entries.len(),
{
    if entries.len() == 0 {
        Seq::empty()
    } else {
        threat_lines(entries.drop_last()) + "  "@ + aligned(entries.last().count as nat, 6) + "  "@
            + entries.last().category + "\n"@
    }
}

/// The main threats of the attacks that were found.
pub open spec fn threats_text(entries: Seq<EntryView>) -> Seq<char> {
    "被检出黑样本的主威胁分布:\n"@ + threat_lines(ranked(entries)) + "\n"@
}

/// The main threats of the attacks that were found.
pub fn report_threats(entries: &Vec<Entry>) -> (r: String)
    ensures
        r@ == threats_text(entry_views(entries@)),
{
    let ranking = rank(entries);
    let ghost all = ranked(entry_views(entries@));
    let mut lines: String = String::new();
    let mut i: usize = 0;
    assert(all.take(0) =~= Seq::<EntryView>::empty());
    while i < ranking.len()
        invariant
            i <= ranking@.len(),
            all == entry_views(ranking@),
            lines@ == threat_lines(all.take(i as int)),
        decreases ranking@.len() - i,
    {
        proof {
            assert(all.take(i + 1).drop_last() =~= all.take(i as int));
            assert(all.take(i + 1).last() == ranking@[i as int]@);
        }
        lines.append("  ");
        lines.append(align(ranking[i].count, 6).as_str());
        lines.append("  ");
        lines.append(ranking[i].category.as_str());
        lines.append("\n");
        i += 1;
    }
    assert(all.take(i as int) =~= all);
    let mut r: String = "被检出黑样本的主威胁分布:\n".to_owned();
    r.append(lines.as_str());
    r.append("\n");
    r
}

/// The rates of one report, written out.
#[derive(Debug)]
pub struct ReportRates {
    pub strict: Rates,
    pub lenient: Rates,
    /// Those with the classifier, if there is one.
    pub two_tier: Option<Rates>,
    /// How fast the rules were, if that could be measured.
    pub speed: Option<String>,
}

/// The report on an evaluation.
pub open spec fn report_text(
    dir: Seq<char>,
    block: u32,
    suspicious: u32,
    s: Stats,
    white_hits: Seq<EntryView>,
    threats: Seq<EntryView>,
    rates: ReportRates,
) -> Seq<char> {
    let strict = metrics_of(s.black_block as int, s.white_block as int, s);
    let lenient = metrics_of(s.black_block + s.black_susp, s.white_block + s.white_susp, s);
    let both = metrics_of(
        s.black_block + s.ngram_elevated_black,
        s.white_block + s.ngram_elevated_white,
        s,
    );
    head_text(dir, block, suspicious, s) + metrics_text("严格口径(仅 Block 算拦截)"@, strict, rates.strict)
        + metrics_text(
        "宽松口径(Block+Suspicious 都算命中,假设 LLM 研判完美)"@,
        lenient,
        rates.lenient,
    ) + funnel_text(s, rates.two_tier is Some) + (match rates.two_tier {
        Some(t) => metrics_text("规则+ngram 两级口径"@, both, t),
        None => Seq::empty(),
    }) + drivers_text(white_hits) + threats_text(threats) + (match rates.speed {
        Some(t) => t@ + "\n"@,
        None => Seq::empty(),
    }) + "明细: "@ + REPORT_DIR@ + "/missed_black.txt, "@ + REPORT_DIR@ + "/fp_white.txt\n"@
}

/// The report on an evaluation.
pub fn print_report(
    dir: &str,
    block_th: u32,
    susp_th: u32,
    stats: &Stats,
    white_hit_rules: &Vec<Entry>,
    black_threats: &Vec<Entry>,
    rates: &ReportRates,
) -> (r: String)
    requires
        plausible(*stats),
    ensures
        r@ == report_text(
            dir@,
            block_th,
            susp_th,
            *stats,
            entry_views(white_hit_rules@),
            entry_views(black_threats@),
            *rates,
        ),
{
    let mut r: String = report_head(dir, block_th, susp_th, stats);
    r.append(print_metrics("严格口径(仅 Block 算拦截)", &strict(stats), &rates.strict).as_str());
    r.append(
        print_metrics(
            "宽松口径(Block+Suspicious 都算命中,假设 LLM 研判完美)",
            &lenient(stats),
            &rates.lenient,
        ).as_str(),
    );
    r.append(report_funnel(stats, rates.two_tier.is_some()).as_str());
    match &rates.two_tier {
        Some(t) => {
            r.append(print_metrics("规则+ngram 两级口径", &two_tier(stats), t).as_str());
        },
        None => {
            assert(r@ + Seq::<char>::empty() =~= r@);
        },
    }
    r.append(report_drivers(white_hit_rules).as_str());
    r.append(report_threats(black_threats).as_str());
    match &rates.speed {
        Some(t) => {
            let ghost before = r@;
            r.append(t.as_str());
            r.append("\n");
            assert(r@ =~= before + (t@ + "\n"@));
        },
        None => {
            assert(r@ + Seq::<char>::empty() =~= r@);
        },
    }
    r.append("明细: ");
    r.append(REPORT_DIR);
    r.append("/missed_black.txt, ");
    r.append(REPORT_DIR);
    r.append("/fp_white.txt\n");
    r
}

/// The lines of the list of missed attacks.
pub open spec fn missed_lines(missed: Seq<(Seq<char>, u32)>) -> Seq<char>
    decreases missed.len(),
{
    if missed.len() == 0 {
        Seq::empty()
    } else {
        missed_lines(missed.drop_last()) + missed.last().0 + "\tscore="@ + decimal(
            missed.last().1 as nat,
        ) + "\n"@
    }
}

/// The list of missed attacks.
pub fn missed_file(missed: &Vec<Missed>) -> (r: String)
    ensures
        r@ == "# 漏报的黑样本(得分未达 suspicious 阈值),共 "@ + decimal(missed@.len()) + " 条\n"@
            + missed_lines(missed_views(missed@)),
{
    let ghost all = missed_views(missed@);
    let mut lines: String = String::new();
    let mut i: usize = 0;
    assert(all.take(0) =~= Seq::<(Seq<char>, u32)>::empty());
    while i < missed.len()
        invariant
            i <= missed@.len(),
            all == missed_views(missed@),
            lines@ == missed_lines(all.take(i as int)),
        decreases missed@.len() - i,
    {
        proof {
            assert(all.take(i + 1).drop_last() =~= all.take(i as int));
            assert(all.take(i + 1).last() == all[i as int]);
        }
        lines.append(missed[i].path.as_str());
        lines.append("\tscore=");
        lines.append(decimal_of(missed[i].score as u64).as_str());
        lines.append("\n");
        i += 1;
    }
    assert(all.take(i as int) =~= all);
    let mut r: String = "# 漏报的黑样本(得分未达 suspicious 阈值),共 ".to_owned();
    r.append(decimal_of(missed.len() as u64).as_str());
    r.append(" 条\n");
    r.append(lines.as_str());
    r
}

/// The lines of the list of false alarms.
pub open spec fn alarm_lines(alarms: Seq<(Seq<char>, u32, Seq<char>)>) -> Seq<char>
    decreases alarms.len(),
{
    if alarms.len() == 0 {
        Seq::empty()
    } else {
        alarm_lines(alarms.drop_last()) + alarms.last().0 + "\tscore="@ + decimal(
            alarms.last().1 as nat,
        ) + "\t"@ + alarms.last().2 + "\n"@
    }
}

/// The list of false alarms.
pub fn alarm_file(alarms: &Vec<FalseAlarm>) -> (r: String)
    ensures
        r@ == "# 被误拦截的白样本(得分达 block 阈值),共 "@ + decimal(alarms@.len()) + " 条\n"@ + alarm_lines(
            alarm_views(alarms@),
        ),
{
    let ghost all = alarm_views(alarms@);
    let mut lines: String = String::new();
    let mut i: usize = 0;
    assert(all.take(0) =~= Seq::<(Seq<char>, u32, Seq<char>)>::empty());
    while i < alarms.len()
        invariant
            i <= alarms@.len(),
            all == alarm_views(alarms@),
            lines@ == alarm_lines(all.take(i as int)),
        decreases alarms@.len() - i,
    {
        proof {
            assert(all.take(i + 1).drop_last() =~= all.take(i as int));
            assert(all.take(i + 1).last() == all[i as int]);
        }
        lines.append(alarms[i].path.as_str());
        lines.append("\tscore=");
        lines.append(decimal_of(alarms[i].score as u64).as_str());
        lines.append("\t");
        lines.append(alarms[i].reasons.as_str());
        lines.append("\n");
        i += 1;
    }
    assert(all.take(i as int) =~= all);
    let mut r: String = "# 被误拦截的白样本(得分达 block 阈值),共 ".to_owned();
    r.append(decimal_of(alarms.len() as u64).as_str());
    r.append(" 条\n");
    r.append(lines.as_str());
    r
}

/// The rates of the report on the model, written out.
#[derive(Debug)]
pub struct LlmRates {
    pub recall: String,
    pub fp_rate: String,
    /// The milliseconds that a sample took, if any was asked about.
    pub avg_ms: Option<String>,
    pub final_recall: String,
    pub final_fp_rate: String,
}

/// A rate with the two numbers behind it.
pub open spec fn share_text(rate: Seq<char>, part: nat, whole: nat) -> Seq<char> {
    rate + "% ("@ + decimal(part) + "/"@ + decimal(whole) + ")\n"@
}

fn share(rate: &str, part: u32, whole: u32) -> (r: String)
    ensures
        r@ == share_text(rate@, part as nat, whole as nat),
{
    let mut r: String = rate.to_owned();
    r.append("% (");
    r.append(decimal_of(part as u64).as_str());
    r.append("/");
    r.append(decimal_of(whole as u64).as_str());
    r.append(")\n");
    r
}

/// The report on the model's part.
pub open spec fn llm_report_text(s: Stats, l: LlmStats, rates: LlmRates) -> Seq<char> {
    let black = l.black_block + l.black_allow;
    let white = l.white_block + l.white_allow;
    "\n== LLM 二级研判(灰色地带:规则 Suspicious + ngram 提升)==\n送检黑样本: "@ + decimal(black as nat) + "(其中规则 "@
        + decimal(s.black_susp as nat) + " + ngram 提升 "@ + decimal(
        left_of(black, s.black_susp as int) as nat,
    ) + ")  送检白样本: "@ + decimal(white as nat) + "(规则 "@ + decimal(s.white_susp as nat)
        + " + ngram 提升 "@ + decimal(left_of(white, s.white_susp as int) as nat)
        + ")\n\n            LLM Block   LLM Allow\n  灰色黑    "@ + aligned(l.black_block as nat, 8) + "   "@
        + aligned(l.black_allow as nat, 8) + "\n  灰色白    "@ + aligned(l.white_block as nat, 8) + "   "@
        + aligned(l.white_allow as nat, 8) + "\n\nLLM 拦截送检黑样本比例: "@ + share_text(
        rates.recall@,
        l.black_block as nat,
        black as nat,
    ) + "LLM 误拦送检白样本比例: "@ + share_text(rates.fp_rate@, l.white_block as nat, white as nat)
        + "LLM 调用失败数: "@ + decimal(l.failures as nat) + "\n"@ + (match rates.avg_ms {
        Some(t) => "平均每样本 LLM 耗时: "@ + t@ + " ms\n"@,
        None => Seq::empty(),
    }) + "\n== 端到端(规则+LLM)==\n最终检出率: "@ + share_text(
        rates.final_recall@,
        (s.black_block + l.black_block) as nat,
        attacks(s) as nat,
    ) + "最终误报率: "@ + share_text(
        rates.final_fp_rate@,
        (s.white_block + l.white_block) as nat,
        normals(s) as nat,
    )
}

/// The report on the model's part.
pub fn print_llm_report(stats: &Stats, llm: &LlmStats, rates: &LlmRates) -> (r: String)
    requires
        attacks(*stats) <= u32::MAX,
        normals(*stats) <= u32::MAX,
        sums_fit(*stats, *llm),
    ensures
        r@ == llm_report_text(*stats, *llm, *rates),
{
    let f = llm_figures(stats, llm);
    let mut r: String =
        "\n== LLM 二级研判(灰色地带:规则 Suspicious + ngram 提升)==\n送检黑样本: ".to_owned();
    r.append(decimal_of(f.black as u64).as_str());
    r.append("(其中规则 ");
    r.append(decimal_of(stats.black_susp as u64).as_str());
    r.append(" + ngram 提升 ");
    r.append(decimal_of(f.black_elevated as u64).as_str());
    r.append(")  送检白样本: ");
    r.append(decimal_of(f.white as u64).as_str());
    r.append("(规则 ");
    r.append(decimal_of(stats.white_susp as u64).as_str());
    r.append(" + ngram 提升 ");
    r.append(decimal_of(f.white_elevated as u64).as_str());
    r.append(")\n\n            LLM Block   LLM Allow\n  灰色黑    ");
    r.append(align(llm.black_block, 8).as_str());
    r.append("   ");
    r.append(align(llm.black_allow, 8).as_str());
    r.append("\n  灰色白    ");
    r.append(align(llm.white_block, 8).as_str());
    r.append("   ");
    r.append(align(llm.white_allow, 8).as_str());
    r.append("\n\nLLM 拦截送检黑样本比例: ");
    r.append(share(rates.recall.as_str(), llm.black_block, f.black).as_str());
    r.append("LLM 误拦送检白样本比例: ");
    r.append(share(rates.fp_rate.as_str(), llm.white_block, f.white).as_str());
    r.append("LLM 调用失败数: ");
    r.append(decimal_of(llm.failures as u64).as_str());
    r.append("\n");
    match &rates.avg_ms {
        Some(t) => {
            let ghost before = r@;
            r.append("平均每样本 LLM 耗时: ");
            r.append(t.as_str());
            r.append(" ms\n");
            assert(r@ =~= before + ("平均每样本 LLM 耗时: "@ + t@ + " ms\n"@));
        },
        None => {
            assert(r@ + Seq::<char>::empty() =~= r@);
        },
    }
    r.append("\n== 端到端(规则+LLM)==\n最终检出率: ");
    r.append(share(rates.final_recall.as_str(), f.final_tp, stats.black_total()).as_str());
    r.append("最终误报率: ");
    r.append(share(rates.final_fp_rate.as_str(), f.final_fp, stats.white_total()).as_str());
    r
}

} // verus!
