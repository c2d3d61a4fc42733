//! The trial of a proposed rule: it is run on the payloads that were missed and
//! on normal requests, and only one that finds some of the first and none of
//! the second is put forward.

use vstd::prelude::*;
use vstd::string::*;

use crate::engine::matcher::{
    compile_regex, regex_compiles, regex_first_match, regex_matches, regex_source,
};
use crate::eval::print::{align, aligned, spaces};
use crate::learn::Candidate;
use crate::text::{
    at_most, chars_of, contains, decimal, decimal_of, head, lowercase, lowercase_text, occurs, texts,
};

verus! {

/// A proposed rule over sequences of characters.
pub struct CandidateView {
    pub pattern: Seq<char>,
    pub is_regex: bool,
    pub category: Seq<char>,
    pub score: u32,
    pub rationale: Seq<char>,
}

impl View for Candidate {
    type V = CandidateView;

    open spec fn view(&self) -> CandidateView {
        CandidateView {
            pattern: self.pattern@,
            is_regex: self.is_regex,
            category: self.category@,
            score: self.score,
            rationale: self.rationale@,
        }
    }
}

/// A proposed rule that was tried.
#[derive(Debug)]
pub struct Scored {
    pub cand: Candidate,
    /// How many of the missed payloads it finds.
    pub detect: u32,
    /// How many normal requests it finds.
    pub fp: u32,
    /// It is no regular expression, or one that can be compiled.
    pub regex_ok: bool,
}

/// A tried rule over sequences of characters.
pub struct ScoredView {
    pub cand: CandidateView,
    pub detect: u32,
    pub fp: u32,
    pub regex_ok: bool,
}

impl View for Scored {
    type V = ScoredView;

    open spec fn view(&self) -> ScoredView {
        ScoredView {
            cand: self.cand@,
            detect: self.detect,
            fp: self.fp,
            regex_ok: self.regex_ok,
        }
    }
}

/// The regular expression of a proposed rule: its pattern, in any case.
pub open spec fn expression(pattern: Seq<char>) -> Seq<char> {
    "(?i)"@ + pattern
}

/// How many texts a regular expression finds something in.
pub open spec fn regex_finds(source: Seq<char>, hays: Seq<Seq<char>>) -> nat
    decreases hays.len(),
{
    if hays.len() == 0 {
        0
    } else {
        regex_finds(source, hays.drop_last()) + (if regex_first_match(source, hays.last()) is Some {
            1nat
        } else {
            0nat
        })
    }
}

/// How many texts a text stands in.
pub open spec fn text_finds(needle: Seq<char>, hays: Seq<Seq<char>>) -> nat
    decreases hays.len(),
{
    if hays.len() == 0 {
        0
    } else {
        text_finds(needle, hays.drop_last()) + (if occurs(hays.last(), needle) {
            1nat
        } else {
            0nat
        })
    }
}

/// The texts in lower case.
pub open spec fn lowercase_texts(items: Seq<Seq<char>>) -> Seq<Seq<char>> {
    items.map_values(|s: Seq<char>| lowercase_text(s))
}

/// How many of the missed payloads a rule finds.
pub open spec fn detections(c: CandidateView, payloads: Seq<Seq<char>>) -> nat {
    if !c.is_regex {
        text_finds(lowercase_text(c.pattern), lowercase_texts(payloads))
    } else if regex_compiles(expression(c.pattern)) {
        regex_finds(expression(c.pattern), payloads)
    } else {
        0
    }
}

/// How many normal requests a rule finds. They are given in lower case.
pub open spec fn false_alarms(c: CandidateView, whites: Seq<Seq<char>>) -> nat {
    if !c.is_regex {
        text_finds(lowercase_text(c.pattern), whites)
    } else if regex_compiles(expression(c.pattern)) {
        regex_finds(expression(c.pattern), whites)
    } else {
        0
    }
}

/// A rule that was tried.
pub open spec fn tried(
    c: CandidateView,
    payloads: Seq<Seq<char>>,
    whites: Seq<Seq<char>>,
) -> ScoredView {
    ScoredView {
        cand: c,
        detect: detections(c, payloads) as u32,
        fp: false_alarms(c, whites) as u32,
        regex_ok: !c.is_regex || regex_compiles(expression(c.pattern)),
    }
}

/// The number of texts that something was found in.
pub open spec fn found_in(found: Seq<bool>) -> nat
    decreases found.len(),
{
    if found.len() == 0 {
        0
    } else {
        found_in(found.drop_last()) + (if found.last() {
            1nat
        } else {
            0nat
        })
    }
}

/// The number of texts that something was found in.
pub fn count_found(found: &Vec<bool>) -> (r: usize)
    ensures
        r == found_in(found@),
        r <= found@.len(),
{
    let mut n: usize = 0;
    let mut i: usize = 0;
    while i < found.len()
        invariant
            i <= found@.len(),
            n <= i,
            n == found_in(found@.take(i as int)),
        decreases found@.len() - i,
    {
        assert(found@.take(i + 1).drop_last() =~= found@.take(i as int));
        if found[i] {
            n += 1;
        }
        i += 1;
    }
    assert(found@.take(i as int) =~= found@);
    n
}

/// How many texts a regular expression finds something in.
fn count_regex(re: &regex::Regex, hays: &Vec<String>) -> (r: usize)
    ensures
        r == regex_finds(regex_source(*re), texts(hays@)),
        r <= hays@.len(),
{
    let ghost all = texts(hays@);
    let mut found: Vec<bool> = Vec::new();
    let mut i: usize = 0;
    while i < hays.len()
        invariant
            i <= hays@.len(),
            i == found@.len(),
            all == texts(hays@),
            found_in(found@) == regex_finds(regex_source(*re), all.take(i as int)),
        decreases hays@.len() - i,
    {
        let ghost before = found@;
        found.push(regex_matches(re, hays[i].as_str()));
        proof {
            assert(all.take(i + 1).drop_last() =~= all.take(i as int));
            assert(all.take(i + 1).last() == hays@[i as int]@);
            assert(found@.drop_last() =~= before);
        }
        i += 1;
    }
    assert(all.take(i as int) =~= all);
    count_found(&found)
}

/// How many texts a text stands in.
pub fn count_text(needle: &str, hays: &Vec<String>) -> (r: usize)
    ensures
        r == text_finds(needle@, texts(hays@)),
        r <= hays@.len(),
{
    let ghost all = texts(hays@);
    let v = chars_of(needle);
    let mut n: usize = 0;
    let mut i: usize = 0;
    while i < hays.len()
        invariant
            i <= hays@.len(),
            n <= i,
            v@ == needle@,
            all == texts(hays@),
            n == text_finds(needle@, all.take(i as int)),
        decreases hays@.len() - i,
    {
        proof {
            assert(all.take(i + 1).drop_last() =~= all.take(i as int));
            assert(all.take(i + 1).last() == hays@[i as int]@);
        }
        let h = chars_of(hays[i].as_str());
        if contains(h.as_slice(), v.as_slice()) {
            n += 1;
        }
        i += 1;
    }
    assert(all.take(i as int) =~= all);
    n
}

fn lowercase_all(items: &Vec<String>) -> (r: Vec<String>)
    ensures
        texts(r@) == lowercase_texts(texts(items@)),
{
    let mut r: Vec<String> = Vec::new();
    let mut i: usize = 0;
    while i < items.len()
        invariant
            i <= items@.len(),
            i == r@.len(),
            forall|j: int| 0 <= j < i ==> (#[trigger] r@[j])@ == lowercase_text(items@[j]@),
        decreases items@.len() - i,
    {
        r.push(lowercase(items[i].as_str()));
        i += 1;
    }
    assert(texts(r@) =~= lowercase_texts(texts(items@)));
    r
}

/// Tries a proposed rule on the missed payloads and on normal requests, which
/// are given in lower case.
pub fn score_candidate(cand: Candidate, payloads: &Vec<String>, whites: &Vec<String>) -> (r: Scored)
    ensures
        r@ == tried(cand@, texts(payloads@), texts(whites@)),
{
    if cand.is_regex {
        let mut source: String = "(?i)".to_owned();
        source.append(cand.pattern.as_str());
        match compile_regex(source.as_str()) {
            Ok(re) => {
                let detect: usize = count_regex(&re, payloads);
                let fp: usize = count_regex(&re, whites);
                Scored { cand, detect: detect as u32, fp: fp as u32, regex_ok: true }
            },
            Err(_) => Scored { cand, detect: 0, fp: 0, regex_ok: false },
        }
    } else {
        let pattern = lowercase(cand.pattern.as_str());
        let detect: usize = count_text(pattern.as_str(), &lowercase_all(payloads));
        let fp: usize = count_text(pattern.as_str(), whites);
        Scored { cand, detect: detect as u32, fp: fp as u32, regex_ok: true }
    }
}

/// The views of some tried rules.
pub open spec fn scored_views(v: Seq<Scored>) -> Seq<ScoredView> {
    Seq::new(v.len(), |i: int| v[i]@)
}

/// One rule comes behind another: it raises more false alarms, or as many and
/// finds less.
pub open spec fn comes_behind(a: ScoredView, b: ScoredView) -> bool {
    a.fp > b.fp || (a.fp == b.fp && a.detect < b.detect)
}

/// An ordered list with one rule more: in front of those that come behind it.
pub open spec fn put(list: Seq<ScoredView>, s: ScoredView) -> Seq<ScoredView>
    decreases list.len(),
{
    if list.len() > 0 && comes_behind(list.last(), s) {
        put(list.drop_last(), s).push(list.last())
    } else {
        list.push(s)
    }
}

/// The rules with the fewest false alarms first, of those with as many the ones
/// that find most, and otherwise in their order.
pub open spec fn ordered(list: Seq<ScoredView>) -> Seq<ScoredView>
    decreases list.len(),
{
    if list.len() == 0 {
        Seq::empty()
    } else {
        put(ordered(list.drop_last()), list.last())
    }
}

proof fn lemma_put(list: Seq<ScoredView>, s: ScoredView, k: int)
    requires
        0 <= k <= list.len(),
        k > 0 ==> !comes_behind(list[k - 1], s),
        forall|j: int| k <= j < list.len() ==> comes_behind(#[trigger] list[j], s),
    ensures
        put(list, s) == list.insert(k, s),
    decreases list.len(),
{
    if list.len() > k {
        let front = list.drop_last();
        assert(comes_behind(list[list.len() - 1], s));
        assert forall|j: int| k <= j < front.len() implies comes_behind(#[trigger] front[j], s) by {
            assert(front[j] == list[j]);
        }
        lemma_put(front, s, k);
        assert(put(list, s) =~= list.insert(k, s));
    } else {
        assert(put(list, s) =~= list.insert(k, s));
    }
}

/// Tries all proposed rules and puts them in order.
pub fn score_all(
    candidates: Vec<Candidate>,
    payloads: &Vec<String>,
    whites: &Vec<String>,
) -> (r: Vec<Scored>)
    ensures
        scored_views(r@) == ordered(
            Seq::new(
                candidates@.len(),
                |i: int| tried(candidates@[i]@, texts(payloads@), texts(whites@)),
            ),
        ),
{
    let ghost cands = candidates@;
    let ghost all = Seq::new(
        cands.len(),
        |i: int| tried(cands[i]@, texts(payloads@), texts(whites@)),
    );
    let mut left: Vec<Candidate> = candidates;
    let mut turned: Vec<Candidate> = Vec::new();
    while left.len() > 0
        invariant
            left@.len() + turned@.len() == cands.len(),
            left@ == cands.take(left@.len() as int),
            turned@ =~= cands.skip(left@.len() as int).reverse(),
        decreases left@.len(),
    {
        let ghost n = left@.len() as int;
        match left.pop() {
            Some(c) => {
                turned.push(c);
                proof {
                    assert(left@ =~= cands.take(n - 1));
                    assert(c == cands[n - 1]);
                    assert(turned@ =~= cands.skip(n - 1).reverse());
                }
            },
            None => {},
        }
    }
    let mut r: Vec<Scored> = Vec::new();
    let ghost mut done: int = 0;
    assert(cands.skip(0) =~= cands);
    assert(scored_views(r@) =~= ordered(all.take(0)));
    while turned.len() > 0
        invariant
            0 <= done <= cands.len(),
            turned@ == cands.skip(done).reverse(),
            all == Seq::new(
                cands.len(),
                |i: int| tried(cands[i]@, texts(payloads@), texts(whites@)),
            ),
            scored_views(r@) == ordered(all.take(done)),
        decreases turned@.len(),
    {
        match turned.pop() {
            Some(c) => {
                proof {
                    assert(c == cands[done]);
                    assert(turned@ =~= cands.skip(done + 1).reverse());
                    assert(all.take(done + 1).drop_last() =~= all.take(done));
                    assert(all.take(done + 1).last() == all[done]);
                    done = done + 1;
                }
                let s = score_candidate(c, payloads, whites);
                insert_in_order(&mut r, s);
            },
            None => {},
        }
    }
    assert(all.take(done) =~= all);
    r
}

fn insert_in_order(list: &mut Vec<Scored>, s: Scored)
    ensures
        scored_views(final(list)@) == put(scored_views(old(list)@), s@),
{
    let ghost before = scored_views(list@);
    let mut k: usize = list.len();
    while k > 0 && (list[k - 1].fp > s.fp || (list[k - 1].fp == s.fp && list[k - 1].detect
        < s.detect))
        invariant
            k <= list@.len(),
            before == scored_views(list@),
            forall|j: int| k <= j < list@.len() ==> comes_behind(#[trigger] before[j], s@),
        decreases k,
    {
        assert(before[k - 1] == list@[k - 1]@);
        k -= 1;
    }
    proof {
        if k > 0 {
            assert(before[k - 1] == list@[k - 1]@);
        }
        lemma_put(before, s@, k as int);
    }
    list.insert(k, s);
    assert(scored_views(list@) =~= before.insert(k as int, s@));
}

/// The rule is put forward: it finds something that was missed and no normal
/// request.
pub open spec fn is_clean(s: ScoredView) -> bool {
    s.regex_ok && s.fp == 0 && s.detect > 0
}

/// The text in front of spaces up to a width.
pub open spec fn padded(s: Seq<char>, width: nat) -> Seq<char> {
    if s.len() >= width {
        s
    } else {
        s + spaces((width - s.len()) as nat)
    }
}

/// The text in front of spaces up to a width.
pub fn pad(s: &str, width: usize) -> (r: String)
    ensures
        r@ == padded(s@, width as nat),
{
    let mut r: String = s.to_owned();
    let mut i: usize = chars_of(s).len();
    assert(s@ + spaces(0) =~= s@);
    while i < width
        invariant
            s@.len() <= i,
            s@.len() >= width ==> i == s@.len(),
            s@.len() <= width ==> i <= width,
            r@ == s@ + spaces((i - s@.len()) as nat),
        decreases width - i,
    {
        let ghost before = r@;
        r.push(' ');
        assert(r@ =~= s@ + spaces((i + 1 - s@.len()) as nat));
        i += 1;
    }
    r
}

/// The line of a tried rule in the report.
pub open spec fn row(s: ScoredView) -> Seq<char> {
    "  "@ + padded(at_most(s.cand.pattern, 28), 28) + " "@ + padded(s.cand.category, 16) + " "@
        + aligned(s.cand.score as nat, 5) + " "@ + aligned(s.detect as nat, 7) + " "@ + aligned(
        s.fp as nat,
        5,
    ) + "  "@ + s.cand.rationale + "\n"@
}

/// The lines of the rules that are put forward, or of the others.
pub open spec fn rows_of(list: Seq<ScoredView>, clean: bool) -> Seq<char>
    decreases list.len(),
{
    if list.len() == 0 {
        Seq::empty()
    } else {
        let front = rows_of(list.drop_last(), clean);
        if list.last().regex_ok && is_clean(list.last()) == clean {
            front + row(list.last())
        } else {
            front
        }
    }
}

/// The number of the rules that are put forward, or of the others.
pub open spec fn count_of(list: Seq<ScoredView>, clean: bool) -> nat
    decreases list.len(),
{
    if list.len() == 0 {
        0
    } else {
        count_of(list.drop_last(), clean) + (if list.last().regex_ok && is_clean(list.last())
            == clean {
            1nat
        } else {
            0nat
        })
    }
}

/// The number of regular expressions that cannot be compiled.
pub open spec fn broken(list: Seq<ScoredView>) -> nat
    decreases list.len(),
{
    if list.len() == 0 {
        0
    } else {
        broken(list.drop_last()) + (if list.last().regex_ok {
            0nat
        } else {
            1nat
        })
    }
}

fn one_row(s: &Scored) -> (r: String)
    ensures
        r@ == row(s@),
{
    let mut r: String = "  ".to_owned();
    r.append(pad(head(s.cand.pattern.as_str(), 28).as_str(), 28).as_str());
    r.append(" ");
    r.append(pad(s.cand.category.as_str(), 16).as_str());
    r.append(" ");
    r.append(align(s.cand.score, 5).as_str());
    r.append(" ");
    r.append(align(s.detect, 7).as_str());
    r.append(" ");
    r.append(align(s.fp, 5).as_str());
    r.append("  ");
    r.append(s.cand.rationale.as_str());
    r.append("\n");
    r
}

fn clean_scored(s: &Scored) -> (r: bool)
    ensures
        r == is_clean(s@),
{
    s.regex_ok && s.fp == 0 && s.detect > 0
}

/// The table of the rules that are put forward, or of the others.
pub open spec fn table(list: Seq<ScoredView>, clean: bool) -> Seq<char> {
    if count_of(list, clean) == 0 {
        "  (无)\n"@
    } else {
        "  pattern                      category         score  detect    fp  说明\n"@ + rows_of(
            list,
            clean,
        )
    }
}

/// The table of the rules that are put forward, or of the others, and their
/// number.
pub fn print_rows(scored: &Vec<Scored>, clean: bool) -> (r: (String, usize))
    ensures
        r.0@ == table(scored_views(scored@), clean),
        r.1 == count_of(scored_views(scored@), clean),
{
    let ghost all = scored_views(scored@);
    let mut rows: String = String::new();
    let mut n: usize = 0;
    let mut i: usize = 0;
    while i < scored.len()
        invariant
            i <= scored@.len(),
            n <= i,
            all == scored_views(scored@),
            rows@ == rows_of(all.take(i as int), clean),
            n == count_of(all.take(i as int), clean),
        decreases scored@.len() - i,
    {
        proof {
            assert(all.take(i + 1).drop_last() =~= all.take(i as int));
            assert(all.take(i + 1).last() == scored@[i as int]@);
        }
        if scored[i].regex_ok && clean_scored(&scored[i]) == clean {
            rows.append(one_row(&scored[i]).as_str());
            n += 1;
        }
        i += 1;
    }
    assert(all.take(i as int) =~= all);
    if n == 0 {
        ("  (无)\n".to_owned(), 0)
    } else {
        let mut r: String =
            "  pattern                      category         score  detect    fp  说明\n".to_owned();
        r.append(rows.as_str());
        (r, n)
    }
}

fn count_broken(scored: &Vec<Scored>) -> (r: usize)
    ensures
        r == broken(scored_views(scored@)),
{
    let ghost all = scored_views(scored@);
    let mut n: usize = 0;
    let mut i: usize = 0;
    while i < scored.len()
        invariant
            i <= scored@.len(),
            n <= i,
            all == scored_views(scored@),
            n == broken(all.take(i as int)),
        decreases scored@.len() - i,
    {
        proof {
            assert(all.take(i + 1).drop_last() =~= all.take(i as int));
            assert(all.take(i + 1).last() == scored@[i as int]@);
        }
        if !scored[i].regex_ok {
            n += 1;
        }
        i += 1;
    }
    assert(all.take(i as int) =~= all);
    n
}

/// The report on the tried rules.
pub open spec fn trial_report(list: Seq<ScoredView>) -> Seq<char> {
    "== 候选规则校验报告 ==\n\n【零误报候选(建议采纳)】"@ + decimal(count_of(list, true)) + " 条\n"@ + table(list, true)
        + "\n【有误报/无检出候选(需收紧,不建议直接用)】"@ + decimal(count_of(list, false)) + " 条\n"@ + table(
        list,
        false,
    ) + (if broken(list) == 0 {
        Seq::empty()
    } else {
        "\n"@ + decimal(broken(list)) + " 条候选正则编译失败,已丢弃。\n"@
    })
}

/// The report on the tried rules.
pub fn print_report(scored: &Vec<Scored>) -> (r: String)
    ensures
        r@ == trial_report(scored_views(scored@)),
{
    let (clean, n) = print_rows(scored, true);
    let (dirty, m) = print_rows(scored, false);
    let bad: usize = count_broken(scored);
    let mut r: String = "== 候选规则校验报告 ==\n\n【零误报候选(建议采纳)】".to_owned();
    r.append(decimal_of(n as u64).as_str());
    r.append(" 条\n");
    r.append(clean.as_str());
    r.append("\n【有误报/无检出候选(需收紧,不建议直接用)】");
    r.append(decimal_of(m as u64).as_str());
    r.append(" 条\n");
    r.append(dirty.as_str());
    if bad > 0 {
        let ghost before = r@;
        r.append("\n");
        r.append(decimal_of(bad as u64).as_str());
        r.append(" 条候选正则编译失败,已丢弃。\n");
        assert(r@ =~= before + ("\n"@ + decimal(bad as nat) + " 条候选正则编译失败,已丢弃。\n"@));
    } else {
        assert(r@ + Seq::<char>::empty() =~= r@);
    }
    r
}

/// The lines of a rule that is put forward, ready for the table of rules.
pub open spec fn candidate_line(s: ScoredView) -> Seq<char> {
    if s.cand.is_regex {
        "    // [正则] 命中 gap "@ + decimal(s.detect as nat) + " 条, 误报 0 —— "@ + s.cand.rationale
            + "\n    (r\"(?i)"@ + s.cand.pattern + "\", \""@ + s.cand.category + "\", "@ + decimal(
            s.cand.score as nat,
        ) + "),\n"@
    } else {
        "    (\""@ + s.cand.pattern + "\", \""@ + s.cand.category + "\", "@ + decimal(
            s.cand.score as nat,
        ) + "),   // 命中 gap "@ + decimal(s.detect as nat) + " 条, 误报 0 —— "@ + s.cand.rationale + "\n"@
    }
}

/// The lines of the rules that are put forward.
pub open spec fn candidate_lines(list: Seq<ScoredView>) -> Seq<char>
    decreases list.len(),
{
    if list.len() == 0 {
        Seq::empty()
    } else {
        let front = candidate_lines(list.drop_last());
        if is_clean(list.last()) {
            front + candidate_line(list.last())
        } else {
            front
        }
    }
}

fn one_candidate(s: &Scored) -> (r: String)
    ensures
        r@ == candidate_line(s@),
{
    if s.cand.is_regex {
        let mut r: String = "    // [正则] 命中 gap ".to_owned();
        r.append(decimal_of(s.detect as u64).as_str());
        r.append(" 条, 误报 0 —— ");
        r.append(s.cand.rationale.as_str());
        r.append("\n    (r\"(?i)");
        r.append(s.cand.pattern.as_str());
        r.append("\", \"");
        r.append(s.cand.category.as_str());
        r.append("\", ");
        r.append(decimal_of(s.cand.score as u64).as_str());
        r.append("),\n");
        r
    } else {
        let mut r: String = "    (\"".to_owned();
        r.append(s.cand.pattern.as_str());
        r.append("\", \"");
        r.append(s.cand.category.as_str());
        r.append("\", ");
        r.append(decimal_of(s.cand.score as u64).as_str());
        r.append("),   // 命中 gap ");
        r.append(decimal_of(s.detect as u64).as_str());
        r.append(" 条, 误报 0 —— ");
        r.append(s.cand.rationale.as_str());
        r.append("\n");
        r
    }
}

/// The text at the head of the file of the rules that are put forward.
pub const CANDIDATE_HEAD: &'static str =
    "// limen learn 产出:已过零误报校验的候选规则,待人工审核后手工粘贴进 rules.rs。\n// 注意:零误报仅针对当前白样本集;采纳前请复核语义,并跑 `cargo run -- eval` 确认整体影响。\n";

/// The file of the rules that are put forward, and their number.
pub fn candidate_file(scored: &Vec<Scored>) -> (r: (String, usize))
    ensures
        r.0@ == CANDIDATE_HEAD@ + candidate_lines(scored_views(scored@)),
        r.1 == count_of(scored_views(scored@), true),
{
    let ghost all = scored_views(scored@);
    let mut lines: String = String::new();
    let mut n: usize = 0;
    let mut i: usize = 0;
    while i < scored.len()
        invariant
            i <= scored@.len(),
            n <= i,
            all == scored_views(scored@),
            lines@ == candidate_lines(all.take(i as int)),
            n == count_of(all.take(i as int), true),
        decreases scored@.len() - i,
    {
        proof {
            assert(all.take(i + 1).drop_last() =~= all.take(i as int));
            assert(all.take(i + 1).last() == scored@[i as int]@);
        }
        if clean_scored(&scored[i]) {
            lines.append(one_candidate(&scored[i]).as_str());
            n += 1;
        }
        i += 1;
    }
    assert(all.take(i as int) =~= all);
    let mut r: String = CANDIDATE_HEAD.to_owned();
    r.append(lines.as_str());
    (r, n)
}

proof fn lemma_finds_bound(source: Seq<char>, hays: Seq<Seq<char>>)
    ensures
        regex_finds(source, hays) <= hays.len(),
        text_finds(source, hays) <= hays.len(),
    decreases hays.len(),
{
    if hays.len() > 0 {
        lemma_finds_bound(source, hays.drop_last());
    }
}

proof fn lemma_finds_none(source: Seq<char>, hays: Seq<Seq<char>>, i: int)
    requires
        0 <= i < hays.len(),
    ensures
        regex_finds(source, hays) == 0 ==> regex_first_match(source, hays[i]) is None,
        text_finds(source, hays) == 0 ==> !occurs(hays[i], source),
    decreases hays.len(),
{
    if i < hays.len() - 1 {
        lemma_finds_none(source, hays.drop_last(), i);
    }
}

/// The rule finds something in a text.
pub open spec fn finds_in(c: CandidateView, hay: Seq<char>) -> bool {
    if c.is_regex {
        regex_first_match(expression(c.pattern), hay) is Some
    } else {
        occurs(hay, lowercase_text(c.pattern))
    }
}

/// A rule that is put forward finds nothing in any of the normal requests that
/// it was tried on, and is no broken regular expression.
pub proof fn law_no_false_alarm_is_put_forward(
    c: CandidateView,
    payloads: Seq<Seq<char>>,
    whites: Seq<Seq<char>>,
    i: int,
)
    requires
        is_clean(tried(c, payloads, whites)),
        whites.len() <= u32::MAX,
        0 <= i < whites.len(),
    ensures
        !finds_in(c, whites[i]),
        c.is_regex ==> regex_compiles(expression(c.pattern)),
        detections(c, payloads) > 0,
{
    if c.is_regex {
        lemma_finds_bound(expression(c.pattern), whites);
        lemma_finds_none(expression(c.pattern), whites, i);
    } else {
        lemma_finds_bound(lowercase_text(c.pattern), whites);
        lemma_finds_none(lowercase_text(c.pattern), whites, i);
    }
}

/// Only rules that are put forward stand in the file: without one it is empty
/// but for its head, and one that is not put forward adds nothing.
pub proof fn law_file_holds_clean_rules(list: Seq<ScoredView>, s: ScoredView)
    ensures
        !is_clean(s) ==> candidate_lines(list.push(s)) == candidate_lines(list),
        is_clean(s) ==> candidate_lines(list.push(s)) == candidate_lines(list) + candidate_line(s),
        count_of(list, true) + count_of(list, false) + broken(list) == list.len(),
    decreases list.len(),
{
    assert(list.push(s).drop_last() =~= list);
    if list.len() > 0 {
        law_file_holds_clean_rules(list.drop_last(), s);
    }
}

proof fn lemma_put_ordered(list: Seq<ScoredView>, s: ScoredView)
    requires
        forall|i: int, j: int|
            0 <= i <= j < list.len() ==> !comes_behind(#[trigger] list[i], #[trigger] list[j]),
    ensures
        forall|i: int, j: int|
            0 <= i <= j < put(list, s).len() ==> !comes_behind(
                #[trigger] put(list, s)[i],
                #[trigger] put(list, s)[j],
            ),
        put(list, s).to_multiset() == list.to_multiset().insert(s),
        forall|i: int|
            0 <= i < put(list, s).len() && list.len() > 0 ==> !comes_behind(
                #[trigger] put(list, s)[i],
                list.last(),
            ) || put(list, s)[i] == s,
    decreases list.len(),
{
    broadcast use vstd::seq_lib::group_to_multiset_ensures;

    let r = put(list, s);
    if list.len() > 0 && comes_behind(list.last(), s) {
        let front = list.drop_last();
        assert forall|i: int, j: int| 0 <= i <= j < front.len() implies !comes_behind(
            #[trigger] front[i],
            #[trigger] front[j],
        ) by {
            assert(front[i] == list[i]);
            assert(front[j] == list[j]);
        }
        lemma_put_ordered(front, s);
        let p = put(front, s);
        assert(front.push(list.last()) =~= list);
        assert(list.to_multiset() =~= front.to_multiset().insert(list.last()));
        assert(r.to_multiset() =~= p.to_multiset().insert(list.last()));
        assert(r.to_multiset() =~= list.to_multiset().insert(s));
        assert forall|i: int| 0 <= i < p.len() implies !comes_behind(
            #[trigger] p[i],
            list.last(),
        ) by {
            if p[i] != s {
                if front.len() > 0 {
                    assert(!comes_behind(p[i], front.last()));
                    assert(!comes_behind(list[front.len() - 1], list[list.len() - 1]));
                } else {
                    assert(p =~= seq![s]);
                }
            }
        }
        assert forall|i: int, j: int| 0 <= i <= j < r.len() implies !comes_behind(
            #[trigger] r[i],
            #[trigger] r[j],
        ) by {
            if j < p.len() {
                assert(r[i] == p[i]);
                assert(r[j] == p[j]);
            } else if i < p.len() {
                assert(r[i] == p[i]);
            }
        }
        assert forall|i: int| 0 <= i < r.len() implies !comes_behind(#[trigger] r[i], list.last())
            || r[i] == s by {
            if i < p.len() {
                assert(r[i] == p[i]);
            }
        }
    } else {
        assert forall|i: int, j: int| 0 <= i <= j < r.len() implies !comes_behind(
            #[trigger] r[i],
            #[trigger] r[j],
        ) by {
            if j < list.len() {
                assert(r[i] == list[i]);
                assert(r[j] == list[j]);
            } else if i < list.len() {
                assert(r[i] == list[i]);
                assert(!comes_behind(list[i], list[list.len() - 1]));
            }
        }
        assert forall|i: int| 0 <= i < r.len() && list.len() > 0 implies !comes_behind(
            #[trigger] r[i],
            list.last(),
        ) || r[i] == s by {
            if i < list.len() {
                assert(r[i] == list[i]);
                assert(!comes_behind(list[i], list[list.len() - 1]));
            }
        }
    }
}

/// In the ordered list no rule stands in front of one with fewer false alarms,
/// nor, among those with as many, in front of one that finds more; and every
/// rule stands in it as often as it was tried.
pub proof fn law_order_is_by_false_alarms(list: Seq<ScoredView>)
    ensures
        forall|i: int, j: int|
            0 <= i <= j < ordered(list).len() ==> !comes_behind(
                #[trigger] ordered(list)[i],
                #[trigger] ordered(list)[j],
            ),
        ordered(list).to_multiset() == list.to_multiset(),
    decreases list.len(),
{
    broadcast use vstd::seq_lib::group_to_multiset_ensures;

    if list.len() > 0 {
        let front = list.drop_last();
        law_order_is_by_false_alarms(front);
        lemma_put_ordered(ordered(front), list.last());
        assert(front.push(list.last()) =~= list);
        assert(list.to_multiset() =~= front.to_multiset().insert(list.last()));
    } else {
        assert(ordered(list) =~= list);
    }
}

} // verus!
