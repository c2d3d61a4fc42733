//! What an evaluation counts and keeps, sample by sample.

use vstd::prelude::*;
use vstd::string::*;

use crate::engine::rules::{inspected, RuleEngine};
use crate::engine::verdict::{
    block_threat, reasons_of, verdict_of, Detection, DetectionView, HitView, RequestSummary,
    Verdict, VerdictView,
};
use crate::eval::sample::{is_request_of, is_sample, parse_sample};
use crate::text::{join, joined, same_text};

verus! {

/// How the rules judged the samples: attacks and normal requests, by verdict.
#[derive(Debug, Clone, Copy)]
pub struct Stats {
    pub black_block: u32,
    pub black_susp: u32,
    pub black_allow: u32,
    pub white_block: u32,
    pub white_susp: u32,
    pub white_allow: u32,
    /// Attacks that the rules let through and the classifier did not.
    pub ngram_elevated_black: u32,
    /// The same for normal requests.
    pub ngram_elevated_white: u32,
    /// Files that hold no request.
    pub parse_failed: u32,
}

/// The number of attacks.
pub open spec fn attacks(s: Stats) -> int {
    s.black_block + s.black_susp + s.black_allow
}

/// The number of normal requests.
pub open spec fn normals(s: Stats) -> int {
    s.white_block + s.white_susp + s.white_allow
}

/// The number of files.
pub open spec fn files(s: Stats) -> int {
    attacks(s) + normals(s) + s.parse_failed
}

/// The classifier raised no more than the rules let through, and the number of
/// samples is within what can be counted.
pub open spec fn plausible(s: Stats) -> bool {
    &&& s.ngram_elevated_black <= s.black_allow
    &&& s.ngram_elevated_white <= s.white_allow
    &&& attacks(s) + normals(s) <= u32::MAX
}

/// No file yet.
pub open spec fn no_stats() -> Stats {
    Stats {
        black_block: 0,
        black_susp: 0,
        black_allow: 0,
        white_block: 0,
        white_susp: 0,
        white_allow: 0,
        ngram_elevated_black: 0,
        ngram_elevated_white: 0,
        parse_failed: 0,
    }
}

impl Default for Stats {
    fn default() -> (r: Self)
        ensures
            r == no_stats(),
    {
        Stats {
            black_block: 0,
            black_susp: 0,
            black_allow: 0,
            white_block: 0,
            white_susp: 0,
            white_allow: 0,
            ngram_elevated_black: 0,
            ngram_elevated_white: 0,
            parse_failed: 0,
        }
    }
}

/// The count of a verdict.
pub open spec fn cell(s: Stats, is_black: bool, v: VerdictView) -> u32 {
    match (is_black, v) {
        (true, VerdictView::Block { .. }) => s.black_block,
        (true, VerdictView::Suspicious { .. }) => s.black_susp,
        (true, VerdictView::Allow) => s.black_allow,
        (false, VerdictView::Block { .. }) => s.white_block,
        (false, VerdictView::Suspicious { .. }) => s.white_susp,
        (false, VerdictView::Allow) => s.white_allow,
    }
}

/// With one verdict more.
pub open spec fn with_verdict(s: Stats, is_black: bool, v: VerdictView) -> Stats {
    match (is_black, v) {
        (true, VerdictView::Block { .. }) => Stats {
            black_block: (s.black_block + 1) as u32,
            ..s
        },
        (true, VerdictView::Suspicious { .. }) => Stats {
            black_susp: (s.black_susp + 1) as u32,
            ..s
        },
        (true, VerdictView::Allow) => Stats { black_allow: (s.black_allow + 1) as u32, ..s },
        (false, VerdictView::Block { .. }) => Stats {
            white_block: (s.white_block + 1) as u32,
            ..s
        },
        (false, VerdictView::Suspicious { .. }) => Stats {
            white_susp: (s.white_susp + 1) as u32,
            ..s
        },
        (false, VerdictView::Allow) => Stats { white_allow: (s.white_allow + 1) as u32, ..s },
    }
}

/// With one alarm of the classifier more.
pub open spec fn with_alarm(s: Stats, is_black: bool) -> Stats {
    if is_black {
        Stats { ngram_elevated_black: (s.ngram_elevated_black + 1) as u32, ..s }
    } else {
        Stats { ngram_elevated_white: (s.ngram_elevated_white + 1) as u32, ..s }
    }
}

impl Stats {
    /// Counts a verdict.
    pub fn count(&mut self, is_black: bool, v: &Verdict)
        requires
            cell(*old(self), is_black, v@) < u32::MAX,
        ensures
            *final(self) == with_verdict(*old(self), is_black, v@),
    {
        match v {
            Verdict::Block { .. } => {
                if is_black {
                    self.black_block = self.black_block + 1;
                } else {
                    self.white_block = self.white_block + 1;
                }
            },
            Verdict::Suspicious { .. } => {
                if is_black {
                    self.black_susp = self.black_susp + 1;
                } else {
                    self.white_susp = self.white_susp + 1;
                }
            },
            Verdict::Allow => {
                if is_black {
                    self.black_allow = self.black_allow + 1;
                } else {
                    self.white_allow = self.white_allow + 1;
                }
            },
        }
    }

    /// The number of attacks.
    pub fn black_total(&self) -> (r: u32)
        requires
            attacks(*self) <= u32::MAX,
        ensures
            r == attacks(*self),
    {
        self.black_block + self.black_susp + self.black_allow
    }

    /// The number of normal requests.
    pub fn white_total(&self) -> (r: u32)
        requires
            normals(*self) <= u32::MAX,
        ensures
            r == normals(*self),
    {
        self.white_block + self.white_susp + self.white_allow
    }
}

/// How often a rule, or a threat, was met. A threat is counted by its category
/// alone, with an empty pattern.
#[derive(Debug)]
pub struct Entry {
    pub category: String,
    pub pattern: String,
    pub count: u32,
}

/// An entry over sequences of characters.
pub struct EntryView {
    pub category: Seq<char>,
    pub pattern: Seq<char>,
    pub count: u32,
}

impl View for Entry {
    type V = EntryView;

    open spec fn view(&self) -> EntryView {
        EntryView { category: self.category@, pattern: self.pattern@, count: self.count }
    }
}

/// The views of some entries.
pub open spec fn entry_views(entries: Seq<Entry>) -> Seq<EntryView> {
    Seq::new(entries.len(), |i: int| entries[i]@)
}

/// The entry is for the pattern of the category.
pub open spec fn is_for(e: EntryView, category: Seq<char>, pattern: Seq<char>) -> bool {
    e.category == category && e.pattern == pattern
}

/// With one occurrence more: its entry counts one more, or a new entry stands at
/// the end.
pub open spec fn met(
    entries: Seq<EntryView>,
    category: Seq<char>,
    pattern: Seq<char>,
) -> Seq<EntryView>
    decreases entries.len(),
{
    if entries.len() == 0 {
        seq![EntryView { category, pattern, count: 1 }]
    } else if is_for(entries[0], category, pattern) {
        entries.update(0, EntryView { count: (entries[0].count + 1) as u32, ..entries[0] })
    } else {
        seq![entries[0]] + met(entries.skip(1), category, pattern)
    }
}

/// With the occurrences of some hits more.
pub open spec fn met_all(entries: Seq<EntryView>, hits: Seq<HitView>) -> Seq<EntryView>
    decreases hits.len(),
{
    if hits.len() == 0 {
        entries
    } else {
        met(met_all(entries, hits.drop_last()), hits.last().category, hits.last().pattern)
    }
}

/// Every entry can count `n` more.
pub open spec fn can_count(entries: Seq<EntryView>, n: int) -> bool {
    forall|i: int| 0 <= i < entries.len() ==> (#[trigger] entries[i]).count + n <= u32::MAX
}

pub(crate) proof fn lemma_met_found(entries: Seq<EntryView>, category: Seq<char>, pattern: Seq<char>, k: int)
    requires
        0 <= k < entries.len(),
        is_for(entries[k], category, pattern),
        forall|j: int| 0 <= j < k ==> !is_for(#[trigger] entries[j], category, pattern),
    ensures
        met(entries, category, pattern) == entries.update(
            k,
            EntryView { count: (entries[k].count + 1) as u32, ..entries[k] },
        ),
    decreases entries.len(),
{
    if k > 0 {
        let rest = entries.skip(1);
        assert forall|j: int| 0 <= j < k - 1 implies !is_for(
            #[trigger] rest[j],
            category,
            pattern,
        ) by {
            assert(rest[j] == entries[j + 1]);
        }
        lemma_met_found(rest, category, pattern, k - 1);
        assert(!is_for(entries[0], category, pattern));
        assert(met(entries, category, pattern) =~= entries.update(
            k,
            EntryView { count: (entries[k].count + 1) as u32, ..entries[k] },
        ));
    }
}

pub(crate) proof fn lemma_met_new(entries: Seq<EntryView>, category: Seq<char>, pattern: Seq<char>)
    requires
        forall|j: int| 0 <= j < entries.len() ==> !is_for(#[trigger] entries[j], category, pattern),
    ensures
        met(entries, category, pattern) == entries.push(
            EntryView { category, pattern, count: 1 },
        ),
    decreases entries.len(),
{
    if entries.len() > 0 {
        let rest = entries.skip(1);
        assert forall|j: int| 0 <= j < rest.len() implies !is_for(
            #[trigger] rest[j],
            category,
            pattern,
        ) by {
            assert(rest[j] == entries[j + 1]);
        }
        lemma_met_new(rest, category, pattern);
        assert(!is_for(entries[0], category, pattern));
    }
    assert(met(entries, category, pattern) =~= entries.push(
        EntryView { category, pattern, count: 1 },
    ));
}

proof fn lemma_met_room(entries: Seq<EntryView>, category: Seq<char>, pattern: Seq<char>, n: int)
    requires
        1 <= n <= u32::MAX,
        can_count(entries, n),
    ensures
        can_count(met(entries, category, pattern), n - 1),
    decreases entries.len(),
{
    let after = met(entries, category, pattern);
    if entries.len() > 0 {
        assert(entries[0].count + n <= u32::MAX);
        if is_for(entries[0], category, pattern) {
            assert forall|i: int| 0 <= i < after.len() implies (#[trigger] after[i]).count + (n - 1)
                <= u32::MAX by {
                assert(entries[i].count + n <= u32::MAX);
            }
        } else {
            let rest = entries.skip(1);
            assert forall|i: int| 0 <= i < rest.len() implies (#[trigger] rest[i]).count + n
                <= u32::MAX by {
                assert(rest[i] == entries[i + 1]);
            }
            lemma_met_room(rest, category, pattern, n);
            assert forall|i: int| 0 <= i < after.len() implies (#[trigger] after[i]).count + (n - 1)
                <= u32::MAX by {
                if i > 0 {
                    assert(after[i] == met(rest, category, pattern)[i - 1]);
                }
            }
        }
    }
}

/// Counts an occurrence.
pub fn meet(entries: &mut Vec<Entry>, category: &str, pattern: &str)
    requires
        can_count(entry_views(old(entries)@), 1),
    ensures
        entry_views(final(entries)@) == met(entry_views(old(entries)@), category@, pattern@),
{
    let ghost before = entry_views(entries@);
    let mut i: usize = 0;
    while i < entries.len()
        invariant
            i <= entries@.len(),
            before == entry_views(entries@),
            entries@ == old(entries)@,
            can_count(before, 1),
            forall|j: int| 0 <= j < i ==> !is_for(#[trigger] before[j], category@, pattern@),
        decreases entries@.len() - i,
    {
        assert(before[i as int] == entries@[i as int]@);
        if same_text(entries[i].category.as_str(), category) && same_text(
            entries[i].pattern.as_str(),
            pattern,
        ) {
            assert(before[i as int].count + 1 <= u32::MAX);
            let n: u32 = entries[i].count + 1;
            let e = Entry {
                category: entries[i].category.clone(),
                pattern: entries[i].pattern.clone(),
                count: n,
            };
            entries.set(i, e);
            proof {
                lemma_met_found(before, category@, pattern@, i as int);
                assert(entry_views(entries@) =~= met(before, category@, pattern@));
            }
            return ;
        }
        i += 1;
    }
    entries.push(Entry { category: category.to_owned(), pattern: pattern.to_owned(), count: 1 });
    proof {
        lemma_met_new(before, category@, pattern@);
        assert(entry_views(entries@) =~= met(before, category@, pattern@));
    }
}

fn meet_all(entries: &mut Vec<Entry>, det: &Detection)
    requires
        det.hits@.len() <= u32::MAX,
        can_count(entry_views(old(entries)@), det.hits@.len() as int),
    ensures
        entry_views(final(entries)@) == met_all(entry_views(old(entries)@), det@.hits),
{
    let ghost before = entry_views(entries@);
    let ghost all = det@.hits;
    let mut i: usize = 0;
    assert(all.take(0) =~= Seq::<HitView>::empty());
    while i < det.hits.len()
        invariant
            i <= det.hits@.len(),
            det.hits@.len() <= u32::MAX,
            all == det@.hits,
            entry_views(entries@) == met_all(before, all.take(i as int)),
            can_count(entry_views(entries@), det.hits@.len() - i),
        decreases det.hits@.len() - i,
    {
        proof {
            let left = det.hits@.len() - i;
            let now = entry_views(entries@);
            assert forall|j: int| 0 <= j < now.len() implies (#[trigger] now[j]).count + 1
                <= u32::MAX by {
                assert(now[j].count + left <= u32::MAX);
            }
            assert(all.take(i + 1).drop_last() =~= all.take(i as int));
            assert(all.take(i + 1).last() == det.hits@[i as int]@);
            lemma_met_room(now, all[i as int].category, all[i as int].pattern, left);
        }
        meet(entries, det.hits[i].category.as_str(), det.hits[i].pattern.as_str());
        i += 1;
    }
    assert(all.take(i as int) =~= all);
}

/// An attack that the rules let through.
#[derive(Debug)]
pub struct Missed {
    pub path: String,
    pub score: u32,
}

/// A normal request that the rules block.
#[derive(Debug)]
pub struct FalseAlarm {
    pub path: String,
    pub score: u32,
    pub reasons: String,
}

/// A sample that the model is to be asked about.
#[derive(Debug)]
pub struct SuspEntry {
    pub path: String,
    pub is_black: bool,
    pub summary: RequestSummary,
}

/// All that an evaluation counts and keeps.
#[derive(Debug)]
pub struct Tally {
    pub stats: Stats,
    /// How many normal requests each rule was hit by.
    pub white_hit_rules: Vec<Entry>,
    /// The main threats of the attacks that were found.
    pub black_threats: Vec<Entry>,
    pub missed_black: Vec<Missed>,
    pub fp_white: Vec<FalseAlarm>,
    pub susp_samples: Vec<SuspEntry>,
}

/// A tally over sequences of characters.
pub struct TallyView {
    pub stats: Stats,
    pub white_hits: Seq<EntryView>,
    pub threats: Seq<EntryView>,
    pub missed: Seq<(Seq<char>, u32)>,
    pub alarms: Seq<(Seq<char>, u32, Seq<char>)>,
    pub gray: Seq<(Seq<char>, bool, RequestSummary)>,
}

pub open spec fn missed_views(v: Seq<Missed>) -> Seq<(Seq<char>, u32)> {
    Seq::new(v.len(), |i: int| (v[i].path@, v[i].score))
}

pub open spec fn alarm_views(v: Seq<FalseAlarm>) -> Seq<(Seq<char>, u32, Seq<char>)> {
    Seq::new(v.len(), |i: int| (v[i].path@, v[i].score, v[i].reasons@))
}

pub open spec fn gray_views(v: Seq<SuspEntry>) -> Seq<(Seq<char>, bool, RequestSummary)> {
    Seq::new(v.len(), |i: int| (v[i].path@, v[i].is_black, v[i].summary))
}

impl View for Tally {
    type V = TallyView;

    open spec fn view(&self) -> TallyView {
        TallyView {
            stats: self.stats,
            white_hits: entry_views(self.white_hit_rules@),
            threats: entry_views(self.black_threats@),
            missed: missed_views(self.missed_black@),
            alarms: alarm_views(self.fp_white@),
            gray: gray_views(self.susp_samples@),
        }
    }
}

/// Nothing yet.
pub open spec fn no_tally() -> TallyView {
    TallyView {
        stats: no_stats(),
        white_hits: Seq::empty(),
        threats: Seq::empty(),
        missed: Seq::empty(),
        alarms: Seq::empty(),
        gray: Seq::empty(),
    }
}

/// A sample with what the rules and the classifier found.
pub struct Finding {
    pub path: Seq<char>,
    pub is_black: bool,
    pub summary: RequestSummary,
    pub det: DetectionView,
    pub verdict: VerdictView,
    /// The classifier gives an alarm.
    pub alarm: bool,
}

/// What the rules let through the classifier does not.
pub open spec fn is_elevated(f: Finding) -> bool {
    f.verdict is Allow && f.alarm
}

/// With a sample more.
pub open spec fn with_finding(t: TallyView, f: Finding) -> TallyView {
    let counted = with_verdict(t.stats, f.is_black, f.verdict);
    TallyView {
        stats: if is_elevated(f) {
            with_alarm(counted, f.is_black)
        } else {
            counted
        },
        white_hits: if f.is_black {
            t.white_hits
        } else {
            met_all(t.white_hits, f.det.hits)
        },
        threats: if f.is_black && !(f.verdict is Allow) {
            met(t.threats, block_threat(f.det.hits), Seq::empty())
        } else {
            t.threats
        },
        missed: if f.is_black && f.verdict is Allow {
            t.missed.push((f.path, f.det.score))
        } else {
            t.missed
        },
        alarms: if !f.is_black && f.verdict is Block {
            t.alarms.push((f.path, f.det.score, joined(reasons_of(f.det.hits), "; "@)))
        } else {
            t.alarms
        },
        gray: if f.verdict is Suspicious || is_elevated(f) {
            t.gray.push((f.path, f.is_black, f.summary))
        } else {
            t.gray
        },
    }
}

/// With a file more that holds no request.
pub open spec fn with_failure(t: TallyView) -> TallyView {
    TallyView {
        stats: Stats { parse_failed: (t.stats.parse_failed + 1) as u32, ..t.stats },
        ..t
    }
}

/// One more sample with some hits can be counted.
pub open spec fn has_room_for(t: TallyView, hits: nat) -> bool {
    &&& files(t.stats) < u32::MAX
    &&& t.stats.ngram_elevated_black < u32::MAX
    &&& t.stats.ngram_elevated_white < u32::MAX
    &&& hits <= u32::MAX
    &&& can_count(t.white_hits, hits as int)
    &&& can_count(t.threats, 1)
}

fn all_can_count(entries: &Vec<Entry>, n: u32) -> (r: bool)
    ensures
        r == can_count(entry_views(entries@), n as int),
{
    let mut i: usize = 0;
    while i < entries.len()
        invariant
            i <= entries@.len(),
            forall|j: int|
                0 <= j < i ==> (#[trigger] entry_views(entries@)[j]).count + n <= u32::MAX,
        decreases entries@.len() - i,
    {
        assert(entry_views(entries@)[i as int].count == entries@[i as int].count);
        if entries[i].count > u32::MAX - n {
            return false;
        }
        i += 1;
    }
    true
}

impl Tally {
    /// Nothing yet.
    pub fn new() -> (r: Self)
        ensures
            r@ == no_tally(),
    {
        let r = Tally {
            stats: Stats::default(),
            white_hit_rules: Vec::new(),
            black_threats: Vec::new(),
            missed_black: Vec::new(),
            fp_white: Vec::new(),
            susp_samples: Vec::new(),
        };
        proof {
            assert(r@.white_hits =~= no_tally().white_hits);
            assert(r@.threats =~= no_tally().threats);
            assert(r@.missed =~= no_tally().missed);
            assert(r@.alarms =~= no_tally().alarms);
            assert(r@.gray =~= no_tally().gray);
        }
        r
    }

    /// Can one more sample with some hits be counted?
    pub fn has_room(&self, hits: usize) -> (r: bool)
        ensures
            r == has_room_for(self@, hits as nat),
    {
        if hits as u64 > u32::MAX as u64 {
            return false;
        }
        let s = self.stats;
        let sum: u64 = s.black_block as u64 + s.black_susp as u64 + s.black_allow as u64
            + s.white_block as u64 + s.white_susp as u64 + s.white_allow as u64
            + s.parse_failed as u64;
        sum < u32::MAX as u64 && s.ngram_elevated_black < u32::MAX && s.ngram_elevated_white
            < u32::MAX && all_can_count(&self.white_hit_rules, hits as u32) && all_can_count(
            &self.black_threats,
            1,
        )
    }

    /// Counts a file that holds no request.
    pub fn skip(&mut self)
        requires
            old(self)@.stats.parse_failed < u32::MAX,
        ensures
            final(self)@ == with_failure(old(self)@),
    {
        self.stats.parse_failed = self.stats.parse_failed + 1;
    }

    /// Counts a sample. `alarm` says whether the classifier gives an alarm.
    pub fn add(
        &mut self,
        path: &str,
        is_black: bool,
        summary: &RequestSummary,
        det: &Detection,
        verdict: &Verdict,
        alarm: bool,
    )
        requires
            has_room_for(old(self)@, det.hits@.len()),
        ensures
            final(self)@ == with_finding(
                old(self)@,
                (Finding {
                    path: path@,
                    is_black,
                    summary: *summary,
                    det: det@,
                    verdict: verdict@,
                    alarm,
                }),
            ),
    {
        let ghost before = self@;
        let elevated = match verdict {
            Verdict::Allow => alarm,
            _ => false,
        };
        let suspicious = match verdict {
            Verdict::Suspicious { .. } => true,
            _ => false,
        };
        self.stats.count(is_black, verdict);
        if elevated {
            if is_black {
                self.stats.ngram_elevated_black = self.stats.ngram_elevated_black + 1;
            } else {
                self.stats.ngram_elevated_white = self.stats.ngram_elevated_white + 1;
            }
        }
        if suspicious || elevated {
            self.susp_samples.push(
                SuspEntry { path: path.to_owned(), is_black, summary: summary.clone() },
            );
            assert(self@.gray =~= before.gray.push((path@, is_black, *summary)));
        }
        if is_black {
            match verdict {
                Verdict::Allow => {
                    self.missed_black.push(Missed { path: path.to_owned(), score: det.score });
                    assert(self@.missed =~= before.missed.push((path@, det.score)));
                },
                _ => {
                    let threat: String = match det.primary_threat() {
                        Some(t) => t,
                        None => "unknown".to_owned(),
                    };
                    let ghost none = ""@;
                    proof {
                        reveal_strlit("");
                        assert(none =~= Seq::<char>::empty());
                    }
                    meet(&mut self.black_threats, threat.as_str(), "");
                },
            }
        } else {
            meet_all(&mut self.white_hit_rules, det);
            match verdict {
                Verdict::Block { .. } => {
                    let reasons = join(&det.reasons(), "; ");
                    self.fp_white.push(
                        FalseAlarm { path: path.to_owned(), score: det.score, reasons },
                    );
                    assert(self@.alarms =~= before.alarms.push((path@, det.score, reasons@)));
                },
                _ => {},
            }
        }
    }
}

/// What the rules make of a sample.
#[derive(Debug)]
pub struct Judged {
    pub summary: RequestSummary,
    pub detection: Detection,
    pub verdict: Verdict,
}

/// What the rules make of a sample, if it holds a request.
pub fn judge(
    engine: &RuleEngine,
    bytes: &[u8],
    block_threshold: u32,
    suspicious_threshold: u32,
) -> (r: Option<Judged>)
    ensures
        match r {
            Some(j) => {
                &&& is_sample(bytes@)
                &&& is_request_of(j.summary, bytes@)
                &&& j.detection@ == inspected(engine@, j.summary)
                &&& j.verdict@ == verdict_of(
                    j.detection@,
                    block_threshold,
                    suspicious_threshold,
                )
            },
            None => !is_sample(bytes@),
        },
{
    match parse_sample(bytes) {
        Some(summary) => {
            let detection = engine.inspect(&summary);
            let verdict = detection.to_verdict(block_threshold, suspicious_threshold);
            Some(Judged { summary, detection, verdict })
        },
        None => None,
    }
}

/// The sum of some counts.
pub open spec fn occurrences(entries: Seq<EntryView>) -> int
    decreases entries.len(),
{
    if entries.len() == 0 {
        0
    } else {
        entries[0].count + occurrences(entries.skip(1))
    }
}

/// How often the pattern of the category was met.
pub open spec fn count_of(entries: Seq<EntryView>, category: Seq<char>, pattern: Seq<char>) -> int
    decreases entries.len(),
{
    if entries.len() == 0 {
        0
    } else if is_for(entries[0], category, pattern) {
        entries[0].count as int
    } else {
        count_of(entries.skip(1), category, pattern)
    }
}

/// What is kept agrees with what is counted: the missed attacks, the false
/// alarms and the samples for the model are as many as the counts say, and
/// every attack that was found has its threat counted.
pub open spec fn coherent(t: TallyView) -> bool {
    &&& plausible(t.stats)
    &&& t.missed.len() == t.stats.black_allow
    &&& t.alarms.len() == t.stats.white_block
    &&& t.gray.len() == t.stats.black_susp + t.stats.white_susp + t.stats.ngram_elevated_black
        + t.stats.ngram_elevated_white
    &&& occurrences(t.threats) == t.stats.black_block + t.stats.black_susp
}

proof fn lemma_occurrences_met(
    entries: Seq<EntryView>,
    category: Seq<char>,
    pattern: Seq<char>,
)
    requires
        can_count(entries, 1),
    ensures
        occurrences(met(entries, category, pattern)) == occurrences(entries) + 1,
    decreases entries.len(),
{
    let after = met(entries, category, pattern);
    if entries.len() == 0 {
        assert(after.skip(1) =~= Seq::<EntryView>::empty());
        assert(occurrences(after.skip(1)) == 0);
    } else {
        assert(entries[0].count + 1 <= u32::MAX);
        let rest = entries.skip(1);
        if is_for(entries[0], category, pattern) {
            assert(after.skip(1) =~= rest);
        } else {
            assert forall|i: int| 0 <= i < rest.len() implies (#[trigger] rest[i]).count + 1
                <= u32::MAX by {
                assert(rest[i] == entries[i + 1]);
            }
            lemma_occurrences_met(rest, category, pattern);
            assert(after.skip(1) =~= met(rest, category, pattern));
        }
    }
}

/// A tally starts coherent and stays so, whatever the sample, and every sample
/// counts once.
pub proof fn law_tally_stays_coherent(t: TallyView, f: Finding)
    requires
        coherent(t),
        has_room_for(t, f.det.hits.len()),
    ensures
        coherent(no_tally()),
        coherent(with_finding(t, f)),
        files(with_finding(t, f).stats) == files(t.stats) + 1,
        f.is_black ==> attacks(with_finding(t, f).stats) == attacks(t.stats) + 1,
        !f.is_black ==> normals(with_finding(t, f).stats) == normals(t.stats) + 1,
        coherent(with_failure(t)),
        files(with_failure(t).stats) == files(t.stats) + 1,
{
    if f.is_black && !(f.verdict is Allow) {
        lemma_occurrences_met(t.threats, block_threat(f.det.hits), Seq::empty());
    }
}

/// Each occurrence counts for its own pattern and for no other.
pub proof fn law_each_pattern_is_counted_apart(
    entries: Seq<EntryView>,
    category: Seq<char>,
    pattern: Seq<char>,
    other_category: Seq<char>,
    other_pattern: Seq<char>,
)
    requires
        can_count(entries, 1),
    ensures
        count_of(met(entries, category, pattern), category, pattern) == count_of(
            entries,
            category,
            pattern,
        ) + 1,
        (other_category, other_pattern) != (category, pattern) ==> count_of(
            met(entries, category, pattern),
            other_category,
            other_pattern,
        ) == count_of(entries, other_category, other_pattern),
    decreases entries.len(),
{
    let after = met(entries, category, pattern);
    if entries.len() == 0 {
        assert(after.skip(1) =~= Seq::<EntryView>::empty());
        assert(count_of(after.skip(1), other_category, other_pattern) == 0);
    } else {
        assert(entries[0].count + 1 <= u32::MAX);
        let rest = entries.skip(1);
        if is_for(entries[0], category, pattern) {
            assert(after.skip(1) =~= rest);
        } else {
            assert forall|i: int| 0 <= i < rest.len() implies (#[trigger] rest[i]).count + 1
                <= u32::MAX by {
                assert(rest[i] == entries[i + 1]);
            }
            law_each_pattern_is_counted_apart(
                rest,
                category,
                pattern,
                other_category,
                other_pattern,
            );
            assert(after.skip(1) =~= met(rest, category, pattern));
            assert(after[0] == entries[0]);
        }
    }
}

} // verus!
