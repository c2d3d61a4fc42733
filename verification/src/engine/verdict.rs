//! What the detection tiers share: the request under inspection, the hits
//! found in it and the verdict drawn from them.

use vstd::prelude::*;
use vstd::string::*;

use crate::text::texts;

verus! {

/// The features of a request that the detection tiers look at.
#[derive(Debug)]
pub struct RequestSummary {
    pub method: String,
    pub path: String,
    pub query: String,
    pub user_agent: String,
    /// The request body as text, cut to the inspected length.
    pub body: String,
    /// Every header but User-Agent as `name: value`, one a line.
    pub headers: String,
    pub client_ip: String,
}

impl Clone for RequestSummary {
    fn clone(&self) -> (r: Self)
        ensures
            r == *self,
    {
        RequestSummary {
            method: self.method.clone(),
            path: self.path.clone(),
            query: self.query.clone(),
            user_agent: self.user_agent.clone(),
            body: self.body.clone(),
            headers: self.headers.clone(),
            client_ip: self.client_ip.clone(),
        }
    }
}

/// One rule that matched.
#[derive(Debug)]
pub struct Hit {
    /// The threat category, such as `SQLi`.
    pub category: String,
    /// The pattern, or for a regular expression the text, that matched.
    pub pattern: String,
    /// What the hit adds to the score.
    pub score: u32,
}

impl Clone for Hit {
    fn clone(&self) -> (r: Self)
        ensures
            r == *self,
    {
        Hit {
            category: self.category.clone(),
            pattern: self.pattern.clone(),
            score: self.score,
        }
    }
}

/// A hit as its texts and its score.
pub struct HitView {
    pub category: Seq<char>,
    pub pattern: Seq<char>,
    pub score: u32,
}

impl View for Hit {
    type V = HitView;

    open spec fn view(&self) -> HitView {
        HitView { category: self.category@, pattern: self.pattern@, score: self.score }
    }
}

/// The hits found in one request, and their total.
#[derive(Debug)]
pub struct Detection {
    pub score: u32,
    pub hits: Vec<Hit>,
}

/// The views of some hits.
pub open spec fn hit_views(hits: Seq<Hit>) -> Seq<HitView> {
    hits.map_values(|h: Hit| h@)
}

/// A detection as its score and the views of its hits.
pub struct DetectionView {
    pub score: u32,
    pub hits: Seq<HitView>,
}

impl View for Detection {
    type V = DetectionView;

    open spec fn view(&self) -> DetectionView {
        DetectionView { score: self.score, hits: hit_views(self.hits@) }
    }
}

/// The sum of the scores of some hits.
pub open spec fn total_score(hits: Seq<HitView>) -> nat
    decreases hits.len(),
{
    if hits.len() == 0 {
        0
    } else {
        total_score(hits.drop_last()) + hits.last().score as nat
    }
}

/// The position of the hit with the highest score, the last of them if there
/// are several.
pub open spec fn top_hit(hits: Seq<HitView>) -> int
    decreases hits.len(),
{
    if hits.len() <= 1 {
        0
    } else {
        let t = top_hit(hits.drop_last());
        if hits.last().score >= hits[t].score {
            hits.len() - 1
        } else {
            t
        }
    }
}

/// The category of the hit with the highest score.
pub open spec fn main_threat(hits: Seq<HitView>) -> Option<Seq<char>> {
    if hits.len() == 0 {
        None
    } else {
        Some(hits[top_hit(hits)].category)
    }
}

/// What a hit gives as a reason.
pub open spec fn reason_of(h: HitView) -> Seq<char> {
    h.category + ": "@ + h.pattern
}

/// What some hits give as reasons, in their order.
pub open spec fn reasons_of(hits: Seq<HitView>) -> Seq<Seq<char>> {
    hits.map_values(|h: HitView| reason_of(h))
}

/// The outcome of the rules for a request.
#[derive(Debug)]
pub enum Verdict {
    /// Let the request through.
    Allow,
    /// In between: worth a second opinion.
    Suspicious { score: u32, reasons: Vec<String> },
    /// Stop the request.
    Block { score: u32, threat: String, reasons: Vec<String> },
}

/// A verdict as its texts and its score.
pub enum VerdictView {
    Allow,
    Suspicious { score: u32, reasons: Seq<Seq<char>> },
    Block { score: u32, threat: Seq<char>, reasons: Seq<Seq<char>> },
}

impl View for Verdict {
    type V = VerdictView;

    open spec fn view(&self) -> VerdictView {
        match *self {
            Verdict::Allow => VerdictView::Allow,
            Verdict::Suspicious { score, reasons } => VerdictView::Suspicious {
                score,
                reasons: texts(reasons@),
            },
            Verdict::Block { score, threat, reasons } => VerdictView::Block {
                score,
                threat: threat@,
                reasons: texts(reasons@),
            },
        }
    }
}

/// The threat of a block: the main one, or `unknown` where nothing was hit.
pub open spec fn block_threat(hits: Seq<HitView>) -> Seq<char> {
    match main_threat(hits) {
        Some(t) => t,
        None => "unknown"@,
    }
}

/// The verdict on a detection: a block from the one threshold on, suspicion
/// from the other.
pub open spec fn verdict_of(
    det: DetectionView,
    block_threshold: u32,
    suspicious_threshold: u32,
) -> VerdictView {
    if det.score >= block_threshold {
        VerdictView::Block {
            score: det.score,
            threat: block_threat(det.hits),
            reasons: reasons_of(det.hits),
        }
    } else if det.score >= suspicious_threshold {
        VerdictView::Suspicious { score: det.score, reasons: reasons_of(det.hits) }
    } else {
        VerdictView::Allow
    }
}

impl Default for Detection {
    fn default() -> (r: Self)
        ensures
            r.score == 0,
            r.hits@.len() == 0,
    {
        Detection { score: 0, hits: Vec::new() }
    }
}

impl Detection {
    /// The category of the hit with the highest score, the last of them if
    /// there are several.
    pub fn primary_threat(&self) -> (r: Option<String>)
        ensures
            match r {
                Some(t) => main_threat(self@.hits) == Some(t@),
                None => main_threat(self@.hits) is None,
            },
    {
        if self.hits.len() == 0 {
            return None;
        }
        let ghost all = self@.hits;
        let mut top: usize = 0;
        let mut i: usize = 1;
        assert(top_hit(all.take(1)) == 0);
        while i < self.hits.len()
            invariant
                1 <= i <= self.hits@.len(),
                top < i,
                all == self@.hits,
                top == top_hit(all.take(i as int)),
            decreases self.hits@.len() - i,
        {
            proof {
                assert(all.take(i + 1).drop_last() == all.take(i as int));
                assert(all.take(i + 1).last() == all[i as int]);
                assert(all.take(i as int)[top as int] == all[top as int]);
            }
            if self.hits[i].score >= self.hits[top].score {
                top = i;
            }
            i += 1;
        }
        assert(all.take(i as int) == all);
        Some(self.hits[top].category.clone())
    }

    /// The reasons that the hits give, in their order.
    pub fn reasons(&self) -> (r: Vec<String>)
        ensures
            texts(r@) == reasons_of(self@.hits),
    {
        let mut r: Vec<String> = Vec::new();
        let mut i: usize = 0;
        while i < self.hits.len()
            invariant
                i <= self.hits@.len(),
                texts(r@) == reasons_of(self@.hits.take(i as int)),
            decreases self.hits@.len() - i,
        {
            let mut line: String = self.hits[i].category.clone();
            line.append(": ");
            line.append(self.hits[i].pattern.as_str());
            let ghost before = texts(r@);
            r.push(line);
            proof {
                assert(texts(r@) == before.push(line@));
                assert(self@.hits.take(i + 1) == self@.hits.take(i as int).push(self@.hits[i as int]));
                assert(reasons_of(self@.hits.take(i + 1)) == reasons_of(
                    self@.hits.take(i as int),
                ).push(reason_of(self@.hits[i as int])));
            }
            i += 1;
        }
        assert(self@.hits.take(i as int) == self@.hits);
        r
    }

    /// The verdict on the detection, by the two thresholds.
    pub fn to_verdict(&self, block_threshold: u32, suspicious_threshold: u32) -> (r: Verdict)
        ensures
            r@ == verdict_of(self@, block_threshold, suspicious_threshold),
    {
        if self.score >= block_threshold {
            let threat: String = match self.primary_threat() {
                Some(t) => t,
                None => "unknown".to_owned(),
            };
            Verdict::Block { score: self.score, threat, reasons: self.reasons() }
        } else if self.score >= suspicious_threshold {
            Verdict::Suspicious { score: self.score, reasons: self.reasons() }
        } else {
            Verdict::Allow
        }
    }
}

/// No hit scores higher than the top hit, and a later one scores less.
pub proof fn law_top_hit_is_last_maximum(hits: Seq<HitView>)
    requires
        hits.len() > 0,
    ensures
        0 <= top_hit(hits) < hits.len(),
        forall|i: int| 0 <= i < hits.len() ==> (#[trigger] hits[i]).score <= hits[top_hit(hits)].score,
        forall|i: int|
            top_hit(hits) < i < hits.len() ==> (#[trigger] hits[i]).score < hits[top_hit(hits)].score,
    decreases hits.len(),
{
    if hits.len() > 1 {
        let front = hits.drop_last();
        law_top_hit_is_last_maximum(front);
        let t = top_hit(front);
        assert(front[t] == hits[t]);
        assert forall|i: int| 0 <= i < hits.len() implies (#[trigger] hits[i]).score <= hits[top_hit(
            hits,
        )].score by {
            if i < front.len() {
                assert(front[i] == hits[i]);
            }
        }
        assert forall|i: int| top_hit(hits) < i < hits.len() implies (#[trigger] hits[i]).score < hits[top_hit(
            hits,
        )].score by {
            if i < front.len() {
                assert(front[i] == hits[i]);
            }
        }
    }
}

/// With a higher score a request is judged no more mildly: one that is blocked
/// stays blocked, and one that is not let through at once is not so either.
pub proof fn law_verdict_is_monotone(
    low: DetectionView,
    high: DetectionView,
    block_threshold: u32,
    suspicious_threshold: u32,
)
    requires
        low.score <= high.score,
    ensures
        verdict_of(low, block_threshold, suspicious_threshold) is Block ==> verdict_of(
            high,
            block_threshold,
            suspicious_threshold,
        ) is Block,
        !(verdict_of(low, block_threshold, suspicious_threshold) is Allow) ==> !(verdict_of(
            high,
            block_threshold,
            suspicious_threshold,
        ) is Allow),
{
}

} // verus!
