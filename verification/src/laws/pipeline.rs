//! What the way of a request is for: who is banned is refused, what is let
//! through by its path is let through, and all else is done by what the rules,
//! the classifier and the model say of it.

use vstd::prelude::*;
use vstd::string::*;

use crate::engine::llm::DecisionView;
use crate::engine::rules::inspected;
use crate::engine::verdict::{reasons_of, HitView, RequestSummary, VerdictView};
use crate::event::{Action, WafEvent};
use crate::pipeline::{
    by_opinion, by_verdict, elevated, passed, raised, stopped, FORBIDDEN, TOO_LARGE,
    controls_after, counted_block, handled, leads_to_ban, records, Facts, OutcomeView, StepView,
};
use crate::state::{banned_ips, bans, blocked, path_bypasses, ControlsView};
use crate::text::joined;

verus! {

/// What is done with an attack: it is refused, or where requests are only
/// watched it goes on and its record says what it is.
pub open spec fn refusal(
    enforce: bool,
    threat: Seq<char>,
    score: u32,
    detail: Seq<char>,
    tier: Seq<char>,
) -> StepView {
    if enforce {
        StepView::Respond {
            status: 403,
            body: "403 Forbidden — request blocked by WAF"@,
            outcome: OutcomeView {
                action: Action::Blocked,
                score,
                threat: Some(threat),
                detail,
                tier,
            },
        }
    } else {
        StepView::Forward {
            outcome: OutcomeView {
                action: Action::Suspicious,
                score,
                threat: Some(threat),
                detail: "MONITOR(本应拦截): "@ + detail,
                tier,
            },
        }
    }
}

/// The client is known and banned.
pub open spec fn known_and_banned(c: ControlsView, ip: Option<Seq<char>>) -> bool {
    ip is Some && banned_ips(c).contains(ip->0)
}

/// The request is looked at: its client is not banned, and its path is not let
/// through.
pub open spec fn looked_at(c: ControlsView, x: Facts) -> bool {
    !known_and_banned(c, x.ip) && !path_bypasses(c, x.summary.path@)
}

/// The hits as reasons: of each its category and its pattern.
pub open spec fn told(hits: Seq<HitView>) -> Seq<Seq<char>> {
    Seq::new(hits.len(), |i: int| hits[i].category + ": "@ + hits[i].pattern)
}

proof fn lemma_told(hits: Seq<HitView>)
    ensures
        reasons_of(hits) == told(hits),
{
    assert(reasons_of(hits) =~= told(hits));
}

/// A banned client is refused, before anything else is looked at; a path that is
/// let through goes on; neither counts as a block.
pub proof fn law_lists_come_first(c: ControlsView, x: Facts)
    ensures
        known_and_banned(c, x.ip) ==> handled(c, x) == refusal(
            c.enforce,
            "banned-ip"@,
            0,
            "IP 在黑名单"@,
            "banned-ip"@,
        ),
        !known_and_banned(c, x.ip) && path_bypasses(c, x.summary.path@) ==> handled(c, x) == (
        StepView::Forward {
            outcome: OutcomeView {
                action: Action::Allowed,
                score: 0,
                threat: None,
                detail: "bypass"@,
                tier: "bypass"@,
            },
        }),
        !looked_at(c, x) ==> controls_after(c, x) == c,
{
}

/// From the threshold on the rules refuse a request, with its score and with all
/// that they found, and it counts as a block of its client.
pub proof fn law_rules_refuse(c: ControlsView, x: Facts)
    requires
        looked_at(c, x),
        inspected(x.engine, x.summary).score >= x.block_threshold,
    ensures
        ({
            let det = inspected(x.engine, x.summary);
            exists|threat: Seq<char>| #[trigger]
                refusal(c.enforce, threat, det.score, joined(told(det.hits), "; "@), "rules"@)
                    == handled(c, x)
        }),
        x.ip is Some ==> controls_after(c, x) == blocked(c, x.ip->0),
        x.ip is None ==> controls_after(c, x) == c,
{
    let det = inspected(x.engine, x.summary);
    lemma_told(det.hits);
    let threat = match handled(c, x) {
        StepView::Respond { outcome, .. } => outcome.threat->0,
        StepView::Forward { outcome } => outcome.threat->0,
    };
    assert(refusal(c.enforce, threat, det.score, joined(told(det.hits), "; "@), "rules"@)
        == handled(c, x));
}

/// Between the thresholds a request is suspicious by the rules: without a model
/// it goes on and its record says so, and with one the model decides.
pub proof fn law_suspicion_by_the_rules(c: ControlsView, x: Facts)
    requires
        looked_at(c, x),
        inspected(x.engine, x.summary).score < x.block_threshold,
        inspected(x.engine, x.summary).score >= x.suspicious_threshold,
    ensures
        ({
            let det = inspected(x.engine, x.summary);
            let reasons = joined(told(det.hits), "; "@);
            match x.llm {
                None => handled(c, x) == (StepView::Forward {
                    outcome: OutcomeView {
                        action: Action::Suspicious,
                        score: det.score,
                        threat: None,
                        detail: "rules: "@ + reasons,
                        tier: "rules"@,
                    },
                }),
                Some(d) => handled(c, x) == model_says(c, d, det.score, reasons),
            }
        }),
        counts_as_the_model_says(c, x),
{
    lemma_told(inspected(x.engine, x.summary).hits);
}

/// What is done on the word of the model: it refuses, or lets the suspicious
/// request go on; the record gives its reason and what made it be asked.
pub open spec fn model_says(
    c: ControlsView,
    d: DecisionView,
    score: u32,
    reasons: Seq<char>,
) -> StepView {
    let detail = d.source + ": "@ + d.reason + " | trigger: "@ + reasons;
    if d.block {
        refusal(c.enforce, d.threat, score, detail, "llm"@)
    } else {
        StepView::Forward {
            outcome: OutcomeView {
                action: Action::Suspicious,
                score,
                threat: None,
                detail,
                tier: "llm"@,
            },
        }
    }
}

/// The request counts as a block of its client, if that is known, just if there
/// is a model and it refuses.
pub open spec fn counts_as_the_model_says(c: ControlsView, x: Facts) -> bool {
    controls_after(c, x) == if x.llm is Some && x.llm->0.block && x.ip is Some {
        blocked(c, x.ip->0)
    } else {
        c
    }
}

/// What the rules let through is suspicious if the classifier raises an alarm:
/// with the lower threshold as its score, and the alarm as the reason. Without
/// one it goes on unsuspected.
pub proof fn law_alarm_makes_suspicious(c: ControlsView, x: Facts)
    requires
        looked_at(c, x),
        inspected(x.engine, x.summary).score < x.block_threshold,
        inspected(x.engine, x.summary).score < x.suspicious_threshold,
    ensures
        x.alarm is None ==> handled(c, x) == (StepView::Forward {
            outcome: OutcomeView {
                action: Action::Allowed,
                score: 0,
                threat: None,
                detail: "rules"@,
                tier: "rules"@,
            },
        }) && controls_after(c, x) == c,
        x.alarm matches Some(text) ==> {
            let reason = "ngram classifier: "@ + text;
            &&& match x.llm {
                None => handled(c, x) == (StepView::Forward {
                    outcome: OutcomeView {
                        action: Action::Suspicious,
                        score: x.suspicious_threshold,
                        threat: None,
                        detail: "rules: "@ + reason,
                        tier: "ngram"@,
                    },
                }),
                Some(d) => handled(c, x) == model_says(c, d, x.suspicious_threshold, reason),
            }
            &&& counts_as_the_model_says(c, x)
        },
{
    if x.alarm is Some {
        let reason = "ngram classifier: "@ + x.alarm->0;
        assert(seq![reason].drop_last().len() == 0);
        assert(joined(seq![reason], "; "@) == reason);
    }
}

/// A block is said to lead to a ban just if the client is known and the block is
/// the one that bans it.
pub proof fn law_known_clients_are_counted(c: ControlsView, ip: Seq<char>)
    ensures
        counted_block(c, None) == c,
        counted_block(c, Some(ip)) == blocked(c, ip),
        !leads_to_ban(c, None),
        leads_to_ban(c, Some(ip)) == bans(c, ip),
{
}

/// The record of a request tells who asked for what, what was found and done, and
/// what the origin answered.
pub proof fn law_record_is_complete(
    ev: WafEvent,
    o: OutcomeView,
    s: RequestSummary,
    time: Seq<char>,
    status: Option<u16>,
)
    requires
        records(ev, o, s, time, status),
    ensures
        ev.time@ == time,
        ev.client_ip@ == s.client_ip@,
        ev.method@ == s.method@,
        ev.path@ == s.path@,
        ev.action == o.action,
        ev.score == o.score,
        ev.threat is Some <==> o.threat is Some,
        ev.threat is Some ==> ev.threat->0@ == o.threat->0,
        ev.status == status,
        ev.detail@ == o.detail,
        ev.tier@ == o.tier,
{
}

/// Whatever is to be stopped is refused or watched in the same way, and whatever
/// passes goes on without a threat.
pub proof fn law_stopping_and_passing(
    enforce: bool,
    threat: Seq<char>,
    score: u32,
    detail: Seq<char>,
    tier: Seq<char>,
    action: Action,
)
    ensures
        stopped(enforce, threat, score, detail, tier) == refusal(
            enforce,
            threat,
            score,
            detail,
            tier,
        ),
        passed(action, score, detail, tier) == (StepView::Forward {
            outcome: OutcomeView { action, score, threat: None, detail, tier },
        }),
        FORBIDDEN@ == "403 Forbidden — request blocked by WAF"@,
        TOO_LARGE@ == "413 Payload Too Large"@,
{
}

/// An alarm changes just the verdict to let through, into suspicion with the lower
/// threshold as its score.
pub proof fn law_alarm(v: VerdictView, text: Seq<char>, suspicious: u32)
    ensures
        elevated(v, None, suspicious) == v,
        !(v is Allow) ==> elevated(v, Some(text), suspicious) == v,
        v is Allow ==> elevated(v, Some(text), suspicious) == (VerdictView::Suspicious {
            score: suspicious,
            reasons: seq!["ngram classifier: "@ + text],
        }),
        raised(v, Some(text)) <==> v is Allow,
        !raised(v, None),
{
}

/// A block is carried out whether there is a model or not, a suspicion is left to
/// the model if there is one, and everything else goes on.
pub proof fn law_verdicts_are_carried_out(
    v: VerdictView,
    raised: bool,
    enforce: bool,
    has_llm: bool,
)
    ensures
        match v {
            VerdictView::Block { score, threat, reasons } => by_verdict(v, raised, enforce, has_llm)
                == Some(refusal(enforce, threat, score, joined(reasons, "; "@), "rules"@)),
            VerdictView::Suspicious { score, reasons } => if has_llm {
                by_verdict(v, raised, enforce, has_llm) is None
            } else {
                by_verdict(v, raised, enforce, has_llm) == Some(
                    StepView::Forward {
                        outcome: OutcomeView {
                            action: Action::Suspicious,
                            score,
                            threat: None,
                            detail: "rules: "@ + joined(reasons, "; "@),
                            tier: if raised {
                                "ngram"@
                            } else {
                                "rules"@
                            },
                        },
                    },
                )
            },
            VerdictView::Allow => by_verdict(v, raised, enforce, has_llm) == Some(
                StepView::Forward {
                    outcome: OutcomeView {
                        action: Action::Allowed,
                        score: 0,
                        threat: None,
                        detail: "rules"@,
                        tier: "rules"@,
                    },
                },
            ),
        },
{
}

/// The word of the model is carried out, whatever it was asked for.
pub proof fn law_opinions_are_carried_out(
    c: ControlsView,
    d: DecisionView,
    score: u32,
    reasons: Seq<Seq<char>>,
)
    ensures
        by_opinion(d, score, reasons, c.enforce) == model_says(c, d, score, joined(reasons, "; "@)),
{
}

} // verus!
