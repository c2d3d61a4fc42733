//! The way of a request through the detection, up to the answer or to the
//! origin.
//!
//! The outside work on the way (the score of the classifier, the opinion of the
//! model, the request to the origin) is done by the caller: `begin` looks at
//! the blacklist, the bypass paths and the rules; `weigh` takes the alarm of the
//! classifier into account; `conclude` takes the opinion of the model.

use vstd::prelude::*;
use vstd::string::*;

use crate::engine::llm::{DecisionView, LlmDecision};
use crate::engine::rules::{inspected, EngineView, RuleEngine};
use crate::engine::verdict::{verdict_of, RequestSummary, Verdict, VerdictView};
use crate::event::{clock, now_hms, Action, WafEvent};
use crate::sink::is_gap;
use crate::state::{
    ban_in_storage, banned_ips, bans, blocked, blocks_of, countable, law_ban_reaches_the_blacklist,
    path_bypasses, Controls, ControlsView,
};
use crate::storage::rows_inserted;
use crate::text::{join, joined, texts};

verus! {

/// What is recorded of a request, but for the request itself, the time and the
/// answer of the origin.
#[derive(Debug)]
pub struct Outcome {
    pub action: Action,
    pub score: u32,
    pub threat: Option<String>,
    pub detail: String,
    pub tier: String,
}

/// An outcome over sequences of characters.
pub struct OutcomeView {
    pub action: Action,
    pub score: u32,
    pub threat: Option<Seq<char>>,
    pub detail: Seq<char>,
    pub tier: Seq<char>,
}

impl View for Outcome {
    type V = OutcomeView;

    open spec fn view(&self) -> OutcomeView {
        OutcomeView {
            action: self.action,
            score: self.score,
            threat: match self.threat {
                Some(t) => Some(t@),
                None => None,
            },
            detail: self.detail@,
            tier: self.tier@,
        }
    }
}

/// What is done with a request in the end.
#[derive(Debug)]
pub enum Step {
    /// It is answered here.
    Respond { status: u16, body: String, outcome: Outcome },
    /// It goes to the origin.
    Forward { outcome: Outcome },
}

/// A step over sequences of characters.
pub enum StepView {
    Respond { status: u16, body: Seq<char>, outcome: OutcomeView },
    Forward { outcome: OutcomeView },
}

impl View for Step {
    type V = StepView;

    open spec fn view(&self) -> StepView {
        match *self {
            Step::Respond { status, body, outcome } => StepView::Respond {
                status,
                body: body@,
                outcome: outcome@,
            },
            Step::Forward { outcome } => StepView::Forward { outcome: outcome@ },
        }
    }
}

/// Where a request stands after the rules.
#[derive(Debug)]
pub enum Begun {
    /// It needs no inspection.
    Done(Step),
    /// The rules have spoken.
    Judged(Verdict),
}

/// Where a request stands after the classifier.
#[derive(Debug)]
pub enum Weighed {
    /// It is decided.
    Done(Step),
    /// The model is to be asked.
    Adjudicate { score: u32, reasons: Vec<String> },
}

/// The answer to a request that is stopped.
pub const FORBIDDEN: &'static str = "403 Forbidden — request blocked by WAF";

/// The answer to a request whose body is too large.
pub const TOO_LARGE: &'static str = "413 Payload Too Large";

/// The answer where the origin could not be asked.
pub fn bad_gateway(error: &str) -> (r: String)
    ensures
        r@ == "502 Bad Gateway: "@ + error@,
{
    let mut r: String = "502 Bad Gateway: ".to_owned();
    r.append(error);
    r
}

/// What is done with a request that is to be stopped: it is, or in monitor mode
/// it goes on and only the record says so.
pub open spec fn stopped(
    enforce: bool,
    threat: Seq<char>,
    score: u32,
    detail: Seq<char>,
    tier: Seq<char>,
) -> StepView {
    if enforce {
        StepView::Respond {
            status: 403,
            body: FORBIDDEN@,
            outcome: OutcomeView { action: Action::Blocked, score, threat: Some(threat), detail, tier },
        }
    } else {
        StepView::Forward {
            outcome: OutcomeView {
                action: Action::Suspicious,
                score,
                threat: Some(threat),
                detail: "MONITOR(本应拦截): "@ + detail,
                tier,
            },
        }
    }
}

/// What is done with a request that is to be stopped.
pub fn block_or_monitor(
    enforce: bool,
    threat: String,
    score: u32,
    detail: String,
    tier: &str,
) -> (r: Step)
    ensures
        r@ == stopped(enforce, threat@, score, detail@, tier@),
{
    if enforce {
        Step::Respond {
            status: 403,
            body: FORBIDDEN.to_owned(),
            outcome: Outcome {
                action: Action::Blocked,
                score,
                threat: Some(threat),
                detail,
                tier: tier.to_owned(),
            },
        }
    } else {
        let mut text: String = "MONITOR(本应拦截): ".to_owned();
        text.append(detail.as_str());
        Step::Forward {
            outcome: Outcome {
                action: Action::Suspicious,
                score,
                threat: Some(threat),
                detail: text,
                tier: tier.to_owned(),
            },
        }
    }
}

/// A request that goes on without a threat.
pub open spec fn passed(
    action: Action,
    score: u32,
    detail: Seq<char>,
    tier: Seq<char>,
) -> StepView {
    StepView::Forward { outcome: OutcomeView { action, score, threat: None, detail, tier } }
}

fn pass(action: Action, score: u32, detail: String, tier: &str) -> (r: Step)
    ensures
        r@ == passed(action, score, detail@, tier@),
{
    Step::Forward {
        outcome: Outcome { action, score, threat: None, detail, tier: tier.to_owned() },
    }
}

/// The view of an address that may be missing.
pub open spec fn ip_view(ip: Option<&str>) -> Option<Seq<char>> {
    match ip {
        Some(i) => Some(i@),
        None => None,
    }
}

/// The client is banned.
pub open spec fn is_banned_client(c: ControlsView, ip: Option<Seq<char>>) -> bool {
    match ip {
        Some(i) => banned_ips(c).contains(i),
        None => false,
    }
}

/// The step for a request that needs no inspection: its client is banned, or
/// else its path is let through.
pub open spec fn without_inspection(
    c: ControlsView,
    ip: Option<Seq<char>>,
    path: Seq<char>,
) -> Option<StepView> {
    if is_banned_client(c, ip) {
        Some(stopped(c.enforce, "banned-ip"@, 0, "IP 在黑名单"@, "banned-ip"@))
    } else if path_bypasses(c, path) {
        Some(passed(Action::Allowed, 0, "bypass"@, "bypass"@))
    } else {
        None
    }
}

/// The step for a request that needs no inspection, or else the verdict of the
/// rules. The address is missing where the client's cannot be read.
pub fn begin(
    engine: &RuleEngine,
    controls: &Controls,
    ip: Option<&str>,
    summary: &RequestSummary,
    block_threshold: u32,
    suspicious_threshold: u32,
) -> (r: Begun)
    ensures
        match r {
            Begun::Done(step) => without_inspection(controls@, ip_view(ip), summary.path@) == Some(
                step@,
            ),
            Begun::Judged(v) => {
                &&& without_inspection(controls@, ip_view(ip), summary.path@) is None
                &&& v@ == verdict_of(
                    inspected(engine@, *summary),
                    block_threshold,
                    suspicious_threshold,
                )
            },
        },
{
    let banned = match ip {
        Some(i) => controls.is_banned(i),
        None => false,
    };
    if banned {
        Begun::Done(
            block_or_monitor(
                controls.enforce(),
                "banned-ip".to_owned(),
                0,
                "IP 在黑名单".to_owned(),
                "banned-ip",
            ),
        )
    } else if controls.is_bypass(summary.path.as_str()) {
        Begun::Done(pass(Action::Allowed, 0, "bypass".to_owned(), "bypass"))
    } else {
        let detection = engine.inspect(summary);
        Begun::Judged(detection.to_verdict(block_threshold, suspicious_threshold))
    }
}

/// The verdict with an alarm of the classifier, given by the text of its score:
/// what the rules would let through becomes suspicious. An alarm stops nothing
/// by itself.
pub open spec fn elevated(
    v: VerdictView,
    alarm: Option<Seq<char>>,
    suspicious_threshold: u32,
) -> VerdictView {
    match (v, alarm) {
        (VerdictView::Allow, Some(score)) => VerdictView::Suspicious {
            score: suspicious_threshold,
            reasons: seq!["ngram classifier: "@ + score],
        },
        _ => v,
    }
}

/// The verdict with an alarm of the classifier.
pub fn elevate(verdict: Verdict, alarm: Option<&str>, suspicious_threshold: u32) -> (r: Verdict)
    ensures
        r@ == elevated(verdict@, ip_view(alarm), suspicious_threshold),
{
    match verdict {
        Verdict::Allow => match alarm {
            Some(score) => {
                let mut reason: String = "ngram classifier: ".to_owned();
                reason.append(score);
                let mut reasons: Vec<String> = Vec::new();
                reasons.push(reason);
                assert(texts(reasons@) =~= seq!["ngram classifier: "@ + score@]);
                Verdict::Suspicious { score: suspicious_threshold, reasons }
            },
            None => Verdict::Allow,
        },
        other => other,
    }
}

/// The classifier alone is suspicious of what the rules would let through.
pub open spec fn raised(v: VerdictView, alarm: Option<Seq<char>>) -> bool {
    v is Allow && alarm is Some
}

/// The tier that makes a request suspicious.
pub open spec fn suspicious_tier(raised: bool) -> Seq<char> {
    if raised {
        "ngram"@
    } else {
        "rules"@
    }
}

/// The step that a verdict leads to without a model, or nothing where the model
/// is to be asked. `raised` says whether the classifier alone is suspicious.
pub open spec fn by_verdict(
    v: VerdictView,
    raised: bool,
    enforce: bool,
    has_llm: bool,
) -> Option<StepView> {
    match v {
        VerdictView::Block { score, threat, reasons } => Some(
            stopped(enforce, threat, score, joined(reasons, "; "@), "rules"@),
        ),
        VerdictView::Suspicious { score, reasons } => if has_llm {
            None
        } else {
            Some(
                passed(
                    Action::Suspicious,
                    score,
                    "rules: "@ + joined(reasons, "; "@),
                    suspicious_tier(raised),
                ),
            )
        },
        VerdictView::Allow => Some(passed(Action::Allowed, 0, "rules"@, "rules"@)),
    }
}

/// After a block of a client, if its address is known.
pub open spec fn counted_block(c: ControlsView, ip: Option<Seq<char>>) -> ControlsView {
    match ip {
        Some(i) => blocked(c, i),
        None => c,
    }
}

/// A block of the client leads to a ban that was not there.
pub open spec fn leads_to_ban(c: ControlsView, ip: Option<Seq<char>>) -> bool {
    match ip {
        Some(i) => bans(c, i),
        None => false,
    }
}

/// One more block of the client can be counted.
pub open spec fn client_countable(c: ControlsView, ip: Option<Seq<char>>) -> bool {
    match ip {
        Some(i) => countable(c, i),
        None => true,
    }
}

fn count_block(controls: &mut Controls, ip: Option<&str>) -> (r: bool)
    requires
        client_countable(old(controls)@, ip_view(ip)),
    ensures
        final(controls)@ == counted_block(old(controls)@, ip_view(ip)),
        r == leads_to_ban(old(controls)@, ip_view(ip)),
{
    match ip {
        Some(i) => controls.record_block(i),
        None => false,
    }
}

/// The step that the verdict of the rules and an alarm of the classifier lead
/// to, or the question for the model. A block is counted; the flag says whether
/// it leads to a ban that was not there.
pub fn weigh(
    controls: &mut Controls,
    ip: Option<&str>,
    verdict: Verdict,
    alarm: Option<&str>,
    suspicious_threshold: u32,
    has_llm: bool,
) -> (r: (Weighed, bool))
    requires
        elevated(verdict@, ip_view(alarm), suspicious_threshold) is Block ==> client_countable(
            old(controls)@,
            ip_view(ip),
        ),
    ensures
        ({
            let v = elevated(verdict@, ip_view(alarm), suspicious_threshold);
            let step = by_verdict(
                v,
                raised(verdict@, ip_view(alarm)),
                old(controls)@.enforce,
                has_llm,
            );
            &&& match r.0 {
                Weighed::Done(s) => step == Some(s@),
                Weighed::Adjudicate { score, reasons } => {
                    &&& step is None
                    &&& v == (VerdictView::Suspicious { score, reasons: texts(reasons@) })
                },
            }
            &&& final(controls)@ == if v is Block {
                counted_block(old(controls)@, ip_view(ip))
            } else {
                old(controls)@
            }
            &&& r.1 == (v is Block && leads_to_ban(old(controls)@, ip_view(ip)))
        }),
{
    let tier: &'static str = match (&verdict, alarm) {
        (Verdict::Allow, Some(_)) => "ngram",
        _ => "rules",
    };
    match elevate(verdict, alarm, suspicious_threshold) {
        Verdict::Block { score, threat, reasons } => {
            let newly = count_block(controls, ip);
            let detail = join(&reasons, "; ");
            (
                Weighed::Done(
                    block_or_monitor(controls.enforce(), threat, score, detail, "rules"),
                ),
                newly,
            )
        },
        Verdict::Suspicious { score, reasons } => {
            if has_llm {
                (Weighed::Adjudicate { score, reasons }, false)
            } else {
                let mut detail: String = "rules: ".to_owned();
                detail.append(join(&reasons, "; ").as_str());
                (Weighed::Done(pass(Action::Suspicious, score, detail, tier)), false)
            }
        },
        Verdict::Allow => (
            Weighed::Done(pass(Action::Allowed, 0, "rules".to_owned(), "rules")),
            false,
        ),
    }
}

/// What is recorded of the opinion of the model.
pub open spec fn opinion(d: DecisionView, reasons: Seq<Seq<char>>) -> Seq<char> {
    d.source + ": "@ + d.reason + " | trigger: "@ + joined(reasons, "; "@)
}

/// The step that the opinion of the model leads to.
pub open spec fn by_opinion(
    d: DecisionView,
    score: u32,
    reasons: Seq<Seq<char>>,
    enforce: bool,
) -> StepView {
    if d.block {
        stopped(enforce, d.threat, score, opinion(d, reasons), "llm"@)
    } else {
        passed(Action::Suspicious, score, opinion(d, reasons), "llm"@)
    }
}

/// The step that the opinion of the model leads to. A block is counted; the
/// flag says whether it leads to a ban that was not there.
pub fn conclude(
    controls: &mut Controls,
    ip: Option<&str>,
    score: u32,
    reasons: &Vec<String>,
    decision: LlmDecision,
) -> (r: (Step, bool))
    requires
        decision.block ==> client_countable(old(controls)@, ip_view(ip)),
    ensures
        r.0@ == by_opinion(decision@, score, texts(reasons@), old(controls)@.enforce),
        final(controls)@ == if decision.block {
            counted_block(old(controls)@, ip_view(ip))
        } else {
            old(controls)@
        },
        r.1 == (decision.block && leads_to_ban(old(controls)@, ip_view(ip))),
{
    let mut detail: String = decision.source.clone();
    detail.append(": ");
    detail.append(decision.reason.as_str());
    detail.append(" | trigger: ");
    detail.append(join(reasons, "; ").as_str());
    if decision.block {
        let newly = count_block(controls, ip);
        (block_or_monitor(controls.enforce(), decision.threat, score, detail, "llm"), newly)
    } else {
        (pass(Action::Suspicious, score, detail, "llm"), false)
    }
}

/// The record of a request is that of its outcome.
pub open spec fn records(
    ev: WafEvent,
    outcome: OutcomeView,
    summary: RequestSummary,
    time: Seq<char>,
    status: Option<u16>,
) -> bool {
    &&& ev.time@ == time
    &&& ev.client_ip@ == summary.client_ip@
    &&& ev.method@ == summary.method@
    &&& ev.path@ == summary.path@
    &&& ev.action == outcome.action
    &&& ev.score == outcome.score
    &&& (match ev.threat {
        Some(t) => outcome.threat == Some(t@),
        None => outcome.threat is None,
    })
    &&& ev.status == status
    &&& ev.detail@ == outcome.detail
    &&& ev.tier@ == outcome.tier
}

/// The record of a request at a time of day, with the status that the origin
/// answered, if it was asked.
pub fn event_at(
    time: String,
    summary: &RequestSummary,
    outcome: Outcome,
    status: Option<u16>,
) -> (r: WafEvent)
    ensures
        records(r, outcome@, *summary, time@, status),
{
    WafEvent {
        time,
        client_ip: summary.client_ip.clone(),
        method: summary.method.clone(),
        path: summary.path.clone(),
        action: outcome.action,
        score: outcome.score,
        threat: outcome.threat,
        status,
        detail: outcome.detail,
        tier: outcome.tier,
    }
}

/// The record of a request at the present time of day.
pub fn emit(summary: &RequestSummary, outcome: Outcome, status: Option<u16>) -> (r: WafEvent)
    ensures
        exists|secs: u64| r.time@ == #[trigger] clock(secs as nat),
        records(r, outcome@, *summary, r.time@, status),
{
    event_at(now_hms(), summary, outcome, status)
}

/// Everything that decides over a request.
pub struct Facts {
    /// The rules.
    pub engine: EngineView,
    pub block_threshold: u32,
    pub suspicious_threshold: u32,
    /// The client's address, if it is known.
    pub ip: Option<Seq<char>>,
    pub summary: RequestSummary,
    /// The alarm of the classifier, if it gives one.
    pub alarm: Option<Seq<char>>,
    /// The opinion of the model, if there is one to ask.
    pub llm: Option<DecisionView>,
}

/// The verdict of the rules.
pub open spec fn rules_verdict(x: Facts) -> VerdictView {
    verdict_of(inspected(x.engine, x.summary), x.block_threshold, x.suspicious_threshold)
}

/// The verdict of the rules, and of the classifier if it gives an alarm.
pub open spec fn weighed_verdict(x: Facts) -> VerdictView {
    elevated(rules_verdict(x), x.alarm, x.suspicious_threshold)
}

/// What is done with a request in the end: the three parts of the way, one
/// after the other.
pub open spec fn handled(c: ControlsView, x: Facts) -> StepView {
    match without_inspection(c, x.ip, x.summary.path@) {
        Some(step) => step,
        None => {
            let v = weighed_verdict(x);
            match by_verdict(v, raised(rules_verdict(x), x.alarm), c.enforce, x.llm is Some) {
                Some(step) => step,
                None => by_opinion(x.llm->0, v->Suspicious_score, v->Suspicious_reasons, c.enforce),
            }
        },
    }
}

/// The request is found to be an attack: by the rules, or by the model where
/// they leave it open.
pub open spec fn convicted(c: ControlsView, x: Facts) -> bool {
    &&& without_inspection(c, x.ip, x.summary.path@) is None
    &&& match weighed_verdict(x) {
        VerdictView::Block { .. } => true,
        VerdictView::Suspicious { .. } => x.llm matches Some(d) && d.block,
        VerdictView::Allow => false,
    }
}

/// The controls in the end: a request that is found to be an attack counts, and
/// no other.
pub open spec fn controls_after(c: ControlsView, x: Facts) -> ControlsView {
    if convicted(c, x) {
        counted_block(c, x.ip)
    } else {
        c
    }
}

/// In monitor mode every request reaches the origin.
pub proof fn law_monitor_mode_stops_nothing(c: ControlsView, x: Facts)
    requires
        !c.enforce,
    ensures
        handled(c, x) is Forward,
{
}

/// The mode changes nothing in what is found: the same requests are counted, and
/// a request that is stopped in one mode is recorded with its threat in the
/// other.
pub proof fn law_monitor_mode_finds_the_same(c: ControlsView, x: Facts)
    ensures
        ({
            let other = ControlsView { enforce: !c.enforce, ..c };
            &&& convicted(c, x) == convicted(other, x)
            &&& handled(c, x) matches StepView::Respond { outcome, .. } ==> handled(
                other,
                x,
            ) matches StepView::Forward { outcome: o } && o.threat == outcome.threat && o.score
                == outcome.score && o.tier == outcome.tier
        }),
{
    let other = ControlsView { enforce: !c.enforce, ..c };
    assert(banned_ips(other) == banned_ips(c));
}

/// A banned client is refused whatever it asks for, and without an inspection.
pub proof fn law_banned_client_is_refused(c: ControlsView, x: Facts, y: Facts)
    requires
        c.enforce,
        is_banned_client(c, x.ip),
        y.ip == x.ip,
    ensures
        handled(c, x) matches StepView::Respond { status, body, .. } && status == 403 && body
            == FORBIDDEN@,
        handled(c, y) == handled(c, x),
        controls_after(c, x) == c,
{
}

/// The block that reaches the threshold bans the client: where no blacklist is
/// kept, its next request is refused, whatever it asks for.
pub proof fn law_last_block_bans_the_client(c: ControlsView, x: Facts, next: Facts)
    requires
        c.enforce,
        c.storage is None,
        c.threshold > 0,
        convicted(c, x),
        x.ip is Some,
        client_countable(c, x.ip),
        blocks_of(c, x.ip->0) + 1 >= c.threshold,
        next.ip == x.ip,
    ensures
        handled(controls_after(c, x), next) matches StepView::Respond { status, .. } && status
            == 403,
{
}

/// With a blacklist, the block that reaches the threshold is said to ban the
/// client, and once its address is put into the table, its next request is
/// refused, whatever it asks for.
pub proof fn law_last_block_blacklists_the_client(c: ControlsView, x: Facts, next: Facts)
    requires
        c.enforce,
        c.storage is Some,
        c.threshold > 0,
        convicted(c, x),
        x.ip is Some,
        client_countable(c, x.ip),
        blocks_of(c, x.ip->0) + 1 >= c.threshold,
        next.ip == x.ip,
    ensures
        leads_to_ban(c, x.ip),
        ({
            let ip = x.ip->0;
            let after = ban_in_storage(
                controls_after(c, x),
                ip,
                rows_inserted(banned_ips(c), ip),
            );
            &&& banned_ips(after) == banned_ips(c).insert(ip)
            &&& handled(after, next) matches StepView::Respond { status, body, .. } && status == 403
                && body == FORBIDDEN@
        }),
{
    law_ban_reaches_the_blacklist(c, x.ip->0);
}

/// A bypass path reaches the origin without an inspection, unless its client is
/// banned.
pub proof fn law_bypass_skips_the_inspection(c: ControlsView, x: Facts)
    requires
        !is_banned_client(c, x.ip),
        path_bypasses(c, x.summary.path@),
    ensures
        handled(c, x) == passed(Action::Allowed, 0, "bypass"@, "bypass"@),
        controls_after(c, x) == c,
{
}

/// What the rules find to be an attack is stopped, whatever the classifier and
/// the model say of it.
pub proof fn law_block_by_rules_is_final(c: ControlsView, x: Facts)
    requires
        c.enforce,
        without_inspection(c, x.ip, x.summary.path@) is None,
        inspected(x.engine, x.summary).score >= x.block_threshold,
    ensures
        handled(c, x) matches StepView::Respond { status, outcome, .. } && status == 403
            && outcome.action == Action::Blocked && outcome.tier == "rules"@ && outcome.score
            == inspected(x.engine, x.summary).score,
        controls_after(c, x) == counted_block(c, x.ip),
{
}

/// The classifier stops nothing by itself: without a model, what the rules do
/// not block reaches the origin.
pub proof fn law_classifier_only_raises_suspicion(c: ControlsView, x: Facts)
    requires
        !is_banned_client(c, x.ip),
        inspected(x.engine, x.summary).score < x.block_threshold,
        x.llm is None,
    ensures
        handled(c, x) is Forward,
        controls_after(c, x) == c,
{
}

/// The outcome that is recorded of a request.
pub open spec fn outcome_of(s: StepView) -> OutcomeView {
    match s {
        StepView::Respond { outcome, .. } => outcome,
        StepView::Forward { outcome } => outcome,
    }
}

/// What the rules let through and the classifier does not is kept for the search
/// for new rules, whether or not there is a model and whatever it says.
pub proof fn law_caught_by_the_classifier_is_kept(
    c: ControlsView,
    x: Facts,
    ev: WafEvent,
    time: Seq<char>,
    status: Option<u16>,
)
    requires
        without_inspection(c, x.ip, x.summary.path@) is None,
        rules_verdict(x) is Allow,
        x.alarm is Some,
        records(ev, outcome_of(handled(c, x)), x.summary, time, status),
    ensures
        is_gap(ev),
{
    reveal_strlit("rules");
    reveal_strlit("ngram");
    reveal_strlit("llm");
    reveal_strlit("banned-ip");
    reveal_strlit("ratelimit");
    assert("ngram"@[0] == 'n' && "rules"@[0] == 'r' && "banned-ip"@[0] == 'b');
    assert("ngram"@.len() == 5 && "llm"@.len() == 3 && "ratelimit"@.len() == 9);
}

/// The model has a say only where the rules or the classifier are suspicious:
/// everywhere else its opinion changes nothing.
pub proof fn law_model_decides_suspicion_only(c: ControlsView, x: Facts, d: DecisionView)
    requires
        !(weighed_verdict(x) is Suspicious),
    ensures
        handled(c, x) == handled(c, Facts { llm: Some(d), ..x }),
        handled(c, x) == handled(c, Facts { llm: None, ..x }),
{
}

/// A suspicious request is stopped exactly if the model says so.
pub proof fn law_model_decides_suspicion(c: ControlsView, x: Facts)
    requires
        c.enforce,
        without_inspection(c, x.ip, x.summary.path@) is None,
        weighed_verdict(x) is Suspicious,
        x.llm is Some,
    ensures
        handled(c, x) is Respond <==> x.llm->0.block,
        convicted(c, x) <==> x.llm->0.block,
{
}

/// A request that nothing speaks against reaches the origin unsuspected.
pub proof fn law_clean_request_passes(c: ControlsView, x: Facts)
    requires
        !is_banned_client(c, x.ip),
        inspected(x.engine, x.summary).score < x.block_threshold,
        inspected(x.engine, x.summary).score < x.suspicious_threshold,
        x.alarm is None,
    ensures
        handled(c, x) matches StepView::Forward { outcome } && outcome.action == Action::Allowed
            && outcome.threat is None && outcome.score == 0,
        controls_after(c, x) == c,
{
}

/// A request is answered here only with the refusal, and only if its client is
/// banned or it is found to be an attack.
pub proof fn law_refusals_are_earned(c: ControlsView, x: Facts)
    requires
        handled(c, x) is Respond,
    ensures
        c.enforce,
        is_banned_client(c, x.ip) || convicted(c, x),
        handled(c, x)->status == 403,
{
}

} // verus!
