//! What is done with the record of a request: who is told of it, and which
//! requests are kept for the search for new rules.

use vstd::prelude::*;
use vstd::string::*;

use crate::engine::verdict::RequestSummary;
use crate::event::{action_label, Action, WafEvent};
use crate::json::{object_2, text, with_member, Json, JsonView};
use crate::text::{at_most, decimal, decimal_of, head, same_text};

verus! {

/// Someone who is told of every request. The summary gives what the record
/// leaves out.
pub trait EventSink: Send + Sync {
    fn on_event(&self, ev: &WafEvent, summary: &RequestSummary);
}

/// How loud a record is in the log.
#[derive(Debug, Clone, Copy, PartialEq, Eq, Structural)]
pub enum Level {
    Warn,
    Info,
    Debug,
}

/// How loud the record of an action is.
pub open spec fn level_of(a: Action) -> Level {
    match a {
        Action::Blocked => Level::Warn,
        Action::Suspicious => Level::Info,
        Action::Allowed => Level::Debug,
    }
}

/// The log of all requests.
#[derive(Debug, Clone, Copy)]
pub struct TracingSink;

impl TracingSink {
    /// How loud the record of an action is, and the text that it has.
    pub fn entry(&self, action: Action) -> (r: (Level, &'static str))
        ensures
            r.0 == level_of(action),
            r.1@ == (match action {
                Action::Blocked => "WAF 拦截"@,
                Action::Suspicious => "WAF 送检/可疑"@,
                Action::Allowed => "WAF 放行"@,
            }),
    {
        match action {
            Action::Blocked => (Level::Warn, "WAF 拦截"),
            Action::Suspicious => (Level::Info, "WAF 送检/可疑"),
            Action::Allowed => (Level::Debug, "WAF 放行"),
        }
    }
}

/// How much of a body is kept, in characters.
pub const MAX_GAP_BODY: usize = 512;

/// The log of the requests that the rules missed.
#[derive(Debug)]
pub struct GapLogSink {
    path: String,
}

impl View for GapLogSink {
    type V = Seq<char>;

    closed spec fn view(&self) -> Seq<char> {
        self.path@
    }
}

/// The rules missed the request and a later tier did not. Bans and limits say
/// nothing about the rules.
pub open spec fn is_gap(ev: WafEvent) -> bool {
    &&& ev.tier@ != "rules"@
    &&& ev.tier@ != "banned-ip"@
    &&& ev.tier@ != "ratelimit"@
    &&& ev.action != Action::Allowed
}

/// What is kept of a request that the rules missed.
pub open spec fn gap_record(ev: WafEvent, s: RequestSummary) -> JsonView {
    JsonView::Object(
        seq![
            ("time"@, JsonView::Text(ev.time@)),
            ("client_ip"@, JsonView::Text(ev.client_ip@)),
            ("method"@, JsonView::Text(ev.method@)),
            ("path"@, JsonView::Text(ev.path@)),
            ("query"@, JsonView::Text(s.query@)),
            ("body"@, JsonView::Text(at_most(s.body@, MAX_GAP_BODY as nat))),
            ("rule_score"@, JsonView::Number(decimal(ev.score as nat))),
            ("tier"@, JsonView::Text(ev.tier@)),
            ("action"@, JsonView::Text(action_label(ev.action))),
            (
                "threat"@,
                match ev.threat {
                    Some(t) => JsonView::Text(t@),
                    None => JsonView::Null,
                },
            ),
            ("detail"@, JsonView::Text(ev.detail@)),
        ],
    )
}

impl GapLogSink {
    /// A log in a file.
    pub fn new(path: String) -> (r: Self)
        ensures
            r@ == path@,
    {
        GapLogSink { path }
    }

    /// The file of the log.
    pub fn path(&self) -> (r: &str)
        ensures
            r@ == self@,
    {
        self.path.as_str()
    }

    /// What is kept of a request, if the rules missed it.
    pub fn record(&self, ev: &WafEvent, summary: &RequestSummary) -> (r: Option<Json>)
        ensures
            match r {
                Some(j) => is_gap(*ev) && j@ == gap_record(*ev, *summary),
                None => !is_gap(*ev),
            },
    {
        let tier: &str = ev.tier.as_str();
        let allowed = match ev.action {
            Action::Allowed => true,
            _ => false,
        };
        if same_text(tier, "rules") || same_text(tier, "banned-ip") || same_text(tier, "ratelimit")
            || allowed {
            return None;
        }
        let threat: Json = match &ev.threat {
            Some(t) => text(t.as_str()),
            None => Json::Null,
        };
        let body = text(head(summary.body.as_str(), MAX_GAP_BODY).as_str());
        let j = object_2("time", text(ev.time.as_str()), "client_ip", text(ev.client_ip.as_str()));
        let j = with_member(j, "method", text(ev.method.as_str()));
        let j = with_member(j, "path", text(ev.path.as_str()));
        let j = with_member(j, "query", text(summary.query.as_str()));
        let j = with_member(j, "body", body);
        let j = with_member(j, "rule_score", Json::Number(decimal_of(ev.score as u64)));
        let j = with_member(j, "tier", text(tier));
        let j = with_member(j, "action", text(ev.action.label()));
        let j = with_member(j, "threat", threat);
        let j = with_member(j, "detail", text(ev.detail.as_str()));
        assert(j@->Object_0 =~= gap_record(*ev, *summary)->Object_0);
        Some(j)
    }
}

/// What the rules themselves decided, and what was let through, is never kept
/// as something that they missed.
pub proof fn law_rules_leave_no_gap(ev: WafEvent)
    requires
        ev.tier@ == "rules"@ || ev.action == Action::Allowed,
    ensures
        !is_gap(ev),
{
}

} // verus!
