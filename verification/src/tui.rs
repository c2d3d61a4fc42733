//! The dashboard without its drawing: what it counts, what it shows and what a
//! key does.

use std::collections::VecDeque;

use vstd::prelude::*;
use vstd::string::*;

use crate::event::{action_label, Action, WafEvent};
use crate::text::{decimal, decimal_of};

verus! {

/// How many of the latest events are kept.
pub const MAX_EVENTS: usize = 500;

/// How many events are taken in between two drawings.
pub const DRAIN_PER_FRAME: usize = 512;

/// What the dashboard knows.
#[derive(Debug)]
pub struct AppState {
    listen: String,
    upstream: String,
    events: VecDeque<WafEvent>,
    total: u64,
    allowed: u64,
    suspicious: u64,
    blocked: u64,
}

/// The addresses, the kept events with the latest first, and the counts.
pub struct AppView {
    pub listen: Seq<char>,
    pub upstream: Seq<char>,
    pub events: Seq<WafEvent>,
    pub total: u64,
    pub allowed: u64,
    pub suspicious: u64,
    pub blocked: u64,
}

impl View for AppState {
    type V = AppView;

    closed spec fn view(&self) -> AppView {
        AppView {
            listen: self.listen@,
            upstream: self.upstream@,
            events: self.events@,
            total: self.total,
            allowed: self.allowed,
            suspicious: self.suspicious,
            blocked: self.blocked,
        }
    }
}

/// Every event is counted under its action, and all are kept until there are too
/// many.
pub open spec fn adds_up(a: AppView) -> bool {
    &&& a.total == a.allowed + a.suspicious + a.blocked
    &&& a.events.len() == if a.total <= MAX_EVENTS {
        a.total as nat
    } else {
        MAX_EVENTS as nat
    }
}

/// The latest events: the new one in front, and the oldest dropped where there
/// are too many.
pub open spec fn latest(events: Seq<WafEvent>, ev: WafEvent) -> Seq<WafEvent> {
    let all = seq![ev] + events;
    if all.len() > MAX_EVENTS {
        all.drop_last()
    } else {
        all
    }
}

/// With one event more.
pub open spec fn with_event(a: AppView, ev: WafEvent) -> AppView {
    AppView {
        events: latest(a.events, ev),
        total: (a.total + 1) as u64,
        allowed: if ev.action == Action::Allowed {
            (a.allowed + 1) as u64
        } else {
            a.allowed
        },
        suspicious: if ev.action == Action::Suspicious {
            (a.suspicious + 1) as u64
        } else {
            a.suspicious
        },
        blocked: if ev.action == Action::Blocked {
            (a.blocked + 1) as u64
        } else {
            a.blocked
        },
        ..a
    }
}

/// A row of the table of events.
#[derive(Debug)]
pub struct EventRow {
    pub action: Action,
    /// The time, the client, the method, the path, the action, the score, the
    /// status and the detail.
    pub time: String,
    pub client_ip: String,
    pub method: String,
    pub path: String,
    pub label: &'static str,
    pub score: String,
    pub status: String,
    pub detail: String,
}

/// The detail of an event, with its threat in front if there is one.
pub open spec fn shown_detail(ev: WafEvent) -> Seq<char> {
    match ev.threat {
        Some(t) => "["@ + t@ + "] "@ + ev.detail@,
        None => ev.detail@,
    }
}

/// The status of an event, or a dash.
pub open spec fn shown_status(ev: WafEvent) -> Seq<char> {
    match ev.status {
        Some(s) => decimal(s as nat),
        None => "-"@,
    }
}

/// The row is that of the event.
pub open spec fn is_row_of(row: EventRow, ev: WafEvent) -> bool {
    &&& row.action == ev.action
    &&& row.time@ == ev.time@
    &&& row.client_ip@ == ev.client_ip@
    &&& row.method@ == ev.method@
    &&& row.path@ == ev.path@
    &&& row.label@ == action_label(ev.action)
    &&& row.score@ == decimal(ev.score as nat)
    &&& row.status@ == shown_status(ev)
    &&& row.detail@ == shown_detail(ev)
}

/// The row of an event.
pub fn event_row(ev: &WafEvent) -> (r: EventRow)
    ensures
        is_row_of(r, *ev),
{
    let status: String = match ev.status {
        Some(s) => decimal_of(s as u64),
        None => "-".to_owned(),
    };
    let detail: String = match &ev.threat {
        Some(t) => {
            let mut d: String = "[".to_owned();
            d.append(t.as_str());
            d.append("] ");
            d.append(ev.detail.as_str());
            d
        },
        None => ev.detail.clone(),
    };
    EventRow {
        action: ev.action,
        time: ev.time.clone(),
        client_ip: ev.client_ip.clone(),
        method: ev.method.clone(),
        path: ev.path.clone(),
        label: ev.action.label(),
        score: decimal_of(ev.score as u64),
        status,
        detail,
    }
}

/// How many events a table of a height has room for: two lines are its border
/// and one its head.
pub open spec fn capacity(height: u16) -> nat {
    if height >= 3 {
        (height - 3) as nat
    } else {
        0
    }
}

/// The texts of the line of counts.
#[derive(Debug)]
pub struct CountTexts {
    pub total: String,
    pub allowed: String,
    pub suspicious: String,
    pub blocked: String,
}

fn labelled(label: &str, n: u64) -> (r: String)
    ensures
        r@ == label@ + decimal(n as nat),
{
    let mut r: String = label.to_owned();
    r.append(decimal_of(n).as_str());
    r
}

impl AppState {
    #[verifier::type_invariant]
    spec fn sound(self) -> bool {
        adds_up(self@)
    }

    /// No event yet.
    pub fn new(listen: String, upstream: String) -> (r: Self)
        ensures
            r@ == (AppView {
                listen: listen@,
                upstream: upstream@,
                events: Seq::empty(),
                total: 0,
                allowed: 0,
                suspicious: 0,
                blocked: 0,
            }),
    {
        AppState {
            listen,
            upstream,
            events: VecDeque::with_capacity(MAX_EVENTS),
            total: 0,
            allowed: 0,
            suspicious: 0,
            blocked: 0,
        }
    }

    /// Takes in an event.
    pub fn push(&mut self, ev: WafEvent)
        requires
            old(self)@.total < u64::MAX,
        ensures
            final(self)@ == with_event(old(self)@, ev),
            adds_up(final(self)@),
    {
        proof {
            use_type_invariant(&*self);
        }
        let action = ev.action;
        let mut state: AppState = AppState {
            listen: String::new(),
            upstream: String::new(),
            events: VecDeque::new(),
            total: 0,
            allowed: 0,
            suspicious: 0,
            blocked: 0,
        };
        std::mem::swap(&mut state, self);
        let mut events: VecDeque<WafEvent> = state.events;
        let ghost before = events@;
        events.push_front(ev);
        assert(events@ =~= seq![ev] + before);
        if events.len() > MAX_EVENTS {
            events.pop_back();
        }
        assert(events@ =~= latest(before, ev));
        let mut allowed: u64 = state.allowed;
        let mut suspicious: u64 = state.suspicious;
        let mut blocked: u64 = state.blocked;
        match action {
            Action::Allowed => {
                allowed += 1;
            },
            Action::Suspicious => {
                suspicious += 1;
            },
            Action::Blocked => {
                blocked += 1;
            },
        }
        *self =
        AppState {
            listen: state.listen,
            upstream: state.upstream,
            events,
            total: state.total + 1,
            allowed,
            suspicious,
            blocked,
        };
    }

    /// The number of events.
    pub fn total(&self) -> (r: u64)
        ensures
            r == self@.total,
            adds_up(self@),
    {
        proof {
            use_type_invariant(self);
        }
        self.total
    }

    /// The address that is listened on.
    pub fn listen(&self) -> (r: &str)
        ensures
            r@ == self@.listen,
    {
        self.listen.as_str()
    }

    /// The origin.
    pub fn upstream(&self) -> (r: &str)
        ensures
            r@ == self@.upstream,
    {
        self.upstream.as_str()
    }

    /// The texts of the line of counts.
    pub fn counts(&self) -> (r: CountTexts)
        ensures
            r.total@ == decimal(self@.total as nat),
            r.allowed@ == "放行 "@ + decimal(self@.allowed as nat),
            r.suspicious@ == "可疑 "@ + decimal(self@.suspicious as nat),
            r.blocked@ == "拦截 "@ + decimal(self@.blocked as nat),
    {
        CountTexts {
            total: decimal_of(self.total),
            allowed: labelled("放行 ", self.allowed),
            suspicious: labelled("可疑 ", self.suspicious),
            blocked: labelled("拦截 ", self.blocked),
        }
    }

    /// The rows of the events that a table of a height has room for, the latest
    /// first.
    pub fn rows(&self, height: u16) -> (r: Vec<EventRow>)
        ensures
            r@.len() == if self@.events.len() <= capacity(height) {
                self@.events.len()
            } else {
                capacity(height)
            },
            forall|i: int| 0 <= i < r@.len() ==> is_row_of(#[trigger] r@[i], self@.events[i]),
    {
        let room: usize = height.saturating_sub(3) as usize;
        let mut r: Vec<EventRow> = Vec::new();
        let mut i: usize = 0;
        while i < self.events.len() && i < room
            invariant
                i <= self.events@.len(),
                i <= room,
                i == r@.len(),
                self@.events == self.events@,
                forall|j: int| 0 <= j < i ==> is_row_of(#[trigger] r@[j], self@.events[j]),
            decreases self.events@.len() - i,
        {
            r.push(event_row(&self.events[i]));
            i += 1;
        }
        r
    }
}

/// The text of the mode.
pub fn mode_text(enforce: bool) -> (r: &'static str)
    ensures
        r@ == if enforce {
            "ENFORCE(拦截生效)"@
        } else {
            "MONITOR(仅监控)"@
        },
{
    if enforce {
        "ENFORCE(拦截生效)"
    } else {
        "MONITOR(仅监控)"
    }
}

/// The text of the number of banned addresses.
pub fn banned_text(n: usize) -> (r: String)
    ensures
        r@ == "已封禁 IP "@ + decimal(n as nat),
{
    labelled("已封禁 IP ", n as u64)
}

/// A key of the keyboard.
#[derive(Debug, Clone, Copy, PartialEq, Eq, Structural)]
pub enum Key {
    Char(char),
    Esc,
    Other,
}

/// What a key does.
#[derive(Debug, Clone, Copy, PartialEq, Eq, Structural)]
pub enum Command {
    Quit,
    ToggleMode,
    Unban,
    Nothing,
}

/// What a key does: `q`, escape and control-C end the program, `m` goes to the
/// other mode, `u` lifts all bans.
pub open spec fn command_of(key: Key, control: bool) -> Command {
    match key {
        Key::Esc => Command::Quit,
        Key::Char(c) => if c == 'q' || (c == 'c' && control) {
            Command::Quit
        } else if c == 'm' {
            Command::ToggleMode
        } else if c == 'u' {
            Command::Unban
        } else {
            Command::Nothing
        },
        Key::Other => Command::Nothing,
    }
}

/// What a key does.
pub fn command(key: Key, control: bool) -> (r: Command)
    ensures
        r == command_of(key, control),
{
    match key {
        Key::Esc => Command::Quit,
        Key::Char(c) => if c == 'q' || (c == 'c' && control) {
            Command::Quit
        } else if c == 'm' {
            Command::ToggleMode
        } else if c == 'u' {
            Command::Unban
        } else {
            Command::Nothing
        },
        Key::Other => Command::Nothing,
    }
}

/// Every event counts once, under its action; the latest event comes first, the
/// others keep their order, and none is dropped before there are too many.
pub proof fn law_counts_add_up(a: AppView, ev: WafEvent, i: int)
    requires
        adds_up(a),
        a.total < u64::MAX,
        0 <= i < latest(a.events, ev).len(),
    ensures
        adds_up(with_event(a, ev)),
        with_event(a, ev).total == a.total + 1,
        latest(a.events, ev)[i] == if i == 0 {
            ev
        } else {
            a.events[i - 1]
        },
        a.events.len() < MAX_EVENTS ==> latest(a.events, ev).len() == a.events.len() + 1,
{
}

} // verus!
