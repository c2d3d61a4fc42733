//! What the rate limit, the clock, the records and the dashboard are for.

use vstd::prelude::*;
use vstd::string::*;

use crate::cli::{command_in, CommandView};
use crate::config::{is_default, Config};
use crate::engine::verdict::RequestSummary;
use crate::event::{action_label, clock, Action, WafEvent};
use crate::json::JsonView;
use crate::laws::llm::start;
use crate::ratelimit::{after_request, default_burst, lets_through, LimitView, TokenBucket};
use crate::sink::{gap_record, is_gap, level_of, Level};
use crate::text::{at_most, decimal};
use crate::tui::{
    capacity, command_of, is_row_of, latest, with_event, AppView, Command, EventRow, Key,
};

verus! {

/// A bucket fills by the rate for as long as passed, up to what it holds, and a
/// request is let through just if there is a whole token, which it takes.
pub proof fn law_tokens_come_with_time(l: LimitView, b: TokenBucket, passed: nat)
    requires
        b.last + passed <= u64::MAX,
    ensures
        ({
            let now = (b.last + passed) as u64;
            let came = b.tokens + passed * l.rps;
            let room = l.burst * 1_000_000_000;
            let there = if came <= room {
                came
            } else {
                room
            };
            &&& lets_through(l, b, now) <==> there >= 1_000_000_000
            &&& there >= 1_000_000_000 ==> after_request(l, b, now).tokens == there - 1_000_000_000
            &&& there < 1_000_000_000 ==> after_request(l, b, now).tokens == there
            &&& after_request(l, b, now).last == now
        }),
{
    assert(0 <= passed * l.rps) by (nonlinear_arith)
        requires
            0 <= l.rps,
            0 <= passed,
    ;
    assert(l.burst * 1_000_000_000 <= u64::MAX);
}

/// A clock that goes back adds no token.
pub proof fn law_no_tokens_from_a_clock_set_back(l: LimitView, b: TokenBucket, now: u64)
    requires
        now <= b.last,
    ensures
        ({
            let room = l.burst * 1_000_000_000;
            let there = if b.tokens <= room {
                b.tokens as int
            } else {
                room
            };
            &&& lets_through(l, b, now) <==> there >= 1_000_000_000
            &&& there >= 1_000_000_000 ==> after_request(l, b, now).tokens == there - 1_000_000_000
            &&& there < 1_000_000_000 ==> after_request(l, b, now).tokens == there
            &&& after_request(l, b, now).last == now
        }),
{
    assert(0 * l.rps == 0) by (nonlinear_arith);
}

/// Where nothing is said of it a bucket holds the tokens of two seconds, and two
/// at least.
pub proof fn law_burst_of_two_seconds(rps: u32)
    ensures
        rps > 0 ==> default_burst(rps) == rps + rps,
        default_burst(0) == 2,
{
}

/// The decimal digit with a value below ten.
pub open spec fn figure(n: int) -> char {
    (0x30 + n) as char
}

/// The time of day tells hours, minutes and seconds, on whatever day.
pub proof fn law_clock_tells_the_time(days: nat, h: int, m: int, s: int)
    requires
        0 <= h < 24,
        0 <= m < 60,
        0 <= s < 60,
    ensures
        clock((days * 86_400 + h * 3600 + m * 60 + s) as nat) == seq![
            figure(h / 10),
            figure(h % 10),
            ':',
            figure(m / 10),
            figure(m % 10),
            ':',
            figure(s / 10),
            figure(s % 10),
        ],
{
    let t = h * 3600 + m * 60 + s;
    let secs = (days * 86_400 + t) as nat;
    assert(0 <= t < 86_400);
    assert(secs % 86_400 == t);
    assert(t / 3600 == h);
    assert(t % 3600 == m * 60 + s);
    assert((m * 60 + s) / 60 == m);
    assert(t % 60 == s);
    assert(clock(secs) =~= seq![
        figure(h / 10),
        figure(h % 10),
        ':',
        figure(m / 10),
        figure(m % 10),
        ':',
        figure(s / 10),
        figure(s % 10),
    ]);
}

/// Each action has its own label and its own loudness.
pub proof fn law_actions_are_told_apart(a: Action, b: Action)
    ensures
        action_label(Action::Allowed) == "ALLOW"@,
        action_label(Action::Suspicious) == "SUSPECT"@,
        action_label(Action::Blocked) == "BLOCK"@,
        action_label(a) == action_label(b) <==> a == b,
        level_of(a) == Level::Warn <==> a == Action::Blocked,
        level_of(a) == Level::Info <==> a == Action::Suspicious,
        level_of(a) == Level::Debug <==> a == Action::Allowed,
{
    reveal_strlit("ALLOW");
    reveal_strlit("SUSPECT");
    reveal_strlit("BLOCK");
    assert("ALLOW"@[0] == 'A' && "BLOCK"@[0] == 'B' && "SUSPECT"@[0] == 'S');
}

/// A request is kept for the search for new rules just if it was not let through
/// unsuspected and neither the rules, nor a ban, nor the rate limit decided it.
pub proof fn law_gaps_are_what_the_rules_missed(ev: WafEvent)
    ensures
        is_gap(ev) <==> (ev.action == Action::Suspicious || ev.action == Action::Blocked)
            && ev.tier@ != "rules"@ && ev.tier@ != "banned-ip"@ && ev.tier@ != "ratelimit"@,
{
}

/// What is kept of it is all that the rules could have seen but for the headers,
/// of the body the first 512 characters, and what was found.
pub proof fn law_gap_record_holds_the_request(ev: WafEvent, s: RequestSummary)
    ensures
        gap_record(ev, s) == JsonView::Object(kept_members(ev, s)),
{
    assert(at_most(s.body@, 512) =~= start(s.body@, 512));
    assert(gap_record(ev, s)->Object_0 =~= kept_members(ev, s));
}

/// What is kept of a request, name by name.
pub open spec fn kept_members(ev: WafEvent, s: RequestSummary) -> Seq<(Seq<char>, JsonView)> {
    seq![
        ("time"@, JsonView::Text(ev.time@)),
        ("client_ip"@, JsonView::Text(ev.client_ip@)),
        ("method"@, JsonView::Text(ev.method@)),
        ("path"@, JsonView::Text(ev.path@)),
        ("query"@, JsonView::Text(s.query@)),
        ("body"@, JsonView::Text(start(s.body@, 512))),
        ("rule_score"@, JsonView::Number(decimal(ev.score as nat))),
        ("tier"@, JsonView::Text(ev.tier@)),
        (
            "action"@,
            JsonView::Text(
                if ev.action == Action::Blocked {
                    "BLOCK"@
                } else if ev.action == Action::Suspicious {
                    "SUSPECT"@
                } else {
                    "ALLOW"@
                },
            ),
        ),
        (
            "threat"@,
            if ev.threat is Some {
                JsonView::Text(ev.threat->0@)
            } else {
                JsonView::Null
            },
        ),
        ("detail"@, JsonView::Text(ev.detail@)),
    ]
}

/// The dashboard shows the new event first and the others after it, the latest
/// 500 at most, and counts it once, under its action; the addresses stay.
pub proof fn law_dashboard_takes_in_an_event(a: AppView, ev: WafEvent)
    requires
        a.total < u64::MAX,
        a.allowed < u64::MAX,
        a.suspicious < u64::MAX,
        a.blocked < u64::MAX,
    ensures
        ({
            let b = with_event(a, ev);
            &&& a.events.len() < 500 ==> b.events == seq![ev] + a.events
            &&& a.events.len() >= 500 ==> b.events == seq![ev] + a.events.subrange(
                0,
                a.events.len() - 1,
            )
            &&& b.total == a.total + 1
            &&& ev.action == Action::Allowed ==> b.allowed == a.allowed + 1 && b.suspicious
                == a.suspicious && b.blocked == a.blocked
            &&& ev.action == Action::Suspicious ==> b.suspicious == a.suspicious + 1 && b.allowed
                == a.allowed && b.blocked == a.blocked
            &&& ev.action == Action::Blocked ==> b.blocked == a.blocked + 1 && b.allowed
                == a.allowed && b.suspicious == a.suspicious
            &&& b.listen == a.listen && b.upstream == a.upstream
        }),
{
    if a.events.len() >= 500 {
        assert(latest(a.events, ev) =~= seq![ev] + a.events.subrange(0, a.events.len() - 1));
    }
}

/// A table of a height shows as many events as it has lines but for its border
/// and its head.
pub proof fn law_table_has_room(height: u16)
    ensures
        height <= 3 ==> capacity(height) == 0,
        height > 3 ==> capacity(height) + 3 == height,
{
}

/// A row shows all of its event, with its threat in front of the details and a
/// dash where the origin was not asked.
pub proof fn law_row_shows_the_event(row: EventRow, ev: WafEvent)
    requires
        is_row_of(row, ev),
    ensures
        row.action == ev.action,
        row.time@ == ev.time@,
        row.client_ip@ == ev.client_ip@,
        row.method@ == ev.method@,
        row.path@ == ev.path@,
        row.label@ == action_label(ev.action),
        row.score@ == decimal(ev.score as nat),
        ev.status is None ==> row.status@ == seq!['-'],
        ev.status matches Some(n) ==> row.status@ == decimal(n as nat),
        ev.threat is None ==> row.detail@ == ev.detail@,
        ev.threat matches Some(t) ==> row.detail@ == seq!['['] + t@ + seq![']', ' '] + ev.detail@,
{
    reveal_strlit("-");
    reveal_strlit("[");
    reveal_strlit("] ");
    assert("-"@ =~= seq!['-']);
    assert("["@ =~= seq!['[']);
    assert("] "@ =~= seq![']', ' ']);
}

/// Just `q`, escape and control-C end the program, just `m` turns the mode over,
/// and just `u` lifts the bans.
pub proof fn law_keys(key: Key, control: bool)
    ensures
        command_of(key, control) == Command::Quit <==> key == Key::Esc || key == Key::Char('q') || (
        key == Key::Char('c') && control),
        command_of(key, control) == Command::ToggleMode <==> key == Key::Char('m'),
        command_of(key, control) == Command::Unban <==> key == Key::Char('u'),
{
}

/// The commands: the first word decides, and what is none is the name of the
/// configuration.
pub proof fn law_commands(rest: Seq<Seq<char>>, word: Seq<char>)
    ensures
        command_in(Seq::empty()) == CommandView::Run("config.toml"@),
        command_in(seq!["eval"@] + rest) == CommandView::Eval(rest),
        command_in(seq!["learn"@] + rest) == CommandView::Learn(rest),
        command_in(seq!["--help"@] + rest) == CommandView::Help,
        command_in(seq!["get"@, "health"@]) == CommandView::GetHealth,
        command_in(seq!["get"@, "bypass"@]) == CommandView::GetBypass,
        command_in(seq!["get"@, "blacklist"@]) == CommandView::GetBlacklist,
        command_in(seq!["set"@, "bypass"@, "add"@, word]) == CommandView::AddBypass(word),
        command_in(seq!["set"@, "bypass"@, "remove"@, word]) == CommandView::RemoveBypass(word),
        word != "eval"@ && word != "learn"@ && word != "--help"@ && word != "get"@ && word != "set"@
            ==> command_in(seq![word] + rest) == CommandView::Run(word),
{
    reveal_strlit("eval");
    reveal_strlit("learn");
    reveal_strlit("--help");
    reveal_strlit("get");
    reveal_strlit("set");
    reveal_strlit("health");
    reveal_strlit("bypass");
    reveal_strlit("blacklist");
    reveal_strlit("add");
    reveal_strlit("remove");
    assert("get"@[0] == 'g' && "set"@[0] == 's' && "get"@.len() == 3 && "set"@.len() == 3);
    assert("eval"@.len() == 4 && "learn"@.len() == 5 && "--help"@.len() == 6);
    assert("health"@[0] == 'h' && "bypass"@[0] == 'b' && "blacklist"@.len() == 9);
    assert("health"@.len() == 6 && "bypass"@.len() == 6);
    assert("add"@.len() == 3 && "remove"@.len() == 6);
    assert((seq!["eval"@] + rest).skip(1) =~= rest);
    assert((seq!["learn"@] + rest).skip(1) =~= rest);
    assert((seq!["eval"@] + rest)[0] == "eval"@);
    assert((seq!["learn"@] + rest)[0] == "learn"@);
    assert((seq!["--help"@] + rest)[0] == "--help"@);
    assert((seq![word] + rest)[0] == word);
}

/// A `get` or `set` that does not exist is none of the commands.
pub proof fn law_unknown_commands(args: Seq<Seq<char>>)
    requires
        args.len() > 0,
        args[0] == "get"@ || args[0] == "set"@,
        !(args == seq!["get"@, "health"@]),
        !(args == seq!["get"@, "bypass"@]),
        !(args == seq!["get"@, "blacklist"@]),
        !(args.len() == 4 && args[0] == "set"@ && args[1] == "bypass"@ && (args[2] == "add"@
            || args[2] == "remove"@)),
    ensures
        command_in(args) == CommandView::Unknown,
{
    reveal_strlit("eval");
    reveal_strlit("learn");
    reveal_strlit("--help");
    reveal_strlit("get");
    reveal_strlit("set");
    assert("get"@[0] == 'g' && "set"@[0] == 's' && "get"@.len() == 3 && "set"@.len() == 3);
    assert("eval"@.len() == 4 && "learn"@.len() == 5 && "--help"@.len() == 6);
    if args.len() == 2 && args[0] == "get"@ {
        assert(args =~= seq!["get"@, args[1]]);
    }
}

/// Where nothing is said of them requests are blocked from a score of 100 and
/// suspicious from one of 40, every category is used, no proxy is trusted, no
/// model is asked, and bodies of up to ten mebibytes are accepted.
pub proof fn law_defaults(c: Config)
    requires
        is_default(c),
    ensures
        c.detection.block_threshold == 100,
        c.detection.suspicious_threshold == 40,
        c.detection.disabled_categories@.len() == 0,
        c.detection.bypass_paths@.len() == 0,
        c.detection.ngram_model is None,
        c.detection.gap_log is None,
        c.detection.upstream_timeout_secs == 30,
        c.detection.max_body_bytes == 10 * 1024 * 1024,
        c.trusted_proxies@.len() == 0,
        c.log_file@ == "limen.log"@,
        c.db_path@ == "limen.db"@,
        c.real_ip_header@ == "X-Forwarded-For"@,
        !c.llm.enabled,
        c.llm.provider@ == "openai_compat"@,
        c.llm.model@ == "gpt-4o-mini"@,
        c.llm.base_url@.len() == 0,
        c.llm.api_key_env@ == "OPENAI_API_KEY"@,
        c.llm.fail_mode@ != "fail_close"@,
        c.llm.timeout_ms == 2000,
        !c.headless,
        c.listen@ == "127.0.0.1:8080"@,
        c.upstream@ == "http://127.0.0.1:8000"@,
{
    reveal_strlit("fail_open");
    reveal_strlit("fail_close");
    assert("fail_open"@.len() == 9 && "fail_close"@.len() == 10);
}

} // verus!
