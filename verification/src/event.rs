//! The record of what was done with a request.

use std::time::{Duration, SystemTime, SystemTimeError};

use vstd::prelude::*;
use vstd::string::*;

use crate::text::digit;

verus! {

/// What was done with a request.
#[derive(Debug, Clone, Copy, PartialEq, Eq, Structural)]
pub enum Action {
    /// It was let through.
    Allowed,
    /// It was let through under suspicion.
    Suspicious,
    /// It was stopped.
    Blocked,
}

/// The label of an action.
pub open spec fn action_label(a: Action) -> Seq<char> {
    match a {
        Action::Allowed => "ALLOW"@,
        Action::Suspicious => "SUSPECT"@,
        Action::Blocked => "BLOCK"@,
    }
}

impl Action {
    /// The label of the action.
    pub fn label(&self) -> (r: &'static str)
        ensures
            r@ == action_label(*self),
    {
        match self {
            Action::Allowed => "ALLOW",
            Action::Suspicious => "SUSPECT",
            Action::Blocked => "BLOCK",
        }
    }
}

/// The record of one request.
#[derive(Debug)]
pub struct WafEvent {
    /// The time of day at which it was handled, in UTC, as HH:MM:SS.
    pub time: String,
    pub client_ip: String,
    pub method: String,
    pub path: String,
    pub action: Action,
    /// The score of the rules, 0 for a request that was let through.
    pub score: u32,
    /// The threat, of a request that was or should have been stopped.
    pub threat: Option<String>,
    /// The status that the origin answered, if it was asked.
    pub status: Option<u16>,
    /// The reasons for the action.
    pub detail: String,
    /// Where it was decided: `rules`, `ngram`, `llm`, `banned-ip`, `bypass`.
    pub tier: String,
}

impl Clone for WafEvent {
    fn clone(&self) -> (r: Self)
        ensures
            r == *self,
    {
        WafEvent {
            time: self.time.clone(),
            client_ip: self.client_ip.clone(),
            method: self.method.clone(),
            path: self.path.clone(),
            action: self.action,
            score: self.score,
            threat: match &self.threat {
                Some(t) => Some(t.clone()),
                None => None,
            },
            status: self.status,
            detail: self.detail.clone(),
            tier: self.tier.clone(),
        }
    }
}

/// Two decimal digits.
pub open spec fn two_digits(n: int) -> Seq<char> {
    seq![digit(n / 10), digit(n % 10)]
}

/// The time of day, as HH:MM:SS, of a number of seconds since midnight of any
/// day.
pub open spec fn clock(secs: nat) -> Seq<char> {
    let s = secs % 86_400;
    two_digits((s / 3600) as int) + seq![':'] + two_digits((s % 3600 / 60) as int) + seq![':']
        + two_digits((s % 60) as int)
}

fn push_two_digits(r: &mut String, n: u64)
    requires
        n < 100,
    ensures
        final(r)@ == old(r)@ + two_digits(n as int),
{
    let a: char = (48 + (n / 10) as u8) as char;
    let b: char = (48 + (n % 10) as u8) as char;
    r.push(a);
    r.push(b);
    assert(r@ =~= old(r)@ + two_digits(n as int));
}

/// The time of day, as HH:MM:SS, of a number of seconds since midnight of any
/// day.
pub fn hms(secs: u64) -> (r: String)
    ensures
        r@ == clock(secs as nat),
{
    let s: u64 = secs % 86_400;
    let mut r: String = String::new();
    push_two_digits(&mut r, s / 3600);
    r.push(':');
    push_two_digits(&mut r, s % 3600 / 60);
    r.push(':');
    push_two_digits(&mut r, s % 60);
    assert(r@ =~= clock(secs as nat));
    r
}

/// A point in time.
#[verifier::external_type_specification]
#[verifier::external_body]
pub struct ExSystemTime(std::time::SystemTime);

/// One point in time lies before another.
#[verifier::external_type_specification]
#[verifier::external_body]
pub struct ExSystemTimeError(std::time::SystemTimeError);

/// `SystemTime::now`: whatever the clock says.
pub assume_specification[ SystemTime::now ]() -> (r: SystemTime)
;

/// `SystemTime::duration_since`: the clock may have been set back, so nothing
/// is claimed of the result.
pub assume_specification[ SystemTime::duration_since ](
    t: &SystemTime,
    earlier: SystemTime,
) -> (r: Result<Duration, SystemTimeError>)
;

/// `Duration::as_secs`: some number of whole seconds.
pub assume_specification[ Duration::as_secs ](d: &Duration) -> (r: u64)
;

/// `SystemTime::UNIX_EPOCH`: the start of 1970.
#[verifier::external_body]
fn epoch() -> SystemTime {
    SystemTime::UNIX_EPOCH
}

/// The time of day, in UTC, as HH:MM:SS. Where the clock stands before 1970 it
/// counts as midnight.
pub fn now_hms() -> (r: String)
    ensures
        exists|secs: u64| r@ == #[trigger] clock(secs as nat),
{
    let secs: u64 = match SystemTime::now().duration_since(epoch()) {
        Ok(d) => d.as_secs(),
        Err(_) => 0,
    };
    hms(secs)
}

/// The time of day is eight characters long and comes again every day.
pub proof fn law_clock_repeats_daily(secs: nat)
    ensures
        clock(secs).len() == 8,
        clock(secs + 86_400) == clock(secs),
{
    assert((secs + 86_400) % 86_400 == secs % 86_400);
}

} // verus!
