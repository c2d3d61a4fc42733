//! The limit on the rate of one client: a bucket of tokens that fills with time
//! and from which every request takes one.
//!
//! Tokens are counted in billionths and time in nanoseconds, so that a bucket
//! fills by the rate times the time that has passed, without rounding.

use vstd::prelude::*;

verus! {

/// A whole token, in billionths.
pub const TOKEN: u64 = 1_000_000_000;

/// The tokens of one client.
#[derive(Debug, Clone, Copy)]
pub struct TokenBucket {
    /// What is in the bucket, in billionths of a token.
    pub tokens: u64,
    /// When it was last looked at, in nanoseconds.
    pub last: u64,
}

/// The limit.
#[derive(Debug, Clone, Copy)]
pub struct RateLimiter {
    rps: u32,
    burst: u32,
}

/// The tokens that come every second, and the tokens that a bucket holds.
pub struct LimitView {
    pub rps: u32,
    pub burst: u32,
}

impl View for RateLimiter {
    type V = LimitView;

    closed spec fn view(&self) -> LimitView {
        LimitView { rps: self.rps, burst: self.burst }
    }
}

/// The tokens that a bucket holds where nothing is said of it: those of two
/// seconds.
pub open spec fn default_burst(rps: u32) -> int {
    if rps == 0 {
        2
    } else {
        rps * 2
    }
}

/// A full bucket, in billionths of a token.
pub open spec fn full(l: LimitView) -> int {
    l.burst * TOKEN
}

/// What passes between two times; a clock that goes back stands still.
pub open spec fn passed(from: u64, to: u64) -> int {
    if to >= from {
        to - from
    } else {
        0
    }
}

/// What is in a bucket after some time: what came since then is in it too, as
/// far as it holds it.
pub open spec fn refilled(l: LimitView, b: TokenBucket, now: u64) -> int {
    let t = b.tokens + passed(b.last, now) * l.rps;
    if t <= full(l) {
        t
    } else {
        full(l)
    }
}

/// A request is let through: there is a token for it.
pub open spec fn lets_through(l: LimitView, b: TokenBucket, now: u64) -> bool {
    refilled(l, b, now) >= TOKEN
}

/// The bucket after a request.
pub open spec fn after_request(l: LimitView, b: TokenBucket, now: u64) -> TokenBucket {
    TokenBucket {
        tokens: (if lets_through(l, b, now) {
            refilled(l, b, now) - TOKEN
        } else {
            refilled(l, b, now)
        }) as u64,
        last: now,
    }
}

impl RateLimiter {
    #[verifier::type_invariant]
    spec fn holds_one(self) -> bool {
        self.burst > 0
    }

    /// A limit of `rps` requests a second and of `burst` at once, or of those of
    /// two seconds where `burst` is 0.
    pub fn new(rps: u32, burst: u32) -> (r: Self)
        requires
            burst == 0 ==> default_burst(rps) <= u32::MAX,
        ensures
            r@.rps == rps,
            r@.burst == if burst == 0 {
                default_burst(rps)
            } else {
                burst as int
            },
    {
        let burst: u32 = if burst == 0 {
            let base: u32 = if rps == 0 {
                1
            } else {
                rps
            };
            base * 2
        } else {
            burst
        };
        RateLimiter { rps, burst }
    }

    /// The bucket of a client that is met for the first time.
    pub fn bucket(&self, now: u64) -> (r: TokenBucket)
        ensures
            r.tokens == full(self@),
            r.last == now,
            self@.burst > 0,
    {
        proof {
            use_type_invariant(self);
            lemma_full_fits(self@);
        }
        TokenBucket { tokens: self.burst as u64 * TOKEN, last: now }
    }

    /// Is a request let through? If so it takes a token.
    pub fn allow(&self, bucket: &mut TokenBucket, now: u64) -> (r: bool)
        ensures
            r == lets_through(self@, *old(bucket), now),
            *final(bucket) == after_request(self@, *old(bucket), now),
    {
        proof {
            use_type_invariant(self);
            lemma_full_fits(self@);
        }
        let elapsed: u64 = now.saturating_sub(bucket.last);
        proof {
            lemma_refill_fits(elapsed, self.rps);
        }
        let t: u128 = bucket.tokens as u128 + elapsed as u128 * self.rps as u128;
        let limit: u64 = self.burst as u64 * TOKEN;
        let tokens: u64 = if t <= limit as u128 {
            t as u64
        } else {
            limit
        };
        assert(tokens == refilled(self@, *bucket, now));
        if tokens >= TOKEN {
            *bucket = TokenBucket { tokens: tokens - TOKEN, last: now };
            true
        } else {
            *bucket = TokenBucket { tokens, last: now };
            false
        }
    }
}

proof fn lemma_full_fits(l: LimitView)
    ensures
        0 <= full(l) <= u64::MAX,
        full(l) == l.burst as int * 1_000_000_000,
{
    assert(l.burst as int * 1_000_000_000 <= 0xffff_ffff * 1_000_000_000);
}

proof fn lemma_refill_fits(elapsed: u64, rps: u32)
    ensures
        0 <= elapsed * rps <= u64::MAX * u32::MAX,
{
    assert(0 <= elapsed * rps <= u64::MAX * u32::MAX) by (nonlinear_arith)
        requires
            0 <= elapsed <= u64::MAX,
            0 <= rps <= u32::MAX,
    ;
}

/// The number of requests that are let through, of requests at some times.
pub open spec fn let_through(l: LimitView, b: TokenBucket, times: Seq<u64>) -> nat
    decreases times.len(),
{
    if times.len() == 0 {
        0
    } else {
        let_through(l, b, times.drop_last()) + (if lets_through(
            l,
            after_requests(l, b, times.drop_last()),
            times.last(),
        ) {
            1nat
        } else {
            0nat
        })
    }
}

/// The bucket after requests at some times.
pub open spec fn after_requests(l: LimitView, b: TokenBucket, times: Seq<u64>) -> TokenBucket
    decreases times.len(),
{
    if times.len() == 0 {
        b
    } else {
        after_request(l, after_requests(l, b, times.drop_last()), times.last())
    }
}

/// The times come one after the other, and none before the bucket was last
/// looked at.
pub open spec fn in_order(from: u64, times: Seq<u64>) -> bool {
    forall|i: int|
        0 <= i < times.len() ==> (#[trigger] times[i]) >= if i == 0 {
            from
        } else {
            times[i - 1]
        }
}

proof fn lemma_after_requests(l: LimitView, b: TokenBucket, times: Seq<u64>)
    requires
        b.tokens <= full(l),
        in_order(b.last, times),
    ensures
        after_requests(l, b, times).tokens <= full(l),
        after_requests(l, b, times).last == if times.len() == 0 {
            b.last
        } else {
            times.last()
        },
        after_requests(l, b, times).last >= b.last,
        let_through(l, b, times) * TOKEN + after_requests(l, b, times).tokens <= b.tokens + (
        after_requests(l, b, times).last - b.last) * l.rps,
    decreases times.len(),
{
    lemma_full_fits(l);
    if times.len() > 0 {
        let front = times.drop_last();
        assert forall|i: int| 0 <= i < front.len() implies (#[trigger] front[i]) >= if i == 0 {
            b.last
        } else {
            front[i - 1]
        } by {
            assert(times[i] == front[i]);
        }
        lemma_after_requests(l, b, front);
        let m = after_requests(l, b, front);
        let now = times.last();
        assert(times[times.len() - 1] >= m.last);
        let r = refilled(l, m, now);
        assert((now - b.last) * l.rps == (m.last - b.last) * l.rps + (now - m.last) * l.rps)
            by (nonlinear_arith);
        assert(0 <= (now - m.last) * l.rps) by (nonlinear_arith)
            requires
                now >= m.last,
                0 <= l.rps,
        ;
        assert(0 <= r <= full(l));
    }
}

/// However requests come, no more are let through than a bucket holds and than
/// come in the meantime.
pub proof fn law_rate_is_limited(l: LimitView, b: TokenBucket, times: Seq<u64>)
    requires
        b.tokens <= full(l),
        in_order(b.last, times),
        times.len() > 0,
    ensures
        let_through(l, b, times) * TOKEN <= full(l) + (times.last() - b.last) * l.rps,
{
    lemma_after_requests(l, b, times);
}

/// A bucket never holds more than it can.
pub proof fn law_bucket_never_overflows(l: LimitView, b: TokenBucket, now: u64)
    requires
        b.tokens <= full(l),
    ensures
        after_request(l, b, now).tokens <= full(l),
        after_request(l, b, now).last == now,
{
    lemma_full_fits(l);
    assert(0 <= passed(b.last, now) * l.rps) by (nonlinear_arith)
        requires
            passed(b.last, now) >= 0,
            0 <= l.rps,
    ;
}

/// The same time, several times.
pub open spec fn all_at(now: u64, n: nat) -> Seq<u64> {
    Seq::new(n, |i: int| now)
}

/// Of requests that come all at once, a full bucket lets through just as many as
/// it holds tokens.
pub proof fn law_burst_is_let_through(l: LimitView, now: u64, n: nat)
    ensures
        ({
            let b = TokenBucket { tokens: full(l) as u64, last: now };
            &&& let_through(l, b, all_at(now, n)) == if n <= l.burst {
                n
            } else {
                l.burst as nat
            }
            &&& after_requests(l, b, all_at(now, n)).tokens == if n <= l.burst {
                full(l) - n * TOKEN
            } else {
                0
            }
            &&& after_requests(l, b, all_at(now, n)).last == now
        }),
    decreases n,
{
    lemma_full_fits(l);
    let b = TokenBucket { tokens: full(l) as u64, last: now };
    if n > 0 {
        law_burst_is_let_through(l, now, (n - 1) as nat);
        assert(all_at(now, n).drop_last() =~= all_at(now, (n - 1) as nat));
        let m = after_requests(l, b, all_at(now, (n - 1) as nat));
        assert(passed(m.last, now) * l.rps == 0) by (nonlinear_arith)
            requires
                passed(m.last, now) == 0,
        ;
        assert(refilled(l, m, now) == m.tokens);
    }
}

/// A client that leaves enough time for a token between two requests is never
/// refused.
pub proof fn law_steady_rate_is_let_through(l: LimitView, b: TokenBucket, now: u64)
    requires
        l.burst > 0,
        passed(b.last, now) * l.rps >= TOKEN,
    ensures
        lets_through(l, b, now),
{
    lemma_full_fits(l);
}

} // verus!
