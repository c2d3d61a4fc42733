//! The limit on the rate of one client.

use limen::ratelimit::{RateLimiter, TokenBucket, TOKEN};

#[test]
fn allow_within_burst() {
    let rl = RateLimiter::new(10, 5);
    let mut b = rl.bucket(0);
    for _ in 0..5 {
        assert!(rl.allow(&mut b, 0), "桶内应该允许放行");
    }
}

#[test]
fn blocks_over_burst() {
    let rl = RateLimiter::new(10, 5);
    let mut b = rl.bucket(0);
    for _ in 0..5 {
        assert!(rl.allow(&mut b, 0));
    }
    assert!(!rl.allow(&mut b, 0), "超过突发量应被限");
}

#[test]
fn tokens_come_back_with_time() {
    let rl = RateLimiter::new(10, 5);
    let mut b = rl.bucket(0);
    for _ in 0..5 {
        assert!(rl.allow(&mut b, 0));
    }
    assert!(!rl.allow(&mut b, 99_999_999));
    assert!(rl.allow(&mut b, 100_000_000));
    assert!(!rl.allow(&mut b, 100_000_000));
}

#[test]
fn default_burst_is_two_seconds() {
    assert_eq!(RateLimiter::new(10, 0).bucket(7).tokens, 20 * TOKEN);
    assert_eq!(RateLimiter::new(0, 0).bucket(7).tokens, 2 * TOKEN);
    assert_eq!(RateLimiter::new(0, 0).bucket(7).last, 7);
}

#[test]
fn bucket_never_holds_more_than_the_burst() {
    let rl = RateLimiter::new(1000, 3);
    let mut b = rl.bucket(0);
    assert!(rl.allow(&mut b, u64::MAX));
    assert_eq!(b.tokens, 2 * TOKEN);
}

#[test]
fn clock_that_goes_back_stands_still() {
    let rl = RateLimiter::new(1, 1);
    let mut b = TokenBucket { tokens: 0, last: 5_000_000_000 };
    assert!(!rl.allow(&mut b, 4_000_000_000));
    assert_eq!(b.last, 4_000_000_000);
}

#[test]
fn rate_without_tokens_never_refills() {
    let rl = RateLimiter::new(0, 1);
    let mut b = rl.bucket(0);
    assert!(rl.allow(&mut b, 0));
    assert!(!rl.allow(&mut b, u64::MAX));
}
