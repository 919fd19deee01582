//! The admission limiter.

use chat_core::clock::SECOND;
use chat_core::ratelimit::RateLimiter;

#[test]
fn per_source_budget_is_enforced() {
    let mut rl = RateLimiter::new(2, 100, 60 * SECOND);
    assert!(rl.allow("a"));
    assert!(rl.allow("a"));
    assert!(!rl.allow("a"));
    assert!(rl.allow("b"));
}

#[test]
fn global_budget_is_enforced() {
    let mut rl = RateLimiter::new(10, 2, 60 * SECOND);
    assert!(rl.allow("a"));
    assert!(rl.allow("b"));
    assert!(!rl.allow("c"));
}

#[test]
fn old_attempts_fall_out_of_the_window() {
    let mut rl = RateLimiter::new(2, 3, 10);
    assert!(rl.allow_at("a", 100));
    assert!(rl.allow_at("a", 105));
    assert!(!rl.allow_at("a", 109));
    // The attempt at 100 is ten ticks old: out.
    assert!(rl.allow_at("a", 110));
    assert!(!rl.allow_at("a", 114));
    assert!(rl.allow_at("b", 114));
    assert!(!rl.allow_at("c", 114));
    assert!(rl.allow_at("c", 115));
}

#[test]
fn a_refused_attempt_costs_nothing() {
    let mut rl = RateLimiter::new(1, 2, 10);
    assert!(rl.allow_at("a", 0));
    for t in 1..9 {
        assert!(!rl.allow_at("a", t));
    }
    assert!(rl.allow_at("b", 9));
    assert!(rl.allow_at("a", 10));
}

#[test]
fn sweeping_changes_no_verdict() {
    let mut rl = RateLimiter::new(1, 10, 10);
    assert!(rl.allow_at("a", 0));
    assert!(rl.allow_at("b", 5));
    rl.sweep_at(10);
    assert!(!rl.allow_at("b", 10));
    assert!(rl.allow_at("a", 10));
    rl.sweep();
}

#[test]
fn a_swept_limiter_answers_like_one_that_is_not() {
    let mut swept = RateLimiter::new(2, 5, 20);
    let mut plain = RateLimiter::new(2, 5, 20);
    let mut seed = 99u64;
    let mut now = 0u64;
    for step in 0..2_000 {
        seed = seed.wrapping_mul(6364136223846793005).wrapping_add(1442695040888963407);
        now += (seed >> 33) % 6;
        let who = ["a", "b", "c"][((seed >> 45) % 3) as usize];
        assert_eq!(swept.allow_at(who, now), plain.allow_at(who, now), "step {step}");
        if step % 5 == 0 {
            swept.sweep_at(now);
        }
    }
}

#[test]
fn the_default_policy_takes_five_a_minute_from_one_source_and_thirty_in_all() {
    let mut rl = RateLimiter::default_policy();
    for _ in 0..5 {
        assert!(rl.allow_at("a", 0));
    }
    assert!(!rl.allow_at("a", 60 * SECOND - 1));
    for s in ["b", "c", "d", "f", "g"] {
        for _ in 0..5 {
            assert!(rl.allow_at(s, 1));
        }
    }
    assert!(!rl.allow_at("e", 2));
    assert!(rl.allow_at("e", 60 * SECOND));
}

#[test]
fn the_budgets_hold_over_any_history() {
    let (per_source, global, window) = (3usize, 7usize, 50u64);
    let mut rl = RateLimiter::new(per_source, global, window);
    let mut through: Vec<(&str, u64)> = Vec::new();
    let (mut now, mut seed) = (0u64, 12345u64);
    for step in 0..5_000 {
        seed = seed.wrapping_mul(6364136223846793005).wrapping_add(1442695040888963407);
        now += (seed >> 33) % 9;
        let who = ["a", "b", "c", "d"][((seed >> 45) % 4) as usize];
        let counts = |t: u64| now - t < window;
        let all = through.iter().filter(|p| counts(p.1)).count();
        let mine = through.iter().filter(|p| p.0 == who && counts(p.1)).count();
        let expected = mine < per_source && all < global;
        assert_eq!(rl.allow_at(who, now), expected, "step {step}");
        if expected {
            through.push((who, now));
        }
        if step % 17 == 0 {
            rl.sweep_at(now);
        }
    }
    assert!(through.len() > 100);
}
