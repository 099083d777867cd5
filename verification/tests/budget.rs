use selene::budget::{
    decide, mark_foreground, Budget, Decision, Foreground, Observed, Policy, Turn, YieldNow,
};
use selene::num::NonZeroU8;
use selene::time::{Duration, Instant};

fn policy() -> Policy {
    Policy {
        warrant_percent: NonZeroU8::new(10).expect("literal"),
        foreground_idle: Duration::from_millis(5),
        sleep_max: Duration::from_micros(1500),
    }
}

fn observed(background_ms: u64, total_ms: u64) -> Observed {
    Observed {
        background: Duration::from_millis(background_ms),
        total: Duration::from_millis(total_ms),
        chunk: Duration::from_micros(50),
        foreground_idle: None,
    }
}

fn at_micros(micros: u64) -> Instant {
    Instant::after_origin(Duration::from_micros(micros))
}

#[test]
fn under_warrant_never_yields() {
    let decision = decide(&policy(), &observed(9, 100));
    assert_eq!(decision, Decision::Continue);
}

#[test]
fn exactly_at_warrant_still_runs() {
    let decision = decide(&policy(), &observed(10, 100));
    assert_eq!(decision, Decision::Continue);
}

#[test]
fn over_warrant_with_idle_foreground_yields() {
    let decision = decide(&policy(), &observed(11, 100));
    assert_eq!(decision, Decision::Yield);
}

#[test]
fn over_warrant_with_active_foreground_sleeps_the_chunk() {
    let mut over = observed(50, 100);
    over.foreground_idle = Some(Duration::from_millis(1));
    let decision = decide(&policy(), &over);
    assert_eq!(decision, Decision::Sleep(Duration::from_micros(50)));
}

#[test]
fn a_long_chunk_sleeps_no_longer_than_sleep_max() {
    let mut over = observed(50, 100);
    over.chunk = Duration::from_millis(40);
    over.foreground_idle = Some(Duration::zero());
    let decision = decide(&policy(), &over);
    assert_eq!(decision, Decision::Sleep(Duration::from_micros(1500)));
}

#[test]
fn stale_foreground_yields_instead_of_sleeping() {
    let mut over = observed(50, 100);
    over.foreground_idle = Some(Duration::from_millis(50));
    let decision = decide(&policy(), &over);
    assert_eq!(decision, Decision::Yield);
}

#[test]
fn foreground_seen_exactly_at_the_bound_is_no_longer_recent() {
    let mut over = observed(50, 100);
    over.foreground_idle = Some(Duration::from_millis(5));
    assert_eq!(decide(&policy(), &over), Decision::Yield);
    over.foreground_idle = Some(Duration::new(0, 4_999_999));
    assert_eq!(decide(&policy(), &over), Decision::Sleep(Duration::from_micros(50)));
}

#[test]
fn an_empty_chunk_yields_rather_than_sleeping_for_nothing() {
    let mut over = observed(50, 100);
    over.chunk = Duration::zero();
    over.foreground_idle = Some(Duration::zero());
    assert_eq!(decide(&policy(), &over), Decision::Yield);
}

#[test]
fn a_full_warrant_never_waits() {
    let mut full = policy();
    full.warrant_percent = NonZeroU8::new(100).expect("literal");
    assert_eq!(decide(&full, &observed(100, 100)), Decision::Continue);
}

#[test]
fn the_longest_spans_do_not_overflow_the_warrant() {
    let longest = Duration::new(u64::MAX, 999_999_999);
    let mut greedy = policy();
    greedy.warrant_percent = NonZeroU8::new(255).expect("literal");
    let seen = Observed {
        background: longest,
        total: longest,
        chunk: longest,
        foreground_idle: Some(longest),
    };
    assert_eq!(decide(&greedy, &seen), Decision::Continue);
    assert_eq!(decide(&policy(), &seen), Decision::Yield);
}

#[test]
fn waiting_restores_the_warrant() {
    assert_eq!(decide(&policy(), &observed(11, 100)), Decision::Yield);
    assert_eq!(decide(&policy(), &observed(11, 109)), Decision::Yield);
    assert_eq!(decide(&policy(), &observed(11, 110)), Decision::Continue);
}

#[test]
fn a_budget_accounts_for_every_chunk_and_only_for_chunks() {
    let mut budget = Budget::start(policy(), at_micros(1000));
    let foreground = Foreground::new();
    assert_eq!(budget.background(), Duration::zero());

    // A chunk of 200 microseconds, right at the start: all of the time so far
    // went into background work.
    assert_eq!(budget.tick(&foreground, at_micros(1200)), Decision::Yield);
    assert_eq!(budget.background(), Duration::from_micros(200));

    // The wait is not accounted for.
    budget.resume(at_micros(5000));
    assert_eq!(budget.background(), Duration::from_micros(200));

    // 200 + 200 of 4200 microseconds is under ten percent.
    assert_eq!(budget.tick(&foreground, at_micros(5200)), Decision::Continue);
    assert_eq!(budget.background(), Duration::from_micros(400));
}

#[test]
fn a_tick_after_foreground_work_sleeps_the_chunk() {
    let mut budget = Budget::start(policy(), at_micros(0));
    let mut foreground = Foreground::new();
    mark_foreground(&mut foreground, at_micros(100));
    assert_eq!(
        budget.tick(&foreground, at_micros(300)),
        Decision::Sleep(Duration::from_micros(300))
    );
    budget.resume(at_micros(600));
    // By now the foreground work is more than five milliseconds old.
    assert_eq!(budget.tick(&foreground, at_micros(5_101)), Decision::Yield);
    assert_eq!(budget.background(), Duration::from_micros(300 + 4_501));
}

#[test]
fn a_clock_that_stands_still_accounts_for_nothing() {
    let mut budget = Budget::start(policy(), at_micros(700));
    assert_eq!(budget.tick(&Foreground::new(), at_micros(700)), Decision::Continue);
    assert_eq!(budget.background(), Duration::zero());
}

#[test]
fn yielding_is_pending_once() {
    let mut yielding = YieldNow::new();
    assert_eq!(yielding.poll(), Turn::Pending);
    assert_eq!(yielding.poll(), Turn::Ready);
    assert_eq!(yielding.poll(), Turn::Ready);
}
