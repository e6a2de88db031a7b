use std::time::Duration;
use wowctl::circuit_breaker::CircuitBreaker;

#[test]
fn starts_closed_and_allows_requests() {
    let mut cb = CircuitBreaker::new();
    assert!(cb.allow_request());
}

#[test]
fn stays_closed_below_threshold() {
    let mut cb = CircuitBreaker::with_config(3, 30000);
    cb.record_failure();
    cb.record_failure();
    assert!(cb.allow_request());
}

#[test]
fn opens_after_threshold_reached() {
    let mut cb = CircuitBreaker::with_config(3, 30000);
    cb.record_failure();
    cb.record_failure();
    cb.record_failure();
    assert!(!cb.allow_request());
}

#[test]
fn success_resets_failure_count() {
    let mut cb = CircuitBreaker::with_config(3, 30000);
    cb.record_failure();
    cb.record_failure();
    cb.record_success();
    cb.record_failure();
    cb.record_failure();
    assert!(cb.allow_request());
}

#[test]
fn multiple_successes_after_failures_keep_circuit_closed() {
    let mut cb = CircuitBreaker::with_config(3, 30000);
    cb.record_failure();
    cb.record_failure();
    cb.record_success();
    cb.record_success();
    cb.record_success();
    assert!(cb.allow_request());
}

#[test]
fn open_circuit_blocks_multiple_checks() {
    let mut cb = CircuitBreaker::with_config(2, 60000);
    cb.record_failure();
    cb.record_failure();
    assert!(!cb.allow_request());
    assert!(!cb.allow_request());
    assert!(!cb.allow_request());
}

#[test]
fn threshold_of_one_opens_immediately() {
    let mut cb = CircuitBreaker::with_config(1, 30000);
    cb.record_failure();
    assert!(!cb.allow_request());
}

#[test]
fn zero_cooldown_goes_half_open_at_once() {
    let mut cb = CircuitBreaker::with_config(2, 0);
    cb.record_failure();
    cb.record_failure();
    assert!(cb.allow_request()); // HalfOpen
    cb.record_success();
    assert!(cb.allow_request()); // Closed
    assert_eq!(cb.consecutive_failures(), 0);
}

#[test]
fn zero_cooldown_half_open_failure_reopens() {
    let mut cb = CircuitBreaker::with_config(2, 0);
    cb.record_failure();
    cb.record_failure();
    assert!(cb.allow_request()); // HalfOpen
    cb.record_failure();
    assert_eq!(cb.consecutive_failures(), 3);
}

#[test]
fn failures_are_counted() {
    let mut cb = CircuitBreaker::new();
    cb.record_failure();
    cb.record_failure();
    assert_eq!(cb.consecutive_failures(), 2);
    cb.record_success();
    assert_eq!(cb.consecutive_failures(), 0);
}

#[test]
fn default_breaker_opens_after_five_failures() {
    let mut cb = CircuitBreaker::new();
    for _ in 0..4 {
        cb.record_failure();
    }
    assert!(cb.allow_request());
    cb.record_failure();
    assert!(!cb.allow_request());
}

/// Waits until `d` has passed on the monotonic clock.
fn wait_for(d: Duration) {
    let start = std::time::Instant::now();
    while start.elapsed() < d {
        std::hint::spin_loop();
    }
}

#[test]
fn transitions_to_half_open_after_cooldown() {
    let mut cb = CircuitBreaker::with_config(2, 10);
    cb.record_failure();
    cb.record_failure();
    assert!(!cb.allow_request());

    wait_for(Duration::from_millis(15));
    assert!(cb.allow_request());
}

#[test]
fn half_open_success_closes_circuit() {
    let mut cb = CircuitBreaker::with_config(2, 10);
    cb.record_failure();
    cb.record_failure();

    wait_for(Duration::from_millis(15));
    assert!(cb.allow_request());
    cb.record_success();
    assert!(cb.allow_request());
}

#[test]
fn half_open_failure_reopens_circuit() {
    let mut cb = CircuitBreaker::with_config(2, 10);
    cb.record_failure();
    cb.record_failure();

    wait_for(Duration::from_millis(15));
    assert!(cb.allow_request());
    cb.record_failure();
    assert!(!cb.allow_request());
}

#[test]
fn half_open_allows_one_probe() {
    let mut cb = CircuitBreaker::with_config(2, 0);
    cb.record_failure();
    cb.record_failure();
    assert!(cb.allow_request()); // the probe
    assert!(!cb.allow_request()); // refused while the probe is in flight
    assert!(!cb.allow_request());
    cb.record_success();
    assert!(cb.allow_request());
}

#[test]
fn inconclusive_probe_gives_back_its_slot() {
    let mut cb = CircuitBreaker::with_config(2, 0);
    cb.record_failure();
    cb.record_failure();
    assert!(cb.allow_request()); // the probe
    assert!(!cb.allow_request());
    cb.record_inconclusive(); // e.g. a 404 answered it
    assert_eq!(cb.consecutive_failures(), 2);
    assert!(cb.allow_request()); // the cooldown has passed: a new probe
    assert!(!cb.allow_request());
}

#[test]
fn inconclusive_answers_leave_a_closed_circuit_alone() {
    let mut cb = CircuitBreaker::with_config(3, 30000);
    cb.record_failure();
    cb.record_inconclusive();
    cb.record_failure();
    assert!(cb.allow_request());
    cb.record_failure();
    assert!(!cb.allow_request());
}

#[test]
fn probe_waits_for_the_cooldown() {
    let mut cb = CircuitBreaker::with_config(2, 30_000);
    assert!(cb.allow_at(0));
    cb.record_failure();
    cb.record_failure();
    assert!(!cb.allow_at(0));
    assert!(!cb.allow_at(29_999_999_999)); // 1 ns short of 30 s
    assert!(cb.allow_at(30_000_000_000)); // the probe
    assert!(!cb.allow_at(60_000_000_000)); // refused while it is in flight
    cb.record_failure();
    assert!(!cb.allow_at(1));
    assert!(cb.allow_at(31_000_000_000));
    cb.record_success();
    assert!(cb.allow_at(0));
}

#[test]
fn default_breaker_waits_thirty_seconds() {
    let mut cb = CircuitBreaker::new();
    for _ in 0..4 {
        cb.record_failure();
        assert!(cb.allow_at(0));
    }
    cb.record_failure();
    assert!(!cb.allow_at(29_000_000_000));
    assert!(cb.allow_at(30_000_000_000));
}
