//! Circuit breaker for API resilience.
//!
//! After sustained failures, stops making requests for a cooldown period
//! instead of hammering a failing API. Follows the standard three-state
//! model: Closed (normal) → Open (fail-fast) → HalfOpen (probe).
//!
//! The decisions are pure functions of the state (`failure_step`,
//! `allow_step`); the clock is read through the trusted wrappers below and
//! only decides whether the cooldown has passed.

use vstd::prelude::*;
use std::time::{Duration, Instant};
use crate::clock::duration_nanos;

verus! {

#[verifier::external_type_specification]
#[verifier::external_body]
pub struct ExInstant(Instant);

pub const DEFAULT_FAILURE_THRESHOLD: u32 = 5;

pub const DEFAULT_COOLDOWN_SECS: u64 = 30;

/// The default cooldown, in nanoseconds.
pub const DEFAULT_COOLDOWN_NANOS: u128 = 30_000_000_000;

/// The three states of the breaker.
#[derive(Debug, Clone, Copy, PartialEq, Eq, Structural)]
pub enum BreakerState {
    Closed,
    Open,
    HalfOpen,
}

/// `std::time::Instant::now`. Nothing is stated of the result: it is the
/// clock.
#[verifier::external_body]
fn instant_now() -> Instant {
    Instant::now()
}

/// `std::time::Instant::elapsed`: the time since `at`. Nothing is stated of
/// the result: it depends on the clock.
#[verifier::external_body]
fn instant_elapsed(at: &Instant) -> Duration {
    at.elapsed()
}

/// Whether `elapsed` nanoseconds since the circuit opened reach its
/// cooldown.
pub open spec fn cooldown_reached(elapsed: u128, cooldown: u128) -> bool {
    elapsed >= cooldown
}

/// The state and failure count after one failed request.
pub open spec fn failure_step(state: BreakerState, failures: int, threshold: int) -> (BreakerState, int) {
    let n = failures + 1;
    (
        match state {
            BreakerState::HalfOpen => BreakerState::Open,
            BreakerState::Closed => if n >= threshold {
                BreakerState::Open
            } else {
                BreakerState::Closed
            },
            BreakerState::Open => BreakerState::Open,
        },
        n,
    )
}

/// The state after a request is asked for, and whether it may go ahead,
/// given whether the cooldown has passed since the circuit opened. The
/// request that finds the cooldown passed is the one probe; while it is in
/// flight (HalfOpen) every further request is refused.
pub open spec fn allow_step(state: BreakerState, cooldown_elapsed: bool) -> (BreakerState, bool) {
    match state {
        BreakerState::Closed => (BreakerState::Closed, true),
        BreakerState::Open => if cooldown_elapsed {
            (BreakerState::HalfOpen, true)
        } else {
            (BreakerState::Open, false)
        },
        BreakerState::HalfOpen => (BreakerState::HalfOpen, false),
    }
}

/// The state after an answer that says nothing of the API's health (such
/// as "not found"): a probe in flight gives back its slot, so the circuit
/// is open again with the cooldown it had already served.
pub open spec fn inconclusive_step(state: BreakerState) -> BreakerState {
    match state {
        BreakerState::HalfOpen => BreakerState::Open,
        s => s,
    }
}

/// Decides whether a request may go ahead, and the next state, from the
/// current state and whether the cooldown has passed.
pub fn decide_allow(state: BreakerState, cooldown_elapsed: bool) -> (r: (BreakerState, bool))
    ensures
        r == allow_step(state, cooldown_elapsed),
{
    match state {
        BreakerState::Closed => (BreakerState::Closed, true),
        BreakerState::Open => if cooldown_elapsed {
            (BreakerState::HalfOpen, true)
        } else {
            (BreakerState::Open, false)
        },
        BreakerState::HalfOpen => (BreakerState::HalfOpen, false),
    }
}

/// Circuit breaker that fails fast after sustained API failures.
///
/// - **Closed**: Requests flow normally. Consecutive failures are tracked.
/// - **Open**: After `failure_threshold` consecutive failures, all requests
///   fail immediately for `cooldown` duration.
/// - **HalfOpen**: After cooldown, one probe request is allowed. Success
///   closes the circuit; failure reopens it.
///
/// 404 responses should NOT be recorded as failures — they are valid
/// application responses, not infrastructure problems.
pub struct CircuitBreaker {
    state: BreakerState,
    consecutive_failures: u32,
    opened_at: Option<Instant>,
    failure_threshold: u32,
    cooldown_nanos: u128,
    calls: Ghost<Seq<BreakerCall>>,
}

impl CircuitBreaker {
    pub closed spec fn state(&self) -> BreakerState {
        self.state
    }

    pub closed spec fn failures(&self) -> u32 {
        self.consecutive_failures
    }

    pub closed spec fn threshold(&self) -> u32 {
        self.failure_threshold
    }

    /// How long an open circuit waits before it lets a probe through, in
    /// nanoseconds.
    pub closed spec fn cooldown(&self) -> u128 {
        self.cooldown_nanos
    }

    /// The calls made on the breaker since it was built, in order.
    pub closed spec fn history(&self) -> Seq<BreakerCall> {
        self.calls@
    }

    /// Whether the moment the circuit opened is recorded.
    pub closed spec fn has_opened_at(&self) -> bool {
        self.opened_at is Some
    }

    /// The opening moment is recorded exactly while the circuit is not
    /// closed, and a circuit that is not closed has seen at least
    /// `threshold` failures since the last success.
    pub open spec fn wf(&self) -> bool {
        &&& (self.state() != BreakerState::Closed) <==> self.has_opened_at()
        &&& self.state() != BreakerState::Closed ==> self.failures() >= self.threshold()
        &&& (self.state(), self.failures() as int) == run_calls(self.history(), self.threshold() as int)
    }

    /// A breaker that opens after five consecutive failures and waits 30
    /// seconds before a probe.
    pub fn new() -> (r: CircuitBreaker)
        ensures
            r.wf(),
            r.state() == BreakerState::Closed,
            r.failures() == 0,
            r.threshold() == DEFAULT_FAILURE_THRESHOLD,
            r.cooldown() == DEFAULT_COOLDOWN_NANOS,
            r.history() == Seq::<BreakerCall>::empty(),
    {
        CircuitBreaker::with_config(DEFAULT_FAILURE_THRESHOLD, DEFAULT_COOLDOWN_SECS * 1000)
    }

    /// A breaker that opens after `failure_threshold` consecutive failures
    /// and waits `cooldown_ms` milliseconds before a probe.
    pub fn with_config(failure_threshold: u32, cooldown_ms: u64) -> (r: CircuitBreaker)
        ensures
            r.wf(),
            r.state() == BreakerState::Closed,
            r.failures() == 0,
            r.threshold() == failure_threshold,
            r.cooldown() == cooldown_ms as int * 1_000_000,
            r.history() == Seq::<BreakerCall>::empty(),
    {
        CircuitBreaker {
            state: BreakerState::Closed,
            consecutive_failures: 0,
            opened_at: None,
            failure_threshold,
            cooldown_nanos: cooldown_ms as u128 * 1_000_000,
            calls: Ghost(Seq::empty()),
        }
    }

    /// The number of failures recorded since the last success.
    pub fn consecutive_failures(&self) -> (r: u32)
        ensures
            r == self.failures(),
    {
        self.consecutive_failures
    }

    /// Decides a request, given that `elapsed_nanos` nanoseconds have
    /// passed since the circuit opened: a closed circuit lets it through; an
    /// open one lets it through as the one probe (turning HalfOpen) exactly
    /// when that time reaches the cooldown, and refuses it otherwise; while
    /// the probe is in flight (HalfOpen) it is refused. Below the threshold
    /// of failures since the last success, every request goes ahead.
    pub fn allow_at(&mut self, elapsed_nanos: u128) -> (r: bool)
        requires
            old(self).wf(),
        ensures
            final(self).wf(),
            (final(self).state(), r) == allow_step(old(self).state(), cooldown_reached(elapsed_nanos, old(self).cooldown())),
            final(self).history() == old(self).history().push(
                BreakerCall::Allow(cooldown_reached(elapsed_nanos, old(self).cooldown())),
            ),
            failures_since_success(old(self).history()) < old(self).threshold() ==> r,
            final(self).failures() == old(self).failures(),
            final(self).threshold() == old(self).threshold(),
            final(self).cooldown() == old(self).cooldown(),
    {
        proof {
            law_refused_only_after_threshold(self.calls@, self.failure_threshold as nat);
        }
        let reached = elapsed_nanos >= self.cooldown_nanos;
        let (next, allowed) = decide_allow(self.state, reached);
        self.state = next;
        proof {
            self.calls = Ghost(self.calls@.push(BreakerCall::Allow(reached)));
            assert(self.calls@.drop_last() == old(self).history());
        }
        allowed
    }

    /// Returns `true` if a request should be allowed to proceed: the
    /// decision of `allow_at`, with the time since the circuit opened read
    /// from the clock.
    pub fn allow_request(&mut self) -> (r: bool)
        requires
            old(self).wf(),
        ensures
            final(self).wf(),
            exists|elapsed: u128|
                (final(self).state(), r) == allow_step(old(self).state(), #[trigger] cooldown_reached(elapsed, old(self).cooldown()))
                    && final(self).history() == old(self).history().push(
                    BreakerCall::Allow(cooldown_reached(elapsed, old(self).cooldown())),
                ),
            failures_since_success(old(self).history()) < old(self).threshold() ==> r,
            final(self).failures() == old(self).failures(),
            final(self).threshold() == old(self).threshold(),
            final(self).cooldown() == old(self).cooldown(),
    {
        let elapsed: u128 = match self.state {
            BreakerState::Open => match &self.opened_at {
                Some(at) => {
                    let since = instant_elapsed(at);
                    duration_nanos(&since)
                },
                None => 0,
            },
            _ => 0,
        };
        self.allow_at(elapsed)
    }

    /// Records an answer that says nothing of the API's health (a 404, or
    /// a rejected key): it is no failure, but a probe it answered gives
    /// back its slot, so the next request after the cooldown probes again.
    pub fn record_inconclusive(&mut self)
        requires
            old(self).wf(),
        ensures
            final(self).wf(),
            final(self).state() == inconclusive_step(old(self).state()),
            final(self).failures() == old(self).failures(),
            final(self).threshold() == old(self).threshold(),
            final(self).cooldown() == old(self).cooldown(),
            final(self).history() == old(self).history().push(BreakerCall::Inconclusive),
    {
        if self.state == BreakerState::HalfOpen {
            self.state = BreakerState::Open;
        }
        proof {
            self.calls = Ghost(self.calls@.push(BreakerCall::Inconclusive));
            assert(self.calls@.drop_last() == old(self).history());
        }
    }

    /// Records a successful request: the circuit closes and the count of
    /// failures starts again.
    pub fn record_success(&mut self)
        requires
            old(self).wf(),
        ensures
            final(self).wf(),
            final(self).state() == BreakerState::Closed,
            final(self).failures() == 0,
            final(self).threshold() == old(self).threshold(),
            final(self).cooldown() == old(self).cooldown(),
            final(self).history() == old(self).history().push(BreakerCall::Success),
    {
        self.consecutive_failures = 0;
        self.state = BreakerState::Closed;
        self.opened_at = None;
        proof {
            self.calls = Ghost(self.calls@.push(BreakerCall::Success));
            assert(self.calls@.drop_last() == old(self).history());
        }
    }

    /// Record a failed request. Do NOT call this for 404 responses.
    pub fn record_failure(&mut self)
        requires
            old(self).wf(),
            old(self).failures() < u32::MAX,
        ensures
            final(self).wf(),
            (final(self).state(), final(self).failures() as int) == failure_step(
                old(self).state(),
                old(self).failures() as int,
                old(self).threshold() as int,
            ),
            final(self).threshold() == old(self).threshold(),
            final(self).cooldown() == old(self).cooldown(),
            final(self).history() == old(self).history().push(BreakerCall::Failure),
    {
        self.consecutive_failures = self.consecutive_failures + 1;
        match self.state {
            BreakerState::HalfOpen => {
                self.state = BreakerState::Open;
                self.opened_at = Some(instant_now());
            },
            BreakerState::Closed => {
                if self.consecutive_failures >= self.failure_threshold {
                    self.state = BreakerState::Open;
                    self.opened_at = Some(instant_now());
                }
            },
            BreakerState::Open => {},
        }
        proof {
            self.calls = Ghost(self.calls@.push(BreakerCall::Failure));
            assert(self.calls@.drop_last() == old(self).history());
        }
    }
}

impl Default for CircuitBreaker {
    fn default() -> (r: CircuitBreaker)
        ensures
            r.wf(),
            r.state() == BreakerState::Closed,
            r.failures() == 0,
            r.threshold() == DEFAULT_FAILURE_THRESHOLD,
            r.cooldown() == DEFAULT_COOLDOWN_NANOS,
            r.history() == Seq::<BreakerCall>::empty(),
    {
        CircuitBreaker::new()
    }
}

/// State and failure count after `n` failures on a fresh breaker.
pub open spec fn after_failures(n: nat, threshold: int) -> (BreakerState, int)
    decreases n,
{
    if n == 0 {
        (BreakerState::Closed, 0)
    } else {
        let prev = after_failures((n - 1) as nat, threshold);
        failure_step(prev.0, prev.1, threshold)
    }
}

/// A fresh breaker stays closed through fewer than `threshold` consecutive
/// failures and is open from the failure that reaches it on.
pub proof fn law_threshold_opens(n: nat, threshold: u32)
    ensures
        after_failures(n, threshold as int) == (if n > 0 && n >= threshold {
            BreakerState::Open
        } else {
            BreakerState::Closed
        }, n as int),
    decreases n,
{
    if n > 0 {
        law_threshold_opens((n - 1) as nat, threshold);
    }
}

/// A closed circuit lets every request through, whatever the clock says;
/// an open one whose cooldown has not passed refuses every request and
/// stays open, however often it is asked; once it has passed, one probe
/// goes ahead and every request after it is refused until its answer is
/// recorded.
pub proof fn law_allow_by_state(cooldown_elapsed: bool)
    ensures
        allow_step(BreakerState::Closed, cooldown_elapsed) == (BreakerState::Closed, true),
        allow_step(BreakerState::HalfOpen, cooldown_elapsed) == (BreakerState::HalfOpen, false),
        allow_step(BreakerState::Open, false) == (BreakerState::Open, false),
        allow_step(allow_step(BreakerState::Open, false).0, false) == (BreakerState::Open, false),
        allow_step(BreakerState::Open, true) == (BreakerState::HalfOpen, true),
{
}

/// A failed probe reopens the circuit; a failure never closes an open
/// circuit; every failure adds one to the count.
pub proof fn law_failure_never_closes(state: BreakerState, failures: int, threshold: int)
    ensures
        failure_step(BreakerState::HalfOpen, failures, threshold).0 == BreakerState::Open,
        state != BreakerState::Closed ==> failure_step(state, failures, threshold).0 == BreakerState::Open,
        failure_step(state, failures, threshold).1 == failures + 1,
{
}

/// One call on a breaker, as the laws over call sequences see it; a
/// request carries whether the cooldown had passed when it was asked.
pub enum BreakerCall {
    Allow(bool),
    Success,
    Failure,
    Inconclusive,
}

/// The state and failure count after one call.
pub open spec fn call_step(s: (BreakerState, int), c: BreakerCall, threshold: int) -> (BreakerState, int) {
    match c {
        BreakerCall::Allow(elapsed) => (allow_step(s.0, elapsed).0, s.1),
        BreakerCall::Success => (BreakerState::Closed, 0),
        BreakerCall::Failure => failure_step(s.0, s.1, threshold),
        BreakerCall::Inconclusive => (inconclusive_step(s.0), s.1),
    }
}

/// The state and failure count of a fresh breaker after `calls`.
pub open spec fn run_calls(calls: Seq<BreakerCall>, threshold: int) -> (BreakerState, int)
    decreases calls.len(),
{
    if calls.len() == 0 {
        (BreakerState::Closed, 0)
    } else {
        call_step(run_calls(calls.drop_last(), threshold), calls.last(), threshold)
    }
}

/// The failures among `calls` after the last success (all of them when
/// there is none).
pub open spec fn failures_since_success(calls: Seq<BreakerCall>) -> int
    decreases calls.len(),
{
    if calls.len() == 0 {
        0
    } else {
        match calls.last() {
            BreakerCall::Success => 0,
            BreakerCall::Failure => failures_since_success(calls.drop_last()) + 1,
            _ => failures_since_success(calls.drop_last()),
        }
    }
}

/// Whatever calls a breaker has seen, it counts the failures since the
/// last success, and it refuses a request only once that count has reached
/// the threshold: below it, the circuit is closed and lets every request
/// through.
pub proof fn law_refused_only_after_threshold(calls: Seq<BreakerCall>, threshold: nat)
    ensures
        run_calls(calls, threshold as int).1 == failures_since_success(calls),
        run_calls(calls, threshold as int).0 != BreakerState::Closed ==> failures_since_success(calls)
            >= threshold,
        failures_since_success(calls) < threshold ==> run_calls(calls, threshold as int).0
            == BreakerState::Closed && forall|elapsed: bool|
            #[trigger] allow_step(run_calls(calls, threshold as int).0, elapsed).1,
    decreases calls.len(),
{
    if calls.len() > 0 {
        law_refused_only_after_threshold(calls.drop_last(), threshold);
    }
}

/// `k` failures in a row.
pub open spec fn failures(k: nat) -> Seq<BreakerCall> {
    Seq::new(k, |i: int| BreakerCall::Failure)
}

proof fn lemma_failures_after_success(calls: Seq<BreakerCall>, k: nat)
    ensures
        failures_since_success(calls.push(BreakerCall::Success) + failures(k)) == k,
    decreases k,
{
    let s = calls.push(BreakerCall::Success) + failures(k);
    if k == 0 {
        assert(s =~= calls.push(BreakerCall::Success));
    } else {
        lemma_failures_after_success(calls, (k - 1) as nat);
        assert(s.drop_last() =~= calls.push(BreakerCall::Success) + failures((k - 1) as nat));
    }
}

/// A success resets the count: after it, the breaker lets requests through
/// for as long as fewer than `threshold` failures follow.
pub proof fn law_success_resets(calls: Seq<BreakerCall>, k: nat, threshold: nat)
    requires
        k < threshold,
    ensures
        run_calls(calls.push(BreakerCall::Success) + failures(k), threshold as int) == (BreakerState::Closed, k as int),
        forall|elapsed: bool| #[trigger]
            allow_step(run_calls(calls.push(BreakerCall::Success) + failures(k), threshold as int).0, elapsed).1,
{
    let s = calls.push(BreakerCall::Success) + failures(k);
    lemma_failures_after_success(calls, k);
    law_refused_only_after_threshold(s, threshold);
}

} // verus!
