//! The decisions of one job invocation: start-up delay, how an attempt ended,
//! and whether to try again. Spawning, waiting and sleeping are the caller's.

use vstd::prelude::*;
use crate::backoff::{backoff_ms, calculate_backoff, generate_jitter, jitter_bound, sat_add, RetryConfig, pow2};

verus! {

/// How one attempt of a command ended.
#[derive(Clone, Copy, Debug, PartialEq, Eq, Structural)]
pub enum CommandOutcome {
    /// The process exited; `code` is `None` when a signal ended it.
    Completed { code: Option<i32> },
    /// The process could not be started or awaited.
    ExecError,
    /// The process outlived the job's timeout and was killed.
    Timeout,
}

/// What follows an attempt.
#[derive(Clone, Copy, Debug, PartialEq, Eq, Structural)]
pub enum AttemptDecision {
    /// Wait this many milliseconds, then try again.
    RetryAfter(u64),
    /// Stop; the flag says whether the last attempt succeeded.
    Finish(bool),
}

/// An attempt succeeded exactly when its process exited with code 0.
pub open spec fn outcome_succeeded(o: CommandOutcome) -> bool {
    o == (CommandOutcome::Completed { code: Some(0) })
}

/// How many retries the settings allow after the first attempt.
pub open spec fn retries_allowed(retry: Option<RetryConfig>) -> nat {
    match retry {
        Some(r) => r.max as nat,
        None => 0,
    }
}

/// The decisions the retry policy allows after attempt `attempt` (counted from zero).
pub open spec fn allowed_decision(
    retry: Option<RetryConfig>,
    attempt: int,
    success: bool,
    d: AttemptDecision,
) -> bool {
    if success {
        d == AttemptDecision::Finish(true)
    } else if attempt >= retries_allowed(retry) {
        d == AttemptDecision::Finish(false)
    } else {
        match d {
            AttemptDecision::RetryAfter(ms) => {
                let base = backoff_ms(retry.unwrap().delay_ms as nat, attempt as nat);
                base <= ms && ms <= sat_add(base, jitter_bound(retry.unwrap()))
            },
            AttemptDecision::Finish(_) => false,
        }
    }
}

/// Whether an attempt counts as a success.
pub fn is_success(o: &CommandOutcome) -> (r: bool)
    ensures
        r == outcome_succeeded(*o),
{
    match o {
        CommandOutcome::Completed { code: Some(c) } => *c == 0,
        _ => false,
    }
}

/// How many attempts a job makes at most: one, plus its retries.
pub fn max_attempts(retry: &Option<RetryConfig>) -> (r: u64)
    ensures
        r == retries_allowed(*retry) + 1,
{
    match retry {
        Some(r) => r.max as u64 + 1,
        None => 1,
    }
}

/// The delay before the first attempt: a random draw within the job's jitter bound, if any.
pub fn start_delay(jitter_ms: Option<u64>) -> (r: u64)
    ensures
        jitter_ms is None ==> r == 0,
        jitter_ms matches Some(j) ==> r <= j,
{
    match jitter_ms {
        Some(j) => generate_jitter(j),
        None => 0,
    }
}

/// Decides what follows attempt number `attempt` (from zero): stop on success or
/// when the retries are spent, else wait the backoff delay and try again.
pub fn after_attempt(retry: &Option<RetryConfig>, attempt: u32, success: bool) -> (d: AttemptDecision)
    ensures
        allowed_decision(*retry, attempt as int, success, d),
{
    if success {
        return AttemptDecision::Finish(true);
    }
    match retry {
        Some(r) => {
            if attempt < r.max {
                AttemptDecision::RetryAfter(calculate_backoff(r, attempt))
            } else {
                AttemptDecision::Finish(false)
            }
        },
        None => AttemptDecision::Finish(false),
    }
}

/// A command that succeeds on its first attempt ends the invocation at once:
/// no retry delay is ever waited.
pub proof fn lemma_first_success_no_wait(retry: Option<RetryConfig>, d: AttemptDecision)
    requires
        allowed_decision(retry, 0, true, d),
    ensures
        d == AttemptDecision::Finish(true),
{
}

/// The sum of the delays in a sequence of decisions.
pub open spec fn total_wait(ds: Seq<AttemptDecision>) -> nat
    decreases ds.len(),
{
    if ds.len() == 0 {
        0
    } else {
        (match ds[0] {
            AttemptDecision::RetryAfter(ms) => ms as nat,
            AttemptDecision::Finish(_) => 0,
        }) + total_wait(ds.drop_first())
    }
}

/// The decisions of an invocation whose every attempt failed: each one allowed for
/// its attempt, every one but the last a retry, the last a stop.
pub open spec fn failing_run(retry: Option<RetryConfig>, ds: Seq<AttemptDecision>) -> bool {
    &&& ds.len() >= 1
    &&& forall|i: int| 0 <= i < ds.len() ==> allowed_decision(retry, i, false, #[trigger] ds[i])
    &&& forall|i: int| 0 <= i < ds.len() - 1 ==> (#[trigger] ds[i]) is RetryAfter
    &&& ds.last() is Finish
}

proof fn lemma_backoff_at_least_delay(delay: nat, attempt: nat)
    requires
        delay <= u64::MAX,
    ensures
        backoff_ms(delay, attempt) >= delay,
{
    crate::backoff::lemma_backoff_monotone(delay, 0, attempt);
    assert(pow2(0) == 1);
    assert(delay * 1 == delay);
}

proof fn lemma_wait_lower_bound(retry: RetryConfig, ds: Seq<AttemptDecision>, from: int)
    requires
        from >= 0,
        forall|i: int| 0 <= i < ds.len() ==> allowed_decision(Some(retry), from + i, false, #[trigger] ds[i]),
        forall|i: int| 0 <= i < ds.len() ==> (#[trigger] ds[i]) is RetryAfter,
    ensures
        total_wait(ds) >= retry.delay_ms * ds.len(),
    decreases ds.len(),
{
    if ds.len() > 0 {
        let rest = ds.drop_first();
        assert forall|i: int| 0 <= i < rest.len() implies allowed_decision(
            Some(retry),
            (from + 1) + i,
            false,
            #[trigger] rest[i],
        ) by {
            assert(rest[i] == ds[i + 1]);
            assert(allowed_decision(Some(retry), from + (i + 1), false, ds[i + 1]));
        }
        assert forall|i: int| 0 <= i < rest.len() implies (#[trigger] rest[i]) is RetryAfter by {
            assert(rest[i] == ds[i + 1]);
        }
        lemma_wait_lower_bound(retry, rest, from + 1);
        assert(allowed_decision(Some(retry), from + 0, false, ds[0]));
        lemma_backoff_at_least_delay(retry.delay_ms as nat, from as nat);
        assert(retry.delay_ms * ds.len() == retry.delay_ms + retry.delay_ms * rest.len()) by (nonlinear_arith)
            requires
                ds.len() == rest.len() + 1,
        ;
    }
}

/// A job whose command always fails makes exactly `max + 1` attempts, and waits
/// at least `delay * max` in all between them.
pub proof fn lemma_failing_run_attempts(retry: RetryConfig, ds: Seq<AttemptDecision>)
    requires
        failing_run(Some(retry), ds),
    ensures
        ds.len() == retry.max + 1,
        total_wait(ds) >= retry.delay_ms * retry.max,
{
    let n = ds.len();
    let m = retry.max as int;
    if n - 1 < m {
        assert(allowed_decision(Some(retry), n - 1, false, ds[n - 1]));
    }
    if n - 1 > m {
        assert(allowed_decision(Some(retry), m, false, ds[m]));
        assert(ds[m] is RetryAfter);
    }
    let retries = ds.take(n - 1);
    assert forall|i: int| 0 <= i < retries.len() implies allowed_decision(
        Some(retry),
        0 + i,
        false,
        #[trigger] retries[i],
    ) by {
        assert(retries[i] == ds[i]);
    }
    assert forall|i: int| 0 <= i < retries.len() implies (#[trigger] retries[i]) is RetryAfter by {
        assert(retries[i] == ds[i]);
    }
    lemma_wait_lower_bound(retry, retries, 0);
    lemma_total_wait_push(retries, ds.last());
    assert(retries.push(ds.last()) =~= ds);
}

proof fn lemma_total_wait_push(ds: Seq<AttemptDecision>, last: AttemptDecision)
    requires
        last is Finish,
    ensures
        total_wait(ds.push(last)) == total_wait(ds),
    decreases ds.len(),
{
    if ds.len() == 0 {
        assert(ds.push(last).drop_first() =~= Seq::<AttemptDecision>::empty());
        assert(ds.push(last)[0] == last);
        assert(total_wait(Seq::<AttemptDecision>::empty()) == 0);
    } else {
        lemma_total_wait_push(ds.drop_first(), last);
        assert(ds.push(last).drop_first() =~= ds.drop_first().push(last));
        assert(ds.push(last)[0] == ds[0]);
    }
}

} // verus!
