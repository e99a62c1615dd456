//! Retry delays and start-up jitter, in milliseconds.

use vstd::prelude::*;

verus! {

/// Retry settings of a job: how many extra attempts, the base delay between
/// attempts and an optional bound on a random extra delay.
#[derive(Clone, Copy, Debug, PartialEq, Eq)]
pub struct RetryConfig {
    pub max: u32,
    pub delay_ms: u64,
    pub jitter_ms: Option<u64>,
}

/// `2^n`.
pub open spec fn pow2(n: nat) -> nat
    decreases n,
{
    if n == 0 {
        1
    } else {
        2 * pow2((n - 1) as nat)
    }
}

/// `a + b`, held at `u64::MAX`.
pub open spec fn sat_add(a: nat, b: nat) -> nat {
    if a + b > u64::MAX {
        u64::MAX as nat
    } else {
        a + b
    }
}

/// The delay before retry number `attempt + 1`: `delay * 2^attempt`, held at `u64::MAX`.
pub open spec fn backoff_ms(delay: nat, attempt: nat) -> nat {
    if delay * pow2(attempt) > u64::MAX {
        u64::MAX as nat
    } else {
        delay * pow2(attempt)
    }
}

/// The extra delay that the retry settings allow on top of the exponential one.
pub open spec fn jitter_bound(retry: RetryConfig) -> nat {
    match retry.jitter_ms {
        Some(j) => j as nat,
        None => 0,
    }
}

proof fn lemma_pow2_positive(n: nat)
    ensures
        pow2(n) >= 1,
    decreases n,
{
    if n > 0 {
        lemma_pow2_positive((n - 1) as nat);
    }
}

proof fn lemma_pow2_monotone(a: nat, b: nat)
    requires
        a <= b,
    ensures
        pow2(a) <= pow2(b),
    decreases b,
{
    if a < b {
        lemma_pow2_monotone(a, (b - 1) as nat);
        lemma_pow2_positive((b - 1) as nat);
    }
}

/// The exponential delay grows with the attempt number: for a fixed base delay,
/// a later attempt never waits less than an earlier one.
pub proof fn lemma_backoff_monotone(delay: nat, a: nat, b: nat)
    requires
        a <= b,
    ensures
        backoff_ms(delay, a) <= backoff_ms(delay, b),
{
    lemma_pow2_monotone(a, b);
    let pa = pow2(a);
    let pb = pow2(b);
    assert(delay * pa <= delay * pb) by (nonlinear_arith)
        requires
            pa <= pb,
    ;
}

/// The exponential part of the delay before the retry that follows attempt `attempt`.
pub fn base_backoff(delay_ms: u64, attempt: u32) -> (r: u64)
    ensures
        r == backoff_ms(delay_ms as nat, attempt as nat),
{
    let mut cur: u64 = delay_ms;
    let mut i: u32 = 0;
    assert(pow2(0) == 1);
    assert(delay_ms as nat * 1 == delay_ms as nat);
    while i < attempt
        invariant
            i <= attempt,
            cur == backoff_ms(delay_ms as nat, i as nat),
        decreases attempt - i,
    {
        let ghost d = delay_ms as nat;
        let ghost p = pow2(i as nat);
        assert(pow2((i + 1) as nat) == 2 * p);
        assert(d * (2 * p) == 2 * (d * p)) by (nonlinear_arith);
        if cur > u64::MAX / 2 {
            cur = u64::MAX;
        } else {
            cur = cur * 2;
        }
        i = i + 1;
    }
    cur
}

/// The full delay for a given draw of the random part: the exponential delay plus
/// `draw` when the settings carry a jitter bound, held at `u64::MAX`.
pub fn backoff_with_draw(retry: &RetryConfig, attempt: u32, draw: u64) -> (r: u64)
    ensures
        retry.jitter_ms is Some ==> r == sat_add(backoff_ms(retry.delay_ms as nat, attempt as nat), draw as nat),
        retry.jitter_ms is None ==> r == backoff_ms(retry.delay_ms as nat, attempt as nat),
{
    let base = base_backoff(retry.delay_ms, attempt);
    match retry.jitter_ms {
        Some(_) => base.saturating_add(draw),
        None => base,
    }
}

/// Relies on rand's `Rng::gen_range` over the inclusive range `0..=max` on the
/// thread-local generator, which returns a value inside that range.
#[verifier::external_body]
fn random_up_to(max: u64) -> (r: u64)
    ensures
        r <= max,
{
    rand::Rng::gen_range(&mut rand::thread_rng(), 0..=max)
}

/// A uniformly drawn delay in `[0, max]`; no delay at all when `max` is zero.
pub fn generate_jitter(max: u64) -> (r: u64)
    ensures
        r <= max,
        max == 0 ==> r == 0,
{
    if max == 0 {
        0
    } else {
        random_up_to(max)
    }
}

/// The delay before the retry that follows attempt `attempt`: the exponential delay,
/// plus a random part within the jitter bound when one is set.
pub fn calculate_backoff(retry: &RetryConfig, attempt: u32) -> (r: u64)
    ensures
        retry.jitter_ms is None ==> r == backoff_ms(retry.delay_ms as nat, attempt as nat),
        backoff_ms(retry.delay_ms as nat, attempt as nat) <= r,
        r <= sat_add(backoff_ms(retry.delay_ms as nat, attempt as nat), jitter_bound(*retry)),
{
    let draw = match retry.jitter_ms {
        Some(j) => generate_jitter(j),
        None => 0,
    };
    backoff_with_draw(retry, attempt, draw)
}

} // verus!
