//! The bounded exponential-backoff schedule for resubmitting a transaction.
//!
//! The schedule only decides; the caller performs the attempt and the wait,
//! then reports the outcome back. Every retry resubmits the identical signed
//! payload, so a freshness anchor that expires during the waits is rejected
//! by the network rather than silently replaced.

use vstd::prelude::*;

verus! {

/// A fixed-attempt exponential backoff: `max_attempts` tries in all, waiting
/// `initial_delay` before the second and the delay scaled by `factor` before
/// each later one.
#[derive(Debug, Clone, Copy, PartialEq, Eq, Structural)]
pub struct RetryPolicy {
    pub initial_delay: u64,
    pub factor: u64,
    pub max_attempts: u32,
}

/// The fixed policy used for submissions: three attempts in all, 250
/// time-units before the second, twice that before the third.
pub fn default_retry_policy() -> (p: RetryPolicy)
    ensures
        p == (RetryPolicy { initial_delay: 250u64, factor: 2u64, max_attempts: 3u32 }),
{
    RetryPolicy { initial_delay: 250, factor: 2, max_attempts: 3 }
}

/// How many attempts have already happened, and the wait the next failure
/// would incur.
#[derive(Debug, Clone, Copy, PartialEq, Eq, Structural)]
pub struct RetryState {
    pub attempts_made: u32,
    pub next_delay: u64,
}

/// What the driver must do once an attempt's outcome is known.
#[derive(Debug, Clone, Copy, PartialEq, Eq, Structural)]
pub enum RetryDecision {
    Succeed,
    RetryAfter(u64),
    GiveUp,
}

/// The delay scaled by `factor`, saturating at the largest representable wait.
pub open spec fn spec_scaled_delay(delay: u64, factor: u64) -> u64 {
    if delay as int * factor as int > u64::MAX as int {
        u64::MAX
    } else {
        (delay as int * factor as int) as u64
    }
}

/// Bookkeeping before the first attempt under `p`.
pub open spec fn spec_retry_start(p: RetryPolicy) -> RetryState {
    RetryState { attempts_made: 0, next_delay: p.initial_delay }
}

/// The transition taken once an attempt ends: on success the run stops; on
/// failure it retries after the scheduled wait, unless the attempt budget is
/// spent, in which case it gives up.
pub open spec fn spec_retry_step(p: RetryPolicy, st: RetryState, ok: bool) -> (RetryDecision,
    RetryState)
    recommends
        st.attempts_made < p.max_attempts,
{
    let bumped = RetryState {
        attempts_made: (st.attempts_made + 1) as u32,
        next_delay: st.next_delay,
    };
    if ok {
        (RetryDecision::Succeed, bumped)
    } else if st.attempts_made + 1 >= p.max_attempts {
        (RetryDecision::GiveUp, bumped)
    } else {
        (
            RetryDecision::RetryAfter(st.next_delay),
            RetryState {
                attempts_made: (st.attempts_made + 1) as u32,
                next_delay: spec_scaled_delay(st.next_delay, p.factor),
            },
        )
    }
}

fn scaled_delay(delay: u64, factor: u64) -> (r: u64)
    ensures
        r == spec_scaled_delay(delay, factor),
{
    if factor == 0 {
        0
    } else if delay <= u64::MAX / factor {
        proof {
            assert(delay as int * factor as int <= u64::MAX as int) by (nonlinear_arith)
                requires
                    factor as int > 0,
                    delay as int <= u64::MAX as int / factor as int,
            ;
        }
        delay * factor
    } else {
        proof {
            assert(delay as int * factor as int > u64::MAX as int) by (nonlinear_arith)
                requires
                    factor as int > 0,
                    delay as int > u64::MAX as int / factor as int,
            ;
        }
        u64::MAX
    }
}

/// Fresh bookkeeping before the first attempt under `p`.
pub fn retry_start(p: &RetryPolicy) -> (st: RetryState)
    ensures
        st == spec_retry_start(*p),
{
    RetryState { attempts_made: 0, next_delay: p.initial_delay }
}

/// Records one attempt's outcome (`ok` says whether it succeeded) and says
/// whether to stop with its result, wait and try again, or give up and
/// surface the attempt's error.
pub fn retry_step(p: &RetryPolicy, st: &mut RetryState, ok: bool) -> (d: RetryDecision)
    requires
        old(st).attempts_made < p.max_attempts,
    ensures
        d == spec_retry_step(*p, *old(st), ok).0,
        *final(st) == spec_retry_step(*p, *old(st), ok).1,
{
    let made = st.attempts_made + 1;
    if ok {
        st.attempts_made = made;
        RetryDecision::Succeed
    } else if made >= p.max_attempts {
        st.attempts_made = made;
        RetryDecision::GiveUp
    } else {
        let wait = st.next_delay;
        st.attempts_made = made;
        st.next_delay = scaled_delay(wait, p.factor);
        RetryDecision::RetryAfter(wait)
    }
}

/// Law: under the submission policy, a run whose first two attempts fail and
/// whose third succeeds stops successfully after exactly three attempts,
/// having been told to wait 250 and then 500 time-units between them.
pub proof fn lemma_retry_two_failures_then_success()
    ensures
        ({
            let p = RetryPolicy { initial_delay: 250u64, factor: 2u64, max_attempts: 3u32 };
            let s0 = spec_retry_start(p);
            let r1 = spec_retry_step(p, s0, false);
            let r2 = spec_retry_step(p, r1.1, false);
            let r3 = spec_retry_step(p, r2.1, true);
            r1.0 == RetryDecision::RetryAfter(250u64) && r2.0 == RetryDecision::RetryAfter(500u64)
                && r3.0 == RetryDecision::Succeed && r3.1.attempts_made == 3
        }),
{
}

/// Law: when every attempt fails under the submission policy, the third
/// decision is to give up, so no fourth attempt is ever scheduled.
pub proof fn lemma_retry_all_failures_gives_up()
    ensures
        ({
            let p = RetryPolicy { initial_delay: 250u64, factor: 2u64, max_attempts: 3u32 };
            let s0 = spec_retry_start(p);
            let r1 = spec_retry_step(p, s0, false);
            let r2 = spec_retry_step(p, r1.1, false);
            let r3 = spec_retry_step(p, r2.1, false);
            r1.0 == RetryDecision::RetryAfter(250u64) && r2.0 == RetryDecision::RetryAfter(500u64)
                && r3.0 == RetryDecision::GiveUp && r3.1.attempts_made == 3
        }),
{
}

} // verus!
