//! When and how soon a failed remote call is tried again.

use vstd::prelude::*;
use vstd::arithmetic::power2::*;

use crate::grain::GrainError;
use crate::time;
use crate::time::Duration;

verus! {

/// How remote calls are retried. Errors of the application are never retried.
#[derive(Clone, Copy, Debug, PartialEq, Eq)]
pub struct RetryPolicy {
    /// How often a call is tried again; zero for a single try.
    pub max_retries: u32,
    /// The delay before the first retry; it doubles with each one.
    pub base_delay: Duration,
    /// The longest delay.
    pub max_delay: Duration,
}

/// The delay before a retry, counted from zero.
pub open spec fn backoff(base_delay: nat, max_delay: nat, attempt: nat) -> nat {
    if base_delay * pow2(attempt) <= max_delay {
        base_delay * pow2(attempt)
    } else {
        max_delay
    }
}

/// Whether an error is transient.
pub open spec fn transient(error: GrainError) -> bool {
    error is RemoteCallFailed || error is Timeout || error is MailboxClosed
}

impl Default for RetryPolicy {
    fn default() -> (policy: Self)
        ensures
            policy.max_retries == 2,
            policy.base_delay@ == 100 * time::NANOS_PER_MILLI,
            policy.max_delay@ == 2 * time::NANOS_PER_SEC,
    {
        RetryPolicy {
            max_retries: 2,
            base_delay: Duration::from_millis(100),
            max_delay: Duration::from_secs(2),
        }
    }
}

proof fn lemma_doubling(base_delay: nat, max_delay: nat, attempt: nat)
    ensures
        2 * backoff(base_delay, max_delay, attempt) <= max_delay ==> backoff(
            base_delay,
            max_delay,
            attempt + 1,
        ) == 2 * backoff(base_delay, max_delay, attempt),
        2 * backoff(base_delay, max_delay, attempt) > max_delay ==> backoff(
            base_delay,
            max_delay,
            attempt + 1,
        ) == max_delay,
{
    lemma_pow2_unfold(attempt + 1);
    let p = pow2(attempt);
    assert(base_delay * (2 * p) == 2 * (base_delay * p)) by (nonlinear_arith);
}

proof fn lemma_capped_for_good(base_delay: nat, max_delay: nat, attempt: nat, later: nat)
    requires
        attempt <= later,
        base_delay * pow2(attempt) >= max_delay,
    ensures
        backoff(base_delay, max_delay, later) == max_delay,
{
    if attempt < later {
        lemma_pow2_strictly_increases(attempt, later);
    }
    let (p, q) = (pow2(attempt), pow2(later));
    assert(base_delay * p <= base_delay * q) by (nonlinear_arith)
        requires
            p <= q,
    ;
}

impl RetryPolicy {
    /// A single try, no retries.
    pub fn none() -> (policy: RetryPolicy)
        ensures
            policy.max_retries == 0,
            policy.base_delay@ == 100 * time::NANOS_PER_MILLI,
            policy.max_delay@ == 2 * time::NANOS_PER_SEC,
    {
        RetryPolicy::with_retries(0)
    }

    /// The default delays, with a given number of retries.
    pub fn with_retries(max_retries: u32) -> (policy: RetryPolicy)
        ensures
            policy.max_retries == max_retries,
            policy.base_delay@ == 100 * time::NANOS_PER_MILLI,
            policy.max_delay@ == 2 * time::NANOS_PER_SEC,
    {
        let default = RetryPolicy::default();
        RetryPolicy {
            max_retries,
            base_delay: default.base_delay,
            max_delay: default.max_delay,
        }
    }

    /// Whether an error is worth another try: only transient ones are.
    pub fn is_retryable(error: &GrainError) -> (yes: bool)
        ensures
            yes == transient(*error),
    {
        match error {
            GrainError::RemoteCallFailed(_) => true,
            GrainError::Timeout(_) => true,
            GrainError::MailboxClosed => true,
            _ => false,
        }
    }

    /// The delay before a retry, counted from zero: it doubles each time, up to the longest.
    pub fn delay_for_attempt(&self, attempt: u32) -> (delay: Duration)
        ensures
            delay@ == backoff(self.base_delay@, self.max_delay@, attempt as nat),
    {
        proof {
            lemma2_to64();
            assert(pow2(0) == 1);
            assert(self.base_delay@ * 1 == self.base_delay@) by (nonlinear_arith);
        }
        let mut delay = self.base_delay.min(self.max_delay);
        let mut i: u32 = 0;
        let zero: bool = self.base_delay.as_nanos() == 0;
        if zero {
            proof {
                let p = pow2(attempt as nat);
                assert(self.base_delay@ * p == 0) by (nonlinear_arith)
                    requires
                        self.base_delay@ == 0,
                ;
            }
            return delay;
        }
        while i < attempt && !delay.at_least(self.max_delay)
            invariant
                i <= attempt,
                delay@ == backoff(self.base_delay@, self.max_delay@, i as nat),
            decreases attempt - i,
        {
            proof {
                lemma_doubling(self.base_delay@, self.max_delay@, i as nat);
            }
            delay = delay.doubled_up_to(self.max_delay);
            i += 1;
        }
        proof {
            if i < attempt {
                lemma_capped_for_good(
                    self.base_delay@,
                    self.max_delay@,
                    i as nat,
                    attempt as nat,
                );
            }
        }
        delay
    }
}

/// A delay is never longer than the longest, and never shorter than the one before.
pub proof fn delays_grow_up_to_the_longest(base_delay: nat, max_delay: nat, attempt: nat)
    ensures
        backoff(base_delay, max_delay, attempt) <= max_delay,
        backoff(base_delay, max_delay, attempt) <= backoff(base_delay, max_delay, attempt + 1),
{
    lemma_doubling(base_delay, max_delay, attempt);
}

/// The first delay is the base delay and each further one twice the one before, but none is
/// longer than the longest.
pub proof fn delays_double(base_delay: nat, max_delay: nat, attempt: nat)
    ensures
        backoff(base_delay, max_delay, 0) == (if base_delay <= max_delay {
            base_delay
        } else {
            max_delay
        }),
        ({
            let delay = backoff(base_delay, max_delay, attempt);
            let next = backoff(base_delay, max_delay, attempt + 1);
            next == (if 2 * delay <= max_delay {
                2 * delay
            } else {
                max_delay
            })
        }),
{
    lemma2_to64();
    assert(base_delay * 1 == base_delay) by (nonlinear_arith);
    lemma_doubling(base_delay, max_delay, attempt);
}

/// Transient are a lost call, a timeout and a closed mailbox; errors of the handler and of the
/// types are not.
pub proof fn only_failures_to_reach_are_transient(reason: String, after: Duration)
    ensures
        transient(GrainError::RemoteCallFailed(reason)),
        transient(GrainError::Timeout(after)),
        transient(GrainError::MailboxClosed),
        !transient(GrainError::HandlerFailed(reason)),
        !transient(GrainError::TypeMismatch),
{
}

} // verus!
