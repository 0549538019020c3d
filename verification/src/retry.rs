//! When a unary RPC is tried again, and how long to wait before.

use crate::status::Code;
use crate::transport::duration_nanos;
use std::time::Duration;
use vstd::prelude::*;

verus! {

/// When a unary RPC is tried again.
#[derive(Debug)]
pub struct RetryPolicy {
    /// Total number of attempts (1 = no retry). At least one attempt is made,
    /// and no more than five.
    pub max_attempts: usize,
    /// The wait before the second attempt.
    pub initial_backoff: Duration,
    /// The longest wait.
    pub max_backoff: Duration,
    /// The codes on which an RPC is tried again.
    pub retryable_codes: Vec<Code>,
}

/// The number of attempts that a policy allows.
pub open spec fn attempts_allowed(policy: Option<RetryPolicy>) -> nat {
    match policy {
        None => 1,
        Some(p) => if p.max_attempts < 1 {
            1
        } else if p.max_attempts > 5 {
            5
        } else {
            p.max_attempts as nat
        },
    }
}

/// Whether a policy has an RPC tried again on `code`.
pub open spec fn retries_on(policy: Option<RetryPolicy>, code: Code) -> bool {
    policy matches Some(p) && p.retryable_codes@.contains(code)
}

/// The wait before an attempt, of which the uncapped length is `grown`. A length
/// that no duration can hold is none.
pub open spec fn backoff_nanos(attempt: nat, grown: Option<nat>, max: nat) -> nat {
    if attempt == 0 {
        0
    } else {
        match grown {
            Some(n) => if n < max {
                n
            } else {
                max
            },
            None => max,
        }
    }
}

/// A length, if there is one.
pub open spec fn optional_nanos(d: Option<Duration>) -> Option<nat> {
    match d {
        Some(d) => Some(duration_nanos(d)),
        None => None,
    }
}

impl Clone for RetryPolicy {
    fn clone(&self) -> (r: Self)
        ensures
            r.max_attempts == self.max_attempts,
            r.initial_backoff == self.initial_backoff,
            r.max_backoff == self.max_backoff,
            r.retryable_codes@ == self.retryable_codes@,
    {
        let mut codes: Vec<Code> = Vec::new();
        for i in 0..self.retryable_codes.len()
            invariant
                codes@ == self.retryable_codes@.take(i as int),
        {
            codes.push(self.retryable_codes[i]);
            assert(self.retryable_codes@.take(i + 1) =~= self.retryable_codes@.take(i as int).push(
                self.retryable_codes@[i as int],
            ));
        }
        assert(self.retryable_codes@.take(self.retryable_codes@.len() as int)
            =~= self.retryable_codes@);
        RetryPolicy {
            max_attempts: self.max_attempts,
            initial_backoff: self.initial_backoff,
            max_backoff: self.max_backoff,
            retryable_codes: codes,
        }
    }
}

impl RetryPolicy {
    /// Three attempts, waits of 100 ms to 1 s, on `Unavailable` and `Unknown`.
    pub fn default_retry() -> (p: Self)
        ensures
            p.max_attempts == 3,
            duration_nanos(p.initial_backoff) == 100_000_000,
            duration_nanos(p.max_backoff) == 1_000_000_000,
            p.retryable_codes@ == seq![Code::Unavailable, Code::Unknown],
    {
        RetryPolicy {
            max_attempts: 3,
            initial_backoff: Duration::from_millis(100),
            max_backoff: Duration::from_secs(1),
            retryable_codes: vec![Code::Unavailable, Code::Unknown],
        }
    }

    /// Whether an RPC that failed with `code` is tried again.
    pub fn is_retryable(&self, code: Code) -> (b: bool)
        ensures
            b == self.retryable_codes@.contains(code),
    {
        for i in 0..self.retryable_codes.len()
            invariant
                forall|k: int| 0 <= k < i ==> self.retryable_codes@[k] != code,
        {
            if self.retryable_codes[i] == code {
                return true;
            }
        }
        false
    }

    /// The number of attempts: at least one, at most five.
    pub fn attempts(&self) -> (n: usize)
        ensures
            n == attempts_allowed(Some(*self)),
    {
        if self.max_attempts < 1 {
            1
        } else if self.max_attempts > 5 {
            5
        } else {
            self.max_attempts
        }
    }

    /// The wait before an attempt; the first attempt has number 0.
    ///
    /// `grown` is the initial wait after it has grown for this attempt, none if
    /// it has outgrown every duration. The wait never exceeds the longest wait.
    pub fn backoff_for_attempt(&self, attempt: usize, grown: Option<Duration>) -> (d: Duration)
        ensures
            duration_nanos(d) == backoff_nanos(
                attempt as nat,
                optional_nanos(grown),
                duration_nanos(self.max_backoff),
            ),
    {
        if attempt == 0 {
            return Duration::from_nanos(0);
        }
        match grown {
            Some(d) => if d.as_nanos() < self.max_backoff.as_nanos() {
                d
            } else {
                self.max_backoff
            },
            None => self.max_backoff,
        }
    }
}

/// The first attempt is never delayed, and no attempt waits longer than the
/// longest wait.
pub proof fn law_backoff_is_capped(attempt: nat, grown: Option<nat>, max: nat)
    ensures
        backoff_nanos(0, grown, max) == 0,
        backoff_nanos(attempt, grown, max) <= max,
{
}

/// A wait that grows longer never makes the capped wait shorter.
pub proof fn law_backoff_is_monotonic(attempt: nat, a: nat, b: nat, max: nat)
    requires
        a <= b,
    ensures
        backoff_nanos(attempt, Some(a), max) <= backoff_nanos(attempt, Some(b), max),
        backoff_nanos(attempt, Some(b), max) <= backoff_nanos(attempt, None, max),
{
}

/// Before every attempt but the first, a wait that has not outgrown the longest one
/// is waited in full, and any other is cut down to the longest wait. The first
/// attempt is made at once.
pub proof fn law_waits_are_kept_up_to_the_longest(
    p: &RetryPolicy,
    attempt: usize,
    grown: Option<Duration>,
    d: Duration,
)
    requires
        call_ensures(RetryPolicy::backoff_for_attempt, (p, attempt, grown), d),
    ensures
        attempt == 0 ==> duration_nanos(d) == 0,
        attempt > 0 ==> (grown matches Some(g) ==> duration_nanos(g) <= duration_nanos(
            p.max_backoff,
        ) ==> duration_nanos(d) == duration_nanos(g)),
        attempt > 0 ==> (grown matches Some(g) ==> duration_nanos(g) > duration_nanos(
            p.max_backoff,
        ) ==> duration_nanos(d) == duration_nanos(p.max_backoff)),
        attempt > 0 && grown is None ==> duration_nanos(d) == duration_nanos(p.max_backoff),
{
}

/// For attempts after the first the wait is the smaller of the grown wait and the
/// longest one.
pub proof fn law_backoff_is_the_smaller_wait(attempt: nat, n: nat, max: nat)
    requires
        attempt > 0,
    ensures
        n <= max ==> backoff_nanos(attempt, Some(n), max) == n,
        n > max ==> backoff_nanos(attempt, Some(n), max) == max,
        backoff_nanos(attempt, None, max) == max,
{
}

/// A policy is taken at its word between one attempt and five; one that asks for
/// none makes one attempt, and one that asks for more than five makes five.
pub proof fn law_attempts_are_those_of_the_policy(p: &RetryPolicy, n: usize)
    requires
        call_ensures(RetryPolicy::attempts, (p,), n),
    ensures
        1 <= p.max_attempts <= 5 ==> n == p.max_attempts,
        p.max_attempts == 0 ==> n == 1,
        p.max_attempts > 5 ==> n == 5,
        n == attempts_allowed(Some(*p)),
        attempts_allowed(None) == 1,
{
}

/// A code is tried again on exactly if it stands somewhere in the policy's list;
/// without a policy none is.
pub proof fn law_listed_codes_are_retried(p: &RetryPolicy, code: Code, b: bool)
    requires
        call_ensures(RetryPolicy::is_retryable, (p, code), b),
    ensures
        b <==> exists|i: int|
            0 <= i < p.retryable_codes@.len() && #[trigger] p.retryable_codes@[i] == code,
        b == retries_on(Some(*p), code),
        !retries_on(None, code),
{
}

/// The default policy makes three attempts, waits from 100 ms up to one second, and
/// tries again on `Unavailable` and `Unknown` and on no other code.
pub proof fn law_default_policy(p: RetryPolicy, code: Code, b: bool)
    requires
        call_ensures(RetryPolicy::default_retry, (), p),
        call_ensures(RetryPolicy::is_retryable, (&p, code), b),
    ensures
        attempts_allowed(Some(p)) == 3,
        duration_nanos(p.initial_backoff) == 100_000_000,
        duration_nanos(p.max_backoff) == 1_000_000_000,
        b <==> (code == Code::Unavailable || code == Code::Unknown),
{
    assert(p.retryable_codes@[0] == Code::Unavailable && p.retryable_codes@[1] == Code::Unknown);
}

/// A copy of a policy is the same policy.
pub proof fn law_policies_are_copied(p: &RetryPolicy, copy: RetryPolicy)
    requires
        call_ensures(<RetryPolicy as Clone>::clone, (p,), copy),
    ensures
        copy.max_attempts == p.max_attempts,
        copy.initial_backoff == p.initial_backoff,
        copy.max_backoff == p.max_backoff,
        copy.retryable_codes@ == p.retryable_codes@,
{
}

} // verus!
