//! Retry policy evaluation: given the attempt number just finished and the
//! application failure it ended with, decide whether the activity may retry
//! and, if so, after what backoff.
//!
//! The backoff before attempt `n + 1` is the initial interval grown by the
//! backoff coefficient `n - 1` times, saturating on overflow and capped at
//! the maximum interval when one is set.

use vstd::prelude::*;

use crate::types::ApplicationFailure;
use crate::types::ApplicationFailureView;
use crate::types::RetryPolicy;
use crate::types::RetryPolicyView;

verus! {

/// `a * b`, saturating at `u64::MAX`.
pub open spec fn sat_mul(a: u64, b: u64) -> u64 {
    if a * b > u64::MAX {
        u64::MAX
    } else {
        (a * b) as u64
    }
}

/// One growth step of the backoff interval: multiply by the coefficient,
/// saturating, then cap.
pub open spec fn backoff_step(cur: u64, coeff: u32, cap: u64) -> u64 {
    let grown = sat_mul(cur, coeff as u64);
    if grown <= cap {
        grown
    } else {
        cap
    }
}

/// The backoff interval after `exp` growth steps from `initial`, capped at
/// `cap` throughout.
pub open spec fn backoff_ms_spec(initial: u64, coeff: u32, cap: u64, exp: nat) -> u64
    decreases exp,
{
    if exp == 0 {
        if initial <= cap {
            initial
        } else {
            cap
        }
    } else {
        backoff_step(backoff_ms_spec(initial, coeff, cap, (exp - 1) as nat), coeff, cap)
    }
}

/// Once a growth step no longer changes the interval, it never will.
pub proof fn lemma_backoff_stationary(initial: u64, coeff: u32, cap: u64, i: nat, j: nat)
    requires
        i <= j,
        backoff_step(backoff_ms_spec(initial, coeff, cap, i), coeff, cap) == backoff_ms_spec(
            initial,
            coeff,
            cap,
            i,
        ),
    ensures
        backoff_ms_spec(initial, coeff, cap, j) == backoff_ms_spec(initial, coeff, cap, i),
    decreases j - i,
{
    if j > i {
        lemma_backoff_stationary(initial, coeff, cap, i, (j - 1) as nat);
    }
}

/// The cap the policy puts on backoff intervals: its maximum interval when
/// set, otherwise no cap.
pub open spec fn cap_of(p: RetryPolicyView) -> u64 {
    match p.maximum_interval_ms {
        Some(m) => m,
        None => u64::MAX,
    }
}

/// Whether the failure type name stands in the policy's non-retryable list.
pub open spec fn type_in_list(types: Seq<Seq<char>>, t: Seq<char>) -> bool {
    exists|i: int| 0 <= i < types.len() && types[i] == t
}

/// The ghost value of an optional borrowed failure.
pub open spec fn failure_view(f: Option<&ApplicationFailure>) -> Option<ApplicationFailureView> {
    match f {
        Some(af) => Some(af@),
        None => None,
    }
}

/// The retry decision: `None` when attempts are exhausted, when the failure
/// forbids retrying, when its type is listed as non-retryable, or when the
/// policy has no initial interval; otherwise the backoff in milliseconds
/// before the next attempt.
pub open spec fn should_retry_spec(
    p: RetryPolicyView,
    attempt: u32,
    failure: Option<ApplicationFailureView>,
) -> Option<u64> {
    if p.maximum_attempts > 0 && attempt >= p.maximum_attempts {
        None
    } else if failure is Some && failure->0.non_retryable {
        None
    } else if failure is Some && type_in_list(p.non_retryable_error_types, failure->0.failure_type) {
        None
    } else {
        match p.initial_interval_ms {
            None => None,
            Some(init) => Some(
                backoff_ms_spec(
                    init,
                    p.backoff_coefficient,
                    cap_of(p),
                    if attempt >= 1 {
                        (attempt - 1) as nat
                    } else {
                        0
                    },
                ),
            ),
        }
    }
}

/// `a * b`, saturating at `u64::MAX`.
fn mul_saturating(a: u64, b: u64) -> (r: u64)
    ensures
        r == sat_mul(a, b),
{
    match a.checked_mul(b) {
        Some(v) => v,
        None => u64::MAX,
    }
}

/// Grow `initial` by `coeff` for `exp` steps, capping at `cap`, stopping
/// early once the interval is stationary.
fn compute_backoff(initial: u64, coeff: u32, cap: u64, exp: u32) -> (r: u64)
    ensures
        r == backoff_ms_spec(initial, coeff, cap, exp as nat),
{
    let mut cur: u64 = if initial <= cap {
        initial
    } else {
        cap
    };
    let mut i: u32 = 0;
    while i < exp
        invariant
            i <= exp,
            cur == backoff_ms_spec(initial, coeff, cap, i as nat),
        decreases exp - i,
    {
        let grown = mul_saturating(cur, coeff as u64);
        let next = if grown <= cap {
            grown
        } else {
            cap
        };
        if next == cur {
            proof {
                lemma_backoff_stationary(initial, coeff, cap, i as nat, exp as nat);
            }
            i = exp;
        } else {
            cur = next;
            i = i + 1;
        }
    }
    cur
}

/// Whether `t` occurs in `types`.
fn string_in_list(types: &Vec<String>, t: &String) -> (r: bool)
    ensures
        r == type_in_list(types.deep_view(), t@),
{
    let mut i: usize = 0;
    while i < types.len()
        invariant
            i <= types@.len(),
            forall|j: int| 0 <= j < i ==> types.deep_view()[j] != t@,
        decreases types@.len() - i,
    {
        if <String as PartialEq>::eq(&types[i], t) {
            assert(types.deep_view()[i as int] == t@);
            return true;
        }
        i = i + 1;
    }
    false
}

impl RetryPolicy {
    /// Decide whether the attempt just finished may retry, and after what
    /// backoff in milliseconds.
    pub fn should_retry(&self, attempt: u32, failure: Option<&ApplicationFailure>) -> (r: Option<
        u64,
    >)
        ensures
            r == should_retry_spec(self@, attempt, failure_view(failure)),
    {
        if self.maximum_attempts > 0 && attempt >= self.maximum_attempts {
            return None;
        }
        if let Some(af) = failure {
            if af.non_retryable {
                return None;
            }
            if string_in_list(&self.non_retryable_error_types, &af.failure_type) {
                return None;
            }
        }
        let cap = match self.maximum_interval_ms {
            Some(m) => m,
            None => u64::MAX,
        };
        match self.initial_interval_ms {
            None => None,
            Some(init) => {
                let exp = if attempt >= 1 {
                    attempt - 1
                } else {
                    0
                };
                Some(compute_backoff(init, self.backoff_coefficient, cap, exp))
            },
        }
    }
}

} // verus!
