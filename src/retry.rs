use vstd::prelude::*;

verus! {

/// How a fallible operation is retried.
#[derive(Clone, Copy, Debug, PartialEq, Eq)]
pub struct RetryPolicy {
    /// Failures after which each further failure is reported as a warning.
    pub warn_threshold: u32,
    /// Retries after the first attempt before the error is final.
    pub max_retries: u32,
    /// Delay before the first retry; it doubles with each retry.
    pub base_backoff_ms: u64,
    /// Upper bound of the doubling delay.
    pub max_backoff_ms: u64,
}

/// How one attempt of the operation ended.
#[derive(Clone, Copy, Debug, PartialEq, Eq)]
pub enum Attempt {
    Succeeded,
    /// Failed; `permanent` is what the caller's predicate says of the error.
    Failed { permanent: bool },
}

/// What the executor does after an attempt.
#[derive(Clone, Copy, Debug, PartialEq, Eq)]
pub enum RetryDecision {
    /// Hand the attempt's result to the caller, success or error.
    Finish,
    /// Sleep this long, then try again; `warn` asks for a warning.
    Retry { delay_ms: u64, warn: bool },
    /// Cancellation was signalled: stop without a result.
    Cancelled,
}

/// The capped doubling delay before retry number `n + 1`.
pub open spec fn backoff_spec(base: nat, cap: nat, n: nat) -> nat
    decreases n,
{
    if n == 0 {
        if base <= cap { base } else { cap }
    } else {
        let d = 2 * backoff_spec(base, cap, (n - 1) as nat);
        if d <= cap { d } else { cap }
    }
}

pub open spec fn jitter_spec(base: nat, jitter: nat) -> nat {
    if jitter <= base { jitter } else { base }
}

/// A delay in milliseconds, held at the largest `u64` where it would exceed it.
pub open spec fn saturate(ms: nat) -> u64 {
    if ms <= u64::MAX {
        ms as u64
    } else {
        u64::MAX
    }
}

impl RetryPolicy {
    /// The decision after the attempt that followed `failures` failures.
    pub open spec fn decision(&self, failures: nat, outcome: Attempt, cancelled: bool, jitter: nat) -> RetryDecision {
        match outcome {
            Attempt::Succeeded => RetryDecision::Finish,
            Attempt::Failed { permanent } => {
                if cancelled {
                    RetryDecision::Cancelled
                } else if permanent || failures >= self.max_retries {
                    RetryDecision::Finish
                } else {
                    RetryDecision::Retry {
                        delay_ms: saturate(backoff_spec(
                            self.base_backoff_ms as nat,
                            self.max_backoff_ms as nat,
                            failures,
                        ) + jitter_spec(self.base_backoff_ms as nat, jitter)),
                        warn: failures >= self.warn_threshold,
                    }
                }
            },
        }
    }

    /// The delay before the retry that follows `failures` failures, before
    /// jitter.
    pub fn backoff_ms(&self, failures: u32) -> (r: u64)
        ensures
            r == backoff_spec(self.base_backoff_ms as nat, self.max_backoff_ms as nat, failures as nat),
    {
        let cap = self.max_backoff_ms;
        let mut d: u64 = if self.base_backoff_ms <= cap { self.base_backoff_ms } else { cap };
        let mut i: u32 = 0;
        while i < failures
            invariant
                i <= failures,
                d <= cap,
                d == backoff_spec(self.base_backoff_ms as nat, cap as nat, i as nat),
            decreases failures - i,
        {
            d = if d > cap / 2 { cap } else { 2 * d };
            i = i + 1;
        }
        d
    }

    /// Decides what follows an attempt. `failures` counts the failed attempts
    /// before this one; `cancelled` is the state of the cancellation signal;
    /// `jitter_ms` is a random amount, of which at most the base delay is
    /// added to the delay.
    pub fn decide(&self, failures: u32, outcome: Attempt, cancelled: bool, jitter_ms: u64) -> (r: RetryDecision)
        ensures
            r == self.decision(failures as nat, outcome, cancelled, jitter_ms as nat),
    {
        match outcome {
            Attempt::Succeeded => RetryDecision::Finish,
            Attempt::Failed { permanent } => {
                if cancelled {
                    RetryDecision::Cancelled
                } else if permanent || failures >= self.max_retries {
                    RetryDecision::Finish
                } else {
                    let d = self.backoff_ms(failures);
                    let j = if jitter_ms <= self.base_backoff_ms { jitter_ms } else { self.base_backoff_ms };
                    let delay = if d <= u64::MAX - j { d + j } else { u64::MAX };
                    RetryDecision::Retry { delay_ms: delay, warn: failures >= self.warn_threshold }
                }
            },
        }
    }
}

/// How a run of the executor ends.
pub enum RunEnd {
    Success,
    Error,
    Cancelled,
    /// The given outcomes ran out before the run ended.
    Unfinished,
}

/// The end of a run whose attempts end as `outcomes` says, from the attempt
/// after `failures` failures on, with no cancellation: the result and the
/// number of attempts made.
pub open spec fn run(policy: RetryPolicy, outcomes: Seq<Attempt>, failures: nat) -> (RunEnd, nat)
    decreases outcomes.len() - failures,
{
    if failures >= outcomes.len() {
        (RunEnd::Unfinished, failures)
    } else {
        match policy.decision(failures, outcomes[failures as int], false, 0) {
            RetryDecision::Retry { .. } => run(policy, outcomes, failures + 1),
            _ => (
                if outcomes[failures as int] is Succeeded {
                    RunEnd::Success
                } else {
                    RunEnd::Error
                },
                failures + 1,
            ),
        }
    }
}

/// An operation that fails permanently is attempted once and its error is
/// final; one that fails `k - 1` times transiently and then succeeds, with
/// `k - 1` within the retry budget, succeeds after `k` attempts; one that
/// keeps failing transiently ends in its error after `max_retries + 1`
/// attempts; cancellation seen after a failure stops at once.
pub proof fn law_retry(policy: RetryPolicy, outcomes: Seq<Attempt>, k: nat, failures: nat)
    ensures
        outcomes.len() > 0 && outcomes[0] == (Attempt::Failed { permanent: true }) ==> run(
            policy,
            outcomes,
            0,
        ) == (RunEnd::Error, 1nat),
        1 <= k <= policy.max_retries + 1 && outcomes.len() == k && outcomes[k - 1]
            == Attempt::Succeeded && (forall|i: int|
            0 <= i < k - 1 ==> #[trigger] outcomes[i] == (Attempt::Failed { permanent: false }))
            ==> run(policy, outcomes, 0) == (RunEnd::Success, k),
        outcomes.len() == policy.max_retries + 1 && (forall|i: int|
            0 <= i < outcomes.len() ==> #[trigger] outcomes[i] == (Attempt::Failed {
                permanent: false,
            })) ==> run(policy, outcomes, 0) == (RunEnd::Error, outcomes.len()),
        forall|o: Attempt, j: nat|
            !(o is Succeeded) ==> #[trigger] policy.decision(failures, o, true, j)
                == RetryDecision::Cancelled,
{
    if 1 <= k <= policy.max_retries + 1 && outcomes.len() == k && outcomes[k - 1]
        == Attempt::Succeeded && (forall|i: int|
        0 <= i < k - 1 ==> #[trigger] outcomes[i] == (Attempt::Failed { permanent: false })) {
        lemma_run_transient(policy, outcomes, 0);
    }
    if outcomes.len() == policy.max_retries + 1 && (forall|i: int|
        0 <= i < outcomes.len() ==> #[trigger] outcomes[i] == (Attempt::Failed {
            permanent: false,
        })) {
        lemma_run_transient(policy, outcomes, 0);
    }
}

proof fn lemma_run_transient(policy: RetryPolicy, outcomes: Seq<Attempt>, f: nat)
    requires
        f < outcomes.len() <= policy.max_retries + 1,
        forall|i: int| 0 <= i < outcomes.len() - 1 ==> #[trigger] outcomes[i] == (Attempt::Failed { permanent: false }),
        outcomes.last() is Succeeded || outcomes.len() == policy.max_retries + 1 && outcomes.last() == (
        Attempt::Failed { permanent: false }),
    ensures
        run(policy, outcomes, f) == (
            if outcomes.last() is Succeeded {
                RunEnd::Success
            } else {
                RunEnd::Error
            },
            outcomes.len(),
        ),
    decreases outcomes.len() - f,
{
    if f + 1 < outcomes.len() {
        assert(outcomes[f as int] == (Attempt::Failed { permanent: false }));
        lemma_run_transient(policy, outcomes, f + 1);
    }
}

} // verus!
