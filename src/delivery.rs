//! The per-task state machine of the delivery worker: what an attempt's
//! outcome does to the task, and how long a failed task waits.
use vstd::prelude::*;

verus! {

/// How often, and how patiently, a failing task is retried.
#[derive(Debug, Clone, Copy, PartialEq, Eq, Structural)]
pub struct RetryPolicy {
    /// An attempt whose failure brings the count of failures to this bound is the last.
    pub max_retries: u32,
    /// Wait after the first failure, in seconds; it doubles with each further failure.
    pub base_backoff_secs: u64,
    /// No wait is longer than this, in seconds.
    pub max_backoff_secs: u64,
}

impl RetryPolicy {
    /// Waits are at least a second, so that a retried task is due strictly later.
    pub open spec fn valid(&self) -> bool {
        self.base_backoff_secs >= 1 && self.max_backoff_secs >= 1
    }
}

/// Under a valid policy every wait is at least one second.
pub proof fn lemma_backoff_positive(p: RetryPolicy, n_retries: nat)
    requires
        p.valid(),
    ensures
        backoff_spec(p, n_retries) >= 1,
{
    let e = (if n_retries == 0 { 0 } else { n_retries - 1 }) as nat;
    lemma_pow2_grows(e);
    assert(p.base_backoff_secs * pow2(e) >= 1) by (nonlinear_arith)
        requires p.base_backoff_secs >= 1, pow2(e) >= 1;
}

impl Default for RetryPolicy {
    fn default() -> (r: RetryPolicy)
        ensures
            r.max_retries == 3 && r.base_backoff_secs == 1 && r.max_backoff_secs == 60,
    {
        RetryPolicy { max_retries: 3, base_backoff_secs: 1, max_backoff_secs: 60 }
    }
}

pub open spec fn pow2(n: nat) -> nat
    decreases n,
{
    if n == 0 {
        1
    } else {
        2 * pow2((n - 1) as nat)
    }
}

/// The wait before retrying a task that has failed `n_retries >= 1` times:
/// `base * 2^(n_retries - 1)`, capped at `max_backoff_secs`.
pub open spec fn backoff_spec(p: RetryPolicy, n_retries: nat) -> nat {
    let raw = (p.base_backoff_secs * pow2((if n_retries == 0 { 0 } else { n_retries - 1 }) as nat)) as nat;
    if raw > p.max_backoff_secs {
        p.max_backoff_secs as nat
    } else {
        raw
    }
}

/// `a + b`, or `u64::MAX` where the sum would not fit.
pub open spec fn saturating_sum(a: u64, b: nat) -> u64 {
    if a + b > u64::MAX {
        u64::MAX
    } else {
        (a + b) as u64
    }
}

proof fn lemma_pow2_grows(n: nat)
    ensures
        pow2(n) >= 1,
        pow2(n + 1) == 2 * pow2(n),
    decreases n,
{
    if n > 0 {
        lemma_pow2_grows((n - 1) as nat);
    }
}

/// The wait, in seconds, after the `n_retries`-th failure.
pub fn backoff(policy: &RetryPolicy, n_retries: u32) -> (r: u64)
    ensures
        r == backoff_spec(*policy, n_retries as nat),
{
    let steps: u32 = if n_retries == 0 { 0 } else { n_retries - 1 };
    let mut raw: u128 = policy.base_backoff_secs as u128;
    let mut i: u32 = 0;
    assert(pow2(0) == 1);
    assert(policy.base_backoff_secs * pow2(0) == policy.base_backoff_secs);
    while i < steps
        invariant
            i <= steps,
            steps == (if n_retries == 0 { 0 } else { n_retries - 1 }),
            raw <= policy.max_backoff_secs ==> raw == policy.base_backoff_secs * pow2(i as nat),
            raw > policy.max_backoff_secs ==> policy.base_backoff_secs * pow2(i as nat) > policy.max_backoff_secs,
        decreases steps - i,
    {
        proof {
            lemma_pow2_grows(i as nat);
        }
        if raw > policy.max_backoff_secs as u128 {
            assert(policy.base_backoff_secs * pow2((i + 1) as nat) == 2 * (policy.base_backoff_secs * pow2(i as nat))) by (nonlinear_arith)
                requires pow2((i + 1) as nat) == 2 * pow2(i as nat);
        } else {
            assert(policy.base_backoff_secs * pow2((i + 1) as nat) == 2 * (policy.base_backoff_secs * pow2(i as nat))) by (nonlinear_arith)
                requires pow2((i + 1) as nat) == 2 * pow2(i as nat);
            raw = raw * 2;
        }
        i = i + 1;
    }
    if raw > policy.max_backoff_secs as u128 {
        policy.max_backoff_secs
    } else {
        raw as u64
    }
}

/// What one attempt to send a task came to.
#[derive(Debug, Clone, Copy, PartialEq, Eq, Structural)]
pub enum AttemptOutcome {
    /// The transport accepted the email.
    Sent,
    /// The transport failed; a later attempt may succeed.
    TransportFailed,
    /// The stored address does not validate; no attempt can succeed.
    InvalidRecipient,
}

/// Why a task was dropped without being sent.
#[derive(Debug, Clone, Copy, PartialEq, Eq, Structural)]
pub enum PermanentFailure {
    InvalidRecipient,
    RetriesExhausted,
}

/// What becomes of a task's row after an attempt.
#[derive(Debug, Clone, Copy, PartialEq, Eq, Structural)]
pub enum TaskDecision {
    /// Sent: delete the row.
    Delete,
    /// Failed for good: delete the row and log the failure.
    Drop(PermanentFailure),
    /// Failed for now: keep the row with these bookkeeping values.
    Retry { n_retries: u32, execute_after: u64 },
}

/// The decision for a task that had failed `n_retries` times before an
/// attempt that came to `outcome` at time `now`.
pub open spec fn decide_spec(policy: RetryPolicy, n_retries: u32, outcome: AttemptOutcome, now: u64) -> TaskDecision {
    match outcome {
        AttemptOutcome::Sent => TaskDecision::Delete,
        AttemptOutcome::InvalidRecipient => TaskDecision::Drop(PermanentFailure::InvalidRecipient),
        AttemptOutcome::TransportFailed => if n_retries + 1 >= policy.max_retries {
            TaskDecision::Drop(PermanentFailure::RetriesExhausted)
        } else {
            TaskDecision::Retry {
                n_retries: (n_retries + 1) as u32,
                execute_after: saturating_sum(now, backoff_spec(policy, (n_retries + 1) as nat)),
            }
        },
    }
}

/// Applies the retry policy to the outcome of one attempt.
pub fn decide(policy: &RetryPolicy, n_retries: u32, outcome: AttemptOutcome, now: u64) -> (r: TaskDecision)
    requires
        policy.valid(),
    ensures
        r == decide_spec(*policy, n_retries, outcome, now),
        r matches TaskDecision::Retry { execute_after, .. } ==> execute_after > now || now == u64::MAX,
{
    proof {
        lemma_backoff_positive(*policy, (n_retries + 1) as nat);
    }
    match outcome {
        AttemptOutcome::Sent => TaskDecision::Delete,
        AttemptOutcome::InvalidRecipient => TaskDecision::Drop(PermanentFailure::InvalidRecipient),
        AttemptOutcome::TransportFailed => {
            if n_retries as u64 + 1 >= policy.max_retries as u64 {
                TaskDecision::Drop(PermanentFailure::RetriesExhausted)
            } else {
                let n = n_retries + 1;
                let wait = backoff(policy, n);
                let after = if now > u64::MAX - wait { u64::MAX } else { now + wait };
                TaskDecision::Retry { n_retries: n, execute_after: after }
            }
        },
    }
}

/// A task may be claimed at `now` when it is due and no worker holds it.
pub open spec fn claimable(execute_after: u64, locked_by: Option<u64>, now: u64) -> bool {
    execute_after <= now && locked_by is None
}

/// The failure count of a fresh task after `k` consecutive transport
/// failures, or `None` once the task has been dropped.
pub open spec fn after_failures(p: RetryPolicy, k: nat, now: u64) -> Option<u32>
    decreases k,
{
    if k == 0 {
        Some(0)
    } else {
        match after_failures(p, (k - 1) as nat, now) {
            None => None,
            Some(n) => match decide_spec(p, n, AttemptOutcome::TransportFailed, now) {
                TaskDecision::Retry { n_retries, .. } => Some(n_retries),
                _ => None,
            },
        }
    }
}

/// A task is kept after fewer than `max_retries` consecutive failures, with the
/// count of those failures; the `max_retries`-th failure drops it, and nothing
/// brings it back.
pub proof fn lemma_retries_exhaust(p: RetryPolicy, k: nat, now: u64)
    requires
        p.max_retries >= 1,
    ensures
        k < p.max_retries ==> after_failures(p, k, now) == Some(k as u32),
        k >= p.max_retries ==> after_failures(p, k, now) is None,
        k == p.max_retries ==> decide_spec(
            p,
            (k - 1) as u32,
            AttemptOutcome::TransportFailed,
            now,
        ) == TaskDecision::Drop(PermanentFailure::RetriesExhausted),
    decreases k,
{
    if k > 0 {
        lemma_retries_exhaust(p, (k - 1) as nat, now);
    }
}

/// A fresh task that fails twice and then is sent, under a bound above two, is
/// kept after each failure, with one more failure counted each time and no
/// lock held, and is deleted once, on the attempt that sent it.
pub proof fn lemma_fail_twice_then_send(p: RetryPolicy, now1: u64, now2: u64, now3: u64)
    requires
        p.max_retries > 2,
    ensures
        decide_spec(p, 0, AttemptOutcome::TransportFailed, now1) matches TaskDecision::Retry { n_retries, .. }
            && n_retries == 1,
        decide_spec(p, 1, AttemptOutcome::TransportFailed, now2) matches TaskDecision::Retry { n_retries, .. }
            && n_retries == 2,
        decide_spec(p, 2, AttemptOutcome::Sent, now3) == TaskDecision::Delete,
{
}

} // verus!
