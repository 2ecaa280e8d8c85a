use vstd::prelude::*;
use crate::error::Error;

verus! {

/// How the retry policy treats one error: connectivity failures and
/// integrity mismatches are worth another attempt, a cancellation is
/// propagated distinctly and never retried, and everything else (disk
/// trouble, malformed remote documents) needs attention rather than a
/// retry.
pub enum ErrorClass {
    Retryable,
    Terminal,
    Cancel,
}

pub open spec fn spec_classify(e: Error) -> ErrorClass {
    match e {
        Error::Network(_) => ErrorClass::Retryable,
        Error::HashMismatch { .. } => ErrorClass::Retryable,
        Error::Cancelled => ErrorClass::Cancel,
        _ => ErrorClass::Terminal,
    }
}

pub fn classify(e: &Error) -> (r: ErrorClass)
    ensures
        r == spec_classify(*e),
{
    match e {
        Error::Network(_) => ErrorClass::Retryable,
        Error::HashMismatch { .. } => ErrorClass::Retryable,
        Error::Cancelled => ErrorClass::Cancel,
        _ => ErrorClass::Terminal,
    }
}

/// The wait before retry number `attempt + 1`: the base delay scaled by
/// the number of attempts already made, so successive waits grow.
pub open spec fn spec_backoff(base_ms: u64, attempt: u32) -> int {
    base_ms * (attempt + 1)
}

pub fn backoff_delay_ms(base_ms: u64, attempt: u32) -> (r: u64)
    requires
        base_ms * (attempt + 1) <= u64::MAX,
    ensures
        r == spec_backoff(base_ms, attempt),
{
    base_ms * (attempt as u64 + 1)
}

/// A longer-waited attempt always waits strictly longer: the backoff is
/// strictly increasing in the attempt number whenever the base delay is
/// positive.
pub proof fn lemma_backoff_strictly_increasing(base_ms: u64, a: u32, b: u32)
    requires
        base_ms > 0,
        a < b,
    ensures
        spec_backoff(base_ms, a) < spec_backoff(base_ms, b),
{
    assert(base_ms * (a + 1) < base_ms * (b + 1)) by (nonlinear_arith)
        requires
            base_ms > 0,
            a < b,
    ;
}

/// The running state of one retrying operation: how many attempts have
/// been made, how many retries the budget allows beyond the first
/// attempt, and the base backoff delay.
pub struct RetryState {
    pub attempt: u32,
    pub max_retries: u32,
    pub base_delay_ms: u64,
}

/// What to do after a failed attempt: wait the given number of
/// milliseconds and try again, or give up and surface the error.
pub enum RetryDecision {
    Sleep(u64),
    Abort,
}

impl RetryState {
    /// The base delay must leave every possible backoff within `u64`.
    pub open spec fn wf(self) -> bool {
        &&& self.base_delay_ms * (self.max_retries + 1) <= u64::MAX
        &&& self.attempt <= self.max_retries + 1
    }

    pub fn new(max_retries: u32, base_delay_ms: u64) -> (r: RetryState)
        requires
            base_delay_ms * (max_retries + 1) <= u64::MAX,
        ensures
            r.wf(),
            r.attempt == 0,
            r.max_retries == max_retries,
            r.base_delay_ms == base_delay_ms,
    {
        RetryState { attempt: 0, max_retries, base_delay_ms }
    }

    /// Decides after a failed attempt: a retryable error within budget
    /// earns a growing wait and another attempt; a terminal error, a
    /// cancellation, or an exhausted budget ends the operation.
    pub fn on_failure(&mut self, e: &Error) -> (r: RetryDecision)
        requires
            old(self).wf(),
            old(self).attempt <= old(self).max_retries,
        ensures
            final(self).wf(),
            final(self).max_retries == old(self).max_retries,
            final(self).base_delay_ms == old(self).base_delay_ms,
            match r {
                RetryDecision::Sleep(d) => {
                    &&& spec_classify(*e) is Retryable
                    &&& old(self).attempt < old(self).max_retries
                    &&& d == spec_backoff(old(self).base_delay_ms, old(self).attempt)
                    &&& final(self).attempt == old(self).attempt + 1
                },
                RetryDecision::Abort => {
                    &&& (!(spec_classify(*e) is Retryable) || old(self).attempt
                        >= old(self).max_retries)
                    &&& *final(self) == *old(self)
                },
            },
    {
        let retryable = match classify(e) {
            ErrorClass::Retryable => true,
            ErrorClass::Terminal => false,
            ErrorClass::Cancel => false,
        };
        if retryable && self.attempt < self.max_retries {
            proof {
                assert(self.base_delay_ms * (self.attempt + 1) <= self.base_delay_ms * (
                self.max_retries + 1)) by (nonlinear_arith)
                    requires
                        self.attempt < self.max_retries,
                ;
            }
            let d = backoff_delay_ms(self.base_delay_ms, self.attempt);
            self.attempt = self.attempt + 1;
            RetryDecision::Sleep(d)
        } else {
            RetryDecision::Abort
        }
    }
}

/// Replays a whole retrying run over a recorded sequence of per-attempt
/// outcomes (`None` is a success, `Some` an error) and returns how many
/// attempts were made, the final outcome, and the waits between attempts.
/// This is the retry policy in one piece: attempts stop at the first
/// success, at the first non-retryable error, or when the budget of
/// `max_retries` retries beyond the first attempt is spent; and the waits
/// strictly grow.
pub fn run_attempts(outcomes: &Vec<Option<Error>>, max_retries: u32, base_delay_ms: u64) -> (r: (
    u32,
    Option<Error>,
    Vec<u64>,
))
    requires
        max_retries < u32::MAX,
        outcomes@.len() >= max_retries + 1,
        base_delay_ms * (max_retries + 1) <= u64::MAX,
    ensures
        1 <= r.0 <= max_retries + 1,
        forall|i: int|
            0 <= i < r.0 - 1 ==> (#[trigger] outcomes@[i]) is Some && spec_classify(
                outcomes@[i]->0,
            ) is Retryable,
        r.1 == outcomes@[r.0 - 1],
        r.0 == max_retries + 1 || outcomes@[r.0 - 1] is None || !(spec_classify(
            outcomes@[r.0 - 1]->0,
        ) is Retryable),
        r.2@.len() == r.0 - 1,
        forall|i: int| 0 <= i < r.2@.len() ==> r.2@[i] == spec_backoff(base_delay_ms, i as u32),
        base_delay_ms > 0 ==> forall|i: int, j: int|
            0 <= i < j < r.2@.len() ==> r.2@[i] < r.2@[j],
{
    let mut state = RetryState::new(max_retries, base_delay_ms);
    let mut delays: Vec<u64> = Vec::new();
    loop
        invariant
            max_retries < u32::MAX,
            state.wf(),
            state.max_retries == max_retries,
            state.base_delay_ms == base_delay_ms,
            state.attempt <= max_retries,
            outcomes@.len() >= max_retries + 1,
            delays@.len() == state.attempt,
            forall|i: int|
                0 <= i < state.attempt ==> (#[trigger] outcomes@[i]) is Some && spec_classify(
                    outcomes@[i]->0,
                ) is Retryable,
            forall|i: int|
                0 <= i < delays@.len() ==> delays@[i] == spec_backoff(base_delay_ms, i as u32),
        decreases max_retries - state.attempt,
    {
        let idx = state.attempt as usize;
        let outcome = match &outcomes[idx] {
            Some(e) => Some(clone_error(e)),
            None => None,
        };
        match outcome {
            None => {
                proof {
                    lemma_delays_increasing(delays@, base_delay_ms);
                }
                return (state.attempt + 1, None, delays);
            },
            Some(e) => {
                let decision = state.on_failure(&e);
                match decision {
                    RetryDecision::Sleep(d) => {
                        delays.push(d);
                    },
                    RetryDecision::Abort => {
                        proof {
                            lemma_delays_increasing(delays@, base_delay_ms);
                        }
                        return (state.attempt + 1, Some(e), delays);
                    },
                }
            },
        }
    }
}

/// The retry budget is respected: against a transport that fails with a
/// retryable error on every attempt, a run makes exactly one more attempt
/// than the budget allows retries, and the waits between attempts
/// strictly increase. The premises are exactly what [`run_attempts`]
/// guarantees about a finished run.
pub proof fn lemma_retry_budget_respected(
    attempts: u32,
    last: Option<Error>,
    delays: Seq<u64>,
    outcomes: Seq<Option<Error>>,
    max_retries: u32,
    base_delay_ms: u64,
)
    requires
        1 <= attempts <= max_retries + 1,
        attempts == max_retries + 1 || outcomes[attempts - 1] is None || !(spec_classify(
            outcomes[attempts - 1]->0,
        ) is Retryable),
        delays.len() == attempts - 1,
        base_delay_ms > 0 ==> forall|i: int, j: int|
            0 <= i < j < delays.len() ==> delays[i] < delays[j],
        outcomes.len() >= max_retries + 1,
        forall|i: int|
            0 <= i < outcomes.len() ==> (#[trigger] outcomes[i]) is Some && spec_classify(
                outcomes[i]->0,
            ) is Retryable,
        base_delay_ms > 0,
    ensures
        attempts == max_retries + 1,
        delays.len() == max_retries,
        forall|i: int, j: int| 0 <= i < j < delays.len() ==> delays[i] < delays[j],
{
    assert(outcomes[attempts - 1] is Some && spec_classify(outcomes[attempts - 1]->0)
        is Retryable);
}

proof fn lemma_delays_increasing(delays: Seq<u64>, base_delay_ms: u64)
    requires
        forall|i: int| 0 <= i < delays.len() ==> delays[i] == spec_backoff(base_delay_ms, i as u32),
        delays.len() <= u32::MAX,
    ensures
        base_delay_ms > 0 ==> forall|i: int, j: int|
            0 <= i < j < delays.len() ==> delays[i] < delays[j],
{
    if base_delay_ms > 0 {
        assert forall|i: int, j: int| 0 <= i < j < delays.len() implies delays[i] < delays[j] by {
            lemma_backoff_strictly_increasing(base_delay_ms, i as u32, j as u32);
        }
    }
}

fn clone_error(e: &Error) -> (r: Error)
    ensures
        r == *e,
{
    match e {
        Error::Io(s) => Error::Io(s.clone()),
        Error::Network(s) => Error::Network(s.clone()),
        Error::Decode(s) => Error::Decode(s.clone()),
        Error::HashMismatch { expected, actual } => Error::HashMismatch {
            expected: expected.clone(),
            actual: actual.clone(),
        },
        Error::Cancelled => Error::Cancelled,
        Error::Instance(s) => Error::Instance(s.clone()),
        Error::Version(s) => Error::Version(s.clone()),
        Error::Launch(s) => Error::Launch(s.clone()),
        Error::Java(s) => Error::Java(s.clone()),
        Error::Settings(s) => Error::Settings(s.clone()),
        Error::Other(s) => Error::Other(s.clone()),
    }
}

} // verus!
