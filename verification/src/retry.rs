//! Repeating what failed, with growing pauses.

use crate::text::{decimal, decimal_text};
use vstd::arithmetic::power2::{lemma2_to64, lemma_pow2_strictly_increases, pow2};
use vstd::bits::lemma_u32_shl_is_mul;
use vstd::prelude::*;
use vstd::string::*;

verus! {

/// How often an operation is tried.
#[derive(Debug)]
pub struct RetryPolicy {
    pub max_retries: usize,
}

/// The pause after attempt `attempt`, in milliseconds: a second at first, and twice as
/// long each time.
pub open spec fn backoff_ms(attempt: int) -> nat {
    pow2((attempt - 1) as nat) * 1000
}

/// `s` as a quoted literal, with escapes.
pub uninterp spec fn quoted(s: Seq<char>) -> Seq<char>;

/// `format!("{:?}", ..)` of a string slice: the text in quotes, with what needs it
/// escaped. It depends on the text alone; which characters are escaped is not stated.
#[verifier::external_body]
fn debug_text(s: &str) -> (r: String)
    ensures
        r@ == quoted(s@),
{
    format!("{:?}", s)
}

/// The last error of a run of attempts, as the final message shows it.
pub open spec fn shown(last_error: Option<Seq<char>>) -> Seq<char> {
    match last_error {
        Some(e) => "Some("@ + quoted(e) + ")"@,
        None => "None"@,
    }
}

/// The message when no attempt is left.
pub open spec fn exhausted(max_retries: nat, last_error: Option<Seq<char>>) -> Seq<char> {
    "Failed after "@ + decimal(max_retries) + " retries: "@ + shown(last_error)
}

/// What follows from an attempt.
#[derive(Debug)]
pub enum RetryStep<T> {
    /// It has succeeded.
    Return(T),
    /// It has failed with this error; the next attempt follows after a pause.
    Again { error: String, delay_ms: u32 },
    /// It has failed, and no attempt is left.
    GiveUp(String),
}

impl RetryPolicy {
    pub fn new(max_retries: usize) -> (r: Self)
        ensures
            r.max_retries == max_retries,
    {
        RetryPolicy { max_retries }
    }

    /// The pause after a failed attempt; none after the last one.
    pub fn delay_ms(&self, attempt: usize) -> (r: Option<u32>)
        requires
            attempt < self.max_retries ==> 1 <= attempt <= 23,
        ensures
            match r {
                Some(d) => attempt < self.max_retries && d == backoff_ms(attempt as int),
                None => attempt >= self.max_retries,
            },
    {
        if attempt < self.max_retries {
            Some(calculate_retry_delay_ms(attempt))
        } else {
            None
        }
    }

    /// What follows from the result of attempt `attempt`; attempts count from 1.
    pub fn after_attempt<T>(&self, attempt: usize, result: Result<T, String>) -> (r: RetryStep<T>)
        requires
            attempt < self.max_retries ==> 1 <= attempt <= 23,
        ensures
            match result {
                Ok(v) => r == RetryStep::Return(v),
                Err(e) => if attempt < self.max_retries {
                    r matches RetryStep::Again { error, delay_ms } && error@ == e@ && delay_ms == backoff_ms(
                        attempt as int,
                    )
                } else {
                    r matches RetryStep::GiveUp(m) && m@ == exhausted(self.max_retries as nat, Some(e@))
                },
            },
    {
        match result {
            Ok(value) => RetryStep::Return(value),
            Err(error) => match self.delay_ms(attempt) {
                Some(delay_ms) => RetryStep::Again { error, delay_ms },
                None => RetryStep::GiveUp(
                    retry_exhausted_error_with(self.max_retries, Some(error.as_str())),
                ),
            },
        }
    }
}

fn calculate_retry_delay_ms(attempt: usize) -> (r: u32)
    requires
        1 <= attempt <= 23,
    ensures
        r == backoff_ms(attempt as int),
{
    let n: u32 = (attempt - 1) as u32;
    proof {
        lemma2_to64();
        if n < 22 {
            lemma_pow2_strictly_increases(n as nat, 22);
        }
        lemma_u32_shl_is_mul(1, n);
    }
    (1u32 << n) * 1000
}

/// The message when no attempt is left.
pub fn retry_exhausted_error_with(max_retries: usize, last_error: Option<&str>) -> (r: String)
    ensures
        r@ == exhausted(max_retries as nat, crate::session::str_opt(last_error)),
{
    let mut s = "Failed after ".to_string();
    s.append(decimal_text(max_retries as u64).as_str());
    s.append(" retries: ");
    match last_error {
        Some(e) => {
            s.append("Some(");
            s.append(debug_text(e).as_str());
            s.append(")");
            assert(s@ =~= exhausted(max_retries as nat, Some(e@)));
        },
        None => {
            s.append("None");
        },
    }
    s
}

/// Attempt `n` of `op` can have failed, after which `on_retry` was told about it.
pub open spec fn retried<T, F: Fn(usize) -> Result<T, String>, R: Fn(usize, &str, u32)>(
    op: F,
    on_retry: R,
    n: usize,
) -> bool {
    exists|e: String, s: &str, d: u32|
        #![trigger call_ensures(op, (n,), Err::<T, String>(e)), call_ensures(on_retry, (n, s, d), ())]
        call_ensures(op, (n,), Err::<T, String>(e)) && s@ == e@ && d == backoff_ms(n as int)
            && call_ensures(on_retry, (n, s, d), ())
}

/// Tries `op` until it succeeds or no attempt is left. After each failure but the last,
/// `on_retry` is told the attempt, the error and the pause.
pub fn run_with_retry_string<T, F: Fn(usize) -> Result<T, String>, R: Fn(usize, &str, u32)>(
    policy: &RetryPolicy,
    op: F,
    on_retry: R,
) -> (r: Result<T, String>)
    requires
        policy.max_retries <= 24,
        forall|n: usize| 1 <= n <= policy.max_retries ==> call_requires(op, (n,)),
        forall|n: usize, e: &str, d: u32| 1 <= n < policy.max_retries ==> call_requires(on_retry, (n, e, d)),
    ensures
        match r {
            Ok(v) => exists|n: usize|
                1 <= n <= policy.max_retries && #[trigger] call_ensures(op, (n,), Ok::<T, String>(v))
                    && forall|m: usize| 1 <= m < n ==> #[trigger] retried(op, on_retry, m),
            Err(msg) => {
                &&& forall|m: usize| 1 <= m < policy.max_retries ==> #[trigger] retried(op, on_retry, m)
                &&& if policy.max_retries == 0 {
                    msg@ == exhausted(0, None)
                } else {
                    exists|e: String|
                        #[trigger] call_ensures(op, (policy.max_retries,), Err::<T, String>(e))
                            && msg@ == exhausted(policy.max_retries as nat, Some(e@))
                }
            },
        },
{
    let mut attempt: usize = 0;
    while attempt < policy.max_retries
        invariant
            attempt <= policy.max_retries <= 24,
            attempt == policy.max_retries ==> attempt == 0,
            forall|n: usize| 1 <= n <= policy.max_retries ==> call_requires(op, (n,)),
            forall|n: usize, e: &str, d: u32| 1 <= n < policy.max_retries ==> call_requires(on_retry, (n, e, d)),
            forall|m: usize| 1 <= m <= attempt ==> #[trigger] retried(op, on_retry, m),
        decreases policy.max_retries - attempt,
    {
        attempt = attempt + 1;
        let result = op(attempt);
        match policy.after_attempt(attempt, result) {
            RetryStep::Return(value) => {
                return Ok(value);
            },
            RetryStep::Again { error, delay_ms } => {
                on_retry(attempt, error.as_str(), delay_ms);
                assert(retried(op, on_retry, attempt));
            },
            RetryStep::GiveUp(message) => {
                return Err(message);
            },
        }
    }
    Err(retry_exhausted_error_with(policy.max_retries, None))
}

/// Each pause is twice as long as the one before.
pub proof fn lemma_backoff_doubles(attempt: int)
    requires
        attempt >= 1,
    ensures
        backoff_ms(1) == 1000,
        backoff_ms(attempt + 1) == 2 * backoff_ms(attempt),
{
    lemma2_to64();
    vstd::arithmetic::power2::lemma_pow2_unfold(attempt as nat);
}

} // verus!
