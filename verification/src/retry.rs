//! Sending a request again when the service is briefly unavailable: which
//! failures are retried, how long to wait, and when to give up.

use vstd::prelude::*;

use crate::text::{decimal_text, push_decimal};

verus! {

/// How many times a request is sent again after the first attempt.
pub const MAX_RETRIES: u32 = 3;

/// The pause before the first retry, in milliseconds; it doubles with each
/// further retry.
pub const INITIAL_BACKOFF_MS: u64 = 1000;

/// Whether a reply with this HTTP status is worth sending the request again
/// for: 502 Bad Gateway, 503 Service Unavailable, 504 Gateway Timeout and
/// 408 Request Timeout.
pub open spec fn retryable_status(status: u16) -> bool {
    status == 502 || status == 503 || status == 504 || status == 408
}

/// Whether a reply with this HTTP status is worth sending the request again
/// for.
pub fn is_retryable(status: u16) -> (r: bool)
    ensures
        r == retryable_status(status),
{
    status == 502 || status == 503 || status == 504 || status == 408
}

/// Two to the power `n`.
pub open spec fn pow2(n: nat) -> nat
    decreases n,
{
    if n == 0 {
        1
    } else {
        2 * pow2((n - 1) as nat)
    }
}

/// The pause before retry number `attempt` (from 1), in milliseconds.
pub open spec fn backoff_ms(attempt: nat) -> nat {
    (INITIAL_BACKOFF_MS as nat) * pow2((attempt - 1) as nat)
}

/// What became of one sending of a request.
pub enum SendOutcome {
    /// The service replied with this HTTP status.
    Status(u16),
    /// The connection failed or timed out; the text describes the error.
    Transient(String),
    /// Any other failure; the text describes the error.
    Failed(String),
}

/// The model of a send outcome.
pub enum OutcomeModel {
    Status(u16),
    Transient(Seq<char>),
    Failed(Seq<char>),
}

impl View for SendOutcome {
    type V = OutcomeModel;

    open spec fn view(&self) -> OutcomeModel {
        match self {
            SendOutcome::Status(s) => OutcomeModel::Status(*s),
            SendOutcome::Transient(t) => OutcomeModel::Transient(t@),
            SendOutcome::Failed(t) => OutcomeModel::Failed(t@),
        }
    }
}

/// What to do after one sending of a request.
pub enum RetryStep {
    /// Hand the reply to the caller.
    Deliver,
    /// Report `notice`, pause `backoff_ms` milliseconds, then send again.
    Wait { backoff_ms: u64, notice: String },
    /// Give up, with this message.
    Abort(String),
}

/// The model of a step.
pub enum StepModel {
    Deliver,
    Wait { backoff_ms: nat, notice: Seq<char> },
    Abort(Seq<char>),
}

impl View for RetryStep {
    type V = StepModel;

    open spec fn view(&self) -> StepModel {
        match self {
            RetryStep::Deliver => StepModel::Deliver,
            RetryStep::Wait { backoff_ms, notice } => StepModel::Wait {
                backoff_ms: *backoff_ms as nat,
                notice: notice@,
            },
            RetryStep::Abort(m) => StepModel::Abort(m@),
        }
    }
}

/// The model of the retry state: the number of retries made so far and the
/// last error seen.
#[verifier::ext_equal]
pub struct RetryModel {
    pub attempt: nat,
    pub last_error: Option<Seq<char>>,
}

/// The notice printed before retry number `attempt`.
pub open spec fn retry_notice(attempt: nat) -> Seq<char> {
    "Retrying in "@ + decimal_text(backoff_ms(attempt) / 1000) + "s (attempt "@ + decimal_text(
        attempt + 1,
    ) + "/"@ + decimal_text((MAX_RETRIES + 1) as nat) + ")..."@
}

/// The message when every attempt failed, the last with `error`.
pub open spec fn give_up_text(error: Seq<char>) -> Seq<char> {
    "Failed to contact Pixel Eagle after "@ + decimal_text((MAX_RETRIES + 1) as nat) + " attempts: "@
        + error
}

/// The message when a request failed in a way not worth retrying.
pub open spec fn fatal_text(error: Seq<char>) -> Seq<char> {
    "Failed to contact Pixel Eagle: "@ + error
}

/// The error text of a retryable reply.
pub open spec fn status_error_text(status: u16) -> Seq<char> {
    "HTTP "@ + decimal_text(status as nat)
}

/// After a failure worth retrying: retry while retries remain, else give
/// up.
pub open spec fn after_failure(st: RetryModel, error: Seq<char>) -> (RetryModel, StepModel) {
    if st.attempt < MAX_RETRIES {
        let a = st.attempt + 1;
        (
            RetryModel { attempt: a, last_error: Some(error) },
            StepModel::Wait { backoff_ms: backoff_ms(a), notice: retry_notice(a) },
        )
    } else {
        (
            RetryModel { attempt: st.attempt, last_error: Some(error) },
            StepModel::Abort(give_up_text(error)),
        )
    }
}

/// The decision after one sending of a request.
pub open spec fn retry_step(st: RetryModel, outcome: OutcomeModel) -> (RetryModel, StepModel) {
    match outcome {
        OutcomeModel::Status(s) => if retryable_status(s) {
            after_failure(st, status_error_text(s))
        } else {
            (st, StepModel::Deliver)
        },
        OutcomeModel::Transient(e) => after_failure(st, e),
        OutcomeModel::Failed(e) => (st, StepModel::Abort(fatal_text(e))),
    }
}

/// The state of the sending of one request.
pub struct Retry {
    attempt: u32,
    last_error: Option<String>,
}

impl View for Retry {
    type V = RetryModel;

    closed spec fn view(&self) -> RetryModel {
        RetryModel {
            attempt: self.attempt as nat,
            last_error: match self.last_error {
                Some(e) => Some(e@),
                None => None,
            },
        }
    }
}

impl Retry {
    #[verifier::type_invariant]
    spec fn within_budget(&self) -> bool {
        self.attempt <= MAX_RETRIES
    }

    /// The number of retries made so far, which never exceeds the budget.
    pub fn retries(&self) -> (r: u32)
        ensures
            r == self@.attempt,
            r <= MAX_RETRIES,
    {
        proof {
            use_type_invariant(self);
        }
        self.attempt
    }

    /// The state before the first sending.
    pub fn new() -> (r: Retry)
        ensures
            r@ == (RetryModel { attempt: 0, last_error: None }),
    {
        Retry { attempt: 0, last_error: None }
    }

    /// Decides what to do after one sending of the request.
    pub fn next(&mut self, outcome: SendOutcome) -> (r: RetryStep)
        ensures
            (final(self)@, r@) == retry_step(old(self)@, outcome@),
    {
        proof {
            use_type_invariant(&*self);
        }
        match outcome {
            SendOutcome::Status(s) => if is_retryable(s) {
                let mut error = String::new();
                error.append("HTTP ");
                push_decimal(&mut error, s as u128);
                proof {
                    assert(error@ =~= status_error_text(s));
                }
                self.after_failure(error)
            } else {
                RetryStep::Deliver
            },
            SendOutcome::Transient(e) => self.after_failure(e),
            SendOutcome::Failed(e) => {
                let mut m = String::new();
                m.append("Failed to contact Pixel Eagle: ");
                m.append(e.as_str());
                proof {
                    assert(m@ =~= fatal_text(e@));
                }
                RetryStep::Abort(m)
            },
        }
    }

    fn after_failure(&mut self, error: String) -> (r: RetryStep)
        ensures
            (final(self)@, r@) == after_failure(old(self)@, error@),
    {
        proof {
            use_type_invariant(&*self);
        }
        if self.attempt < MAX_RETRIES {
            let a = self.attempt + 1;
            let backoff = backoff_for(a);
            let mut notice = String::new();
            notice.append("Retrying in ");
            push_decimal(&mut notice, (backoff / 1000) as u128);
            notice.append("s (attempt ");
            push_decimal(&mut notice, (a + 1) as u128);
            notice.append("/");
            push_decimal(&mut notice, (MAX_RETRIES + 1) as u128);
            notice.append(")...");
            proof {
                assert(notice@ =~= retry_notice(a as nat));
            }
            let ghost ev = error@;
            self.attempt = a;
            self.last_error = Some(error);
            proof {
                assert(self@ =~= (RetryModel { attempt: a as nat, last_error: Some(ev) }));
            }
            RetryStep::Wait { backoff_ms: backoff, notice }
        } else {
            let mut m = String::new();
            m.append("Failed to contact Pixel Eagle after ");
            push_decimal(&mut m, (MAX_RETRIES + 1) as u128);
            m.append(" attempts: ");
            m.append(error.as_str());
            proof {
                assert(m@ =~= give_up_text(error@));
            }
            self.last_error = Some(error);
            RetryStep::Abort(m)
        }
    }
}

/// The pause before retry number `attempt`, in milliseconds.
fn backoff_for(attempt: u32) -> (r: u64)
    requires
        1 <= attempt <= MAX_RETRIES,
    ensures
        r == backoff_ms(attempt as nat),
{
    let mut r: u64 = INITIAL_BACKOFF_MS;
    let mut k: u32 = 1;
    while k < attempt
        invariant
            1 <= k <= attempt,
            attempt <= MAX_RETRIES,
            r == INITIAL_BACKOFF_MS * pow2((k - 1) as nat),
        decreases attempt - k,
    {
        proof {
            assert(pow2(k as nat) == 2 * pow2((k - 1) as nat));
            assert(pow2((k - 1) as nat) <= 2) by {
                assert(pow2(0) == 1);
                assert(pow2(1) == 2);
            }
        }
        r = r * 2;
        k = k + 1;
    }
    r
}

} // verus!
