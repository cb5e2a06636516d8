//! The retry controller: bounded attempts with a fixed delay, and
//! units sequenced in dependency order.
//!
//! The caller runs one build session per attempt and feeds each
//! attempt's outcome back in; the library decides whether to stop,
//! retry after the configured delay, or give up. A failure that
//! resubmission cannot fix — a broken archive, a cyclic graph, or a
//! worker that failed the handshake — ends the run at once; every other
//! failure is retried until the attempt budget is spent.

use vstd::prelude::*;

use crate::errors::ClientError;
use crate::errors::ClientErrorModel;
use crate::errors::spec_fatal;

verus! {

/// The attempt budget and the fixed delay between attempts.
pub struct RetryPolicy {
    /// How many times one unit is attempted before the run fails.
    pub max_attempts: u32,
    /// The fixed wait before each retry, in milliseconds.
    pub delay_ms: u64,
}

/// What one build-session attempt came to.
pub enum AttemptOutcome {
    /// The unit built and its artifacts were materialized.
    Success,
    /// The attempt failed. `abort_run` marks a failure the session
    /// declared not worth retrying.
    Failure { error: ClientError, abort_run: bool },
}

/// The mathematical value of an [`AttemptOutcome`].
pub enum AttemptOutcomeModel {
    Success,
    Failure { error: ClientErrorModel, abort_run: bool },
}

impl View for AttemptOutcome {
    type V = AttemptOutcomeModel;

    open spec fn view(&self) -> AttemptOutcomeModel {
        match self {
            AttemptOutcome::Success => AttemptOutcomeModel::Success,
            AttemptOutcome::Failure { error, abort_run } => AttemptOutcomeModel::Failure {
                error: error@,
                abort_run: *abort_run,
            },
        }
    }
}

/// Is this outcome a failure that must not be retried?
pub open spec fn spec_unretryable(o: AttemptOutcomeModel) -> bool {
    match o {
        AttemptOutcomeModel::Success => false,
        AttemptOutcomeModel::Failure { error, abort_run } => abort_run || spec_fatal(error),
    }
}

/// What the controller does after one attempt.
#[derive(PartialEq, Eq, Structural, Debug)]
pub enum RetryDecision {
    /// The unit succeeded; go on to the next unit.
    Done,
    /// Wait this many milliseconds, then run a fresh attempt.
    RetryAfter { delay_ms: u64 },
    /// The run fails now.
    GiveUp,
}

/// Decide what follows the `attempt`-th outcome for one unit.
///
/// Success ends the unit. A retryable failure before the last allowed
/// attempt waits the fixed delay and tries again; the last attempt's
/// failure, or one marked unretryable, ends the run.
pub fn retry_decision(policy: &RetryPolicy, attempt: u32, outcome: &AttemptOutcome) -> (r:
    RetryDecision)
    requires
        1 <= attempt <= policy.max_attempts,
    ensures
        outcome@ is Success ==> r == RetryDecision::Done,
        outcome@ is Failure && (attempt < policy.max_attempts && !spec_unretryable(outcome@))
            ==> r == (RetryDecision::RetryAfter { delay_ms: policy.delay_ms }),
        outcome@ is Failure && (attempt == policy.max_attempts || spec_unretryable(outcome@))
            ==> r == RetryDecision::GiveUp,
{
    match outcome {
        AttemptOutcome::Success => RetryDecision::Done,
        AttemptOutcome::Failure { error, abort_run } => {
            if *abort_run || error.is_fatal() || attempt == policy.max_attempts {
                RetryDecision::GiveUp
            } else {
                RetryDecision::RetryAfter { delay_ms: policy.delay_ms }
            }
        },
    }
}

/// How one unit's run ends, given what each fresh attempt would come
/// to: the number of attempts actually made, and the error left when
/// no attempt succeeded.
pub open spec fn spec_run_unit(outcomes: Seq<AttemptOutcomeModel>, max: int) -> (
    int,
    Option<ClientErrorModel>,
)
    decreases max,
{
    if max <= 0 || outcomes.len() == 0 {
        (0, Option::None)
    } else {
        match outcomes[0] {
            AttemptOutcomeModel::Success => (1, Option::None),
            AttemptOutcomeModel::Failure { error, abort_run } => {
                if max == 1 || abort_run || spec_fatal(error) {
                    (1, Option::Some(error))
                } else {
                    let rest = spec_run_unit(outcomes.skip(1), max - 1);
                    (1 + rest.0, rest.1)
                }
            },
        }
    }
}

/// How one unit's run ends: the attempts made and the error left.
pub struct RunReport {
    /// How many attempts were made.
    pub attempts: u32,
    /// The last failure, or nothing when the unit succeeded.
    pub error: Option<ClientError>,
}

/// Play the retry controller for one unit against a list of attempt
/// outcomes, first attempt first.
///
/// This is the loop the caller runs with real sessions, with the
/// outcomes given up front; it makes the controller's behaviour a
/// checkable value.
pub fn run_unit_attempts(policy: &RetryPolicy, outcomes: &Vec<AttemptOutcome>) -> (r: RunReport)
    requires
        1 <= policy.max_attempts,
        policy.max_attempts <= outcomes.len(),
    ensures
        ({
            let m = spec_run_unit(
                outcomes@.map_values(|o: AttemptOutcome| o@),
                policy.max_attempts as int,
            );
            r.attempts as int == m.0 && (match (r.error, m.1) {
                (Option::Some(e), Option::Some(em)) => e@ == em,
                (Option::None, Option::None) => true,
                _ => false,
            })
        }),
{
    let ghost all = outcomes@.map_values(|o: AttemptOutcome| o@);
    proof {
        assert(all.skip(0) =~= all);
        let rest = spec_run_unit(all, policy.max_attempts as int);
        assert(((0 + rest.0) as int, rest.1) == rest);
    }
    let mut attempt: u32 = 1;
    loop
        invariant
            1 <= attempt <= policy.max_attempts,
            policy.max_attempts <= outcomes.len(),
            all == outcomes@.map_values(|o: AttemptOutcome| o@),
            all.len() == outcomes.len(),
            spec_run_unit(all, policy.max_attempts as int) == ({
                let rest = spec_run_unit(
                    all.skip(attempt - 1),
                    policy.max_attempts - attempt + 1,
                );
                ((attempt - 1 + rest.0) as int, rest.1)
            }),
            forall|j: int|
                0 <= j < attempt - 1 ==> !(#[trigger] all[j] is Success) && !spec_unretryable(
                    all[j],
                ),
        decreases policy.max_attempts - attempt,
    {
        let outcome = &outcomes[attempt as usize - 1];
        proof {
            assert(all.skip(attempt - 1)[0] == all[attempt - 1]);
            assert(all.skip(attempt - 1).skip(1) =~= all.skip(attempt as int));
        }
        match retry_decision(policy, attempt, outcome) {
            RetryDecision::Done => {
                return RunReport { attempts: attempt, error: Option::None };
            },
            RetryDecision::GiveUp => {
                match outcome {
                    AttemptOutcome::Failure { error, abort_run } => {
                        let e = take_error(outcome);
                        return RunReport { attempts: attempt, error: Option::Some(e) };
                    },
                    AttemptOutcome::Success => {
                        proof {
                            assert(false);
                        }
                        return RunReport { attempts: attempt, error: Option::None };
                    },
                }
            },
            RetryDecision::RetryAfter { delay_ms } => {
                attempt = attempt + 1;
            },
        }
    }
}

/// A copy of a failed outcome's error.
fn take_error(o: &AttemptOutcome) -> (r: ClientError)
    requires
        o@ is Failure,
    ensures
        r@ == o@->Failure_error,
{
    match o {
        AttemptOutcome::Failure { error, abort_run } => match error {
            ClientError::Connection { detail } => ClientError::Connection {
                detail: crate::bytes::to_vec(detail.as_slice()),
            },
            ClientError::Protocol { detail } => ClientError::Protocol {
                detail: crate::bytes::to_vec(detail.as_slice()),
            },
            ClientError::Archive { detail } => ClientError::Archive {
                detail: crate::bytes::to_vec(detail.as_slice()),
            },
            ClientError::ServerBuild { unit_name, message } => ClientError::ServerBuild {
                unit_name: crate::bytes::to_vec(unit_name.as_slice()),
                message: crate::bytes::to_vec(message.as_slice()),
            },
            ClientError::Timeout => ClientError::Timeout,
            ClientError::GraphCycle { package } => ClientError::GraphCycle {
                package: crate::bytes::to_vec(package.as_slice()),
            },
        },
        // Unreachable: the precondition admits failures only.
        AttemptOutcome::Success => ClientError::Timeout,
    }
}

/// Retry bound: a unit whose every attempt fails retryably is attempted
/// exactly the configured number of times, no more and no fewer, and
/// the run ends with the last attempt's error.
pub proof fn lemma_retry_bound(outcomes: Seq<AttemptOutcomeModel>, max: int)
    requires
        1 <= max <= outcomes.len(),
        forall|i: int|
            0 <= i < max ==> !(#[trigger] outcomes[i] is Success) && !spec_unretryable(
                outcomes[i],
            ),
    ensures
        spec_run_unit(outcomes, max).0 == max,
        spec_run_unit(outcomes, max).1 == Option::Some(outcomes[max - 1]->Failure_error),
    decreases max,
{
    assert(outcomes[0] is Failure);
    if max > 1 {
        assert forall|i: int|
            0 <= i < max - 1 implies !(#[trigger] outcomes.skip(1)[i] is Success)
            && !spec_unretryable(outcomes.skip(1)[i]) by {
            assert(outcomes.skip(1)[i] == outcomes[i + 1]);
        }
        lemma_retry_bound(outcomes.skip(1), max - 1);
        assert(outcomes.skip(1)[max - 2] == outcomes[max - 1]);
    }
}

/// A success on a later attempt ends the unit there: attempts `1` to
/// `i` fail retryably, attempt `i + 1` succeeds, and the run reports
/// success after exactly `i + 1` attempts with no error left.
pub proof fn lemma_success_after_failures(outcomes: Seq<AttemptOutcomeModel>, max: int, i: int)
    requires
        0 <= i < max <= outcomes.len(),
        forall|j: int|
            0 <= j < i ==> !(#[trigger] outcomes[j] is Success) && !spec_unretryable(outcomes[j]),
        outcomes[i] is Success,
    ensures
        spec_run_unit(outcomes, max).0 == i + 1,
        spec_run_unit(outcomes, max).1 is None,
    decreases i,
{
    if i == 0 {
    } else {
        assert(outcomes[0] is Failure);
        assert forall|j: int|
            0 <= j < i - 1 implies !(#[trigger] outcomes.skip(1)[j] is Success)
            && !spec_unretryable(outcomes.skip(1)[j]) by {
            assert(outcomes.skip(1)[j] == outcomes[j + 1]);
        }
        assert(outcomes.skip(1)[i - 1] == outcomes[i]);
        lemma_success_after_failures(outcomes.skip(1), max - 1, i - 1);
    }
}

} // verus!
