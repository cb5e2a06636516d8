use tesseract_client::errors::ClientError;
use tesseract_client::retry::AttemptOutcome;
use tesseract_client::retry::RetryDecision;
use tesseract_client::retry::RetryPolicy;
use tesseract_client::retry::retry_decision;
use tesseract_client::retry::run_unit_attempts;

fn timeout_failure() -> AttemptOutcome {
    AttemptOutcome::Failure { error: ClientError::Timeout, abort_run: false }
}

#[test]
fn a_unit_that_always_fails_is_attempted_exactly_the_configured_count() {
    let policy = RetryPolicy { max_attempts: 3, delay_ms: 2000 };
    let outcomes = vec![timeout_failure(), timeout_failure(), timeout_failure()];
    let report = run_unit_attempts(&policy, &outcomes);
    assert_eq!(report.attempts, 3);
    assert!(matches!(report.error, Some(ClientError::Timeout)));
}

#[test]
fn the_wait_between_attempts_is_the_configured_delay() {
    let policy = RetryPolicy { max_attempts: 3, delay_ms: 2000 };
    let d = retry_decision(&policy, 1, &timeout_failure());
    assert_eq!(d, RetryDecision::RetryAfter { delay_ms: 2000 });
    let d = retry_decision(&policy, 2, &timeout_failure());
    assert_eq!(d, RetryDecision::RetryAfter { delay_ms: 2000 });
    let d = retry_decision(&policy, 3, &timeout_failure());
    assert_eq!(d, RetryDecision::GiveUp);
}

#[test]
fn two_failed_connections_then_a_success_is_a_clean_run() {
    let policy = RetryPolicy { max_attempts: 3, delay_ms: 2000 };
    let outcomes = vec![
        AttemptOutcome::Failure {
            error: ClientError::Connection { detail: b"refused".to_vec() },
            abort_run: false,
        },
        AttemptOutcome::Failure {
            error: ClientError::Connection { detail: b"refused".to_vec() },
            abort_run: false,
        },
        AttemptOutcome::Success,
    ];
    let report = run_unit_attempts(&policy, &outcomes);
    assert_eq!(report.attempts, 3);
    assert!(report.error.is_none());
}

#[test]
fn an_immediate_success_makes_one_attempt() {
    let policy = RetryPolicy { max_attempts: 3, delay_ms: 2000 };
    let outcomes = vec![AttemptOutcome::Success, timeout_failure(), timeout_failure()];
    let report = run_unit_attempts(&policy, &outcomes);
    assert_eq!(report.attempts, 1);
    assert!(report.error.is_none());
}

#[test]
fn an_archive_failure_is_never_retried() {
    let policy = RetryPolicy { max_attempts: 3, delay_ms: 2000 };
    let outcomes = vec![
        AttemptOutcome::Failure {
            error: ClientError::Archive { detail: b"missing source".to_vec() },
            abort_run: false,
        },
        AttemptOutcome::Success,
        AttemptOutcome::Success,
    ];
    let report = run_unit_attempts(&policy, &outcomes);
    assert_eq!(report.attempts, 1);
    assert!(matches!(report.error, Some(ClientError::Archive { .. })));
}

#[test]
fn a_handshake_failure_aborts_without_further_attempts() {
    let policy = RetryPolicy { max_attempts: 3, delay_ms: 2000 };
    let outcomes = vec![
        AttemptOutcome::Failure {
            error: ClientError::Connection { detail: b"handshake failed".to_vec() },
            abort_run: true,
        },
        AttemptOutcome::Success,
        AttemptOutcome::Success,
    ];
    let report = run_unit_attempts(&policy, &outcomes);
    assert_eq!(report.attempts, 1);
    assert!(matches!(report.error, Some(ClientError::Connection { .. })));
}

#[test]
fn success_always_ends_the_unit() {
    let policy = RetryPolicy { max_attempts: 5, delay_ms: 10 };
    let d = retry_decision(&policy, 2, &AttemptOutcome::Success);
    assert_eq!(d, RetryDecision::Done);
}
