use coreos_metadata::errors::Error;
use coreos_metadata::retry::{
    backoff, classify_status, classify_transport, replay, Answer, Attempt, End, Fault, Outcome,
    Retry, Run, Verdict, MAX_BACKOFF_SECONDS,
};

#[test]
fn success_after_failures_takes_exactly_that_many_attempts() {
    let outcomes = vec![Outcome::Retryable, Outcome::Retryable, Outcome::Success];
    assert_eq!(replay(3, &outcomes), Run { attempts: 3, end: End::Succeeded });
    assert_eq!(replay(10, &outcomes), Run { attempts: 3, end: End::Succeeded });
    assert_eq!(replay(1, &vec![Outcome::Success]), Run { attempts: 1, end: End::Succeeded });
}

#[test]
fn a_budget_too_small_for_the_success_is_used_up() {
    let outcomes = vec![Outcome::Retryable, Outcome::Retryable, Outcome::Success];
    assert_eq!(replay(2, &outcomes), Run { attempts: 2, end: End::Exhausted });
}

#[test]
fn an_operation_that_always_fails_is_tried_as_often_as_permitted() {
    let outcomes = vec![Outcome::Retryable; 20];
    for k in [1u32, 2, 5, 20] {
        assert_eq!(replay(k, &outcomes), Run { attempts: k, end: End::Exhausted });
    }
}

#[test]
fn a_permanent_error_ends_the_run_at_once() {
    let outcomes = vec![Outcome::Permanent, Outcome::Success];
    for k in [1u32, 2, 100] {
        assert_eq!(replay(k, &outcomes), Run { attempts: 1, end: End::Permanent });
    }
    let later = vec![Outcome::Retryable, Outcome::Permanent, Outcome::Success];
    assert_eq!(replay(5, &later), Run { attempts: 2, end: End::Permanent });
}

#[test]
fn no_budget_means_no_attempt() {
    assert_eq!(replay(0, &vec![Outcome::Success]), Run { attempts: 0, end: End::Exhausted });
    assert!(!Retry::new(0).permits_attempt());
}

#[test]
fn outcomes_that_run_out_leave_the_run_pending() {
    assert_eq!(replay(3, &vec![Outcome::Retryable]), Run { attempts: 1, end: End::Pending });
    assert_eq!(replay(3, &Vec::new()), Run { attempts: 0, end: End::Pending });
}

#[test]
fn the_wait_doubles_up_to_its_cap() {
    assert_eq!(MAX_BACKOFF_SECONDS, 32);
    assert_eq!(backoff(0), 1);
    assert_eq!(backoff(1), 1);
    assert_eq!(backoff(2), 2);
    assert_eq!(backoff(3), 4);
    assert_eq!(backoff(4), 8);
    assert_eq!(backoff(5), 16);
    assert_eq!(backoff(6), 32);
    assert_eq!(backoff(7), 32);
    assert_eq!(backoff(u32::MAX), 32);
}

#[test]
fn the_wait_never_gets_shorter() {
    let mut last = 0;
    for failed in 0..40u32 {
        let wait = backoff(failed);
        assert!(wait >= 1);
        assert!(wait >= last);
        assert!(wait <= MAX_BACKOFF_SECONDS);
        last = wait;
    }
}

#[test]
fn recording_attempts_counts_and_decides() {
    let mut retry = Retry::new(3);
    assert_eq!(retry.max_attempts(), 3);
    assert_eq!(retry.attempts(), 0);
    assert!(retry.permits_attempt());
    assert_eq!(retry.record(Attempt::Retryable("refused".to_string())), Verdict::RetryAfter(1));
    assert_eq!(retry.attempts(), 1);
    assert_eq!(retry.record(Attempt::Retryable("timeout".to_string())), Verdict::RetryAfter(2));
    assert_eq!(retry.attempts(), 2);
    assert!(retry.permits_attempt());
    assert_eq!(
        retry.record(Attempt::Retryable("reset".to_string())),
        Verdict::GiveUp(Error::Exhausted { attempts: 3, cause: "reset".to_string() })
    );
    assert_eq!(retry.attempts(), 3);
    assert!(!retry.permits_attempt());
}

#[test]
fn a_success_is_done() {
    let mut retry = Retry::new(2);
    assert_eq!(retry.record(Attempt::Retryable("x".to_string())), Verdict::RetryAfter(1));
    assert_eq!(retry.record(Attempt::Succeeded), Verdict::Done);
    assert_eq!(retry.attempts(), 2);
}

#[test]
fn a_permanent_error_is_handed_on_with_its_words() {
    let mut retry = Retry::new(5);
    assert_eq!(
        retry.record(Attempt::Permanent("404 Not Found".to_string())),
        Verdict::GiveUp(Error::Permanent { cause: "404 Not Found".to_string() })
    );
    assert_eq!(retry.attempts(), 1);
    assert!(retry.permits_attempt());
}

#[test]
fn an_attempt_beyond_the_budget_is_not_counted() {
    let mut retry = Retry::new(1);
    assert_eq!(
        retry.record(Attempt::Retryable("a".to_string())),
        Verdict::GiveUp(Error::Exhausted { attempts: 1, cause: "a".to_string() })
    );
    assert_eq!(
        retry.record(Attempt::Retryable("b".to_string())),
        Verdict::GiveUp(Error::Exhausted { attempts: 1, cause: "b".to_string() })
    );
    assert_eq!(retry.attempts(), 1);
}

#[test]
fn faults_are_told_apart() {
    assert!(Fault::ConnectionRefused.is_retryable());
    assert!(Fault::ConnectionReset.is_retryable());
    assert!(Fault::Timeout.is_retryable());
    assert!(Fault::Status(500).is_retryable());
    assert!(Fault::Status(503).is_retryable());
    assert!(Fault::Status(599).is_retryable());
    assert!(!Fault::Status(600).is_retryable());
    assert!(!Fault::Status(499).is_retryable());
    assert!(!Fault::Status(404).is_retryable());
    assert!(!Fault::Status(400).is_retryable());
    assert!(!Fault::Status(301).is_retryable());
    assert!(!Fault::MalformedBody.is_retryable());
}

#[test]
fn a_fault_becomes_a_failed_attempt() {
    assert_eq!(
        Attempt::failed(Fault::Timeout, "timed out".to_string()),
        Attempt::Retryable("timed out".to_string())
    );
    assert_eq!(
        Attempt::failed(Fault::Status(404), "not found".to_string()),
        Attempt::Permanent("not found".to_string())
    );
    assert_eq!(
        Attempt::failed(Fault::MalformedBody, "bad json".to_string()),
        Attempt::Permanent("bad json".to_string())
    );
}

#[test]
fn a_status_says_what_the_answer_amounts_to() {
    assert_eq!(classify_status(200), Answer::Document);
    assert_eq!(classify_status(204), Answer::Document);
    assert_eq!(classify_status(299), Answer::Document);
    assert_eq!(classify_status(404), Answer::Absent);
    assert_eq!(classify_status(199), Answer::Failed(Fault::Status(199)));
    assert_eq!(classify_status(300), Answer::Failed(Fault::Status(300)));
    assert_eq!(classify_status(400), Answer::Failed(Fault::Status(400)));
    assert_eq!(classify_status(403), Answer::Failed(Fault::Status(403)));
    assert_eq!(classify_status(405), Answer::Failed(Fault::Status(405)));
    assert_eq!(classify_status(500), Answer::Failed(Fault::Status(500)));
    assert_eq!(classify_status(503), Answer::Failed(Fault::Status(503)));
    assert_eq!(classify_status(0), Answer::Failed(Fault::Status(0)));
    assert_eq!(classify_status(u16::MAX), Answer::Failed(Fault::Status(u16::MAX)));
}

#[test]
fn an_error_without_an_answer_is_told_by_what_is_known_of_it() {
    assert_eq!(classify_transport(true, false, false), Fault::Timeout);
    assert_eq!(classify_transport(true, true, true), Fault::Timeout);
    assert_eq!(classify_transport(false, true, false), Fault::ConnectionRefused);
    assert_eq!(classify_transport(false, true, true), Fault::ConnectionRefused);
    assert_eq!(classify_transport(false, false, true), Fault::MalformedBody);
    assert_eq!(classify_transport(false, false, false), Fault::ConnectionReset);
}

#[test]
fn an_answer_becomes_an_attempt() {
    assert_eq!(Attempt::answered(Answer::Document, "x".to_string()), Attempt::Succeeded);
    assert_eq!(Attempt::answered(Answer::Absent, "x".to_string()), Attempt::Succeeded);
    assert_eq!(
        Attempt::answered(classify_status(503), "u: status 503".to_string()),
        Attempt::Retryable("u: status 503".to_string())
    );
    assert_eq!(
        Attempt::answered(classify_status(403), "u: status 403".to_string()),
        Attempt::Permanent("u: status 403".to_string())
    );
}
