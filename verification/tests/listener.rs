use workplate::listener::compute_deadline;
use workplate::listener::listener_step;
use workplate::listener::AcceptEvent;
use workplate::listener::IoError;
use workplate::listener::Outcome;
use workplate::listener::StepAction;
use workplate::listener::POLL_INTERVAL_MS;

#[test]
fn poll_interval_is_small_relative_to_seconds() {
    assert_eq!(POLL_INTERVAL_MS, 100);
}

#[test]
fn deadline_is_start_plus_timeout_in_millis() {
    assert_eq!(compute_deadline(0, 1), 1000);
    assert_eq!(compute_deadline(100, 5), 5100);
    assert_eq!(compute_deadline(0, 0), 0);
}

#[test]
fn deadline_saturates_instead_of_wrapping() {
    assert_eq!(compute_deadline(u64::MAX, 1), u64::MAX);
    assert_eq!(compute_deadline(0, u64::MAX), u64::MAX);
    assert_eq!(compute_deadline(u64::MAX - 5, 0), u64::MAX - 5);
}

#[test]
fn no_connection_before_deadline_sleeps() {
    assert_eq!(listener_step(0, 1000, AcceptEvent::NoPending), StepAction::Sleep);
    // the deadline instant itself is not yet past
    assert_eq!(listener_step(1000, 1000, AcceptEvent::NoPending), StepAction::Sleep);
}

#[test]
fn past_deadline_times_out() {
    assert_eq!(
        listener_step(1001, 1000, AcceptEvent::NoPending),
        StepAction::Finish(Outcome::TimedOut)
    );
}

#[test]
fn timeout_dominates_whatever_the_poll_saw() {
    let line = AcceptEvent::Line("GET /?code=x HTTP/1.1".to_string());
    assert_eq!(listener_step(1001, 1000, line), StepAction::Finish(Outcome::TimedOut));
}

#[test]
fn accepted_redirect_finishes_with_its_code() {
    let line = AcceptEvent::Line("GET /?code=abc123&state=xyz HTTP/1.1\r\n".to_string());
    assert_eq!(
        listener_step(0, 5000, line),
        StepAction::Finish(Outcome::Code("abc123".to_string()))
    );
}

#[test]
fn redirect_without_code_fails_and_is_no_timeout() {
    let line = AcceptEvent::Line("GET /?state=abc HTTP/1.1".to_string());
    let a = listener_step(0, 5000, line);
    assert_eq!(a, StepAction::Finish(Outcome::IoFailure(IoError::MalformedRedirect)));
    assert_ne!(a, StepAction::Finish(Outcome::TimedOut));
}

#[test]
fn read_failure_is_fatal() {
    let ev = AcceptEvent::ReadError("connection reset".to_string());
    assert_eq!(
        listener_step(0, 5000, ev),
        StepAction::Finish(Outcome::IoFailure(IoError::Read("connection reset".to_string())))
    );
}

#[test]
fn accept_failure_is_fatal() {
    let ev = AcceptEvent::AcceptError("bad handle".to_string());
    assert_eq!(
        listener_step(0, 5000, ev),
        StepAction::Finish(Outcome::IoFailure(IoError::Accept("bad handle".to_string())))
    );
}

#[test]
fn error_texts_match_what_the_caller_sees() {
    assert_eq!(
        IoError::Bind("address in use".to_string()).message(),
        "Failed to bind: address in use"
    );
    assert_eq!(IoError::Accept("oops".to_string()).message(), "Accept error: oops");
    assert_eq!(IoError::Read("oops".to_string()).message(), "Read error: oops");
    assert_eq!(IoError::MalformedRedirect.message(), "No auth code in redirect");
}

#[test]
fn outcomes_map_to_the_callers_result() {
    assert_eq!(
        Outcome::Code("abc".to_string()).into_result(),
        Ok("abc".to_string())
    );
    assert_eq!(
        Outcome::TimedOut.into_result(),
        Err("Timed out waiting for OAuth redirect".to_string())
    );
    assert_eq!(
        Outcome::IoFailure(IoError::MalformedRedirect).into_result(),
        Err("No auth code in redirect".to_string())
    );
    assert_eq!(
        Outcome::IoFailure(IoError::Bind("denied".to_string())).into_result(),
        Err("Failed to bind: denied".to_string())
    );
}

#[test]
fn timeout_and_failures_are_told_apart() {
    let timeout = Outcome::TimedOut.into_result().unwrap_err();
    let malformed = Outcome::IoFailure(IoError::MalformedRedirect).into_result().unwrap_err();
    let bind = Outcome::IoFailure(IoError::Bind("in use".to_string())).into_result().unwrap_err();
    assert_ne!(timeout, malformed);
    assert_ne!(timeout, bind);
    assert_ne!(malformed, bind);
}
