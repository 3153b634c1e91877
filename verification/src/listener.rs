//! The decisions of the accept-poll loop.
//!
//! One invocation binds a loopback socket, computes a deadline, and then
//! polls: on each turn it looks at the clock and at what the poll observed,
//! and either sleeps one interval, or finishes with exactly one outcome — the
//! authorization code, a timeout, or a fatal failure. Everything the loop
//! decides is here; the caller owns the socket, the clock and the sleeps, and
//! feeds what it saw into [`listener_step`].

use crate::parse::code_of_line;
use crate::parse::extract_code;
use vstd::prelude::*;
use vstd::string::StringExecFns;

verus! {

/// How long the poll loop sleeps between accept attempts, in milliseconds.
/// Small relative to timeouts measured in seconds, so the deadline is honored
/// within roughly one interval's slack.
pub const POLL_INTERVAL_MS: u64 = 100;

/// What the accept poll observed on one turn of the loop.
#[derive(Debug, PartialEq, Eq)]
pub enum AcceptEvent {
    /// No connection is pending yet.
    NoPending,
    /// A connection was accepted and its request line read.
    Line(String),
    /// A connection was accepted but its request line could not be read.
    ReadError(String),
    /// The accept itself failed, other than by having nothing pending.
    AcceptError(String),
}

/// A fatal failure: why an invocation ended with neither a code nor a
/// timeout.
#[derive(Debug, PartialEq, Eq)]
pub enum IoError {
    /// The loopback port could not be bound or the listener set up.
    Bind(String),
    /// Accepting the connection failed.
    Accept(String),
    /// The accepted connection's request line could not be read.
    Read(String),
    /// The one accepted request carried no `code=` parameter.
    MalformedRedirect,
}

/// What one invocation produces: exactly one of these, every time.
#[derive(Debug, PartialEq, Eq)]
pub enum Outcome {
    /// The authorization code, taken verbatim from the redirect.
    Code(String),
    /// No connection arrived before the deadline.
    TimedOut,
    /// A fatal bind, accept, read or parse failure.
    IoFailure(IoError),
}

/// What the caller must do after one turn of the loop.
#[derive(Debug, PartialEq, Eq)]
pub enum StepAction {
    /// Sleep one poll interval, then poll again.
    Sleep,
    /// The call is over: on a code, write the confirmation page first
    /// (best-effort), then return the outcome.
    Finish(Outcome),
}

/// The absolute deadline in milliseconds: the moment binding succeeded plus
/// the timeout, saturating at the largest representable instant.
pub open spec fn spec_deadline(start_ms: u64, timeout_secs: u64) -> u64 {
    if timeout_secs * 1000 + start_ms <= u64::MAX {
        (start_ms + timeout_secs * 1000) as u64
    } else {
        u64::MAX
    }
}

/// Compute the deadline from the moment binding succeeded and the caller's
/// timeout in seconds.
pub fn compute_deadline(start_ms: u64, timeout_secs: u64) -> (d: u64)
    ensures
        d == spec_deadline(start_ms, timeout_secs),
{
    let ms = if timeout_secs > u64::MAX / 1000 {
        u64::MAX
    } else {
        timeout_secs * 1000
    };
    if start_ms > u64::MAX - ms {
        u64::MAX
    } else {
        start_ms + ms
    }
}

/// One turn of the accept-poll loop.
///
/// The deadline is checked first: once `now_ms` is past it, the invocation
/// times out whatever the poll observed. Before the deadline, no pending
/// connection means one more sleep; an accepted request line finishes with
/// its code, or with the malformed-redirect failure when it carries none;
/// read and accept failures finish fatally, never as a timeout.
pub fn listener_step(now_ms: u64, deadline_ms: u64, event: AcceptEvent) -> (a: StepAction)
    ensures
        now_ms > deadline_ms ==> a == StepAction::Finish(Outcome::TimedOut),
        now_ms <= deadline_ms ==> match event {
            AcceptEvent::NoPending => a == StepAction::Sleep,
            AcceptEvent::Line(line) => match code_of_line(line@) {
                Some(c) => match a {
                    StepAction::Finish(Outcome::Code(v)) => v@ == c,
                    _ => false,
                },
                None => a == StepAction::Finish(Outcome::IoFailure(IoError::MalformedRedirect)),
            },
            AcceptEvent::ReadError(m) => a == StepAction::Finish(
                Outcome::IoFailure(IoError::Read(m)),
            ),
            AcceptEvent::AcceptError(m) => a == StepAction::Finish(
                Outcome::IoFailure(IoError::Accept(m)),
            ),
        },
{
    if now_ms > deadline_ms {
        return StepAction::Finish(Outcome::TimedOut);
    }
    match event {
        AcceptEvent::NoPending => StepAction::Sleep,
        AcceptEvent::Line(line) => match extract_code(line.as_str()) {
            Some(code) => StepAction::Finish(Outcome::Code(code)),
            None => StepAction::Finish(Outcome::IoFailure(IoError::MalformedRedirect)),
        },
        AcceptEvent::ReadError(m) => StepAction::Finish(Outcome::IoFailure(IoError::Read(m))),
        AcceptEvent::AcceptError(m) => StepAction::Finish(Outcome::IoFailure(IoError::Accept(m))),
    }
}

/// The deadline is honored within one poll interval's slack: a clock reading
/// that is not yet past the deadline makes the loop sleep one interval, so
/// the next reading — the first that can time out — is past the deadline by
/// at most one interval (plus whatever the clock and scheduler add, which is
/// outside this model).
pub proof fn lemma_timeout_slack(prev_ms: u64, now_ms: u64, deadline_ms: u64)
    requires
        prev_ms <= deadline_ms,
        now_ms <= prev_ms + POLL_INTERVAL_MS,
    ensures
        now_ms <= deadline_ms + POLL_INTERVAL_MS,
{
}

impl IoError {
    /// The error text surfaced to the caller for this failure.
    pub open spec fn spec_message(&self) -> Seq<char> {
        match self {
            IoError::Bind(s) => "Failed to bind: "@ + s@,
            IoError::Accept(s) => "Accept error: "@ + s@,
            IoError::Read(s) => "Read error: "@ + s@,
            IoError::MalformedRedirect => "No auth code in redirect"@,
        }
    }

    /// Render the error text surfaced to the caller.
    pub fn message(&self) -> (m: String)
        ensures
            m@ == self.spec_message(),
    {
        match self {
            IoError::Bind(s) => {
                let mut m = "Failed to bind: ".to_owned();
                m.append(s.as_str());
                m
            },
            IoError::Accept(s) => {
                let mut m = "Accept error: ".to_owned();
                m.append(s.as_str());
                m
            },
            IoError::Read(s) => {
                let mut m = "Read error: ".to_owned();
                m.append(s.as_str());
                m
            },
            IoError::MalformedRedirect => "No auth code in redirect".to_owned(),
        }
    }
}

impl Outcome {
    /// The error text for a failed outcome; a successful one has none.
    pub open spec fn spec_message(&self) -> Option<Seq<char>> {
        match self {
            Outcome::Code(_) => None,
            Outcome::TimedOut => Some("Timed out waiting for OAuth redirect"@),
            Outcome::IoFailure(e) => Some(e.spec_message()),
        }
    }

    /// The outcome in the shape the caller sees: the authorization code on
    /// success, the error text otherwise. A timeout's text differs from every
    /// fatal failure's, so the caller can tell them apart.
    pub fn into_result(self) -> (r: Result<String, String>)
        ensures
            match self {
                Outcome::Code(c) => r == Ok::<String, String>(c),
                _ => match r {
                    Err(m) => Some(m@) == self.spec_message(),
                    Ok(_) => false,
                },
            },
    {
        match self {
            Outcome::Code(c) => Ok(c),
            Outcome::TimedOut => Err("Timed out waiting for OAuth redirect".to_owned()),
            Outcome::IoFailure(e) => Err(e.message()),
        }
    }
}

} // verus!
