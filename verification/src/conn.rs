//! How a connection's receive and send failures are classified, and what
//! the per-request loop does about each kind.

use crate::protocol::Status;
use vstd::prelude::*;

verus! {

/// The library's model of an I/O failure kind.
#[derive(Debug, Clone, Copy, PartialEq, Eq, Structural)]
pub enum IoFailure {
    ConnectionRefused,
    ConnectionReset,
    ConnectionAborted,
    BrokenPipe,
    UnexpectedEof,
    OutOfMemory,
    WriteZero,
    InvalidInput,
    Interrupted,
    TimedOut,
    Other,
}

/// Why a receive or send did not yield a request.
#[derive(Debug, PartialEq)]
pub enum ErrorKind {
    /// The peer is gone; end the session cleanly.
    Closed,
    /// An unimplemented protocol detail; log and go on.
    Ignored,
    /// A retryable hiccup; go on silently.
    Continue,
    /// A fatal transport failure.
    Io(IoFailure),
    /// A failure to report to the client as a status.
    Status(Status),
}

/// A classified failure with the text that explains it, when there is one.
#[derive(Debug, PartialEq)]
pub struct Error {
    pub kind: ErrorKind,
    pub reason: Option<String>,
}

impl Error {
    /// A classified failure with its explanation.
    pub fn new(kind: ErrorKind, reason: String) -> (r: Error)
        ensures
            r.kind == kind,
            r.reason matches Option::Some(s) && s@ == reason@,
    {
        Error { kind, reason: Option::Some(reason) }
    }
}

/// The classification of a transport failure: closed ends the session,
/// interruptions and timeouts are retried, an invalid local write is the
/// server's own bug, and memory or zero-write failures are surfaced.
pub open spec fn spec_classify_io(k: IoFailure) -> ErrorKind {
    match k {
        IoFailure::ConnectionRefused => ErrorKind::Closed,
        IoFailure::ConnectionReset => ErrorKind::Closed,
        IoFailure::ConnectionAborted => ErrorKind::Closed,
        IoFailure::BrokenPipe => ErrorKind::Closed,
        IoFailure::UnexpectedEof => ErrorKind::Closed,
        IoFailure::OutOfMemory => ErrorKind::Io(IoFailure::OutOfMemory),
        IoFailure::WriteZero => ErrorKind::Io(IoFailure::WriteZero),
        IoFailure::InvalidInput => ErrorKind::Status(Status::ServerError),
        IoFailure::Interrupted => ErrorKind::Continue,
        IoFailure::TimedOut => ErrorKind::Continue,
        IoFailure::Other => ErrorKind::Closed,
    }
}

/// Classifies a transport failure.
pub fn classify_io(k: IoFailure) -> (r: ErrorKind)
    ensures
        r == spec_classify_io(k),
{
    match k {
        IoFailure::ConnectionRefused => ErrorKind::Closed,
        IoFailure::ConnectionReset => ErrorKind::Closed,
        IoFailure::ConnectionAborted => ErrorKind::Closed,
        IoFailure::BrokenPipe => ErrorKind::Closed,
        IoFailure::UnexpectedEof => ErrorKind::Closed,
        IoFailure::OutOfMemory => ErrorKind::Io(IoFailure::OutOfMemory),
        IoFailure::WriteZero => ErrorKind::Io(IoFailure::WriteZero),
        IoFailure::InvalidInput => ErrorKind::Status(Status::ServerError),
        IoFailure::Interrupted => ErrorKind::Continue,
        IoFailure::TimedOut => ErrorKind::Continue,
        IoFailure::Other => ErrorKind::Closed,
    }
}

/// What the per-request loop does after a failed receive.
#[derive(Debug, PartialEq)]
pub enum LoopAction {
    /// End the session.
    End,
    /// Try the next receive.
    Retry,
    /// Send a status-only response, then try the next receive.
    Reply(Status),
}

/// Decides the per-request loop's next step after a failed receive: a
/// closed or failed transport ends the session, ignorable and retryable
/// failures continue it, and a status is reported to the client.
pub fn recv_error_action(kind: &ErrorKind) -> (r: LoopAction)
    ensures
        kind is Closed ==> r == LoopAction::End,
        kind is Ignored ==> r == LoopAction::Retry,
        kind is Continue ==> r == LoopAction::Retry,
        kind matches ErrorKind::Io(k) ==> r == LoopAction::End,
        kind matches ErrorKind::Status(s) ==> r == LoopAction::Reply(*s),
{
    match kind {
        ErrorKind::Closed => LoopAction::End,
        ErrorKind::Ignored => LoopAction::Retry,
        ErrorKind::Continue => LoopAction::Retry,
        ErrorKind::Io(_) => LoopAction::End,
        ErrorKind::Status(s) => LoopAction::Reply(*s),
    }
}

/// How a receive failed, in the framed transport's own terms.
#[derive(Debug, PartialEq)]
pub enum ReceiveError {
    /// The peer closed the stream.
    ConnectionClosed,
    /// The transport failed.
    ConnectionError(IoFailure),
    /// The request could not be parsed; the flag records whether even the
    /// failure response could not be sent.
    MalformedRequest(bool),
}

impl ReceiveError {
    /// Whether the failure must end the session: only a malformed request
    /// whose failure response also failed is fatal here.
    pub fn fatal(&self) -> (r: bool)
        ensures
            r <==> self matches ReceiveError::MalformedRequest(true),
    {
        match self {
            ReceiveError::MalformedRequest(failed) => *failed,
            _ => false,
        }
    }
}

/// Arguments the command line accepts: only verbosity, at most once.
#[derive(Debug, PartialEq)]
pub struct ArgParser {
    pub verbose: bool,
}

/// Why the command line was refused.
#[derive(Debug, PartialEq)]
pub enum ArgError {
    /// Verbosity was asked for twice.
    DuplicateVerbose,
    /// An argument the program does not know, carried along.
    Unknown(String),
}

impl ArgParser {
    /// Reads the command line (without the program name): every argument
    /// must be the verbosity flag, and it may appear at most once.
    pub fn new(args: &Vec<String>) -> (r: Result<ArgParser, ArgError>)
        ensures
            r matches Ok(p) ==> (forall|i: int|
                0 <= i < args@.len() ==> (#[trigger] args@[i])@ == "--verbose"@) && args@.len()
                <= 1 && (p.verbose <==> args@.len() == 1),
            r is Err ==> args@.len() > 1 || exists|i: int|
                0 <= i < args@.len() && (#[trigger] args@[i])@ != "--verbose"@,
    {
        let mut verbose = false;
        let mut i: usize = 0;
        while i < args.len()
            invariant
                i <= args@.len(),
                forall|j: int| 0 <= j < i ==> (#[trigger] args@[j])@ == "--verbose"@,
                verbose <==> i == 1,
                i <= 1,
            decreases args@.len() - i,
        {
            if !crate::wire::str_eq(args[i].as_str(), "--verbose") {
                return Result::Err(ArgError::Unknown(args[i].clone()));
            }
            if verbose {
                return Result::Err(ArgError::DuplicateVerbose);
            }
            verbose = true;
            i = i + 1;
        }
        Result::Ok(ArgParser { verbose })
    }
}

} // verus!
