//! Host-side logic for talking to the pelagos runtime: through `pelagos` CLI
//! subprocesses on Linux (`process`) or the guest daemon over vsock on macOS
//! (`vsock`).  The I/O itself is done by the application around this crate.

pub mod process;
pub mod vsock;

use vstd::prelude::*;

use crate::text::{owned, push_signed_decimal, push_str, signed_decimal};

verus! {

/// Errors returned by backend operations.
#[derive(Debug, Clone)]
pub enum BackendError {
    /// The `pelagos` binary is not in `PATH`.
    BinaryNotFound,
    /// `pelagos` exited with a non-zero status.
    CommandFailed { code: i32, stderr: String },
    /// The output could not be parsed; holds the parser's message.
    ParseError(String),
    /// An I/O operation failed; holds the error's message.
    Io(String),
    /// Any other failure, as a message.
    Other(String),
}

impl BackendError {
    /// The human-readable message of the error.
    pub open spec fn message(&self) -> Seq<char> {
        match self {
            BackendError::BinaryNotFound => "pelagos binary not found in PATH"@,
            BackendError::CommandFailed { code, stderr } => "pelagos exited with status "@
                + signed_decimal(*code as int) + ": "@ + stderr@,
            BackendError::ParseError(m) => "failed to parse pelagos output: "@ + m@,
            BackendError::Io(m) => "I/O error: "@ + m@,
            BackendError::Other(m) => m@,
        }
    }

    /// The human-readable message of the error.
    pub fn to_string(&self) -> (s: String)
        ensures
            s@ == self.message(),
    {
        match self {
            BackendError::BinaryNotFound => owned("pelagos binary not found in PATH"),
            BackendError::CommandFailed { code, stderr } => {
                let mut s = owned("pelagos exited with status ");
                push_signed_decimal(&mut s, *code as i64);
                push_str(&mut s, ": ");
                push_str(&mut s, stderr.as_str());
                s
            },
            BackendError::ParseError(m) => {
                let mut s = owned("failed to parse pelagos output: ");
                push_str(&mut s, m.as_str());
                s
            },
            BackendError::Io(m) => {
                let mut s = owned("I/O error: ");
                push_str(&mut s, m.as_str());
                s
            },
            BackendError::Other(m) => owned(m.as_str()),
        }
    }
}

/// Whether to go on reading a stream of output after handing one line to
/// the listener: always, except when the line could not be delivered
/// (nobody listens any more) and the stream is one that stops when unheard.
pub fn keep_following(delivered: bool, stop_when_unheard: bool) -> (r: bool)
    ensures
        r == (delivered || !stop_when_unheard),
{
    delivered || !stop_when_unheard
}

} // verus!
