//! Transport failures as plain values.
use vstd::prelude::*;

verus! {

/// The kinds of input/output failure that the crawler tells apart.
#[derive(Debug, Clone, Copy, PartialEq, Eq, Structural)]
pub enum IoErrorKind {
    TimedOut,
    ConnectionRefused,
    ConnectionReset,
    ConnectionAborted,
    BrokenPipe,
    UnexpectedEof,
    InvalidData,
    InvalidInput,
    Other,
}

/// An input/output failure: its kind, the operating system's code where there is one,
/// and a message.
#[derive(Debug, Clone)]
pub struct IoError {
    pub kind: IoErrorKind,
    pub raw_os_error: Option<i32>,
    pub message: String,
}

/// Whether an error is of the given kind and message and comes from no system call.
pub open spec fn is_io_error(e: IoError, kind: IoErrorKind, message: Seq<char>) -> bool {
    e.kind == kind && e.raw_os_error is None && e.message@ == message
}

impl IoError {
    /// An error that comes from no system call.
    pub fn new(kind: IoErrorKind, message: &str) -> (r: IoError)
        ensures
            is_io_error(r, kind, message@),
    {
        IoError { kind, raw_os_error: None, message: message.to_owned() }
    }
}

} // verus!
