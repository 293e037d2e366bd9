//! The errors that validation and transformation report.

use vstd::prelude::*;
use vstd::string::StringExecFns;

verus! {

/// What went wrong, from the general to the specific.
#[derive(Clone, Copy, Debug, PartialEq, Eq, Structural)]
pub enum ErrorKind {
    /// A rule of the format is broken and no narrower kind fits.
    Validation,
    /// A time is out of range or malformed, or two times are out of order.
    Timestamp,
    /// The `WEBVTT` signature is missing or malformed.
    Header,
    /// A cue has no text, or text that the format forbids.
    Cue,
    /// Text could not be escaped. Escaping always succeeds today.
    Escaping,
    /// The sink or the source could not be written or read.
    Io,
}

/// An error with its kind and a message for a human reader.
#[derive(Debug, PartialEq, Eq)]
pub struct VttError {
    pub kind: ErrorKind,
    pub message: String,
}

impl Clone for VttError {
    fn clone(&self) -> (r: VttError)
        ensures
            r.kind == self.kind,
            r.message@ == self.message@,
    {
        VttError { kind: self.kind, message: self.message.clone() }
    }
}

impl VttError {
    /// The message as an owned string.
    pub fn message(&self) -> (m: String)
        ensures
            m@ == self.message@,
    {
        self.message.clone()
    }
}

/// A validation error with this message.
pub fn validation_error(msg: &str) -> (e: VttError)
    ensures
        e.kind == ErrorKind::Validation,
        e.message@ == msg@,
{
    VttError { kind: ErrorKind::Validation, message: String::from_str(msg) }
}

/// A timestamp error with this message.
pub fn timestamp_error(msg: &str) -> (e: VttError)
    ensures
        e.kind == ErrorKind::Timestamp,
        e.message@ == msg@,
{
    VttError { kind: ErrorKind::Timestamp, message: String::from_str(msg) }
}

/// A header error with this message.
pub fn header_error(msg: &str) -> (e: VttError)
    ensures
        e.kind == ErrorKind::Header,
        e.message@ == msg@,
{
    VttError { kind: ErrorKind::Header, message: String::from_str(msg) }
}

/// A cue error with this message.
pub fn cue_error(msg: &str) -> (e: VttError)
    ensures
        e.kind == ErrorKind::Cue,
        e.message@ == msg@,
{
    VttError { kind: ErrorKind::Cue, message: String::from_str(msg) }
}

} // verus!
