//! Errors are values: every operation of the library that can fail returns
//! a `CrushResult`.

use vstd::prelude::*;
use vstd::string::StringExecFns;

verus! {

/// The kinds of failure that the library tells apart.
#[derive(Debug, Clone, Copy, PartialEq, Eq, Structural)]
pub enum ErrorKind {
    Parse,
    Argument,
    Type,
    Lookup,
    Io,
    Send,
    Recv,
    Generic,
}

/// A place in the source text: the offsets of its first character and of
/// the character after its last.
#[derive(Debug, Clone, Copy, PartialEq, Eq, Structural)]
pub struct Location {
    pub start: usize,
    pub end: usize,
}

/// A structured error: a kind, a message for the user and, where it is
/// known, the place in the source text that is at fault.
#[derive(Debug)]
pub struct CrushError {
    pub kind: ErrorKind,
    pub message: String,
    pub location: Option<Location>,
}

pub type CrushResult<T> = Result<T, CrushError>;

/// The message that a sender gets when the receiving end is gone.
pub open spec fn send_message() -> Seq<char> {
    "Broken pipe"@
}

/// The message that a receiver gets at the end of the stream.
pub open spec fn recv_message() -> Seq<char> {
    "End of stream"@
}

/// `r` is an error of the given kind that carries the given message.
pub open spec fn fails_with<T>(r: CrushResult<T>, kind: ErrorKind, message: Seq<char>) -> bool {
    r matches Err(e) && e.kind == kind && e.message@ == message
}

impl CrushError {
    pub fn new(kind: ErrorKind, message: &str) -> (e: CrushError)
        ensures
            e.kind == kind,
            e.message@ == message@,
            e.location is None,
    {
        CrushError { kind, message: String::from_str(message), location: None }
    }

    /// The same error, at the given place in the source text.
    pub fn with_location(self, location: Location) -> (e: CrushError)
        ensures
            e.kind == self.kind,
            e.message == self.message,
            e.location == Some(location),
    {
        CrushError { kind: self.kind, message: self.message, location: Some(location) }
    }

    /// The message, for display.
    pub fn message(&self) -> (m: String)
        ensures
            m@ == self.message@,
    {
        self.message.clone()
    }

    pub fn kind(&self) -> (k: ErrorKind)
        ensures
            k == self.kind,
    {
        self.kind
    }
}

/// A failure with no more specific kind.
pub fn error<T>(message: &str) -> (r: CrushResult<T>)
    ensures
        fails_with(r, ErrorKind::Generic, message@),
{
    Err(CrushError::new(ErrorKind::Generic, message))
}

/// A failure caused by the arguments given to a command or a definition.
pub fn argument_error<T>(message: &str) -> (r: CrushResult<T>)
    ensures
        fails_with(r, ErrorKind::Argument, message@),
{
    Err(CrushError::new(ErrorKind::Argument, message))
}

/// A failure caused by a value of the wrong type.
pub fn type_error<T>(message: &str) -> (r: CrushResult<T>)
    ensures
        fails_with(r, ErrorKind::Type, message@),
{
    Err(CrushError::new(ErrorKind::Type, message))
}

/// A failure caused by a name that is not bound.
pub fn lookup_error<T>(message: &str) -> (r: CrushResult<T>)
    ensures
        fails_with(r, ErrorKind::Lookup, message@),
{
    Err(CrushError::new(ErrorKind::Lookup, message))
}

/// The failure of a send on a channel whose receiver is gone.
pub fn send_error<T>() -> (r: CrushResult<T>)
    ensures
        fails_with(r, ErrorKind::Send, send_message()),
{
    Err(CrushError::new(ErrorKind::Send, "Broken pipe"))
}

/// The failure of a receive on a channel that is closed and empty.
pub fn recv_error<T>() -> (r: CrushResult<T>)
    ensures
        fails_with(r, ErrorKind::Recv, recv_message()),
{
    Err(CrushError::new(ErrorKind::Recv, "End of stream"))
}

/// Turns an absent value into a generic failure with the given message.
pub fn mandate<T>(value: Option<T>, message: &str) -> (r: CrushResult<T>)
    ensures
        match value {
            Some(v) => r == Ok::<T, CrushError>(v),
            None => fails_with(r, ErrorKind::Generic, message@),
        },
{
    match value {
        Some(v) => Ok(v),
        None => error(message),
    }
}

} // verus!
