//! Error values of the library.

use vstd::prelude::*;
use crate::text::concat;

verus! {

/// What went wrong, in the categories that callers act on.
#[derive(Clone, Copy, Debug, PartialEq, Eq, Structural)]
pub enum ErrorKind {
    /// Something was looked up and not there.
    NotFound,
    /// The caller lacks the required permissions.
    PermissionDenied,
    /// An argument was malformed.
    InvalidInput,
    /// Stored or received data was malformed.
    InvalidData,
    /// An operation took too long.
    TimedOut,
    /// Anything else.
    Other,
}

/// The text that describes an error kind when no message was given.
pub open spec fn kind_text(kind: ErrorKind) -> Seq<char> {
    match kind {
        ErrorKind::NotFound => "entity not found"@,
        ErrorKind::PermissionDenied => "permission denied"@,
        ErrorKind::InvalidInput => "invalid input parameter"@,
        ErrorKind::InvalidData => "invalid data"@,
        ErrorKind::TimedOut => "timed out"@,
        ErrorKind::Other => "other error"@,
    }
}

impl ErrorKind {
    /// The text that describes this kind.
    pub fn description(&self) -> (r: String)
        ensures
            r@ == kind_text(*self),
    {
        match self {
            ErrorKind::NotFound => String::from_str("entity not found"),
            ErrorKind::PermissionDenied => String::from_str("permission denied"),
            ErrorKind::InvalidInput => String::from_str("invalid input parameter"),
            ErrorKind::InvalidData => String::from_str("invalid data"),
            ErrorKind::TimedOut => String::from_str("timed out"),
            ErrorKind::Other => String::from_str("other error"),
        }
    }
}

/// An error: a kind and, usually, a message.
#[derive(Debug)]
pub struct Error {
    /// The category of the error.
    pub kind: ErrorKind,
    /// The message, if one was given.
    pub message: Option<String>,
}

/// Result type of the library.
pub type Result<T> = core::result::Result<T, Error>;

/// The text an error displays: its message, or its kind's description.
pub open spec fn error_text(e: Error) -> Seq<char> {
    match e.message {
        Some(m) => m@,
        None => kind_text(e.kind),
    }
}

impl Error {
    /// An error of the given kind with a message.
    pub fn new(kind: ErrorKind, msg: &str) -> (e: Error)
        ensures
            e.kind == kind,
            e.message matches Some(m) && m@ == msg@,
    {
        Error { kind, message: Some(String::from_str(msg)) }
    }

    /// An error of the given kind without a message.
    pub fn from_kind(kind: ErrorKind) -> (e: Error)
        ensures
            e.kind == kind,
            e.message is None,
    {
        Error { kind, message: None }
    }

    /// An error of kind `Other`.
    pub fn other(msg: &str) -> (e: Error)
        ensures
            e.kind == ErrorKind::Other,
            e.message matches Some(m) && m@ == msg@,
    {
        Error::new(ErrorKind::Other, msg)
    }

    /// An error of kind `NotFound`.
    pub fn not_found(msg: &str) -> (e: Error)
        ensures
            e.kind == ErrorKind::NotFound,
            e.message matches Some(m) && m@ == msg@,
    {
        Error::new(ErrorKind::NotFound, msg)
    }

    /// An error of kind `PermissionDenied`.
    pub fn unauthorized(msg: &str) -> (e: Error)
        ensures
            e.kind == ErrorKind::PermissionDenied,
            e.message matches Some(m) && m@ == msg@,
    {
        Error::new(ErrorKind::PermissionDenied, msg)
    }

    /// The category of this error.
    pub fn kind(&self) -> (k: ErrorKind)
        ensures
            k == self.kind,
    {
        self.kind
    }

    /// The text this error displays.
    pub fn to_string(&self) -> (s: String)
        ensures
            s@ == error_text(*self),
    {
        match &self.message {
            Some(m) => m.clone(),
            None => self.kind.description(),
        }
    }
}

/// The text of `inner` followed by `": "` and `info`.
pub open spec fn joined(inner: Seq<char>, info: Seq<char>) -> Seq<char> {
    inner + ": "@ + info
}

/// Convenience helpers for errors.
pub trait ErrorExt: Sized {
    /// Adds additional information to the error.
    fn with_info(self, info: &str) -> Error;

    /// An error indicating an operation took too long.
    fn timeout(src: &str) -> Error;
}

impl ErrorExt for Error {
    /// Keeps the kind; the message becomes the old message (or `none` when
    /// there was none), a colon and the information.
    fn with_info(self, info: &str) -> (e: Error)
        ensures
            e.kind == self.kind,
            e.message matches Some(m) && m@ == joined(
                match self.message {
                    Some(x) => x@,
                    None => "none"@,
                },
                info@,
            ),
    {
        let inner = match &self.message {
            Some(m) => m.clone(),
            None => String::from_str("none"),
        };
        let head = concat(inner.as_str(), ": ");
        let msg = concat(head.as_str(), info);
        Error { kind: self.kind, message: Some(msg) }
    }

    fn timeout(src: &str) -> (e: Error)
        ensures
            e.kind == ErrorKind::TimedOut,
            e.message matches Some(m) && m@ == src@,
    {
        Error::new(ErrorKind::TimedOut, src)
    }
}

impl ErrorExt for ErrorKind {
    /// An error of this kind whose message is the kind's description, a
    /// colon and the information.
    fn with_info(self, info: &str) -> (e: Error)
        ensures
            e.kind == self,
            e.message matches Some(m) && m@ == joined(kind_text(self), info@),
    {
        let head = concat(self.description().as_str(), ": ");
        let msg = concat(head.as_str(), info);
        Error { kind: self, message: Some(msg) }
    }

    fn timeout(src: &str) -> (e: Error)
        ensures
            e.kind == ErrorKind::TimedOut,
            e.message matches Some(m) && m@ == src@,
    {
        Error::new(ErrorKind::TimedOut, src)
    }
}

/// An error together with additional information about it.
#[derive(Debug)]
pub struct WithInfo {
    /// The inner source error.
    pub error: Error,
    /// The additional information.
    pub info: String,
}

impl WithInfo {
    /// Wraps an error with information.
    pub fn new(error: Error, info: &str) -> (w: WithInfo)
        ensures
            w.error == error,
            w.info@ == info@,
    {
        WithInfo { error, info: String::from_str(info) }
    }

    /// The inner error's text, a colon and the information.
    pub fn to_string(&self) -> (s: String)
        ensures
            s@ == joined(error_text(self.error), self.info@),
    {
        let head = concat(self.error.to_string().as_str(), ": ");
        concat(head.as_str(), self.info.as_str())
    }
}

} // verus!
