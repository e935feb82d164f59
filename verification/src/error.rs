//! Errors of the pipeline core: bad values (an unknown sort key, a
//! malformed glob pattern) and a catch-all for everything else.

use vstd::prelude::*;

verus! {

/// What went wrong.
#[derive(Clone, Copy, PartialEq, Eq, Structural, Debug)]
pub enum ErrorKind {
    Value,
    Other,
}

/// An error with a message for the person running the pipeline.
#[derive(Debug)]
pub struct Error {
    pub msg: String,
    pub kind: ErrorKind,
}

impl Error {
    /// An error of the given kind.
    pub fn new(kind: ErrorKind, msg: String) -> (r: Self)
        ensures
            r.kind == kind,
            r.msg@ == msg@,
    {
        Error { msg, kind }
    }

    /// A value error: some input held a value the pipeline cannot use.
    pub fn value(msg: String) -> (r: Self)
        ensures
            r.kind == ErrorKind::Value,
            r.msg@ == msg@,
    {
        Error { msg, kind: ErrorKind::Value }
    }

    /// An error outside the named kinds.
    pub fn other(msg: String) -> (r: Self)
        ensures
            r.kind == ErrorKind::Other,
            r.msg@ == msg@,
    {
        Error { msg, kind: ErrorKind::Other }
    }

    /// The message, for printing at the pipeline's edge.
    pub fn message(&self) -> (r: &String)
        ensures
            r@ == self.msg@,
    {
        &self.msg
    }
}

} // verus!
