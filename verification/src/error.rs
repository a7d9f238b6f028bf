//! The crate's error type.
//!
//! Every fatal condition carries a kind, so that callers and tests can tell
//! an internal inconsistency from a malformed input without looking at the
//! message text.

use vstd::prelude::*;
use vstd::string::StringSliceAdditionalSpecFns;

use crate::bytes;

verus! {

/// What went wrong: an unreadable path, a malformed document, an internal
/// inconsistency of the graph, a failed subprocess, or a check-mode
/// mismatch.
#[derive(Clone, Copy, Debug, PartialEq, Eq, Structural)]
pub enum ErrorKind {
    Io,
    Parse,
    Inconsistent,
    Subprocess,
    CheckMismatch,
    Other,
}

/// An error message with its kind. The message is held as bytes, like all
/// text in this crate.
#[derive(Clone, Debug)]
pub struct Error {
    pub kind: ErrorKind,
    pub msg: Vec<u8>,
}

impl Error {
    /// An error of the given kind whose message is the given bytes.
    pub fn new(kind: ErrorKind, msg: Vec<u8>) -> (r: Error)
        ensures
            r.kind == kind,
            r.msg@ == msg@,
    {
        Error { kind, msg }
    }

    /// An error from an owned message string.
    pub fn from_string(msg: String) -> (r: Error)
        ensures
            r.kind == ErrorKind::Other,
            r.msg@ == vstd::utf8::encode_utf8(msg@),
    {
        let b = msg.as_str().as_bytes();
        let mut v: Vec<u8> = Vec::new();
        bytes::push_bytes(&mut v, b);
        proof {
            assert(v@ =~= vstd::utf8::encode_utf8(msg@));
        }
        Error { kind: ErrorKind::Other, msg: v }
    }

    /// The same message under another kind.
    pub fn with_kind(self, kind: ErrorKind) -> (r: Error)
        ensures
            r.kind == kind,
            r.msg@ == self.msg@,
    {
        Error { kind, msg: self.msg }
    }

    /// The same error with an identifying detail appended to its message.
    pub fn with_detail(self, detail: &[u8]) -> (r: Error)
        ensures
            r.kind == self.kind,
            r.msg@ == self.msg@ + ctx_sep() + detail@,
    {
        let mut msg = self.msg;
        crate::bytes::push_byte(&mut msg, ':' as u8);
        crate::bytes::push_byte(&mut msg, ' ' as u8);
        crate::bytes::push_bytes(&mut msg, detail);
        proof {
            assert(msg@ =~= self.msg@ + ctx_sep() + detail@);
        }
        Error { kind: self.kind, msg }
    }

    /// An error from a borrowed message string.
    pub fn from_display(msg: &str) -> (r: Error)
        ensures
            r.kind == ErrorKind::Other,
            r.msg@ == msg.spec_bytes(),
    {
        let b = msg.as_bytes();
        let mut v: Vec<u8> = Vec::new();
        bytes::push_bytes(&mut v, b);
        proof {
            assert(v@ =~= msg.spec_bytes());
        }
        Error { kind: ErrorKind::Other, msg: v }
    }
}

/// The separator put between a context note and the message it wraps.
pub open spec fn ctx_sep() -> Seq<u8> {
    seq![':' as u8, ' ' as u8]
}

/// Prefixing an error with a human-readable context note.
pub trait Context<T>: Sized {
    /// What `context` must return, as a function of the receiver and the
    /// note's bytes.
    spec fn spec_context(self, c: Seq<u8>) -> Result<T, (ErrorKind, Seq<u8>)>;

    fn context(self, c: &str) -> (r: Result<T, Error>)
        ensures
            match self.spec_context(c.spec_bytes()) {
                Ok(v) => r is Ok && r->Ok_0 == v,
                Err((k, m)) => r is Err && r->Err_0.kind == k && r->Err_0.msg@ == m,
            },
    ;
}

impl<T> Context<T> for Result<T, Error> {
    /// On failure the note is prepended to the existing message; the kind is
    /// kept.
    open spec fn spec_context(self, c: Seq<u8>) -> Result<T, (ErrorKind, Seq<u8>)> {
        match self {
            Ok(v) => Ok(v),
            Err(e) => Err((e.kind, c + ctx_sep() + e.msg@)),
        }
    }

    fn context(self, c: &str) -> (r: Result<T, Error>) {
        match self {
            Ok(v) => Ok(v),
            Err(e) => {
                let mut v: Vec<u8> = Vec::new();
                bytes::push_bytes(&mut v, c.as_bytes());
                bytes::push_byte(&mut v, ':' as u8);
                bytes::push_byte(&mut v, ' ' as u8);
                bytes::push_bytes(&mut v, e.msg.as_slice());
                proof {
                    assert(v@ =~= c.spec_bytes() + ctx_sep() + e.msg@);
                }
                Err(Error { kind: e.kind, msg: v })
            },
        }
    }
}

impl<T> Context<T> for Option<T> {
    /// A missing value becomes an error whose message is the note itself.
    open spec fn spec_context(self, c: Seq<u8>) -> Result<T, (ErrorKind, Seq<u8>)> {
        match self {
            Some(v) => Ok(v),
            None => Err((ErrorKind::Other, c)),
        }
    }

    fn context(self, c: &str) -> (r: Result<T, Error>) {
        match self {
            Some(v) => Ok(v),
            None => {
                let mut v: Vec<u8> = Vec::new();
                bytes::push_bytes(&mut v, c.as_bytes());
                proof {
                    assert(v@ =~= c.spec_bytes());
                }
                Err(Error { kind: ErrorKind::Other, msg: v })
            },
        }
    }
}

} // verus!
