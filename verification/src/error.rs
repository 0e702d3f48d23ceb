//! The library's one error type.
use vstd::prelude::*;
use crate::text::{join3, owned};

verus! {

/// An I/O error of the standard library, carried as it is.
#[verifier::external_type_specification]
#[verifier::external_body]
pub struct ExIoError(std::io::Error);

/// Every failure of the memory store; none is swallowed.
#[derive(Debug)]
pub enum MemoError {
    Io(std::io::Error),
    Db(String),
    NotFound(String),
    DuplicateId(String),
    EmptyContent,
    EmptyEmbedding,
    InvalidParam(String),
    Serialization(String),
    Embedding(String),
    Other(String),
}

/// The category of an I/O error, carried as it is.
#[verifier::external_type_specification]
#[verifier::external_body]
pub struct ExIoErrorKind(std::io::ErrorKind);

/// The category of an I/O error (`std::io::Error::kind`).
#[verifier::external_body]
fn io_error_kind(e: &std::io::Error) -> std::io::ErrorKind {
    e.kind()
}

/// A new I/O error of a category with a message (`std::io::Error::new`).
#[verifier::external_body]
fn io_error_new(kind: std::io::ErrorKind, text: String) -> std::io::Error {
    std::io::Error::new(kind, text)
}

/// The text of an I/O error (its `Display` output).
#[verifier::external_body]
fn io_error_text(e: &std::io::Error) -> String {
    format!("{}", e)
}

/// What `MemoError::message` says for every variant but `Io`, whose text is the
/// standard library's.
pub open spec fn spec_message(e: MemoError) -> Seq<char> {
    match e {
        MemoError::Io(_) => "io error: "@,
        MemoError::Db(s) => "database error: "@ + s@,
        MemoError::NotFound(s) => "memo not found: "@ + s@,
        MemoError::DuplicateId(s) => "duplicate memo id: "@ + s@,
        MemoError::EmptyContent => "empty content"@,
        MemoError::EmptyEmbedding => "empty embedding"@,
        MemoError::InvalidParam(s) => "invalid parameter: "@ + s@,
        MemoError::Serialization(s) => "serialization error: "@ + s@,
        MemoError::Embedding(s) => "embedding error: "@ + s@,
        MemoError::Other(s) => "other error: "@ + s@,
    }
}

impl MemoError {
    /// The human-readable text of the error (`io error: …`, `memo not found: …`, …).
    pub fn message(&self) -> (r: String)
        ensures
            self is Io ==> r@.take(spec_message(*self).len() as int) == spec_message(*self),
            !(self is Io) ==> r@ == spec_message(*self),
    {
        proof {
            reveal_strlit("");
        }
        match self {
            MemoError::Io(e) => {
                let t = io_error_text(e);
                let r = join3("io error: ", t.as_str(), "");
                proof {
                    assert(r@.take("io error: "@.len() as int) =~= "io error: "@);
                }
                r
            },
            MemoError::Db(s) => join3("database error: ", s.as_str(), ""),
            MemoError::NotFound(s) => join3("memo not found: ", s.as_str(), ""),
            MemoError::DuplicateId(s) => join3("duplicate memo id: ", s.as_str(), ""),
            MemoError::EmptyContent => owned("empty content"),
            MemoError::EmptyEmbedding => owned("empty embedding"),
            MemoError::InvalidParam(s) => join3("invalid parameter: ", s.as_str(), ""),
            MemoError::Serialization(s) => join3("serialization error: ", s.as_str(), ""),
            MemoError::Embedding(s) => join3("embedding error: ", s.as_str(), ""),
            MemoError::Other(s) => join3("other error: ", s.as_str(), ""),
        }
    }
}

impl Clone for MemoError {
    /// A copy of the error; an I/O error is copied as a new one of the same category
    /// and message.
    fn clone(&self) -> (r: MemoError)
        ensures
            !(self is Io) ==> r == *self,
            self is Io ==> r is Io,
    {
        match self {
            MemoError::Io(e) => MemoError::Io(io_error_new(io_error_kind(e), io_error_text(e))),
            MemoError::Db(s) => MemoError::Db(s.clone()),
            MemoError::NotFound(s) => MemoError::NotFound(s.clone()),
            MemoError::DuplicateId(s) => MemoError::DuplicateId(s.clone()),
            MemoError::EmptyContent => MemoError::EmptyContent,
            MemoError::EmptyEmbedding => MemoError::EmptyEmbedding,
            MemoError::InvalidParam(s) => MemoError::InvalidParam(s.clone()),
            MemoError::Serialization(s) => MemoError::Serialization(s.clone()),
            MemoError::Embedding(s) => MemoError::Embedding(s.clone()),
            MemoError::Other(s) => MemoError::Other(s.clone()),
        }
    }
}

impl From<std::io::Error> for MemoError {
    fn from(e: std::io::Error) -> (r: MemoError) {
        MemoError::Io(e)
    }
}

impl vstd::std_specs::convert::FromSpecImpl<std::io::Error> for MemoError {
    open spec fn obeys_from_spec() -> bool {
        true
    }

    open spec fn from_spec(e: std::io::Error) -> MemoError {
        MemoError::Io(e)
    }
}

/// `Err(MemoError::InvalidParam(reason))`.
pub fn invalid_param<T>(reason: &str) -> (r: Result<T, MemoError>)
    ensures
        r matches Err(MemoError::InvalidParam(s)) && s@ == reason@,
{
    Err(MemoError::InvalidParam(owned(reason)))
}

} // verus!
