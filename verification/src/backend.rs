//! Persistence backend kinds, and the placeholder for a replicated backend.
use vstd::prelude::*;
use crate::error::MemoError;
use crate::text::{join3, owned, str_eq};
use crate::traits::StorageBackend;

verus! {

/// Backend kind identifier.
#[derive(Debug, Clone, Copy, PartialEq, Eq, Structural)]
pub enum BackendKind {
    Embedded,
    Replicated,
}

/// The name of a backend kind.
pub open spec fn spec_kind_str(k: BackendKind) -> Seq<char> {
    match k {
        BackendKind::Embedded => "embedded"@,
        BackendKind::Replicated => "replicated"@,
    }
}

impl BackendKind {
    /// `"embedded"` or `"replicated"`.
    pub fn as_str(&self) -> (r: &'static str)
        ensures
            r@ == spec_kind_str(*self),
    {
        match self {
            BackendKind::Embedded => "embedded",
            BackendKind::Replicated => "replicated",
        }
    }

    /// Reads a backend kind name; anything else is `InvalidParam("unknown backend kind: …")`.
    pub fn parse(s: &str) -> (r: Result<BackendKind, MemoError>)
        ensures
            s@ == "embedded"@ ==> r == Ok::<BackendKind, MemoError>(BackendKind::Embedded),
            s@ == "replicated"@ ==> r == Ok::<BackendKind, MemoError>(BackendKind::Replicated),
            s@ != "embedded"@ && s@ != "replicated"@ ==> (r matches Err(MemoError::InvalidParam(m))
                && m@ == "unknown backend kind: "@ + s@),
    {
        proof {
            lemma_kind_str_roundtrip(BackendKind::Embedded);
        }
        if str_eq(s, "embedded") {
            Ok(BackendKind::Embedded)
        } else if str_eq(s, "replicated") {
            Ok(BackendKind::Replicated)
        } else {
            proof {
                reveal_strlit("");
            }
            Err(MemoError::InvalidParam(join3("unknown backend kind: ", s, "")))
        }
    }
}

impl std::str::FromStr for BackendKind {
    type Err = MemoError;

    fn from_str(s: &str) -> (r: Result<BackendKind, MemoError>)
        ensures
            s@ == "embedded"@ ==> r == Ok::<BackendKind, MemoError>(BackendKind::Embedded),
            s@ == "replicated"@ ==> r == Ok::<BackendKind, MemoError>(BackendKind::Replicated),
            s@ != "embedded"@ && s@ != "replicated"@ ==> (r matches Err(MemoError::InvalidParam(m))
                && m@ == "unknown backend kind: "@ + s@),
    {
        BackendKind::parse(s)
    }
}

/// Reading back the name of a backend kind gives the kind.
pub proof fn lemma_kind_str_roundtrip(k: BackendKind)
    ensures
        (spec_kind_str(k) == "embedded"@) == (k == BackendKind::Embedded),
        (spec_kind_str(k) == "replicated"@) == (k == BackendKind::Replicated),
{
    reveal_strlit("embedded");
    reveal_strlit("replicated");
    assert("embedded"@.len() != "replicated"@.len());
}

/// Placeholder for a replicated (distributed) backend; not implemented yet.
#[derive(Debug, Clone, Copy, PartialEq, Eq, Structural)]
pub struct ReplicatedBackend;

/// What the replicated backend answers to every request.
pub open spec fn not_implemented(e: MemoError) -> bool {
    e matches MemoError::Other(m) && m@ == "replicated backend not implemented in M1"@
}

impl ReplicatedBackend {
    /// The placeholder backend.
    pub fn new() -> (r: Self) {
        ReplicatedBackend
    }

    /// Opening a replicated backend is not implemented: always `Other`.
    pub fn open(location: &str) -> (r: Result<(), MemoError>)
        ensures
            r matches Err(e) && not_implemented(e),
    {
        Err(MemoError::Other(owned("replicated backend not implemented in M1")))
    }
}

impl Default for ReplicatedBackend {
    fn default() -> (r: Self) {
        ReplicatedBackend
    }
}

impl StorageBackend for ReplicatedBackend {
    fn migrate(&self) -> (r: Result<(), MemoError>)
        ensures
            r matches Err(e) && not_implemented(e),
    {
        Err(MemoError::Other(owned("replicated backend not implemented in M1")))
    }

    fn backend_kind(&self) -> (r: &'static str)
        ensures
            r@ == "replicated"@,
    {
        BackendKind::Replicated.as_str()
    }
}

} // verus!
