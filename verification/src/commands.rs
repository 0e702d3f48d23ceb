//! The command-line operations that are decisions on memories rather than printing.
use vstd::prelude::*;
use std::collections::HashMap;
use crate::binary32::in_unit;
use crate::error::MemoError;
use crate::ids::spec_format_id;
use crate::manager::{patched, MemoryManager};
use crate::model::{spec_parse_type, MemoPatch, MemoType};
use crate::text::{is_blank, owned};
use crate::traits::{Embedder, MemoStore};

verus! {

/// The tier a `--type` value names; an unknown name falls back to `working` (so that a
/// differing type schema cannot break a pipeline feeding the CLI).
pub open spec fn type_or_working(s: Seq<char>) -> MemoType {
    match spec_parse_type(s) {
        Some(t) => t,
        None => MemoType::Working,
    }
}

/// Adds a memory of the named tier (or `working` when the name is unknown) and returns
/// its id.
pub fn add<E: Embedder, S: MemoStore>(
    manager: &mut MemoryManager<E, S>,
    mem_type: &str,
    content: &str,
    importance: u32,
) -> (r: Result<String, MemoError>)
    ensures
        is_blank(content@) ==> r matches Err(MemoError::EmptyContent),
        !is_blank(content@) && !in_unit(importance) ==> r matches Err(MemoError::InvalidParam(_)),
        r is Err ==> final(manager).memos() == old(manager).memos(),
        r matches Ok(id) ==> id@.len() > 0 && exists|nanos: nat, salt: nat| id@ == spec_format_id(
            nanos,
            salt,
        ),
        r matches Ok(id) ==> {
            let m = final(manager).memos()[id@];
            &&& !old(manager).memos().contains_key(id@)
            &&& final(manager).memos() == old(manager).memos().insert(id@, m)
            &&& m.content@ == content@
            &&& m.memo_type == type_or_working(mem_type@)
            &&& m.importance == importance
            &&& m.version == 1
        },
{
    let mt = match MemoType::parse(mem_type) {
        Ok(t) => t,
        Err(_) => MemoType::Working,
    };
    manager.add(content, mt, HashMap::new(), importance)
}

/// Updates a memory's content, tier and importance; a tier name must be known (else
/// `InvalidParam`), and at least one of the three must be given.
pub fn update<E: Embedder, S: MemoStore>(
    manager: &mut MemoryManager<E, S>,
    id: &str,
    content: Option<&str>,
    mem_type: Option<&str>,
    importance: Option<u32>,
) -> (r: Result<(), MemoError>)
    ensures
        mem_type matches Some(t) && spec_parse_type(t@) is None ==> r matches Err(
            MemoError::InvalidParam(_),
        ),
        content is None && mem_type is None && importance is None ==> r matches Err(
            MemoError::InvalidParam(_),
        ),
        !old(manager).memos().contains_key(id@) ==> r is Err,
        r is Err ==> final(manager).memos() == old(manager).memos(),
        r is Ok ==> {
            let m = final(manager).memos()[id@];
            &&& old(manager).memos().contains_key(id@)
            &&& final(manager).memos() == old(manager).memos().insert(id@, m)
            &&& exists|p: MemoPatch|
                #![auto]
                p.metadata is None && (match content {
                    Some(c) => p.content matches Some(pc) && pc@ == c@,
                    None => p.content is None,
                }) && (match mem_type {
                    Some(t) => p.memo_type == spec_parse_type(t@),
                    None => p.memo_type is None,
                }) && p.importance == importance && patched(
                    old(manager).spec_embedder(),
                    old(manager).memos()[id@],
                    p,
                    m,
                )
        },
{
    let mt = match mem_type {
        Some(t) => Some(MemoType::parse(t)?),
        None => None,
    };
    let c = match content {
        Some(c) => Some(owned(c)),
        None => None,
    };
    let patch = MemoPatch { content: c, memo_type: mt, metadata: None, importance };
    let key = owned(id);
    manager.update(&key, patch)
}

/// Forgets a memory: `"forgotten"` when one was removed, `"not found"` otherwise.
pub fn forget<E: Embedder, S: MemoStore>(manager: &mut MemoryManager<E, S>, id: &str) -> (r: Result<
    String,
    MemoError,
>)
    ensures
        r matches Ok(s) ==> (s@ == if old(manager).memos().contains_key(id@) {
            "forgotten"@
        } else {
            "not found"@
        }) && final(manager).memos() == old(manager).memos().remove(id@),
        r is Err ==> final(manager).memos() == old(manager).memos(),
{
    let key = owned(id);
    if manager.forget(&key)? {
        Ok(owned("forgotten"))
    } else {
        Ok(owned("not found"))
    }
}

} // verus!
