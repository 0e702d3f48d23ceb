//! Memories, their tiers, and the queries and patches applied to them.
use vstd::prelude::*;
use std::collections::HashMap;
use crate::error::{invalid_param, MemoError};
use crate::binary32::{in_unit, real_eq, unit, eq, REAL_0_3, REAL_0_7, REAL_ZERO};
use crate::text::{blank, is_blank, join3, owned, str_eq};

verus! {

/// Unique memory identifier.
pub type MemoId = String;

/// Long-term memory subtypes.
#[derive(Debug, Clone, Copy, PartialEq, Eq, Structural)]
pub enum LongTermKind {
    Episodic,
    Semantic,
    Entity,
    Graph,
}

/// Memory tier: working, short-term, or long-term of some kind.
#[derive(Debug, Clone, Copy, PartialEq, Eq, Structural)]
pub enum MemoType {
    Working,
    ShortTerm,
    LongTerm { kind: LongTermKind },
}

/// The canonical (persisted) name of a memory tier.
pub open spec fn spec_type_str(t: MemoType) -> Seq<char> {
    match t {
        MemoType::Working => "working"@,
        MemoType::ShortTerm => "short_term"@,
        MemoType::LongTerm { kind: LongTermKind::Episodic } => "long_term:episodic"@,
        MemoType::LongTerm { kind: LongTermKind::Semantic } => "long_term:semantic"@,
        MemoType::LongTerm { kind: LongTermKind::Entity } => "long_term:entity"@,
        MemoType::LongTerm { kind: LongTermKind::Graph } => "long_term:graph"@,
    }
}

/// The tier a canonical name denotes, if any.
pub open spec fn spec_parse_type(s: Seq<char>) -> Option<MemoType> {
    if s == "working"@ {
        Some(MemoType::Working)
    } else if s == "short_term"@ {
        Some(MemoType::ShortTerm)
    } else if s == "long_term:episodic"@ {
        Some(MemoType::LongTerm { kind: LongTermKind::Episodic })
    } else if s == "long_term:semantic"@ {
        Some(MemoType::LongTerm { kind: LongTermKind::Semantic })
    } else if s == "long_term:entity"@ {
        Some(MemoType::LongTerm { kind: LongTermKind::Entity })
    } else if s == "long_term:graph"@ {
        Some(MemoType::LongTerm { kind: LongTermKind::Graph })
    } else {
        None
    }
}

impl MemoType {
    /// Canonical string form, used for persistence.
    pub fn as_str(&self) -> (r: String)
        ensures
            r@ == spec_type_str(*self),
    {
        match self {
            MemoType::Working => owned("working"),
            MemoType::ShortTerm => owned("short_term"),
            MemoType::LongTerm { kind } => match kind {
                LongTermKind::Episodic => owned("long_term:episodic"),
                LongTermKind::Semantic => owned("long_term:semantic"),
                LongTermKind::Entity => owned("long_term:entity"),
                LongTermKind::Graph => owned("long_term:graph"),
            },
        }
    }

    /// Reads a canonical name; any other text is `InvalidParam("unknown memo_type: …")`.
    pub fn parse(s: &str) -> (r: Result<MemoType, MemoError>)
        ensures
            spec_parse_type(s@) matches Some(t) ==> r == Ok::<MemoType, MemoError>(t),
            spec_parse_type(s@) is None ==> (r matches Err(MemoError::InvalidParam(m)) && m@
                == "unknown memo_type: "@ + s@),
    {
        if str_eq(s, "working") {
            Ok(MemoType::Working)
        } else if str_eq(s, "short_term") {
            Ok(MemoType::ShortTerm)
        } else if str_eq(s, "long_term:episodic") {
            Ok(MemoType::LongTerm { kind: LongTermKind::Episodic })
        } else if str_eq(s, "long_term:semantic") {
            Ok(MemoType::LongTerm { kind: LongTermKind::Semantic })
        } else if str_eq(s, "long_term:entity") {
            Ok(MemoType::LongTerm { kind: LongTermKind::Entity })
        } else if str_eq(s, "long_term:graph") {
            Ok(MemoType::LongTerm { kind: LongTermKind::Graph })
        } else {
            proof {
                reveal_strlit("");
            }
            Err(MemoError::InvalidParam(join3("unknown memo_type: ", s, "")))
        }
    }
}

impl std::str::FromStr for MemoType {
    type Err = MemoError;

    fn from_str(s: &str) -> (r: Result<MemoType, MemoError>)
        ensures
            spec_parse_type(s@) matches Some(t) ==> r == Ok::<MemoType, MemoError>(t),
            spec_parse_type(s@) is None ==> (r matches Err(MemoError::InvalidParam(m)) && m@
                == "unknown memo_type: "@ + s@),
    {
        MemoType::parse(s)
    }
}

/// Reading back the canonical name of a tier gives the tier.
pub proof fn lemma_type_str_roundtrip(t: MemoType)
    ensures
        spec_parse_type(spec_type_str(t)) == Some(t),
{
    reveal_strlit("working");
    reveal_strlit("short_term");
    reveal_strlit("long_term:episodic");
    reveal_strlit("long_term:semantic");
    reveal_strlit("long_term:entity");
    reveal_strlit("long_term:graph");
    match t {
        MemoType::Working => {},
        MemoType::ShortTerm => {
            assert(spec_type_str(t).len() != "working"@.len());
        },
        MemoType::LongTerm { kind } => {
            assert(spec_type_str(t).len() != "working"@.len());
            assert(spec_type_str(t).len() != "short_term"@.len());
            match kind {
                LongTermKind::Episodic => {},
                LongTermKind::Semantic => {
                    assert(spec_type_str(t)[11] != "long_term:episodic"@[11]);
                },
                LongTermKind::Entity => {
                    assert(spec_type_str(t)[11] != "long_term:episodic"@[11]);
                    assert(spec_type_str(t)[11] != "long_term:semantic"@[11]);
                },
                LongTermKind::Graph => {
                    assert(spec_type_str(t)[11] != "long_term:episodic"@[11]);
                    assert(spec_type_str(t)[11] != "long_term:semantic"@[11]);
                    assert(spec_type_str(t)[11] != "long_term:entity"@[11]);
                },
            }
        },
    }
}

} // verus!

verus! {

/// A single memory.
///
/// `importance` and the components of `embedding` are single-precision values held
/// as their bit patterns (see [`crate::binary32`]).
#[derive(Debug, Clone)]
pub struct Memo {
    pub id: MemoId,
    pub memo_type: MemoType,
    pub content: String,
    pub embedding: Option<Vec<u32>>,
    pub metadata: HashMap<String, String>,
    /// Importance weight in the range [0, 1].
    pub importance: u32,
    pub version: u64,
    /// Unix timestamp in seconds.
    pub created_at: i64,
    pub updated_at: i64,
}

/// The first problem `Memo::validate` reports, if any: blank content, then importance
/// outside `[0, 1]`, then an embedding that is present but empty.
pub open spec fn memo_problem(m: Memo) -> Option<MemoError> {
    if is_blank(m.content@) {
        Some(MemoError::EmptyContent)
    } else if !in_unit(m.importance) {
        Some(MemoError::InvalidParam(arbitrary()))
    } else if m.embedding matches Some(e) && e@.len() == 0 {
        Some(MemoError::EmptyEmbedding)
    } else {
        None
    }
}

/// A memory that `Memo::validate` accepts.
pub open spec fn memo_valid(m: Memo) -> bool {
    memo_problem(m) is None
}

impl Memo {
    /// Rejects blank content (`EmptyContent`), importance outside `[0, 1]`
    /// (`InvalidParam`) and an empty embedding (`EmptyEmbedding`), in that order.
    pub fn validate(&self) -> (r: Result<(), MemoError>)
        ensures
            r is Ok <==> memo_valid(*self),
            is_blank(self.content@) ==> r matches Err(MemoError::EmptyContent),
            !is_blank(self.content@) && !in_unit(self.importance) ==> r matches Err(
                MemoError::InvalidParam(_),
            ),
            !is_blank(self.content@) && in_unit(self.importance) && !memo_valid(*self) ==> r matches Err(
                MemoError::EmptyEmbedding,
            ),
    {
        if blank(self.content.as_str()) {
            return Err(MemoError::EmptyContent);
        }
        if !unit(self.importance) {
            return invalid_param("importance out of [0,1]");
        }
        match &self.embedding {
            Some(e) => {
                if e.len() == 0 {
                    return Err(MemoError::EmptyEmbedding);
                }
            },
            None => {},
        }
        Ok(())
    }
}

/// A hybrid (semantic + keyword) search query.
#[derive(Debug, Clone)]
pub struct SearchQuery {
    pub text: String,
    pub top_k: usize,
    /// Semantic weight in [0,1].
    pub semantic_weight: u32,
    /// Keyword weight in [0,1].
    pub keyword_weight: u32,
    pub score_threshold: u32,
    pub memo_type: Option<MemoType>,
    /// Precomputed query vector (the manager fills it in before the store scores).
    pub query_embedding: Option<Vec<u32>>,
}

/// A search query that `SearchQuery::validate` accepts.
pub open spec fn search_query_valid(q: SearchQuery) -> bool {
    &&& !is_blank(q.text@)
    &&& q.top_k > 0
    &&& in_unit(q.semantic_weight)
    &&& in_unit(q.keyword_weight)
    &&& !(real_eq(q.semantic_weight, REAL_ZERO) && real_eq(q.keyword_weight, REAL_ZERO))
}

/// A search query is accepted exactly when its text is not blank, `top_k` is positive,
/// both weights lie in `[0, 1]` and at least one weight is not zero: a purely semantic or
/// purely keyword query is valid, and only both weights zero is refused.
pub proof fn lemma_search_query_accepted(q: SearchQuery)
    ensures
        search_query_valid(q) <==> (!is_blank(q.text@) && q.top_k > 0 && in_unit(q.semantic_weight)
            && in_unit(q.keyword_weight) && (!real_eq(q.semantic_weight, REAL_ZERO) || !real_eq(
            q.keyword_weight,
            REAL_ZERO,
        ))),
{
}

impl SearchQuery {
    /// A query with defaults: top 10, semantic weight 0.7, keyword weight 0.3,
    /// threshold 0, any tier, no precomputed vector.
    pub fn new(text: &str) -> (q: SearchQuery)
        ensures
            q.text@ == text@,
            q.top_k == 10,
            q.semantic_weight == REAL_0_7,
            q.keyword_weight == REAL_0_3,
            q.score_threshold == REAL_ZERO,
            q.memo_type is None,
            q.query_embedding is None,
    {
        SearchQuery {
            text: owned(text),
            top_k: 10,
            semantic_weight: REAL_0_7,
            keyword_weight: REAL_0_3,
            score_threshold: REAL_ZERO,
            memo_type: None,
            query_embedding: None,
        }
    }

    /// Rejects blank text, `top_k == 0`, weights outside `[0, 1]`, and both weights 0,
    /// each with `InvalidParam`.
    pub fn validate(&self) -> (r: Result<(), MemoError>)
        ensures
            r is Ok <==> search_query_valid(*self),
            r is Err ==> r matches Err(MemoError::InvalidParam(_)),
    {
        if blank(self.text.as_str()) {
            return invalid_param("empty query text");
        }
        if self.top_k == 0 {
            return invalid_param("top_k must be > 0");
        }
        if !unit(self.semantic_weight) {
            return invalid_param("semantic_weight out of [0,1]");
        }
        if !unit(self.keyword_weight) {
            return invalid_param("keyword_weight out of [0,1]");
        }
        if eq(self.semantic_weight, REAL_ZERO) && eq(self.keyword_weight, REAL_ZERO) {
            return invalid_param("at least one of semantic_weight/keyword_weight must be > 0");
        }
        Ok(())
    }
}

/// A pure vector (cosine-only) recall query.
#[derive(Debug, Clone)]
pub struct RecallQuery {
    pub text: String,
    pub top_k: usize,
    /// Minimum cosine similarity to keep a candidate.
    pub score_threshold: u32,
    pub memo_type: Option<MemoType>,
    /// Precomputed query vector.
    pub query_embedding: Option<Vec<u32>>,
}

impl RecallQuery {
    /// A query with defaults: top 10, threshold 0, any tier, no precomputed vector.
    pub fn new(text: &str) -> (q: RecallQuery)
        ensures
            q.text@ == text@,
            q.top_k == 10,
            q.score_threshold == REAL_ZERO,
            q.memo_type is None,
            q.query_embedding is None,
    {
        RecallQuery {
            text: owned(text),
            top_k: 10,
            score_threshold: REAL_ZERO,
            memo_type: None,
            query_embedding: None,
        }
    }

    /// Rejects blank text and `top_k == 0`, each with `InvalidParam`.
    pub fn validate(&self) -> (r: Result<(), MemoError>)
        ensures
            r is Ok <==> (!is_blank(self.text@) && self.top_k > 0),
            r is Err ==> r matches Err(MemoError::InvalidParam(_)),
    {
        if blank(self.text.as_str()) {
            return invalid_param("empty recall text");
        }
        if self.top_k == 0 {
            return invalid_param("top_k must be > 0");
        }
        Ok(())
    }
}

/// A search result with its score (a single-precision bit pattern).
#[derive(Debug, Clone)]
pub struct ScoredMemo {
    pub memo: Memo,
    pub score: u32,
}

/// A memory update: every field that is set replaces the memory's.
#[derive(Debug, Clone)]
pub struct MemoPatch {
    pub content: Option<String>,
    pub memo_type: Option<MemoType>,
    pub metadata: Option<HashMap<String, String>>,
    pub importance: Option<u32>,
}

/// A patch that sets nothing.
pub open spec fn patch_empty(p: MemoPatch) -> bool {
    p.content is None && p.memo_type is None && p.metadata is None && p.importance is None
}

impl MemoPatch {
    /// Whether the patch sets nothing.
    pub fn is_empty(&self) -> (r: bool)
        ensures
            r == patch_empty(*self),
    {
        self.content.is_none() && self.memo_type.is_none() && self.metadata.is_none()
            && self.importance.is_none()
    }
}

impl Default for MemoPatch {
    fn default() -> (r: Self)
        ensures
            patch_empty(r),
    {
        MemoPatch { content: None, memo_type: None, metadata: None, importance: None }
    }
}

} // verus!
