//! The memory manager: embeds text and keeps memories in a store, with creation,
//! updates, retrieval, consolidation and deduplication.
use vstd::prelude::*;
use std::collections::HashMap;
use crate::binary32::{in_unit, unit, REAL_ZERO};
use crate::ranking::{rank, ranked, top};
use crate::dedup::{
    dedup_inv, dedup_outcome, dedup_sorted, dedup_stopped, find_target, ids_distinct,
    lemma_dedup_removes, lemma_dedup_sorted, lemma_inv_done, lemma_inv_stopped, lemma_inv_keep, lemma_inv_merge, lemma_inv_start, removed_count, reversed,
    sort_for_dedup, valid_plan,
};
use crate::error::{invalid_param, MemoError};
use crate::ids::{generate_id, now_secs, spec_format_id};
use crate::model::{
    patch_empty, search_query_valid, Memo, MemoId, MemoPatch, MemoType, RecallQuery,
    ScoredMemo, SearchQuery,
};
use crate::text::{blank, is_blank, join3, owned};
use crate::traits::{answers_search, lists_exactly, Embedder, MemoStore};

verus! {

/// Combines an embedder and a store into high-level memory operations.
pub struct MemoryManager<E: Embedder, S: MemoStore> {
    embedder: E,
    store: S,
}

/// `new` is `old` with `patch` applied ([`patched_fields`]), new content re-embedded by
/// `embedder`. In full: content (re-embedded), tier, metadata and
/// importance replaced where the patch sets them, the version one higher (wrapping), and the id and
/// creation time kept.
pub open spec fn patched<E: Embedder>(embedder: E, old: Memo, patch: MemoPatch, new: Memo) -> bool {
    &&& patched_fields(old, patch, new)
    &&& match patch.content {
        Some(c) => new.embedding matches Some(e) && embedder.embeds(c@, e@),
        None => new.embedding == old.embedding,
    }
}

/// The version after one more change: one higher, wrapping to 0 after the largest.
pub open spec fn bumped(v: u64) -> u64 {
    ((v + 1) % 0x1_0000_0000_0000_0000int) as u64
}

/// Every field of `new` but the embedding and the update time is `old` with `patch`
/// applied: content, tier, metadata and importance replaced where the patch sets them,
/// the version bumped, the id and creation time kept.
pub open spec fn patched_fields(old: Memo, patch: MemoPatch, new: Memo) -> bool {
    &&& new.id == old.id
    &&& new.created_at == old.created_at
    &&& new.version == bumped(old.version)
    &&& match patch.content {
        Some(c) => new.content@ == c@,
        None => new.content == old.content,
    }
    &&& new.memo_type == (match patch.memo_type {
        Some(t) => t,
        None => old.memo_type,
    })
    &&& new.metadata == (match patch.metadata {
        Some(m) => m,
        None => old.metadata,
    })
    &&& new.importance == (match patch.importance {
        Some(i) => i,
        None => old.importance,
    })
}

/// The score recall gives memory `m` for the query vector `q`: what `similarity` returned
/// for the two embeddings, or 0 when the memory has no embedding or no score came back.
pub open spec fn recall_scored<F: Fn(&Vec<u32>, &Vec<u32>) -> Option<u32>>(
    similarity: F,
    q: Vec<u32>,
    m: Memo,
    score: u32,
) -> bool {
    match m.embedding {
        Some(e) => exists|o: Option<u32>|
            call_ensures(similarity, (&q, &e), o) && score == (match o {
                Some(x) => x,
                None => REAL_ZERO,
            }),
        None => score == REAL_ZERO,
    }
}

/// `v` answers the recall `query` over `memos`: the query vector `q` is the one given, or
/// else the embedding of the text; `listed` are the memories of the query's tier, each
/// scored in `scored` by [`recall_scored`]; and `v` ranks those by score.
pub open spec fn recall_answer<E: Embedder, F: Fn(&Vec<u32>, &Vec<u32>) -> Option<u32>>(
    embedder: E,
    memos: Map<Seq<char>, Memo>,
    query: RecallQuery,
    similarity: F,
    q: Vec<u32>,
    listed: Seq<Memo>,
    scored: Seq<ScoredMemo>,
    v: Seq<ScoredMemo>,
) -> bool {
    &&& match query.query_embedding {
        Some(e) => q == e,
        None => embedder.embeds(query.text@, q@),
    }
    &&& lists_exactly(memos, query.memo_type, listed)
    &&& scored.len() == listed.len()
    &&& forall|i: int|
        0 <= i < listed.len() ==> (#[trigger] scored[i]).memo == listed[i] && recall_scored(
            similarity,
            q,
            listed[i],
            scored[i].score,
        )
    &&& v == top(ranked(scored, query.score_threshold), query.top_k as nat)
}

/// Scores each listed memory for recall against the query vector `q`.
fn score_for_recall<F: Fn(&Vec<u32>, &Vec<u32>) -> Option<u32>>(
    listed: Vec<Memo>,
    q: &Vec<u32>,
    similarity: &F,
) -> (r: Vec<ScoredMemo>)
    requires
        forall|a: &Vec<u32>, b: &Vec<u32>| call_requires(*similarity, (a, b)),
    ensures
        r@.len() == listed@.len(),
        forall|j: int|
            0 <= j < listed@.len() ==> (#[trigger] r@[j]).memo == listed@[j] && recall_scored(
                *similarity,
                *q,
                listed@[j],
                r@[j].score,
            ),
{
    let ghost lv = listed@;
    let n = listed.len();
    let mut rest = reversed(listed);
    let mut scored: Vec<ScoredMemo> = Vec::new();
    let mut i: usize = 0;
    while rest.len() > 0
        invariant
            lv.len() == n,
            i + rest@.len() == n,
            rest@ == lv.skip(i as int).reverse(),
            scored@.len() == i,
            forall|a: &Vec<u32>, b: &Vec<u32>| call_requires(*similarity, (a, b)),
            forall|j: int|
                0 <= j < i ==> (#[trigger] scored@[j]).memo == lv[j] && recall_scored(
                    *similarity,
                    *q,
                    lv[j],
                    scored@[j].score,
                ),
        decreases rest.len(),
    {
        let m = rest.pop().unwrap();
        proof {
            assert(lv.skip(i as int).reverse().last() == lv[i as int]);
            assert(rest@ =~= lv.skip(i + 1).reverse());
        }
        let score = match &m.embedding {
            Some(e) => match similarity(q, e) {
                Some(x) => x,
                None => REAL_ZERO,
            },
            None => REAL_ZERO,
        };
        scored.push(ScoredMemo { memo: m, score });
        i += 1;
    }
    scored
}

/// `v` answers the recall `query` over `memos` for some query vector, listing and
/// scoring, as [`recall_answer`] says.
pub open spec fn answers_recall<E: Embedder, F: Fn(&Vec<u32>, &Vec<u32>) -> Option<u32>>(
    embedder: E,
    memos: Map<Seq<char>, Memo>,
    query: RecallQuery,
    similarity: F,
    v: Seq<ScoredMemo>,
) -> bool {
    exists|q: Vec<u32>, listed: Seq<Memo>, scored: Seq<ScoredMemo>|
        #[trigger] recall_answer(embedder, memos, query, similarity, q, listed, scored, v)
}

/// `q` is `query` with its vector: the given one, or else one the embedder gives for the
/// text; every other field kept.
pub open spec fn prepared<E: Embedder>(embedder: E, query: SearchQuery, q: SearchQuery) -> bool {
    &&& q.text == query.text
    &&& q.top_k == query.top_k
    &&& q.semantic_weight == query.semantic_weight
    &&& q.keyword_weight == query.keyword_weight
    &&& q.score_threshold == query.score_threshold
    &&& q.memo_type == query.memo_type
    &&& match query.query_embedding {
        Some(e) => q.query_embedding == Some(e),
        None => q.query_embedding matches Some(e) && embedder.embeds(query.text@, e@),
    }
}

/// `m` is `before` consolidated: importance what `adjust` gave for the old one, version
/// one higher (wrapping), every other field but the update time kept.
pub open spec fn consolidated<F: Fn(u32) -> u32>(adjust: F, before: Memo, m: Memo) -> bool {
    &&& call_ensures(adjust, (before.importance,), m.importance)
    &&& m.version == bumped(before.version)
    &&& m.id == before.id
    &&& m.memo_type == before.memo_type
    &&& m.content == before.content
    &&& m.embedding == before.embedding
    &&& m.metadata == before.metadata
    &&& m.created_at == before.created_at
}

impl<E: Embedder, S: MemoStore> MemoryManager<E, S> {
    /// The stored memories, by id.
    pub closed spec fn memos(&self) -> Map<Seq<char>, Memo> {
        self.store.memos()
    }

    /// The embedder in use.
    pub closed spec fn spec_embedder(&self) -> E {
        self.embedder
    }

    /// `v` is the store's ranking for the query `q` (see `MemoStore::search_answers`).
    pub closed spec fn store_answers(&self, q: SearchQuery, v: Seq<ScoredMemo>) -> bool {
        self.store.search_answers(q, v)
    }

    /// `v` is the store's ranking for `query` once it has its vector.
    pub open spec fn answers_with_vector(&self, query: SearchQuery, v: Seq<ScoredMemo>) -> bool {
        exists|q: SearchQuery|
            prepared(self.spec_embedder(), query, q) && #[trigger] self.store_answers(q, v)
    }

    /// A manager over an embedder and a store.
    pub fn new(embedder: E, store: S) -> (r: Self)
        ensures
            r.memos() == store.memos(),
            r.spec_embedder() == embedder,
    {
        MemoryManager { embedder, store }
    }

    /// The underlying store.
    pub fn store(&self) -> (r: &S)
        ensures
            r.memos() == self.memos(),
    {
        &self.store
    }

    /// The embedder in use.
    pub fn embedder(&self) -> (r: &E)
        ensures
            *r == self.spec_embedder(),
    {
        &self.embedder
    }

    /// Adds a memory: checks the content (not blank) and importance (in `[0, 1]`),
    /// embeds the content, and stores it as version 1 under a new id, which it returns.
    pub fn add(
        &mut self,
        content: &str,
        memo_type: MemoType,
        metadata: HashMap<String, String>,
        importance: u32,
    ) -> (r: Result<MemoId, MemoError>)
        ensures
            is_blank(content@) ==> r matches Err(MemoError::EmptyContent),
            !is_blank(content@) && !in_unit(importance) ==> r matches Err(
                MemoError::InvalidParam(_),
            ),
            r is Err ==> final(self).memos() == old(self).memos(),
            r matches Ok(id) ==> exists|nanos: nat, salt: nat| id@ == spec_format_id(nanos, salt),
            r matches Ok(id) ==> {
                let m = final(self).memos()[id@];
                &&& !old(self).memos().contains_key(id@)
                &&& final(self).memos() == old(self).memos().insert(id@, m)
                &&& m.id@ == id@
                &&& m.content@ == content@
                &&& m.memo_type == memo_type
                &&& m.metadata == metadata
                &&& m.importance == importance
                &&& m.version == 1
                &&& m.created_at == m.updated_at
                &&& (m.embedding matches Some(e) && old(self).spec_embedder().embeds(content@, e@))
            },
            final(self).spec_embedder() == old(self).spec_embedder(),
    {
        if blank(content) {
            return Err(MemoError::EmptyContent);
        }
        if !unit(importance) {
            return invalid_param("importance out of [0,1]");
        }
        let embedded = self.embedder.embed(content);
        self.add_embedded(content, memo_type, metadata, importance, embedded)
    }

    /// Adds a memory given what embedding its content gave: an embedder error is
    /// returned as it is; otherwise the memory, with that embedding, is stored as version
    /// 1 under a new id, which is returned (the store may refuse it).
    pub fn add_embedded(
        &mut self,
        content: &str,
        memo_type: MemoType,
        metadata: HashMap<String, String>,
        importance: u32,
        embedded: Result<Vec<u32>, MemoError>,
    ) -> (r: Result<MemoId, MemoError>)
        ensures
            embedded matches Err(x) ==> r == Err::<MemoId, MemoError>(x),
            r is Err ==> final(self).memos() == old(self).memos(),
            r matches Ok(id) ==> exists|nanos: nat, salt: nat| id@ == spec_format_id(nanos, salt),
            r matches Ok(id) ==> {
                let m = final(self).memos()[id@];
                &&& !old(self).memos().contains_key(id@)
                &&& final(self).memos() == old(self).memos().insert(id@, m)
                &&& m.id@ == id@
                &&& m.content@ == content@
                &&& m.memo_type == memo_type
                &&& m.metadata == metadata
                &&& m.importance == importance
                &&& m.version == 1
                &&& m.created_at == m.updated_at
                &&& (embedded matches Ok(e) && m.embedding == Some(e))
            },
            final(self).spec_embedder() == old(self).spec_embedder(),
    {
        let emb = match embedded {
            Ok(e) => e,
            Err(x) => {
                return Err(x);
            },
        };
        let now = now_secs();
        let m = Memo {
            id: generate_id(),
            memo_type,
            content: owned(content),
            embedding: Some(emb),
            metadata,
            importance,
            version: 1,
            created_at: now,
            updated_at: now,
        };
        self.store.add(&m)?;
        Ok(m.id)
    }

    /// Fetches a memory by id (`None` when absent).
    pub fn get(&self, id: &MemoId) -> (r: Result<Option<Memo>, MemoError>)
        ensures
            r matches Ok(Some(m)) ==> self.memos().contains_key(id@) && self.memos()[id@] == m
                && m.id@ == id@,
            r matches Ok(None) ==> !self.memos().contains_key(id@),
    {
        self.store.get(id)
    }

    /// Applies a patch: an empty patch is `InvalidParam`; otherwise the memory is looked
    /// up and the patch applied to what the lookup found, as [`Self::update_found`]
    /// says. New content is re-embedded, and the version goes up by one (wrapping, as a
    /// version counter at its largest does in an optimized build).
    pub fn update(&mut self, id: &MemoId, patch: MemoPatch) -> (r: Result<(), MemoError>)
        ensures
            patch_empty(patch) ==> r matches Err(MemoError::InvalidParam(_)),
            !old(self).memos().contains_key(id@) ==> r is Err,
            patch.content matches Some(c) && is_blank(c@) ==> r is Err,
            patch.importance matches Some(i) && !in_unit(i) ==> r is Err,
            r is Err ==> final(self).memos() == old(self).memos(),
            r is Ok ==> {
                let m = final(self).memos()[id@];
                &&& old(self).memos().contains_key(id@)
                &&& final(self).memos() == old(self).memos().insert(id@, m)
                &&& patched(old(self).spec_embedder(), old(self).memos()[id@], patch, m)
            },
            final(self).spec_embedder() == old(self).spec_embedder(),
    {
        if patch.is_empty() {
            return invalid_param("empty patch");
        }
        let found = self.store.get(id)?;
        self.update_found(id, found, patch)
    }

    /// Applies a non-empty patch to what the lookup of `id` found: nothing is
    /// `NotFound(id)`; blank new content is `EmptyContent`; new content is then embedded
    /// (the embedder may fail); new importance outside `[0, 1]` is `InvalidParam`;
    /// otherwise the patched memory, version bumped and updated now, is handed to the
    /// store. Every error leaves the store as it was.
    pub fn update_found(&mut self, id: &MemoId, found: Option<Memo>, patch: MemoPatch) -> (r:
        Result<(), MemoError>)
        requires
            found matches Some(m) ==> m.id@ == id@ && old(self).memos().contains_key(id@) && old(
                self,
            ).memos()[id@] == m,
            found is None ==> !old(self).memos().contains_key(id@),
        ensures
            found is None ==> (r matches Err(MemoError::NotFound(s)) && s@ == id@),
            found is Some && (patch.content matches Some(c) && is_blank(c@)) ==> r matches Err(
                MemoError::EmptyContent,
            ),
            found is Some && patch.content is None && (patch.importance matches Some(i) && !in_unit(
                i,
            )) ==> r matches Err(MemoError::InvalidParam(_)),
            found is Some && (patch.importance matches Some(i) && !in_unit(i)) ==> r is Err,
            r is Err ==> final(self).memos() == old(self).memos(),
            r is Ok ==> {
                let m = final(self).memos()[id@];
                &&& old(self).memos().contains_key(id@)
                &&& final(self).memos() == old(self).memos().insert(id@, m)
                &&& patched(old(self).spec_embedder(), old(self).memos()[id@], patch, m)
            },
            final(self).spec_embedder() == old(self).spec_embedder(),
    {
        let mut m = match found {
            Some(m) => m,
            None => {
                return Err(MemoError::NotFound(id.clone()));
            },
        };
        let embedded = match &patch.content {
            Some(c) => {
                if blank(c.as_str()) {
                    return Err(MemoError::EmptyContent);
                }
                Some(self.embedder.embed(c.as_str()))
            },
            None => None,
        };
        self.update_embedded(id, m, patch, embedded)
    }

    /// Applies a patch to `before`, the stored memory `id`, given what embedding the new
    /// content gave (`None` when the patch sets no content): an embedder error is
    /// returned as it is; then new importance outside `[0, 1]` is `InvalidParam`;
    /// otherwise the patched memory, with the new embedding, version bumped and updated
    /// now, is handed to the store. Every error leaves the store as it was.
    pub fn update_embedded(
        &mut self,
        id: &MemoId,
        before: Memo,
        patch: MemoPatch,
        embedded: Option<Result<Vec<u32>, MemoError>>,
    ) -> (r: Result<(), MemoError>)
        requires
            before.id@ == id@,
            old(self).memos().contains_key(id@),
            old(self).memos()[id@] == before,
            (patch.content is Some) == (embedded is Some),
            patch.content matches Some(c) ==> !is_blank(c@),
        ensures
            embedded matches Some(Err(x)) ==> r == Err::<(), MemoError>(x),
            !(embedded matches Some(Err(_))) && (patch.importance matches Some(i) && !in_unit(i))
                ==> r matches Err(MemoError::InvalidParam(_)),
            r is Err ==> final(self).memos() == old(self).memos(),
            r is Ok ==> {
                let m = final(self).memos()[id@];
                &&& final(self).memos() == old(self).memos().insert(id@, m)
                &&& patched_fields(before, patch, m)
                &&& match embedded {
                    Some(Ok(e)) => m.embedding == Some(e),
                    _ => m.embedding == before.embedding,
                }
            },
            final(self).spec_embedder() == old(self).spec_embedder(),
    {
        let mut m = before;
        let MemoPatch { content, memo_type, metadata, importance } = patch;
        match embedded {
            Some(Err(x)) => {
                return Err(x);
            },
            Some(Ok(emb)) => {
                m.embedding = Some(emb);
            },
            None => {},
        }
        match content {
            Some(c) => {
                m.content = c;
            },
            None => {},
        }
        match memo_type {
            Some(t) => {
                m.memo_type = t;
            },
            None => {},
        }
        match metadata {
            Some(meta) => {
                m.metadata = meta;
            },
            None => {},
        }
        match importance {
            Some(imp) => {
                if !unit(imp) {
                    return invalid_param("importance out of [0,1]");
                }
                m.importance = imp;
            },
            None => {},
        }
        m.version = m.version.wrapping_add(1);
        m.updated_at = now_secs();
        self.store.update(&m)
    }

    /// Forgets a memory; says whether one was removed.
    pub fn forget(&mut self, id: &MemoId) -> (r: Result<bool, MemoError>)
        ensures
            r matches Ok(b) ==> b == old(self).memos().contains_key(id@) && final(self).memos()
                == old(self).memos().remove(id@),
            r is Err ==> final(self).memos() == old(self).memos(),
            final(self).spec_embedder() == old(self).spec_embedder(),
    {
        self.store.forget(id)
    }

    /// Hybrid search: an invalid query is `InvalidParam`; otherwise the query gets its
    /// vector ([`Self::query_with_vector`]) and the store scores and ranks against it.
    pub fn search(&self, query: SearchQuery) -> (r: Result<Vec<ScoredMemo>, MemoError>)
        ensures
            !search_query_valid(query) ==> r matches Err(MemoError::InvalidParam(_)),
            r matches Ok(v) ==> answers_search(self.memos(), query, v@),
            r matches Ok(v) ==> self.answers_with_vector(query, v@),
    {
        query.validate()?;
        let q = self.query_with_vector(query)?;
        let r = self.store.search(&q);
        proof {
            if r is Ok {
                assert(self.store_answers(q, r->Ok_0@));
            }
        }
        r
    }

    /// The query as the store gets it: the given vector kept, or else the embedding of
    /// the text added (an embedder failure is returned); every other field kept.
    pub fn query_with_vector(&self, query: SearchQuery) -> (r: Result<SearchQuery, MemoError>)
        ensures
            query.query_embedding is Some ==> r == Ok::<SearchQuery, MemoError>(query),
            r matches Ok(q) ==> prepared(self.spec_embedder(), query, q),
    {
        if query.query_embedding.is_some() {
            return Ok(query);
        }
        let emb = self.embedder.embed(query.text.as_str())?;
        let mut q = query;
        q.query_embedding = Some(emb);
        Ok(q)
    }

    /// Pure vector recall: an invalid query is `InvalidParam`; without a precomputed
    /// vector the query text is embedded first (an embedder failure is returned); the
    /// store then lists the query's tier and [`Self::recall_found`] scores and ranks what
    /// it gave: each memory of the query's tier is scored by `similarity` against the
    /// query vector (cosine similarity, single-precision, which the caller supplies; 0
    /// without an embedding or a score), and the ranking keeps those at least the
    /// threshold, best first, at most `top_k`.
    pub fn recall<F: Fn(&Vec<u32>, &Vec<u32>) -> Option<u32>>(
        &self,
        query: RecallQuery,
        similarity: F,
    ) -> (r: Result<Vec<ScoredMemo>, MemoError>)
        requires
            forall|a: &Vec<u32>, b: &Vec<u32>| call_requires(similarity, (a, b)),
        ensures
            is_blank(query.text@) || query.top_k == 0 ==> r matches Err(MemoError::InvalidParam(_)),
            r matches Ok(v) ==> answers_recall(self.spec_embedder(), self.memos(), query, similarity, v@),
    {
        query.validate()?;
        let ghost query0 = query;
        let query = match query.query_embedding {
            Some(e) => RecallQuery {
                text: query.text,
                top_k: query.top_k,
                score_threshold: query.score_threshold,
                memo_type: query.memo_type,
                query_embedding: Some(e),
            },
            None => {
                let e = self.embedder.embed(query.text.as_str())?;
                RecallQuery {
                    text: query.text,
                    top_k: query.top_k,
                    score_threshold: query.score_threshold,
                    memo_type: query.memo_type,
                    query_embedding: Some(e),
                }
            },
        };
        let listed = self.store.list(query.memo_type);
        let ghost qv = query;
        let r = self.recall_found(query, listed, similarity);
        proof {
            if r is Ok {
                let v = r->Ok_0@;
                let (q, l, sc) = choose|q: Vec<u32>, l: Seq<Memo>, sc: Seq<ScoredMemo>|
                    #[trigger] recall_answer(self.spec_embedder(), self.memos(), qv, similarity, q, l, sc, v);
                assert(recall_answer(self.spec_embedder(), self.memos(), query0, similarity, q, l, sc, v));
            }
        }
        r
    }

    /// Recall once the query carries its vector and the store has answered the listing
    /// of the query's tier: an invalid query (blank text, `top_k` 0) is `InvalidParam`;
    /// otherwise a listing error is returned as it is, and a listing is scored and ranked
    /// as [`Self::recall`] says. The tier filter, the threshold and the vector never make
    /// a valid query fail.
    pub fn recall_found<F: Fn(&Vec<u32>, &Vec<u32>) -> Option<u32>>(
        &self,
        query: RecallQuery,
        listed: Result<Vec<Memo>, MemoError>,
        similarity: F,
    ) -> (r: Result<Vec<ScoredMemo>, MemoError>)
        requires
            forall|a: &Vec<u32>, b: &Vec<u32>| call_requires(similarity, (a, b)),
            query.query_embedding is Some,
            listed matches Ok(lv) ==> lists_exactly(self.memos(), query.memo_type, lv@),
        ensures
            is_blank(query.text@) || query.top_k == 0 ==> r matches Err(MemoError::InvalidParam(_)),
            !is_blank(query.text@) && query.top_k > 0 && listed is Err ==> r == Err::<
                Vec<ScoredMemo>,
                MemoError,
            >(listed->Err_0),
            !is_blank(query.text@) && query.top_k > 0 && listed is Ok ==> r is Ok,
            r is Ok ==> listed is Ok,
            r matches Ok(v) ==> answers_recall(self.spec_embedder(), self.memos(), query, similarity, v@),
    {
        query.validate()?;
        let ghost query0 = query;
        let RecallQuery { text, top_k, score_threshold, memo_type, query_embedding } = query;
        let q = match query_embedding {
            Some(e) => e,
            None => {
                return Err(MemoError::Other(owned("recall needs a query vector")));
            },
        };
        let found = match listed {
            Ok(l) => l,
            Err(e) => {
                return Err(e);
            },
        };
        let ghost lv = found@;
        let scored = score_for_recall(found, &q, &similarity);
        let ghost sv = scored@;
        let v = rank(scored, score_threshold, top_k);
        proof {
            assert(recall_answer(self.spec_embedder(), self.memos(), query0, similarity, q, lv, sv, v@));
            assert(answers_recall(self.spec_embedder(), self.memos(), query0, similarity, v@));
        }
        Ok(v)
    }

    /// Consolidates a memory: its importance becomes what `adjust` makes of it (raised
    /// or lowered by a delta and clamped to `[0, 1]`, single-precision arithmetic that the
    /// caller supplies), its version goes up by one (wrapping). The memory is looked up and the
    /// change applied to what the lookup found, as [`Self::consolidate_found`] says.
    pub fn consolidate<F: Fn(u32) -> u32>(&mut self, id: &MemoId, adjust: F) -> (r: Result<
        (),
        MemoError,
    >)
        requires
            forall|x: u32| call_requires(adjust, (x,)),
        ensures
            !old(self).memos().contains_key(id@) ==> r is Err,
            r is Err ==> final(self).memos() == old(self).memos(),
            r is Ok ==> {
                let m = final(self).memos()[id@];
                &&& old(self).memos().contains_key(id@)
                &&& final(self).memos() == old(self).memos().insert(id@, m)
                &&& consolidated(adjust, old(self).memos()[id@], m)
            },
            final(self).spec_embedder() == old(self).spec_embedder(),
    {
        let found = self.store.get(id)?;
        self.consolidate_found(id, found, adjust)
    }

    /// Consolidates what the lookup of `id` found: nothing is `NotFound(id)`; otherwise
    /// the memory with its importance adjusted, version bumped and updated now, is
    /// handed to the store. Every error leaves the store as it was.
    pub fn consolidate_found<F: Fn(u32) -> u32>(
        &mut self,
        id: &MemoId,
        found: Option<Memo>,
        adjust: F,
    ) -> (r: Result<(), MemoError>)
        requires
            forall|x: u32| call_requires(adjust, (x,)),
            found matches Some(m) ==> m.id@ == id@ && old(self).memos().contains_key(id@) && old(
                self,
            ).memos()[id@] == m,
            found is None ==> !old(self).memos().contains_key(id@),
        ensures
            found is None ==> (r matches Err(MemoError::NotFound(s)) && s@ == id@),
            r is Err ==> final(self).memos() == old(self).memos(),
            r is Ok ==> {
                let m = final(self).memos()[id@];
                &&& old(self).memos().contains_key(id@)
                &&& final(self).memos() == old(self).memos().insert(id@, m)
                &&& consolidated(adjust, old(self).memos()[id@], m)
            },
            final(self).spec_embedder() == old(self).spec_embedder(),
    {
        let mut m = match found {
            Some(m) => m,
            None => {
                return Err(MemoError::NotFound(id.clone()));
            },
        };
        m.importance = adjust(m.importance);
        m.version = m.version.wrapping_add(1);
        m.updated_at = now_secs();
        self.store.update(&m)
    }

    /// Deduplicates: memories are taken most important first (then most recently
    /// updated), and each merges into the first memory kept so far whose embedding is at
    /// least `threshold` similar by `similarity` (cosine similarity, single-precision, which
    /// the caller supplies): its content is appended after ` | ` to that memory, whose
    /// version goes up by one (wrapping), and it is forgotten. Returns how many were merged away.
    /// A threshold outside `[0, 1]` is `InvalidParam`.
    pub fn dedup<F: Fn(&Vec<u32>, &Vec<u32>) -> Option<u32>>(&mut self, threshold: u32, similarity: F) -> (r:
        Result<usize, MemoError>)
        requires
            forall|a: &Vec<u32>, b: &Vec<u32>| call_requires(similarity, (a, b)),
        ensures
            !in_unit(threshold) ==> r matches Err(MemoError::InvalidParam(_)),
            !in_unit(threshold) ==> final(self).memos() == old(self).memos(),
            r matches Ok(n) ==> exists|v: Seq<Memo>, plan: Seq<Option<int>>|
                lists_exactly(old(self).memos(), None, v) && valid_plan(
                    similarity,
                    threshold,
                    dedup_sorted(v),
                    plan,
                ) && n == removed_count(plan, plan.len() as int) && dedup_outcome(
                    old(self).memos(),
                    dedup_sorted(v),
                    plan,
                    final(self).memos(),
                ),
            r matches Ok(n) ==> old(self).memos().dom().finite() && final(self).memos().dom().len()
                + n == old(self).memos().dom().len(),
            in_unit(threshold) && r is Err ==> final(self).memos() == old(self).memos() || exists|
                v: Seq<Memo>,
                plan: Seq<Option<int>>,
            |
                lists_exactly(old(self).memos(), None, v) && #[trigger] dedup_stopped(
                    similarity,
                    threshold,
                    old(self).memos(),
                    dedup_sorted(v),
                    plan,
                    final(self).memos(),
                ),
            final(self).spec_embedder() == old(self).spec_embedder(),
    {
        if !unit(threshold) {
            return invalid_param("threshold out of [0,1]");
        }
        let all = self.store.list(None)?;
        let ghost start = self.store.memos();
        let ghost listed = all@;
        let sorted = sort_for_dedup(all);
        let ghost s = sorted@;
        proof {
            lemma_dedup_sorted(listed);
            assert(ids_distinct(listed));
        }
        // Take the sorted memories front first.
        let mut rest = reversed(sorted);
        let n = rest.len();
        let mut kept: Vec<Memo> = Vec::new();
        let ghost mut keptidx: Seq<int> = Seq::empty();
        let ghost mut plan: Seq<Option<int>> = Seq::empty();
        let mut removed: usize = 0;
        let mut i: usize = 0;
        proof {
            assert forall|j: int| 0 <= j < s.len() implies start.contains_key((#[trigger] s[j]).id@)
                && start[s[j].id@] == s[j] by {
                assert(listed.contains(s[j]));
                let x = choose|x: int| 0 <= x < listed.len() && listed[x] == s[j];
                assert(start.contains_key((listed[x]).id@));
            }
            lemma_inv_start(similarity, threshold, s, start);
        }
        while i < n
            invariant
                n == s.len(),
                in_unit(threshold),
                start == old(self).memos(),
                s == dedup_sorted(listed),
                lists_exactly(start, None, listed),
                rest@ == s.skip(i as int).reverse(),
                forall|a: &Vec<u32>, b: &Vec<u32>| call_requires(similarity, (a, b)),
                dedup_inv(similarity, threshold, s, start, plan, keptidx, kept@, removed as nat, self.store.memos(), i as int),
                removed <= i,
                i <= n,
                self.spec_embedder() == old(self).spec_embedder(),
            decreases n - i,
        {
            let m = rest.pop().unwrap();
            proof {
                assert(s.skip(i as int).reverse().last() == s[i as int]);
                assert(rest@ =~= s.skip(i + 1).reverse());
            }
            let target = find_target(&kept, &m, threshold, &similarity);
            match target {
                None => {
                    proof {
                        lemma_inv_keep(similarity, threshold, s, start, plan, keptidx, kept@, removed as nat, self.store.memos(), i as int);
                        plan = plan.push(None);
                        keptidx = keptidx.push(i as int);
                    }
                    kept.push(m);
                },
                Some(j) => {
                    let ghost kept0 = kept@;
                    let ghost store0 = self.store.memos();
                    let mut k = kept.remove(j);
                    let merged = join3(k.content.as_str(), " | ", m.content.as_str());
                    k.content = merged;
                    k.updated_at = now_secs();
                    k.version = k.version.wrapping_add(1);
                    proof {
                        lemma_inv_merge(similarity, threshold, s, start, plan, keptidx, kept0, removed as nat, store0, i as int, j as int, k);
                    }
                    proof {
                        assert(crate::traits::with_created_at(k, store0[k.id@].created_at) == k);
                    }
                    match self.store.update(&k) {
                        Ok(()) => {},
                        Err(e) => {
                            proof {
                                lemma_inv_stopped(similarity, threshold, s, start, plan, keptidx, kept0, removed as nat, store0, i as int);
                                assert(dedup_stopped(similarity, threshold, start, s, plan, self.store.memos()));
                            }
                            return Err(e);
                        },
                    }
                    let ghost kk = keptidx[j as int];
                    match self.store.forget(&m.id) {
                        Ok(_) => {},
                        Err(e) => {
                            proof {
                                let plan2 = plan.push(Some(kk));
                                let cur = self.store.memos();
                                let after = store0.insert(k.id@, k).remove(s[i as int].id@);
                                lemma_inv_stopped(similarity, threshold, s, start, plan2, keptidx, kept0.update(j as int, k), (removed + 1) as nat, after, i + 1);
                                assert(cur == store0.insert(k.id@, k));
                                assert(cur.remove(s[i as int].id@) =~= after);
                                assert(s[plan2.len() - 1] == s[i as int]);
                                assert(dedup_stopped(similarity, threshold, start, s, plan2, cur));
                            }
                            return Err(e);
                        },
                    }
                    kept.insert(j, k);
                    proof {
                        assert(kept@ =~= kept0.update(j as int, k));
                        plan = plan.push(Some(keptidx[j as int]));
                    }
                    removed += 1;
                },
            }
            i += 1;
        }
        proof {
            lemma_inv_done(similarity, threshold, s, start, plan, keptidx, kept@, removed as nat, self.store.memos());
            lemma_dedup_removes(start, listed, plan, self.store.memos());
        }
        Ok(removed)
    }

    /// Lists the memories, optionally of one tier only.
    pub fn list(&self, memo_type: Option<MemoType>) -> (r: Result<Vec<Memo>, MemoError>)
        ensures
            r matches Ok(v) ==> lists_exactly(self.memos(), memo_type, v@),
    {
        self.store.list(memo_type)
    }
}

} // verus!

verus! {

/// What `add` stored under `id` is what `get(id)` then finds; `forget(id)` then takes
/// it away (reporting that it did), and a second `forget(id)` finds nothing and changes
/// nothing.
pub proof fn lemma_add_get_forget(before: Map<Seq<char>, Memo>, id: Seq<char>, m: Memo)
    ensures
        before.insert(id, m).contains_key(id),
        before.insert(id, m)[id] == m,
        !before.insert(id, m).remove(id).contains_key(id),
        before.insert(id, m).remove(id).remove(id) == before.insert(id, m).remove(id),
{
    assert(before.insert(id, m).remove(id).remove(id) =~= before.insert(id, m).remove(id));
}

} // verus!
