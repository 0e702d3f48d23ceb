//! The abstractions the manager is built on: where memories are stored, how text is
//! embedded, and what a persistence backend offers.
use vstd::prelude::*;
use crate::binary32::real_le;
use crate::error::MemoError;
use crate::model::{memo_valid, search_query_valid, Memo, MemoId, MemoType, ScoredMemo, SearchQuery};

verus! {

/// A memory matches an optional tier filter.
pub open spec fn type_matches(filter: Option<MemoType>, m: Memo) -> bool {
    match filter {
        Some(t) => m.memo_type == t,
        None => true,
    }
}

/// `v` lists exactly the stored memories of the filtered tier, each once.
pub open spec fn lists_exactly(memos: Map<Seq<char>, Memo>, filter: Option<MemoType>, v: Seq<Memo>) -> bool {
    &&& forall|i: int|
        0 <= i < v.len() ==> memos.contains_key((#[trigger] v[i]).id@) && memos[v[i].id@] == v[i]
            && type_matches(filter, v[i])
    &&& forall|i: int, j: int| 0 <= i < j < v.len() ==> (#[trigger] v[i]).id@ != (#[trigger] v[j]).id@
    &&& forall|k: Seq<char>|
        memos.contains_key(k) && type_matches(filter, #[trigger] memos[k]) ==> exists|i: int|
            0 <= i < v.len() && (#[trigger] v[i]).id@ == k
}

/// `v` is a valid answer to a search: at most `top_k` distinct stored memories of the
/// query's tier, scored at least the threshold, best first.
pub open spec fn answers_search(memos: Map<Seq<char>, Memo>, q: SearchQuery, v: Seq<ScoredMemo>) -> bool {
    &&& v.len() <= q.top_k
    &&& forall|i: int|
        0 <= i < v.len() ==> memos.contains_key((#[trigger] v[i]).memo.id@) && memos[v[i].memo.id@]
            == v[i].memo && type_matches(q.memo_type, v[i].memo) && real_le(
            q.score_threshold,
            v[i].score,
        )
    &&& forall|i: int, j: int|
        0 <= i < j < v.len() ==> (#[trigger] v[i]).memo.id@ != (#[trigger] v[j]).memo.id@
            && real_le(v[j].score, v[i].score)
}

/// `m` with its creation time replaced by `created_at`.
pub open spec fn with_created_at(m: Memo, created_at: i64) -> Memo {
    Memo { created_at, ..m }
}

/// Where memories are kept: create, read, update, forget, search and list by id.
pub trait MemoStore {
    /// The stored memories, by id. A verified store defines this as its contents. The
    /// body given here only lets a store written in plain Rust, which cannot define a
    /// spec function, compile; nothing proved about a generic store rests on it.
    open spec fn memos(&self) -> Map<Seq<char>, Memo> {
        arbitrary()
    }

    /// `v` is this store's ranking for the query `q`: the memories it scores against
    /// `q` (its query vector included), best first. A verified store defines this by
    /// its scoring; the body given here only lets a store written in plain Rust compile.
    open spec fn search_answers(&self, q: SearchQuery, v: Seq<ScoredMemo>) -> bool {
        arbitrary()
    }

    /// Adds a memory. An invalid memory is refused; a valid one whose id is taken is
    /// `DuplicateId`. A refused add changes nothing.
    fn add(&mut self, memo: &Memo) -> (r: Result<(), MemoError>)
        ensures
            r is Ok ==> memo_valid(*memo) && !old(self).memos().contains_key(memo.id@)
                && final(self).memos() == old(self).memos().insert(memo.id@, *memo),
            !memo_valid(*memo) ==> r is Err,
            memo_valid(*memo) && old(self).memos().contains_key(memo.id@) ==> r matches Err(
                MemoError::DuplicateId(_),
            ),
            r is Err ==> final(self).memos() == old(self).memos(),
    ;

    /// Fetches a memory by id (`None` when absent).
    fn get(&self, id: &MemoId) -> (r: Result<Option<Memo>, MemoError>)
        ensures
            r matches Ok(Some(m)) ==> self.memos().contains_key(id@) && self.memos()[id@] == m
                && m.id@ == id@,
            r matches Ok(None) ==> !self.memos().contains_key(id@),
    ;

    /// Replaces the memory with the same id, keeping its creation time; `NotFound` when
    /// there is none.
    fn update(&mut self, memo: &Memo) -> (r: Result<(), MemoError>)
        ensures
            r is Ok ==> old(self).memos().contains_key(memo.id@) && final(self).memos() == old(
                self,
            ).memos().insert(
                memo.id@,
                with_created_at(*memo, old(self).memos()[memo.id@].created_at),
            ),
            !old(self).memos().contains_key(memo.id@) ==> r matches Err(MemoError::NotFound(_)),
            r is Err ==> final(self).memos() == old(self).memos(),
    ;

    /// Forgets a memory; says whether one was removed.
    fn forget(&mut self, id: &MemoId) -> (r: Result<bool, MemoError>)
        ensures
            r matches Ok(b) ==> b == old(self).memos().contains_key(id@) && final(self).memos()
                == old(self).memos().remove(id@),
            r is Err ==> final(self).memos() == old(self).memos(),
    ;

    /// Hybrid (semantic + keyword) retrieval; an invalid query is `InvalidParam`.
    fn search(&self, query: &SearchQuery) -> (r: Result<Vec<ScoredMemo>, MemoError>)
        ensures
            !search_query_valid(*query) ==> r matches Err(MemoError::InvalidParam(_)),
            r matches Ok(v) ==> answers_search(self.memos(), *query, v@) && self.search_answers(
                *query,
                v@,
            ),
    ;

    /// Lists the memories, optionally of one tier only.
    fn list(&self, memo_type: Option<MemoType>) -> (r: Result<Vec<Memo>, MemoError>)
        ensures
            r matches Ok(v) ==> lists_exactly(self.memos(), memo_type, v@),
    ;

    /// Adds memories in order, stopping at the first refusal (stores may make the batch
    /// all-or-nothing). The batch is refused when a memory is invalid or its id is taken,
    /// by the store or by an earlier memory of the batch; after a refusal the store holds
    /// what it held before with some first memories of the batch added.
    fn add_batch(&mut self, memories: &[Memo]) -> (r: Result<(), MemoError>)
        ensures
            r is Ok ==> batch_addable(old(self).memos(), memories@) && final(self).memos()
                == inserted_all(old(self).memos(), memories@),
            !batch_addable(old(self).memos(), memories@) ==> r is Err,
            r is Err ==> exists|k: int|
                0 <= k <= memories@.len() && final(self).memos() == #[trigger] inserted_all(
                    old(self).memos(),
                    memories@.take(k),
                ),
    {
        let ghost start = self.memos();
        let mut i: usize = 0;
        proof {
            assert(memories@.take(0) =~= Seq::<Memo>::empty());
        }
        while i < memories.len()
            invariant
                i <= memories@.len(),
                self.memos() == inserted_all(start, memories@.take(i as int)),
                batch_addable(start, memories@.take(i as int)),
                start == old(self).memos(),
            decreases memories@.len() - i,
        {
            let ghost cur = self.memos();
            proof {
                lemma_inserted_all_keys(start, memories@.take(i as int));
            }
            match self.add(&memories[i]) {
                Ok(()) => {},
                Err(e) => {
                    proof {
                        assert(inserted_all(start, memories@.take(i as int)) == self.memos());
                    }
                    return Err(e);
                },
            }
            proof {
                let t = memories@.take(i + 1);
                assert(t.drop_last() =~= memories@.take(i as int));
                assert(t.last() == memories@[i as int]);
                let p = memories@.take(i as int);
                assert forall|a: int, b: int| 0 <= a < b < t.len() implies (#[trigger] t[a]).id@
                    != (#[trigger] t[b]).id@ by {
                    if b == i {
                        assert(t[a] == p[a]);
                        assert(cur.contains_key(p[a].id@));
                    } else {
                        assert(t[a] == p[a] && t[b] == p[b]);
                    }
                }
                assert forall|a: int| 0 <= a < t.len() implies memo_valid(#[trigger] t[a])
                    && !start.contains_key(t[a].id@) by {
                    if a < i {
                        assert(t[a] == p[a]);
                    }
                }
            }
            i += 1;
        }
        proof {
            assert(memories@.take(memories@.len() as int) =~= memories@);
        }
        Ok(())
    }
}

/// `m` with each memory of `s` stored under its id, in order.
pub open spec fn inserted_all(m: Map<Seq<char>, Memo>, s: Seq<Memo>) -> Map<Seq<char>, Memo>
    decreases s.len(),
{
    if s.len() == 0 {
        m
    } else {
        inserted_all(m, s.drop_last()).insert(s.last().id@, s.last())
    }
}

/// Every memory of `s` is valid and has an id that neither `m` nor another memory of
/// `s` holds.
pub open spec fn batch_addable(m: Map<Seq<char>, Memo>, s: Seq<Memo>) -> bool {
    &&& forall|i: int| 0 <= i < s.len() ==> memo_valid(#[trigger] s[i]) && !m.contains_key(s[i].id@)
    &&& forall|i: int, j: int| 0 <= i < j < s.len() ==> (#[trigger] s[i]).id@ != (#[trigger] s[j]).id@
}

/// The keys after storing `s` are those of `m` and the ids of `s`.
pub proof fn lemma_inserted_all_keys(m: Map<Seq<char>, Memo>, s: Seq<Memo>)
    ensures
        forall|k: Seq<char>| #[trigger] inserted_all(m, s).contains_key(k) <==> m.contains_key(k)
            || exists|i: int| 0 <= i < s.len() && (#[trigger] s[i]).id@ == k,
    decreases s.len(),
{
    if s.len() > 0 {
        let d = s.drop_last();
        lemma_inserted_all_keys(m, d);
        assert forall|k: Seq<char>| #[trigger] inserted_all(m, s).contains_key(k) <==> m.contains_key(k)
            || exists|i: int| 0 <= i < s.len() && (#[trigger] s[i]).id@ == k by {
            if exists|i: int| 0 <= i < s.len() && (#[trigger] s[i]).id@ == k {
                let i = choose|i: int| 0 <= i < s.len() && (#[trigger] s[i]).id@ == k;
                if i < s.len() - 1 {
                    assert(d[i] == s[i]);
                }
            }
            if inserted_all(m, d).contains_key(k) && !m.contains_key(k) {
                let i = choose|i: int| 0 <= i < d.len() && (#[trigger] d[i]).id@ == k;
                assert(s[i] == d[i]);
            }
        }
    }
}

/// Text embedding: turns text into a vector of single-precision bit patterns.
pub trait Embedder {
    /// `v` is what this embedder gives for `text`. A verified embedder defines this by
    /// its encoding; the body given here only lets an embedder written in plain Rust,
    /// which cannot define a spec function, compile.
    open spec fn embeds(&self, text: Seq<char>, v: Seq<u32>) -> bool {
        arbitrary()
    }

    /// Encodes text into a fixed-length vector; `EmptyEmbedding` for text with nothing
    /// to encode.
    fn embed(&self, text: &str) -> (r: Result<Vec<u32>, MemoError>)
        ensures
            r matches Ok(v) ==> self.embeds(text@, v@),
    ;

    /// The vector dimension.
    fn dim(&self) -> usize;
}

/// A low-level persistence backend.
pub trait StorageBackend {
    /// Creates or migrates the schema.
    fn migrate(&self) -> Result<(), MemoError>;

    /// The backend kind identifier.
    fn backend_kind(&self) -> &'static str;
}

} // verus!
