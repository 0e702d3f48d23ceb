//! The in-process micro-benchmark: a fixed workload of adds and searches, each timed.
//! Turning the timings into percentiles and a report is left to the caller.
use vstd::prelude::*;
use std::collections::HashMap;
use std::time::{Duration, Instant};
use crate::binary32::{REAL_0_3, REAL_0_7, REAL_HALF, REAL_ZERO};
use crate::error::{invalid_param, MemoError};
use crate::manager::MemoryManager;
use crate::model::{Memo, MemoType, ScoredMemo, SearchQuery};
use crate::text::{chars_of, decimal, push_decimal, string_of};
use crate::traits::{Embedder, MemoStore};

verus! {

/// A point in time of the monotonic clock.
#[verifier::external_type_specification]
#[verifier::external_body]
pub struct ExInstant(Instant);

/// Reads the monotonic clock (`Instant::now`); nothing is promised of the reading.
#[verifier::external_body]
fn clock_now() -> Instant {
    Instant::now()
}

/// The time since `t` (`Instant::elapsed`); nothing is promised of it.
#[verifier::external_body]
fn elapsed_since(t: &Instant) -> Duration {
    t.elapsed()
}

/// The content of the `i`-th warm-up memory.
pub open spec fn warmup_text(i: nat) -> Seq<char> {
    "warmup memo content "@ + decimal(i)
}

/// The content of the `i`-th timed memory.
pub open spec fn bench_text(i: nat) -> Seq<char> {
    "bench item "@ + decimal(i) + ": user prefers rust systems programming and local-first memo "@
        + decimal(i)
}

/// The `i`-th query of the timed searches: the five queries in turn.
pub open spec fn bench_query_text(i: nat) -> Seq<char> {
    let k = i % 5;
    if k == 0 {
        "rust systems programming"@
    } else if k == 1 {
        "local-first memo"@
    } else if k == 2 {
        "user prefers"@
    } else if k == 3 {
        "bench item"@
    } else {
        "programming"@
    }
}

/// `"warmup memo content {i}"`.
pub fn warmup_content(i: usize) -> (r: String)
    ensures
        r@ == warmup_text(i as nat),
{
    let mut v = chars_of("warmup memo content ");
    push_decimal(&mut v, i as u64);
    string_of(&v)
}

/// `"bench item {i}: user prefers rust systems programming and local-first memo {i}"`.
pub fn bench_content(i: usize) -> (r: String)
    ensures
        r@ == bench_text(i as nat),
{
    let mut v = chars_of("bench item ");
    push_decimal(&mut v, i as u64);
    let tail = chars_of(": user prefers rust systems programming and local-first memo ");
    let mut j: usize = 0;
    let ghost head = v@;
    while j < tail.len()
        invariant
            j <= tail@.len(),
            v@ == head + tail@.take(j as int),
        decreases tail@.len() - j,
    {
        v.push(tail[j]);
        proof {
            assert(head + tail@.take(j + 1) =~= (head + tail@.take(j as int)).push(tail@[j as int]));
        }
        j += 1;
    }
    proof {
        assert(tail@.take(tail@.len() as int) =~= tail@);
    }
    push_decimal(&mut v, i as u64);
    string_of(&v)
}

/// The `i`-th query text of the timed searches.
pub fn bench_query(i: usize) -> (r: &'static str)
    ensures
        r@ == bench_query_text(i as nat),
{
    let k = i % 5;
    if k == 0 {
        "rust systems programming"
    } else if k == 1 {
        "local-first memo"
    } else if k == 2 {
        "user prefers"
    } else if k == 3 {
        "bench item"
    } else {
        "programming"
    }
}

/// The content of the `i`-th memory the benchmark adds: the warm-up ones first.
pub open spec fn workload_text(warmup: nat, i: nat) -> Seq<char> {
    if i < warmup {
        warmup_text(i)
    } else {
        bench_text((i - warmup) as nat)
    }
}

/// `new` is `old` with the first `n` workload memories added under the distinct fresh
/// ids `ids`: working memories of importance 0.5, at version 1.
pub open spec fn filled_with(
    old: Map<Seq<char>, Memo>,
    new: Map<Seq<char>, Memo>,
    ids: Seq<Seq<char>>,
    warmup: nat,
    n: nat,
) -> bool {
    &&& ids.len() == n
    &&& forall|i: int, j: int| 0 <= i < j < n ==> ids[i] != ids[j]
    &&& forall|i: int|
        0 <= i < n ==> !old.contains_key(#[trigger] ids[i]) && new.contains_key(ids[i])
            && new[ids[i]].content@ == workload_text(warmup, i as nat) && new[ids[i]].memo_type
            == MemoType::Working && new[ids[i]].importance == REAL_HALF && new[ids[i]].version == 1
    &&& forall|k: Seq<char>| #[trigger] new.contains_key(k) ==> old.contains_key(k) || ids.contains(k)
    &&& forall|k: Seq<char>| #[trigger] old.contains_key(k) ==> new.contains_key(k) && new[k] == old[k]
}

proof fn lemma_fill_step(
    old: Map<Seq<char>, Memo>,
    cur: Map<Seq<char>, Memo>,
    ids: Seq<Seq<char>>,
    warmup: nat,
    n: nat,
    id: Seq<char>,
    m: Memo,
)
    requires
        filled_with(old, cur, ids, warmup, n),
        !cur.contains_key(id),
        m.content@ == workload_text(warmup, n),
        m.memo_type == MemoType::Working,
        m.importance == REAL_HALF,
        m.version == 1,
    ensures
        filled_with(old, cur.insert(id, m), ids.push(id), warmup, n + 1),
{
    let next = cur.insert(id, m);
    let ids2 = ids.push(id);
    assert forall|i: int| 0 <= i < n + 1 implies !old.contains_key(#[trigger] ids2[i])
        && next.contains_key(ids2[i]) && next[ids2[i]].content@ == workload_text(warmup, i as nat)
        && next[ids2[i]].memo_type == MemoType::Working && next[ids2[i]].importance == REAL_HALF
        && next[ids2[i]].version == 1 by {
        if i < n {
            assert(ids2[i] == ids[i]);
            assert(cur.contains_key(ids[i]));
        } else {
            assert(ids2[i] == id);
        }
    }
    assert forall|i: int, j: int| 0 <= i < j < n + 1 implies ids2[i] != ids2[j] by {
        if j == n {
            assert(cur.contains_key(ids[i]));
        } else {
            assert(ids2[i] == ids[i] && ids2[j] == ids[j]);
        }
    }
    assert forall|k: Seq<char>| #[trigger] next.contains_key(k) implies old.contains_key(k)
        || ids2.contains(k) by {
        if k == id {
            assert(ids2[n as int] == id);
        } else if !old.contains_key(k) {
            assert(ids.contains(k));
            let x = choose|x: int| 0 <= x < ids.len() && ids[x] == k;
            assert(ids2[x] == k);
        }
    }
}

/// `q` is the `k`-th benchmark search: the `k`-th query text with the default weights,
/// threshold and tier, no vector, `top_k` results.
pub open spec fn bench_search(q: SearchQuery, k: nat, top_k: usize) -> bool {
    &&& q.text@ == bench_query_text(k)
    &&& q.top_k == top_k
    &&& q.semantic_weight == REAL_0_7
    &&& q.keyword_weight == REAL_0_3
    &&& q.score_threshold == REAL_ZERO
    &&& q.memo_type is None
    &&& q.query_embedding is None
}

/// The `k`-th benchmark search was answered by `m`: some ranking the store gives for
/// that query once it has its vector.
pub open spec fn bench_searched<E: Embedder, S: MemoStore>(
    m: MemoryManager<E, S>,
    k: nat,
    top_k: usize,
) -> bool {
    exists|q: SearchQuery, v: Seq<ScoredMemo>|
        bench_search(q, k, top_k) && #[trigger] m.answers_with_vector(q, v)
}

/// The benchmark stopped on an error: the store is the old one with the first
/// `ids.len()` workload memories added, and, when any search ran (`j > 0`), every
/// memory was added and the first `j` searches were answered.
pub open spec fn bench_stopped<E: Embedder, S: MemoStore>(
    old: Map<Seq<char>, Memo>,
    m: MemoryManager<E, S>,
    ids: Seq<Seq<char>>,
    j: int,
    warmup: nat,
    size: nat,
    top_k: usize,
) -> bool {
    &&& ids.len() <= warmup + size
    &&& filled_with(old, m.memos(), ids, warmup, ids.len())
    &&& 0 <= j <= size
    &&& j > 0 ==> ids.len() == warmup + size
    &&& forall|k: int| 0 <= k < j ==> #[trigger] bench_searched(m, k as nat, top_k)
}

/// The timings of a benchmark run: one per timed add, one per timed search.
pub struct BenchTimes {
    pub add: Vec<Duration>,
    pub search: Vec<Duration>,
}

/// Runs the benchmark workload: `warmup` untimed adds, then `size` timed adds and
/// `size` timed searches (the five benchmark queries in turn, `top_k` results each).
/// A `size` or `top_k` of 0 is `InvalidParam`, before anything is added.
pub fn run_bench<E: Embedder, S: MemoStore>(
    manager: &mut MemoryManager<E, S>,
    size: usize,
    top_k: usize,
    warmup: usize,
) -> (r: Result<BenchTimes, MemoError>)
    ensures
        size == 0 ==> r matches Err(MemoError::InvalidParam(_)),
        size > 0 && top_k == 0 ==> r matches Err(MemoError::InvalidParam(_)),
        size == 0 || top_k == 0 ==> final(manager).memos() == old(manager).memos(),
        size > 0 && top_k > 0 && r is Err ==> exists|ids: Seq<Seq<char>>, j: int|
            #[trigger] bench_stopped(
                old(manager).memos(),
                *final(manager),
                ids,
                j,
                warmup as nat,
                size as nat,
                top_k,
            ),
        r matches Ok(t) ==> {
            &&& t.add@.len() == size
            &&& t.search@.len() == size
            &&& exists|ids: Seq<Seq<char>>|
                #[trigger] filled_with(
                    old(manager).memos(),
                    final(manager).memos(),
                    ids,
                    warmup as nat,
                    (warmup + size) as nat,
                )
            &&& forall|k: int| 0 <= k < size ==> #[trigger] bench_searched(*final(manager), k as nat, top_k)
        },
{
    if size == 0 {
        return invalid_param("bench size must be > 0");
    }
    if top_k == 0 {
        return invalid_param("bench top_k must be > 0");
    }
    let ghost start = manager.memos();
    let ghost mut ids: Seq<Seq<char>> = Seq::empty();
    proof {
        assert(filled_with(start, start, ids, warmup as nat, 0));
    }
    let mut i: usize = 0;
    while i < warmup
        invariant
            i <= warmup,
            size > 0,
            top_k > 0,
            start == old(manager).memos(),
            filled_with(start, manager.memos(), ids, warmup as nat, i as nat),
        decreases warmup - i,
    {
        let content = warmup_content(i);
        let ghost cur = manager.memos();
        let id = match manager.add(content.as_str(), MemoType::Working, HashMap::new(), REAL_HALF) {
            Ok(id) => id,
            Err(e) => {
                proof {
                    assert(bench_stopped(start, *manager, ids, 0, warmup as nat, size as nat, top_k));
                }
                return Err(e);
            },
        };
        proof {
            let m = manager.memos()[id@];
            lemma_fill_step(start, cur, ids, warmup as nat, i as nat, id@, m);
            ids = ids.push(id@);
        }
        i += 1;
    }
    let mut add_times: Vec<Duration> = Vec::new();
    let mut j: usize = 0;
    while j < size
        invariant
            j <= size,
            size > 0,
            top_k > 0,
            start == old(manager).memos(),
            add_times@.len() == j,
            filled_with(start, manager.memos(), ids, warmup as nat, (warmup + j) as nat),
        decreases size - j,
    {
        let content = bench_content(j);
        let t0 = clock_now();
        let ghost cur = manager.memos();
        let id = match manager.add(content.as_str(), MemoType::Working, HashMap::new(), REAL_HALF) {
            Ok(id) => id,
            Err(e) => {
                proof {
                    assert(bench_stopped(start, *manager, ids, 0, warmup as nat, size as nat, top_k));
                }
                return Err(e);
            },
        };
        add_times.push(elapsed_since(&t0));
        proof {
            let m = manager.memos()[id@];
            lemma_fill_step(start, cur, ids, warmup as nat, (warmup + j) as nat, id@, m);
            ids = ids.push(id@);
        }
        j += 1;
    }
    let mut search_times: Vec<Duration> = Vec::new();
    let mut k: usize = 0;
    let ghost mid = *manager;
    while k < size
        invariant
            k <= size,
            size > 0,
            top_k > 0,
            start == old(manager).memos(),
            search_times@.len() == k,
            *manager == mid,
            ids.len() == warmup + size,
            filled_with(start, manager.memos(), ids, warmup as nat, (warmup + size) as nat),
            forall|k2: int| 0 <= k2 < k ==> #[trigger] bench_searched(mid, k2 as nat, top_k),
        decreases size - k,
    {
        let mut q = SearchQuery::new(bench_query(k));
        q.top_k = top_k;
        let ghost q0 = q;
        let t0 = clock_now();
        match manager.search(q) {
            Ok(v) => {
                proof {
                    assert(bench_search(q0, k as nat, top_k));
                    assert(mid.answers_with_vector(q0, v@));
                    assert(bench_searched(mid, k as nat, top_k));
                }
            },
            Err(e) => {
                proof {
                    assert(bench_stopped(start, *manager, ids, k as int, warmup as nat, size as nat, top_k));
                }
                return Err(e);
            },
        }
        search_times.push(elapsed_since(&t0));
        k += 1;
    }
    proof {
        assert(filled_with(start, manager.memos(), ids, warmup as nat, (warmup + size) as nat));
    }
    Ok(BenchTimes { add: add_times, search: search_times })
}

} // verus!
