//! Memory lifecycle: importance decay and forgetting what matters too little.
use vstd::prelude::*;
use crate::binary32::{in_unit, lt, real_lt, unit};
use crate::error::{invalid_param, MemoError};
use crate::model::Memo;
use crate::dedup::{ids_distinct, ids_upto, lemma_ids_upto};
use crate::traits::{lists_exactly, type_matches, MemoStore};

verus! {

/// Decays `m`'s importance over `elapsed_sec` seconds with a half-life of
/// `half_life_sec` seconds. When both are positive the importance becomes what `decay`
/// makes of it (the importance times 0.5 raised to elapsed over half-life, a negative
/// result taken as 0: double-precision arithmetic, which the caller supplies); otherwise
/// nothing changes. Nothing but the importance ever changes.
pub fn decay_importance<F: Fn(u32, i64, i64) -> u32>(
    m: &mut Memo,
    elapsed_sec: i64,
    half_life_sec: i64,
    decay: F,
)
    requires
        call_requires(decay, (old(m).importance, elapsed_sec, half_life_sec)),
    ensures
        half_life_sec <= 0 || elapsed_sec <= 0 ==> *final(m) == *old(m),
        half_life_sec > 0 && elapsed_sec > 0 ==> call_ensures(
            decay,
            (old(m).importance, elapsed_sec, half_life_sec),
            final(m).importance,
        ),
        final(m).id == old(m).id,
        final(m).memo_type == old(m).memo_type,
        final(m).content == old(m).content,
        final(m).embedding == old(m).embedding,
        final(m).metadata == old(m).metadata,
        final(m).version == old(m).version,
        final(m).created_at == old(m).created_at,
        final(m).updated_at == old(m).updated_at,
{
    if half_life_sec <= 0 || elapsed_sec <= 0 {
        return;
    }
    m.importance = decay(m.importance, elapsed_sec, half_life_sec);
}

/// How many of `v` have importance below `floor`.
pub open spec fn count_below(v: Seq<Memo>, floor: u32) -> nat
    decreases v.len(),
{
    if v.len() == 0 {
        0
    } else {
        count_below(v.drop_last(), floor) + if real_lt(v.last().importance, floor) {
            1nat
        } else {
            0nat
        }
    }
}

/// The memories that survive pruning at `floor`: those whose importance is not below it.
pub open spec fn survivors(memos: Map<Seq<char>, Memo>, floor: u32) -> Map<Seq<char>, Memo> {
    memos.restrict(memos.dom().filter(|k: Seq<char>| !real_lt(memos[k].importance, floor)))
}

/// After pruning stopped part way: every memory left was there before, unchanged, and
/// every memory not below `floor` is still there.
pub open spec fn forall_survive(old: Map<Seq<char>, Memo>, new: Map<Seq<char>, Memo>, floor: u32) -> bool {
    &&& forall|k: Seq<char>| #[trigger] new.contains_key(k) ==> old.contains_key(k) && new[k] == old[k]
    &&& forall|k: Seq<char>|
        #[trigger] old.contains_key(k) && !real_lt(old[k].importance, floor) ==> new.contains_key(k)
}

proof fn lemma_pruned_so_far(
    start: Map<Seq<char>, Memo>,
    cur: Map<Seq<char>, Memo>,
    all: Seq<Memo>,
    floor: u32,
    i: int,
)
    requires
        0 <= i <= all.len(),
        lists_exactly(start, None, all),
        forall|k: Seq<char>|
            #![trigger cur.contains_key(k)]
            #![trigger start.contains_key(k)]
            cur.contains_key(k) <==> (start.contains_key(k) && !(exists|j: int|
                0 <= j < i && all[j].id@ == k && real_lt(all[j].importance, floor))),
        forall|k: Seq<char>| #[trigger] cur.contains_key(k) ==> cur[k] == start[k],
    ensures
        forall_survive(start, cur, floor),
{
    assert forall|k: Seq<char>| #[trigger] start.contains_key(k) && !real_lt(start[k].importance, floor)
        implies cur.contains_key(k) by {
        if exists|j: int| 0 <= j < i && all[j].id@ == k && real_lt(all[j].importance, floor) {
            let j = choose|j: int| 0 <= j < i && all[j].id@ == k && real_lt(all[j].importance, floor);
            assert(start[all[j].id@] == all[j]);
        }
    }
}

/// Forgets every memory whose importance is below `floor` (which must lie in `[0, 1]`)
/// and returns how many were forgotten.
pub fn prune<S: MemoStore>(store: &mut S, floor: u32) -> (r: Result<usize, MemoError>)
    ensures
        !in_unit(floor) ==> r matches Err(MemoError::InvalidParam(_)),
        !in_unit(floor) ==> final(store).memos() == old(store).memos(),
        r matches Ok(n) ==> final(store).memos() == survivors(old(store).memos(), floor)
            && exists|v: Seq<Memo>| lists_exactly(old(store).memos(), None, v) && n == count_below(v, floor),
        r matches Ok(n) ==> old(store).memos().dom().finite() && final(store).memos().dom().len() + n
            == old(store).memos().dom().len(),
        in_unit(floor) && r is Err ==> forall_survive(old(store).memos(), final(store).memos(), floor),
{
    if !unit(floor) {
        return invalid_param("floor out of [0,1]");
    }
    let all = store.list(None)?;
    let ghost start = store.memos();
    let mut n: usize = 0;
    let mut i: usize = 0;
    while i < all.len()
        invariant
            i <= all.len(),
            in_unit(floor),
            start == old(store).memos(),
            lists_exactly(start, None, all@),
            n == count_below(all@.take(i as int), floor),
            n <= i,
            forall|k: Seq<char>|
                #![trigger store.memos().contains_key(k)]
                #![trigger start.contains_key(k)]
                store.memos().contains_key(k) <==> (start.contains_key(k) && !(exists|j: int|
                    0 <= j < i && all@[j].id@ == k && real_lt(all@[j].importance, floor))),
            forall|k: Seq<char>| #[trigger]
                store.memos().contains_key(k) ==> store.memos()[k] == start[k],
        decreases all.len() - i,
    {
        let m = &all[i];
        proof {
            assert(all@.take(i + 1).drop_last() =~= all@.take(i as int));
        }
        if lt(m.importance, floor) {
            let removed = match store.forget(&m.id) {
                Ok(b) => b,
                Err(e) => {
                    proof {
                        lemma_pruned_so_far(start, store.memos(), all@, floor, i as int);
                    }
                    return Err(e);
                },
            };
            if removed {
                n += 1;
            } else {
                proof {
                    assert(start.contains_key(m.id@));
                    assert(!store.memos().contains_key(m.id@));
                    let j = choose|j: int|
                        0 <= j < i && all@[j].id@ == m.id@ && real_lt(all@[j].importance, floor);
                    assert(all@[j].id@ != all@[i as int].id@);
                }
            }
        }
        i += 1;
    }
    proof {
        assert(all@.take(all.len() as int) =~= all@);
        let want = survivors(start, floor);
        assert forall|k: Seq<char>| #[trigger] store.memos().contains_key(k) <==> want.contains_key(k) by {
            if start.contains_key(k) {
                if !real_lt(start[k].importance, floor) {
                    if store.memos().contains_key(k) {
                    } else {
                        let j = choose|j: int|
                            0 <= j < all.len() && all@[j].id@ == k && real_lt(all@[j].importance, floor);
                        assert(start[all@[j].id@] == all@[j]);
                    }
                } else {
                    let j = choose|j: int| 0 <= j < all@.len() && (#[trigger] all@[j]).id@ == k;
                    assert(start[all@[j].id@] == all@[j]);
                }
            }
        }
        assert(store.memos() =~= want);
        lemma_prune_removes(start, all@, floor);
    }
    Ok(n)
}

} // verus!

verus! {

/// The ids of the memories of `v` whose importance is not below `floor`.
pub open spec fn ids_not_below(v: Seq<Memo>, floor: u32) -> Set<Seq<char>>
    decreases v.len(),
{
    if v.len() == 0 {
        Set::empty()
    } else if !real_lt(v.last().importance, floor) {
        ids_not_below(v.drop_last(), floor).insert(v.last().id@)
    } else {
        ids_not_below(v.drop_last(), floor)
    }
}

proof fn lemma_ids_not_below(v: Seq<Memo>, floor: u32)
    requires
        ids_distinct(v),
    ensures
        ids_not_below(v, floor).finite(),
        ids_not_below(v, floor).len() + count_below(v, floor) == v.len(),
        forall|id: Seq<char>|
            #[trigger] ids_not_below(v, floor).contains(id) <==> exists|i: int|
                0 <= i < v.len() && !real_lt(v[i].importance, floor) && (#[trigger] v[i]).id@ == id,
    decreases v.len(),
{
    if v.len() > 0 {
        let d = v.drop_last();
        assert(ids_distinct(d)) by {
            assert forall|i: int, j: int| 0 <= i < j < d.len() implies (#[trigger] d[i]).id@
                != (#[trigger] d[j]).id@ by {
                assert(d[i] == v[i] && d[j] == v[j]);
            }
        }
        lemma_ids_not_below(d, floor);
        let k = ids_not_below(d, floor);
        let n = v.len() - 1;
        assert(!k.contains(v[n].id@)) by {
            if k.contains(v[n].id@) {
                let i = choose|i: int|
                    0 <= i < d.len() && !real_lt(d[i].importance, floor) && (#[trigger] d[i]).id@
                        == v[n].id@;
                assert(d[i] == v[i]);
            }
        }
        assert forall|id: Seq<char>| #[trigger] ids_not_below(v, floor).contains(id) <==> exists|
            i: int,
        | 0 <= i < v.len() && !real_lt(v[i].importance, floor) && (#[trigger] v[i]).id@ == id by {
            if ids_not_below(v, floor).contains(id) {
                if k.contains(id) {
                    let i = choose|i: int|
                        0 <= i < d.len() && !real_lt(d[i].importance, floor) && (#[trigger] d[i]).id@
                            == id;
                    assert(d[i] == v[i]);
                } else {
                    assert(v[n].id@ == id);
                }
            }
            if exists|i: int|
                0 <= i < v.len() && !real_lt(v[i].importance, floor) && (#[trigger] v[i]).id@ == id {
                let i = choose|i: int|
                    0 <= i < v.len() && !real_lt(v[i].importance, floor) && (#[trigger] v[i]).id@ == id;
                if i < n {
                    assert(d[i] == v[i]);
                    assert(k.contains(id));
                }
            }
        }
    }
}

/// Pruning forgets exactly as many memories as it reports: when the store listed the
/// memories `v`, the survivors number `count_below(v, floor)` fewer.
pub proof fn lemma_prune_removes(old: Map<Seq<char>, Memo>, v: Seq<Memo>, floor: u32)
    requires
        lists_exactly(old, None, v),
    ensures
        old.dom().finite(),
        survivors(old, floor).dom().len() + count_below(v, floor) == old.dom().len(),
{
    let n = v.len() as int;
    assert(ids_distinct(v));
    lemma_ids_upto(v, n);
    lemma_ids_not_below(v, floor);
    assert forall|k: Seq<char>| #[trigger] old.contains_key(k) <==> ids_upto(v, n).contains(k) by {
        if old.contains_key(k) {
            assert(type_matches(None, old[k]));
            let i = choose|i: int| 0 <= i < v.len() && (#[trigger] v[i]).id@ == k;
        }
        if ids_upto(v, n).contains(k) {
            let i = choose|i: int| 0 <= i < n && (#[trigger] v[i]).id@ == k;
        }
    }
    assert(old.dom() =~= ids_upto(v, n));
    let sv = survivors(old, floor);
    assert forall|k: Seq<char>| #[trigger] sv.contains_key(k) <==> ids_not_below(v, floor).contains(k) by {
        if old.contains_key(k) {
            assert(type_matches(None, old[k]));
            let i = choose|i: int| 0 <= i < v.len() && (#[trigger] v[i]).id@ == k;
            assert(old[v[i].id@] == v[i]);
        }
        if ids_not_below(v, floor).contains(k) {
            let i = choose|i: int|
                0 <= i < v.len() && !real_lt(v[i].importance, floor) && (#[trigger] v[i]).id@ == k;
            assert(old[v[i].id@] == v[i]);
        }
    }
    assert(sv.dom() =~= ids_not_below(v, floor));
}

} // verus!
