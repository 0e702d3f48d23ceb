//! Ranking search candidates: those scoring at least the threshold, highest score
//! first (equal scores in candidate order), at most `top_k` of them.
use vstd::prelude::*;
use crate::binary32::{le, lt, real_is_nan, real_le, real_lt};
use crate::dedup::reversed;
use crate::model::ScoredMemo;

verus! {

/// `s` with `x` inserted after every element that does not score strictly below it.
pub open spec fn insert_ranked(s: Seq<ScoredMemo>, x: ScoredMemo) -> Seq<ScoredMemo>
    decreases s.len(),
{
    if s.len() == 0 {
        seq![x]
    } else if real_lt(s.last().score, x.score) {
        insert_ranked(s.drop_last(), x).push(s.last())
    } else {
        s.push(x)
    }
}

/// The candidates of `v` scoring at least `threshold`, stably sorted by score, highest
/// first.
pub open spec fn ranked(v: Seq<ScoredMemo>, threshold: u32) -> Seq<ScoredMemo>
    decreases v.len(),
{
    if v.len() == 0 {
        Seq::empty()
    } else if real_le(threshold, v.last().score) {
        insert_ranked(ranked(v.drop_last(), threshold), v.last())
    } else {
        ranked(v.drop_last(), threshold)
    }
}

/// The candidates of `v` scoring at least `threshold`, in candidate order.
pub open spec fn passing(v: Seq<ScoredMemo>, threshold: u32) -> Seq<ScoredMemo>
    decreases v.len(),
{
    if v.len() == 0 {
        Seq::empty()
    } else if real_le(threshold, v.last().score) {
        passing(v.drop_last(), threshold).push(v.last())
    } else {
        passing(v.drop_last(), threshold)
    }
}

/// The first `k` elements of `s` (all of them when it has no more).
pub open spec fn top(s: Seq<ScoredMemo>, k: nat) -> Seq<ScoredMemo> {
    if s.len() <= k {
        s
    } else {
        s.take(k as int)
    }
}

/// No score in `s` is NaN.
pub open spec fn scores_numeric(s: Seq<ScoredMemo>) -> bool {
    forall|i: int| 0 <= i < s.len() ==> !real_is_nan((#[trigger] s[i]).score)
}

/// Scores never rise along `s`.
pub open spec fn best_first(s: Seq<ScoredMemo>) -> bool {
    forall|i: int, j: int|
        0 <= i < j < s.len() ==> real_le((#[trigger] s[j]).score, (#[trigger] s[i]).score)
}

proof fn lemma_insert_ranked(s: Seq<ScoredMemo>, x: ScoredMemo)
    ensures
        insert_ranked(s, x).len() == s.len() + 1,
        insert_ranked(s, x).to_multiset() =~= s.to_multiset().insert(x),
        scores_numeric(s) && !real_is_nan(x.score) ==> scores_numeric(insert_ranked(s, x)),
        scores_numeric(s) && !real_is_nan(x.score) && best_first(s) ==> best_first(
            insert_ranked(s, x),
        ),
    decreases s.len(),
{
    broadcast use vstd::seq_lib::group_to_multiset_ensures;

    let r = insert_ranked(s, x);
    if s.len() == 0 {
        assert(r =~= Seq::<ScoredMemo>::empty().push(x));
    } else {
        let d = s.drop_last();
        let l = s.last();
        assert(d.push(l) =~= s);
        if real_lt(l.score, x.score) {
            lemma_insert_ranked(d, x);
            let q = insert_ranked(d, x);
            if scores_numeric(s) && !real_is_nan(x.score) {
                assert(scores_numeric(d)) by {
                    assert forall|i: int| 0 <= i < d.len() implies !real_is_nan(
                        (#[trigger] d[i]).score,
                    ) by {
                        assert(d[i] == s[i]);
                    }
                }
                assert(!real_is_nan(s[s.len() - 1].score));
                if best_first(s) {
                    assert(best_first(d)) by {
                        assert forall|i: int, j: int| 0 <= i < j < d.len() implies real_le(
                            (#[trigger] d[j]).score,
                            (#[trigger] d[i]).score,
                        ) by {
                            assert(d[i] == s[i] && d[j] == s[j]);
                        }
                    }
                    assert forall|i: int, j: int| 0 <= i < j < r.len() implies real_le(
                        (#[trigger] r[j]).score,
                        (#[trigger] r[i]).score,
                    ) by {
                        if j == r.len() - 1 {
                            assert(r[j] == l);
                            assert(r[i] == q[i]);
                            assert(q.to_multiset().count(q[i]) > 0);
                            if q[i] != x {
                                assert(d.to_multiset().count(q[i]) > 0);
                                assert(d.contains(q[i]));
                                let k = choose|k: int| 0 <= k < d.len() && d[k] == q[i];
                                assert(s[k] == d[k]);
                                assert(real_le(s[s.len() - 1].score, s[k].score));
                            }
                        } else {
                            assert(r[i] == q[i] && r[j] == q[j]);
                        }
                    }
                }
            }
        } else {
            assert(r == s.push(x));
            if scores_numeric(s) && !real_is_nan(x.score) && best_first(s) {
                assert(!real_is_nan(s[s.len() - 1].score));
                assert forall|i: int, j: int| 0 <= i < j < r.len() implies real_le(
                    (#[trigger] r[j]).score,
                    (#[trigger] r[i]).score,
                ) by {
                    if j == s.len() {
                        assert(r[i] == s[i]);
                        if i < s.len() - 1 {
                            assert(real_le(s[s.len() - 1].score, s[i].score));
                        }
                    } else {
                        assert(r[i] == s[i] && r[j] == s[j]);
                    }
                }
            }
        }
    }
}

/// Ranking keeps exactly the passing candidates (as a multiset), with numeric scores
/// that never rise.
pub proof fn lemma_ranked(v: Seq<ScoredMemo>, threshold: u32)
    ensures
        ranked(v, threshold).to_multiset() =~= passing(v, threshold).to_multiset(),
        ranked(v, threshold).len() == passing(v, threshold).len(),
        scores_numeric(ranked(v, threshold)),
        best_first(ranked(v, threshold)),
    decreases v.len(),
{
    broadcast use vstd::seq_lib::group_to_multiset_ensures;

    if v.len() > 0 {
        lemma_ranked(v.drop_last(), threshold);
        if real_le(threshold, v.last().score) {
            lemma_insert_ranked(ranked(v.drop_last(), threshold), v.last());
        }
    }
}

/// Every passing candidate is a candidate and scores at least the threshold.
pub proof fn lemma_passing(v: Seq<ScoredMemo>, threshold: u32)
    ensures
        forall|i: int|
            0 <= i < passing(v, threshold).len() ==> v.contains(
                #[trigger] passing(v, threshold)[i],
            ) && real_le(threshold, passing(v, threshold)[i].score),
    decreases v.len(),
{
    if v.len() > 0 {
        let d = v.drop_last();
        lemma_passing(d, threshold);
        let p = passing(v, threshold);
        let pd = passing(d, threshold);
        assert forall|i: int| 0 <= i < p.len() implies v.contains(#[trigger] p[i]) && real_le(
            threshold,
            p[i].score,
        ) by {
            if i < pd.len() {
                assert(p[i] == pd[i]);
                let k = choose|k: int| 0 <= k < d.len() && d[k] == pd[i];
                assert(v[k] == d[k]);
            } else {
                assert(p[i] == v.last());
                assert(v[v.len() - 1] == v.last());
            }
        }
    }
}

/// What a ranking holds: `top_k` candidates, or every passing one when fewer pass, each
/// scoring at least the threshold, best first; every passing candidate left out scores
/// no more than the last one kept.
pub proof fn lemma_rank_answer(v: Seq<ScoredMemo>, threshold: u32, top_k: nat)
    ensures
        top(ranked(v, threshold), top_k).len() <= top_k,
        top(ranked(v, threshold), top_k).len() == if passing(v, threshold).len() <= top_k {
            passing(v, threshold).len()
        } else {
            top_k
        },
        top_k > 0 ==> forall|i: int|
            top_k <= i < ranked(v, threshold).len() ==> real_le(
                (#[trigger] ranked(v, threshold)[i]).score,
                ranked(v, threshold)[top_k - 1].score,
            ),
        passing(v, threshold).len() <= top_k ==> top(ranked(v, threshold), top_k).to_multiset()
            =~= passing(v, threshold).to_multiset(),
        best_first(top(ranked(v, threshold), top_k)),
        forall|i: int|
            0 <= i < top(ranked(v, threshold), top_k).len() ==> v.contains(
                #[trigger] top(ranked(v, threshold), top_k)[i],
            ) && real_le(threshold, top(ranked(v, threshold), top_k)[i].score),
{
    broadcast use vstd::seq_lib::group_to_multiset_ensures;

    lemma_ranked(v, threshold);
    lemma_passing(v, threshold);
    let r = ranked(v, threshold);
    let t = top(r, top_k);
    let p = passing(v, threshold);
    assert forall|i: int| 0 <= i < t.len() implies v.contains(#[trigger] t[i]) && real_le(
        threshold,
        t[i].score,
    ) by {
        assert(t[i] == r[i]);
        assert(r.to_multiset().count(r[i]) > 0);
        assert(p.contains(r[i]));
        let k = choose|k: int| 0 <= k < p.len() && p[k] == r[i];
        assert(v.contains(p[k]));
    }
    assert forall|i: int, j: int| 0 <= i < j < t.len() implies real_le(
        (#[trigger] t[j]).score,
        (#[trigger] t[i]).score,
    ) by {
        assert(t[i] == r[i] && t[j] == r[j]);
    }
}

proof fn lemma_insert_ranked_at(s: Seq<ScoredMemo>, x: ScoredMemo, k: int)
    requires
        0 <= k <= s.len(),
        forall|j: int| k <= j < s.len() ==> real_lt((#[trigger] s[j]).score, x.score),
        k > 0 ==> !real_lt(s[k - 1].score, x.score),
    ensures
        insert_ranked(s, x) == s.insert(k, x),
    decreases s.len(),
{
    if s.len() == 0 {
        assert(s.insert(k, x) =~= seq![x]);
    } else if k == s.len() {
        assert(s.insert(k, x) =~= s.push(x));
    } else {
        assert(real_lt(s[s.len() - 1].score, x.score));
        let d = s.drop_last();
        lemma_insert_ranked_at(d, x, k);
        assert(d.insert(k, x).push(s.last()) =~= s.insert(k, x));
    }
}

/// Ranks search candidates: keeps those scoring at least `threshold`, sorts them by
/// score, highest first (equal scores keep their order), and returns at most `top_k`.
pub fn rank(candidates: Vec<ScoredMemo>, threshold: u32, top_k: usize) -> (r: Vec<ScoredMemo>)
    ensures
        r@ == top(ranked(candidates@, threshold), top_k as nat),
{
    let ghost orig = candidates@;
    let n = candidates.len();
    let mut rest = reversed(candidates);
    let mut r: Vec<ScoredMemo> = Vec::new();
    let mut i: usize = 0;
    while rest.len() > 0
        invariant
            orig.len() == n,
            i + rest@.len() == n,
            rest@ == orig.skip(i as int).reverse(),
            r@ == ranked(orig.take(i as int), threshold),
        decreases rest.len(),
    {
        let x = rest.pop().unwrap();
        proof {
            assert(orig.skip(i as int).reverse().last() == orig[i as int]);
            assert(orig.take(i + 1).drop_last() =~= orig.take(i as int));
            assert(orig.take(i + 1).last() == x);
            assert(rest@ =~= orig.skip(i + 1).reverse());
        }
        if le(threshold, x.score) {
            let mut k = r.len();
            while k > 0 && lt(r[k - 1].score, x.score)
                invariant
                    k <= r@.len(),
                    forall|j: int| k <= j < r@.len() ==> real_lt((#[trigger] r@[j]).score, x.score),
                decreases k,
            {
                k -= 1;
            }
            proof {
                lemma_insert_ranked_at(r@, x, k as int);
            }
            r.insert(k, x);
        }
        i += 1;
    }
    proof {
        assert(orig.take(n as int) =~= orig);
    }
    r.truncate(top_k);
    r
}

} // verus!
