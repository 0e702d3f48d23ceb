//! Deduplication: which memories merge into which, in what order.
//!
//! Memories are taken most important first (the more recently updated first among
//! equally important ones, the listing order among full ties). Each is compared with the
//! memories kept so far, in order; it merges into the first one similar enough, and is
//! kept otherwise.
use vstd::prelude::*;
use crate::binary32::{eq, lt, real_eq, real_is_nan, real_le, real_lt};
use crate::model::Memo;
use crate::traits::{lists_exactly, type_matches};

verus! {

/// `a` comes before `b`: higher importance, or equal importance and updated later.
pub open spec fn dedup_before(a: Memo, b: Memo) -> bool {
    real_lt(b.importance, a.importance) || (real_eq(a.importance, b.importance) && a.updated_at
        > b.updated_at)
}

/// `s` with `x` inserted after every element it does not come before (stable insertion).
pub open spec fn insert_sorted(s: Seq<Memo>, x: Memo) -> Seq<Memo>
    decreases s.len(),
{
    if s.len() == 0 {
        seq![x]
    } else if dedup_before(x, s.last()) {
        insert_sorted(s.drop_last(), x).push(s.last())
    } else {
        s.push(x)
    }
}

/// The stable sort of `v` by [`dedup_before`].
pub open spec fn dedup_sorted(v: Seq<Memo>) -> Seq<Memo>
    decreases v.len(),
{
    if v.len() == 0 {
        v
    } else {
        insert_sorted(dedup_sorted(v.drop_last()), v.last())
    }
}

/// No two memories of `s` share an id.
pub open spec fn ids_distinct(s: Seq<Memo>) -> bool {
    forall|i: int, j: int| 0 <= i < j < s.len() ==> (#[trigger] s[i]).id@ != (#[trigger] s[j]).id@
}

/// Some memory of `s` has this id.
pub open spec fn has_id(s: Seq<Memo>, id: Seq<char>) -> bool {
    exists|i: int| 0 <= i < s.len() && (#[trigger] s[i]).id@ == id
}

proof fn lemma_insert_sorted(s: Seq<Memo>, x: Memo)
    ensures
        insert_sorted(s, x).len() == s.len() + 1,
        forall|i: int|
            0 <= i < insert_sorted(s, x).len() ==> (#[trigger] insert_sorted(s, x)[i] == x
                || s.contains(insert_sorted(s, x)[i])),
        forall|id: Seq<char>| has_id(insert_sorted(s, x), id) ==> (x.id@ == id || has_id(s, id)),
        ids_distinct(s) && !has_id(s, x.id@) ==> ids_distinct(insert_sorted(s, x)),
    decreases s.len(),
{
    let r = insert_sorted(s, x);
    if s.len() == 0 {
    } else if dedup_before(x, s.last()) {
        let d = s.drop_last();
        lemma_insert_sorted(d, x);
        let q = insert_sorted(d, x);
        assert forall|i: int| 0 <= i < r.len() implies (#[trigger] r[i] == x || s.contains(r[i])) by {
            if i < q.len() {
                assert(r[i] == q[i]);
                if q[i] != x {
                    let k = choose|k: int| 0 <= k < d.len() && d[k] == q[i];
                    assert(s[k] == d[k]);
                }
            } else {
                assert(r[i] == s.last());
                assert(s[s.len() - 1] == s.last());
            }
        }
        assert forall|id: Seq<char>| has_id(r, id) implies (x.id@ == id || has_id(s, id)) by {
            let i = choose|i: int| 0 <= i < r.len() && (#[trigger] r[i]).id@ == id;
            if i < q.len() {
                assert(r[i] == q[i]);
                assert(has_id(q, id));
                if x.id@ != id {
                    let k = choose|k: int| 0 <= k < d.len() && (#[trigger] d[k]).id@ == id;
                    assert(s[k] == d[k]);
                }
            } else {
                assert(s[s.len() - 1].id@ == id);
            }
        }
        if ids_distinct(s) && !has_id(s, x.id@) {
            assert(ids_distinct(d)) by {
                assert forall|i: int, j: int| 0 <= i < j < d.len() implies (#[trigger] d[i]).id@
                    != (#[trigger] d[j]).id@ by {
                    assert(d[i] == s[i] && d[j] == s[j]);
                }
            }
            assert(!has_id(d, x.id@)) by {
                if has_id(d, x.id@) {
                    let k = choose|k: int| 0 <= k < d.len() && (#[trigger] d[k]).id@ == x.id@;
                    assert(s[k] == d[k]);
                }
            }
            assert forall|i: int, j: int| 0 <= i < j < r.len() implies (#[trigger] r[i]).id@
                != (#[trigger] r[j]).id@ by {
                if j == r.len() - 1 {
                    assert(r[j] == s.last());
                    assert(r[i] == q[i]);
                    if r[i].id@ == s.last().id@ {
                        assert(has_id(q, s.last().id@));
                        if x.id@ == s.last().id@ {
                            assert(s[s.len() - 1].id@ == x.id@);
                        } else {
                            let k = choose|k: int| 0 <= k < d.len() && (#[trigger] d[k]).id@
                                == s.last().id@;
                            assert(s[k] == d[k]);
                            assert(s[s.len() - 1] == s.last());
                        }
                    }
                } else {
                    assert(r[i] == q[i] && r[j] == q[j]);
                }
            }
        }
    } else {
        assert forall|i: int| 0 <= i < r.len() implies (#[trigger] r[i] == x || s.contains(r[i])) by {
            if i < s.len() {
                assert(r[i] == s[i]);
            }
        }
        assert forall|id: Seq<char>| has_id(r, id) implies (x.id@ == id || has_id(s, id)) by {
            let i = choose|i: int| 0 <= i < r.len() && (#[trigger] r[i]).id@ == id;
            if i < s.len() {
                assert(r[i] == s[i]);
            }
        }
        if ids_distinct(s) && !has_id(s, x.id@) {
            assert forall|i: int, j: int| 0 <= i < j < r.len() implies (#[trigger] r[i]).id@
                != (#[trigger] r[j]).id@ by {
                if j == s.len() {
                    assert(r[i] == s[i]);
                } else {
                    assert(r[i] == s[i] && r[j] == s[j]);
                }
            }
        }
    }
}

/// Sorting keeps the memories: the same number, each one taken from the input, ids still
/// distinct when they were.
pub proof fn lemma_dedup_sorted(v: Seq<Memo>)
    ensures
        dedup_sorted(v).len() == v.len(),
        forall|i: int| 0 <= i < v.len() ==> v.contains(#[trigger] dedup_sorted(v)[i]),
        ids_distinct(v) ==> ids_distinct(dedup_sorted(v)),
    decreases v.len(),
{
    if v.len() > 0 {
        let d = v.drop_last();
        lemma_dedup_sorted(d);
        let sd = dedup_sorted(d);
        lemma_insert_sorted(sd, v.last());
        let r = dedup_sorted(v);
        assert forall|i: int| 0 <= i < v.len() implies v.contains(#[trigger] r[i]) by {
            if r[i] == v.last() {
                assert(v[v.len() - 1] == v.last());
            } else {
                let k = choose|k: int| 0 <= k < sd.len() && sd[k] == r[i];
                assert(d.contains(sd[k]));
                let j = choose|j: int| 0 <= j < d.len() && d[j] == sd[k];
                assert(v[j] == d[j]);
            }
        }
        if ids_distinct(v) {
            assert(ids_distinct(d)) by {
                assert forall|i: int, j: int| 0 <= i < j < d.len() implies (#[trigger] d[i]).id@
                    != (#[trigger] d[j]).id@ by {
                    assert(d[i] == v[i] && d[j] == v[j]);
                }
            }
            assert(!has_id(sd, v.last().id@)) by {
                if has_id(sd, v.last().id@) {
                    let k = choose|k: int| 0 <= k < sd.len() && (#[trigger] sd[k]).id@ == v.last().id@;
                    assert(d.contains(sd[k]));
                    let j = choose|j: int| 0 <= j < d.len() && d[j] == sd[k];
                    assert(v[j] == d[j]);
                    assert(v[v.len() - 1] == v.last());
                }
            }
        }
    }
}

/// Executable [`dedup_before`] (importances must not be NaN).
pub fn before(a: &Memo, b: &Memo) -> (r: bool)
    ensures
        r == dedup_before(*a, *b),
{
    lt(b.importance, a.importance) || (eq(a.importance, b.importance) && a.updated_at
        > b.updated_at)
}

proof fn lemma_insert_at(s: Seq<Memo>, x: Memo, k: int)
    requires
        0 <= k <= s.len(),
        forall|j: int| k <= j < s.len() ==> dedup_before(x, #[trigger] s[j]),
        k > 0 ==> !dedup_before(x, s[k - 1]),
    ensures
        insert_sorted(s, x) == s.insert(k, x),
    decreases s.len(),
{
    if s.len() == 0 {
        assert(s.insert(k, x) =~= seq![x]);
    } else if k == s.len() {
        assert(!dedup_before(x, s.last()));
        assert(s.insert(k, x) =~= s.push(x));
    } else {
        assert(dedup_before(x, s[s.len() - 1]));
        let d = s.drop_last();
        lemma_insert_at(d, x, k);
        assert(d.insert(k, x).push(s.last()) =~= s.insert(k, x));
    }
}

/// `v` in reverse order.
pub fn reversed<T>(v: Vec<T>) -> (r: Vec<T>)
    ensures
        r@ == v@.reverse(),
{
    let mut src = v;
    let ghost orig = src@;
    let mut r: Vec<T> = Vec::new();
    while src.len() > 0
        invariant
            src@.len() <= orig.len(),
            src@ == orig.take(src@.len() as int),
            r@ == orig.skip(src@.len() as int).reverse(),
        decreases src.len(),
    {
        let x = src.pop().unwrap();
        r.push(x);
        proof {
            assert(orig.take((src@.len() + 1) as int).last() == x);
            assert(src@ =~= orig.take(src@.len() as int));
            assert(r@ =~= orig.skip(src@.len() as int).reverse());
        }
    }
    proof {
        assert(orig.skip(0) =~= orig);
    }
    r
}

/// Stable sort for deduplication.
pub fn sort_for_dedup(v: Vec<Memo>) -> (r: Vec<Memo>)
    ensures
        r@ == dedup_sorted(v@),
{
    let mut r: Vec<Memo> = Vec::new();
    let mut src = v;
    let ghost orig = src@;
    // Move the memories out one by one, front first.
    let n = src.len();
    let mut rest: Vec<Memo> = Vec::new();
    while src.len() > 0
        invariant
            orig.len() == n,
            rest@.len() + src@.len() == n,
            src@ == orig.take(src@.len() as int),
            rest@ == orig.skip(src@.len() as int).reverse(),
        decreases src.len(),
    {
        let x = src.pop().unwrap();
        rest.push(x);
        proof {
            assert(orig.take((src@.len() + 1) as int).last() == x);
            assert(src@ =~= orig.take(src@.len() as int));
            assert(rest@ =~= orig.skip(src@.len() as int).reverse());
        }
    }
    proof {
        assert(orig.skip(0) =~= orig);
    }
    let mut i: usize = 0;
    while rest.len() > 0
        invariant
            orig.len() == n,
            i + rest@.len() == n,
            rest@ == orig.skip(i as int).reverse(),
            r@ == dedup_sorted(orig.take(i as int)),
        decreases rest.len(),
    {
        let x = rest.pop().unwrap();
        proof {
            assert(orig.skip(i as int).reverse().last() == orig[i as int]);
            assert(x == orig[i as int]);
            assert(orig.take(i + 1).drop_last() =~= orig.take(i as int));
            assert(rest@ =~= orig.skip(i + 1).reverse());
        }
        let mut k = r.len();
        while k > 0 && before(&x, &r[k - 1])
            invariant
                k <= r@.len(),
                forall|j: int| k <= j < r@.len() ==> dedup_before(x, #[trigger] r@[j]),
            decreases k,
        {
            k -= 1;
        }
        proof {
            lemma_insert_at(r@, x, k as int);
        }
        r.insert(k, x);
        i += 1;
    }
    proof {
        assert(orig.take(n as int) =~= orig);
    }
    r
}

} // verus!

verus! {

/// The similarity callback's answer for the pair made `b` merge into `a`: both have
/// embeddings, and it returned a score at least the threshold.
pub open spec fn accepted<F: Fn(&Vec<u32>, &Vec<u32>) -> Option<u32>>(
    f: F,
    threshold: u32,
    a: Option<Vec<u32>>,
    b: Option<Vec<u32>>,
) -> bool {
    a is Some && b is Some && exists|x: u32|
        call_ensures(f, (&a.unwrap(), &b.unwrap()), Some(x)) && real_le(threshold, x)
}

/// The pair was not merged: an embedding is missing, or the callback's answer was no
/// score, or one below the threshold.
pub open spec fn declined<F: Fn(&Vec<u32>, &Vec<u32>) -> Option<u32>>(
    f: F,
    threshold: u32,
    a: Option<Vec<u32>>,
    b: Option<Vec<u32>>,
) -> bool {
    a is None || b is None || exists|o: Option<u32>|
        call_ensures(f, (&a.unwrap(), &b.unwrap()), o) && !(o matches Some(x) && real_le(
            threshold,
            x,
        ))
}

/// Step `i` of a merge plan over the sorted memories `s`: `None` keeps `s[i]` (no kept
/// memory before it accepted it); `Some(k)` merges it into the kept `s[k]`, the first
/// kept memory that accepted it.
pub open spec fn plan_step_ok<F: Fn(&Vec<u32>, &Vec<u32>) -> Option<u32>>(
    f: F,
    threshold: u32,
    s: Seq<Memo>,
    plan: Seq<Option<int>>,
    i: int,
) -> bool {
    match plan[i] {
        None => forall|k: int|
            0 <= k < i && plan[k] is None ==> declined(
                f,
                threshold,
                (#[trigger] s[k]).embedding,
                s[i].embedding,
            ),
        Some(k) => {
            &&& 0 <= k < i
            &&& plan[k] is None
            &&& accepted(f, threshold, s[k].embedding, s[i].embedding)
            &&& forall|k2: int|
                0 <= k2 < k && plan[k2] is None ==> declined(
                    f,
                    threshold,
                    (#[trigger] s[k2]).embedding,
                    s[i].embedding,
                )
        },
    }
}

/// A merge plan for all of `s`.
pub open spec fn valid_plan<F: Fn(&Vec<u32>, &Vec<u32>) -> Option<u32>>(
    f: F,
    threshold: u32,
    s: Seq<Memo>,
    plan: Seq<Option<int>>,
) -> bool {
    plan.len() == s.len() && forall|i: int| 0 <= i < s.len() ==> plan_step_ok(f, threshold, s, plan, i)
}

/// How many of the first `upto` steps merge into `s[k]`.
pub open spec fn merge_count(plan: Seq<Option<int>>, k: int, upto: int) -> nat
    decreases upto,
{
    if upto <= 0 {
        0
    } else {
        merge_count(plan, k, upto - 1) + if plan[upto - 1] == Some(k) {
            1nat
        } else {
            0nat
        }
    }
}

/// How many of the first `upto` steps merge.
pub open spec fn removed_count(plan: Seq<Option<int>>, upto: int) -> nat
    decreases upto,
{
    if upto <= 0 {
        0
    } else {
        removed_count(plan, upto - 1) + if plan[upto - 1] is Some {
            1nat
        } else {
            0nat
        }
    }
}

/// The content of `s[k]` after the first `upto` steps: its own, then ` | ` and the
/// content of each memory merged into it, in order.
pub open spec fn merged_content(s: Seq<Memo>, plan: Seq<Option<int>>, k: int, upto: int) -> Seq<char>
    decreases upto,
{
    if upto <= 0 {
        s[k].content@
    } else if plan[upto - 1] == Some(k) {
        merged_content(s, plan, k, upto - 1) + " | "@ + s[upto - 1].content@
    } else {
        merged_content(s, plan, k, upto - 1)
    }
}

/// `m` is the kept `s[k]` after the first `upto` steps: unchanged when nothing merged
/// into it; otherwise with the merged content, the version raised (wrapping) once per
/// merge, and a new update time.
pub open spec fn merged_into(s: Seq<Memo>, plan: Seq<Option<int>>, k: int, upto: int, m: Memo) -> bool {
    if merge_count(plan, k, upto) == 0 {
        m == s[k]
    } else {
        &&& m.id == s[k].id
        &&& m.memo_type == s[k].memo_type
        &&& m.content@ == merged_content(s, plan, k, upto)
        &&& m.embedding == s[k].embedding
        &&& m.metadata == s[k].metadata
        &&& m.importance == s[k].importance
        &&& m.created_at == s[k].created_at
        &&& m.version == ((s[k].version + merge_count(plan, k, upto)) % 0x1_0000_0000_0000_0000int) as u64
    }
}

/// Some step merges the memory with this id away.
pub open spec fn merged_away(s: Seq<Memo>, plan: Seq<Option<int>>, id: Seq<char>) -> bool {
    exists|i: int| 0 <= i < plan.len() && plan[i] is Some && (#[trigger] s[i]).id@ == id
}

/// The store after carrying out `plan` over `s`: merged memories gone, kept ones merged,
/// everything else untouched.
pub open spec fn dedup_outcome(
    old: Map<Seq<char>, Memo>,
    s: Seq<Memo>,
    plan: Seq<Option<int>>,
    new: Map<Seq<char>, Memo>,
) -> bool {
    &&& forall|id: Seq<char>| #[trigger]
        new.contains_key(id) <==> old.contains_key(id) && !merged_away(s, plan, id)
    &&& forall|i: int|
        0 <= i < s.len() && plan[i] is None ==> merged_into(
            s,
            plan,
            i,
            plan.len() as int,
            new[(#[trigger] s[i]).id@],
        )
    &&& forall|id: Seq<char>| #[trigger] new.contains_key(id) && !has_id(s, id) ==> new[id] == old[id]
}

/// The first kept memory that accepts `m`, if any.
pub fn find_target<F: Fn(&Vec<u32>, &Vec<u32>) -> Option<u32>>(
    kept: &Vec<Memo>,
    m: &Memo,
    threshold: u32,
    f: &F,
) -> (r: Option<usize>)
    requires
        forall|a: &Vec<u32>, b: &Vec<u32>| call_requires(*f, (a, b)),
    ensures
        r matches Some(j) ==> j < kept@.len() && accepted(*f, threshold, kept@[j as int].embedding, m.embedding)
            && forall|j2: int| 0 <= j2 < j ==> declined(*f, threshold, (#[trigger] kept@[j2]).embedding, m.embedding),
        r is None ==> forall|j: int| 0 <= j < kept@.len() ==> declined(*f, threshold, (#[trigger] kept@[j]).embedding, m.embedding),
{
    let mut j: usize = 0;
    while j < kept.len()
        invariant
            j <= kept@.len(),
            forall|a: &Vec<u32>, b: &Vec<u32>| call_requires(*f, (a, b)),
            forall|j2: int| 0 <= j2 < j ==> declined(*f, threshold, (#[trigger] kept@[j2]).embedding, m.embedding),
        decreases kept@.len() - j,
    {
        match (&kept[j].embedding, &m.embedding) {
            (Some(a), Some(b)) => {
                let o = f(a, b);
                match o {
                    Some(x) => {
                        if crate::binary32::le(threshold, x) {
                            return Some(j);
                        }
                    },
                    None => {},
                }
            },
            _ => {},
        }
        j += 1;
    }
    None
}

} // verus!

verus! {

/// Extending a plan keeps its earlier steps valid.
pub proof fn lemma_step_extend<F: Fn(&Vec<u32>, &Vec<u32>) -> Option<u32>>(
    f: F,
    threshold: u32,
    s: Seq<Memo>,
    plan: Seq<Option<int>>,
    x: Option<int>,
    i: int,
)
    requires
        0 <= i < plan.len(),
        plan_step_ok(f, threshold, s, plan, i),
    ensures
        plan_step_ok(f, threshold, s, plan.push(x), i),
{
    let p2 = plan.push(x);
    assert forall|k: int| 0 <= k < plan.len() implies p2[k] == plan[k] by {}
}

/// Extending a plan does not change what earlier steps merged.
pub proof fn lemma_counts_extend(plan: Seq<Option<int>>, x: Option<int>, k: int, upto: int)
    requires
        0 <= upto <= plan.len(),
    ensures
        merge_count(plan.push(x), k, upto) == merge_count(plan, k, upto),
        removed_count(plan.push(x), upto) == removed_count(plan, upto),
    decreases upto,
{
    if upto > 0 {
        lemma_counts_extend(plan, x, k, upto - 1);
        assert(plan.push(x)[upto - 1] == plan[upto - 1]);
    }
}

/// Extending a plan does not change merged contents up to its old length.
pub proof fn lemma_content_extend(s: Seq<Memo>, plan: Seq<Option<int>>, x: Option<int>, k: int, upto: int)
    requires
        0 <= upto <= plan.len(),
    ensures
        merged_content(s, plan.push(x), k, upto) == merged_content(s, plan, k, upto),
    decreases upto,
{
    if upto > 0 {
        lemma_content_extend(s, plan, x, k, upto - 1);
        assert(plan.push(x)[upto - 1] == plan[upto - 1]);
    }
}

} // verus!

verus! {

/// With no step merging into `s[k]`, its content is its own.
pub proof fn lemma_content_unmerged(s: Seq<Memo>, plan: Seq<Option<int>>, k: int, upto: int)
    requires
        merge_count(plan, k, upto) == 0,
    ensures
        merged_content(s, plan, k, upto) == s[k].content@,
    decreases upto,
{
    if upto > 0 {
        lemma_content_unmerged(s, plan, k, upto - 1);
    }
}

/// No step of `plan` merges into `s[k]` when every merging step targets an earlier
/// memory than `k`... or than its own index.
pub proof fn lemma_count_zero(plan: Seq<Option<int>>, k: int, upto: int)
    requires
        forall|x: int| 0 <= x < upto ==> plan[x] != Some(k),
    ensures
        merge_count(plan, k, upto) == 0,
    decreases upto,
{
    if upto > 0 {
        lemma_count_zero(plan, k, upto - 1);
    }
}

/// A step that does not merge into `s[k]` leaves it as it was.
pub proof fn lemma_merged_same(s: Seq<Memo>, plan: Seq<Option<int>>, x: Option<int>, k: int, m: Memo)
    requires
        x != Some(k),
        merged_into(s, plan, k, plan.len() as int, m),
    ensures
        merged_into(s, plan.push(x), k, plan.len() as int + 1, m),
{
    let n = plan.len() as int;
    lemma_counts_extend(plan, x, k, n);
    lemma_content_extend(s, plan, x, k, n);
}

/// A step that merges `s[n]` into `s[k]` appends its content and raises the version.
pub proof fn lemma_merged_step(s: Seq<Memo>, plan: Seq<Option<int>>, k: int, old_m: Memo, new_m: Memo)
    requires
        plan.len() < s.len(),
        merged_into(s, plan, k, plan.len() as int, old_m),
        new_m.id == old_m.id,
        new_m.memo_type == old_m.memo_type,
        new_m.embedding == old_m.embedding,
        new_m.metadata == old_m.metadata,
        new_m.importance == old_m.importance,
        new_m.created_at == old_m.created_at,
        new_m.content@ == old_m.content@ + " | "@ + s[plan.len() as int].content@,
        new_m.version == ((old_m.version + 1) % 0x1_0000_0000_0000_0000int) as u64,
    ensures
        merged_into(s, plan.push(Some(k)), k, plan.len() as int + 1, new_m),
{
    let n = plan.len() as int;
    let p2 = plan.push(Some(k));
    lemma_counts_extend(plan, Some(k), k, n);
    lemma_content_extend(s, plan, Some(k), k, n);
    let c = merge_count(plan, k, n);
    assert(merge_count(p2, k, n + 1) == c + 1);
    if c == 0 {
        lemma_content_unmerged(s, plan, k, n);
        assert(old_m == s[k]);
    } else {
        let v0 = s[k].version as int;
        let m = 0x1_0000_0000_0000_0000int;
        assert(old_m.version == (v0 + c) % m);
        vstd::arithmetic::div_mod::lemma_add_mod_noop(v0 + c, 1, m);
        assert(((v0 + c) % m + 1int % m) % m == (v0 + c + 1) % m);
    }
}

} // verus!

verus! {

/// What holds after deduplicating the first `i` sorted memories `s` of a store that
/// started as `start`: the plan so far is valid, `kept` lists the kept memories (at
/// indices `keptidx` of `s`) as merged so far, and the store holds exactly that.
#[verifier::opaque]
pub open spec fn dedup_inv<F: Fn(&Vec<u32>, &Vec<u32>) -> Option<u32>>(
    f: F,
    threshold: u32,
    s: Seq<Memo>,
    start: Map<Seq<char>, Memo>,
    plan: Seq<Option<int>>,
    keptidx: Seq<int>,
    kept: Seq<Memo>,
    removed: nat,
    store: Map<Seq<char>, Memo>,
    i: int,
) -> bool {
    &&& 0 <= i <= s.len()
    &&& ids_distinct(s)
    &&& forall|j: int|
        0 <= j < s.len() ==> start.contains_key((#[trigger] s[j]).id@) && start[s[j].id@] == s[j]
    &&& plan.len() == i
    &&& forall|i2: int| 0 <= i2 < i ==> plan_step_ok(f, threshold, s, plan, i2)
    &&& keptidx.len() == kept.len()
    &&& forall|j: int|
        0 <= j < keptidx.len() ==> 0 <= #[trigger] keptidx[j] < i && plan[keptidx[j]] is None
    &&& forall|j1: int, j2: int|
        0 <= j1 < j2 < keptidx.len() ==> #[trigger] keptidx[j1] < #[trigger] keptidx[j2]
    &&& forall|k: int|
        0 <= k < i && plan[k] is None ==> exists|j: int|
            0 <= j < keptidx.len() && #[trigger] keptidx[j] == k
    &&& forall|j: int|
        0 <= j < keptidx.len() ==> merged_into(s, plan, #[trigger] keptidx[j], i, kept[j])
    &&& removed == removed_count(plan, i)
    &&& forall|id: Seq<char>| #[trigger]
        store.contains_key(id) <==> start.contains_key(id) && !merged_away(s, plan, id)
    &&& forall|j: int| 0 <= j < keptidx.len() ==> store[s[#[trigger] keptidx[j]].id@] == kept[j]
    &&& forall|i2: int| i <= i2 < s.len() ==> store[(#[trigger] s[i2]).id@] == s[i2]
    &&& forall|id: Seq<char>| #[trigger]
        store.contains_key(id) && !has_id(s, id) ==> store[id] == start[id]
}

/// Before any step.
pub proof fn lemma_inv_start<F: Fn(&Vec<u32>, &Vec<u32>) -> Option<u32>>(
    f: F,
    threshold: u32,
    s: Seq<Memo>,
    start: Map<Seq<char>, Memo>,
)
    requires
        ids_distinct(s),
        forall|j: int|
            0 <= j < s.len() ==> start.contains_key((#[trigger] s[j]).id@) && start[s[j].id@] == s[j],
    ensures
        dedup_inv(f, threshold, s, start, Seq::empty(), Seq::empty(), Seq::empty(), 0, start, 0),
{
    reveal(dedup_inv);
    assert forall|id: Seq<char>| #[trigger] start.contains_key(id) implies !merged_away(
        s,
        Seq::<Option<int>>::empty(),
        id,
    ) by {}
}

/// Keeping `s[i]`: no kept memory accepted it.
pub proof fn lemma_inv_keep<F: Fn(&Vec<u32>, &Vec<u32>) -> Option<u32>>(
    f: F,
    threshold: u32,
    s: Seq<Memo>,
    start: Map<Seq<char>, Memo>,
    plan: Seq<Option<int>>,
    keptidx: Seq<int>,
    kept: Seq<Memo>,
    removed: nat,
    store: Map<Seq<char>, Memo>,
    i: int,
)
    requires
        dedup_inv(f, threshold, s, start, plan, keptidx, kept, removed, store, i),
        i < s.len(),
        forall|j: int| 0 <= j < kept.len() ==> declined(f, threshold, (#[trigger] kept[j]).embedding, s[i].embedding),
    ensures
        dedup_inv(
            f,
            threshold,
            s,
            start,
            plan.push(None),
            keptidx.push(i),
            kept.push(s[i]),
            removed,
            store,
            i + 1,
        ),
{
    reveal(dedup_inv);
    let p2 = plan.push(None);
    let k2 = keptidx.push(i);
    let kept2 = kept.push(s[i]);
    assert forall|j: int| 0 <= j < keptidx.len() implies (#[trigger] kept[j]).embedding
        == s[keptidx[j]].embedding by {
        assert(merged_into(s, plan, keptidx[j], i, kept[j]));
    }
    assert forall|i2: int| 0 <= i2 < i + 1 implies plan_step_ok(f, threshold, s, p2, i2) by {
        if i2 < i {
            lemma_step_extend(f, threshold, s, plan, None, i2);
        } else {
            assert forall|k: int| 0 <= k < i2 && p2[k] is None implies declined(
                f,
                threshold,
                (#[trigger] s[k]).embedding,
                s[i2].embedding,
            ) by {
                assert(plan[k] is None);
                let j = choose|j: int| 0 <= j < keptidx.len() && #[trigger] keptidx[j] == k;
                assert(kept[j].embedding == s[k].embedding);
            }
        }
    }
    assert forall|k: int| 0 <= k < i + 1 && p2[k] is None implies exists|j: int|
        0 <= j < k2.len() && #[trigger] k2[j] == k by {
        if k == i {
            assert(k2[keptidx.len() as int] == k);
        } else {
            assert(plan[k] is None);
            let j = choose|j: int| 0 <= j < keptidx.len() && #[trigger] keptidx[j] == k;
            assert(k2[j] == k);
        }
    }
    lemma_counts_extend(plan, None, 0, i);
    assert forall|j: int| 0 <= j < k2.len() implies merged_into(s, p2, #[trigger] k2[j], i + 1, kept2[j]) by {
        if j < keptidx.len() {
            assert(k2[j] == keptidx[j]);
            assert(kept2[j] == kept[j]);
            lemma_merged_same(s, plan, None, keptidx[j], kept[j]);
        } else {
            assert(k2[j] == i);
            assert forall|x: int| 0 <= x < i + 1 implies p2[x] != Some(i) by {
                if x < i {
                    assert(plan_step_ok(f, threshold, s, plan, x));
                }
            }
            lemma_count_zero(p2, i, i + 1);
        }
    }
    assert forall|id: Seq<char>| merged_away(s, p2, id) == merged_away(s, plan, id) by {
        if merged_away(s, p2, id) {
            let x = choose|x: int| 0 <= x < p2.len() && p2[x] is Some && (#[trigger] s[x]).id@ == id;
            assert(x < i);
        }
        if merged_away(s, plan, id) {
            let x = choose|x: int| 0 <= x < plan.len() && plan[x] is Some && (#[trigger] s[x]).id@ == id;
            assert(p2[x] == plan[x]);
        }
    }
    assert forall|j: int| 0 <= j < k2.len() implies store[s[#[trigger] k2[j]].id@] == kept2[j] by {
        if j < keptidx.len() {
            assert(k2[j] == keptidx[j]);
        }
    }
}

/// Merging `s[i]` into the kept memory `kept[j]`, which becomes `newk`.
pub proof fn lemma_inv_merge<F: Fn(&Vec<u32>, &Vec<u32>) -> Option<u32>>(
    f: F,
    threshold: u32,
    s: Seq<Memo>,
    start: Map<Seq<char>, Memo>,
    plan: Seq<Option<int>>,
    keptidx: Seq<int>,
    kept: Seq<Memo>,
    removed: nat,
    store: Map<Seq<char>, Memo>,
    i: int,
    j: int,
    newk: Memo,
)
    requires
        dedup_inv(f, threshold, s, start, plan, keptidx, kept, removed, store, i),
        i < s.len(),
        0 <= j < kept.len(),
        accepted(f, threshold, kept[j].embedding, s[i].embedding),
        forall|j2: int| 0 <= j2 < j ==> declined(f, threshold, (#[trigger] kept[j2]).embedding, s[i].embedding),
        newk.id == kept[j].id,
        newk.memo_type == kept[j].memo_type,
        newk.embedding == kept[j].embedding,
        newk.metadata == kept[j].metadata,
        newk.importance == kept[j].importance,
        newk.created_at == kept[j].created_at,
        newk.content@ == kept[j].content@ + " | "@ + s[i].content@,
        newk.version == ((kept[j].version + 1) % 0x1_0000_0000_0000_0000int) as u64,
    ensures
        store.contains_key(kept[j].id@),
        store[kept[j].id@] == kept[j],
        store.contains_key(s[i].id@),
        store[s[i].id@] == s[i],
        s[i].id@ != kept[j].id@,
        dedup_inv(
            f,
            threshold,
            s,
            start,
            plan.push(Some(keptidx[j])),
            keptidx,
            kept.update(j, newk),
            removed + 1,
            store.insert(newk.id@, newk).remove(s[i].id@),
            i + 1,
        ),
{
    reveal(dedup_inv);
    let kk = keptidx[j];
    let p2 = plan.push(Some(kk));
    let kept2 = kept.update(j, newk);
    let store2 = store.insert(newk.id@, newk).remove(s[i].id@);
    assert(merged_into(s, plan, kk, i, kept[j]));
    assert(store[s[kk].id@] == kept[j]);
    assert(start.contains_key(s[kk].id@));
    assert(!merged_away(s, plan, s[kk].id@)) by {
        if merged_away(s, plan, s[kk].id@) {
            let x = choose|x: int| 0 <= x < plan.len() && plan[x] is Some && (#[trigger] s[x]).id@ == s[kk].id@;
            assert(x == kk);
        }
    }
    assert forall|jj: int| 0 <= jj < keptidx.len() implies (#[trigger] kept[jj]).embedding
        == s[keptidx[jj]].embedding && kept[jj].id == s[keptidx[jj]].id by {
        assert(merged_into(s, plan, keptidx[jj], i, kept[jj]));
    }
    assert forall|i2: int| 0 <= i2 < i + 1 implies plan_step_ok(f, threshold, s, p2, i2) by {
        if i2 < i {
            lemma_step_extend(f, threshold, s, plan, Some(kk), i2);
        } else {
            assert forall|k2: int| 0 <= k2 < kk && p2[k2] is None implies declined(
                f,
                threshold,
                (#[trigger] s[k2]).embedding,
                s[i2].embedding,
            ) by {
                assert(plan[k2] is None);
                let j2 = choose|j2: int| 0 <= j2 < keptidx.len() && #[trigger] keptidx[j2] == k2;
                if j2 > j {
                    assert(keptidx[j] < keptidx[j2]);
                }
                if j2 == j {
                    assert(false);
                }
            }
        }
    }
    assert forall|k: int| 0 <= k < i + 1 && p2[k] is None implies exists|j3: int|
        0 <= j3 < keptidx.len() && #[trigger] keptidx[j3] == k by {
        assert(plan[k] is None);
    }
    lemma_counts_extend(plan, Some(kk), 0, i);
    assert forall|jj: int| 0 <= jj < keptidx.len() implies merged_into(
        s,
        p2,
        #[trigger] keptidx[jj],
        i + 1,
        kept2[jj],
    ) by {
        if jj == j {
            lemma_merged_step(s, plan, kk, kept[jj], kept2[jj]);
        } else {
            assert(keptidx[jj] != kk) by {
                if jj < j {
                    assert(keptidx[jj] < keptidx[j]);
                } else {
                    assert(keptidx[j] < keptidx[jj]);
                }
            }
            lemma_merged_same(s, plan, Some(kk), keptidx[jj], kept[jj]);
        }
    }
    assert forall|id: Seq<char>| merged_away(s, p2, id) == (merged_away(s, plan, id) || id == s[i].id@) by {
        if merged_away(s, p2, id) {
            let x = choose|x: int| 0 <= x < p2.len() && p2[x] is Some && (#[trigger] s[x]).id@ == id;
            if x < i {
                assert(p2[x] == plan[x]);
            }
        }
        if merged_away(s, plan, id) {
            let x = choose|x: int| 0 <= x < plan.len() && plan[x] is Some && (#[trigger] s[x]).id@ == id;
            assert(p2[x] == plan[x]);
        }
        if id == s[i].id@ {
            assert(p2[i] is Some);
        }
    }
    // The kept memory's id is not the merged one's.
    assert(kept[j].id == s[kk].id);
    assert(s[kk].id@ != s[i].id@);
    assert(start.contains_key(s[kk].id@));
    assert forall|id: Seq<char>| #[trigger]
        store2.contains_key(id) <==> start.contains_key(id) && !merged_away(s, p2, id) by {
        if id == newk.id@ {
            assert(store.contains_key(id) || true);
            assert(!merged_away(s, plan, s[kk].id@)) by {
                if merged_away(s, plan, s[kk].id@) {
                    let x = choose|x: int| 0 <= x < plan.len() && plan[x] is Some && (#[trigger] s[x]).id@ == s[kk].id@;
                    assert(x == kk);
                }
            }
        }
    }
    assert forall|jj: int| 0 <= jj < keptidx.len() implies store2[s[#[trigger] keptidx[jj]].id@] == kept2[jj] by {
        if jj != j {
            assert(keptidx[jj] != kk) by {
                if jj < j {
                    assert(keptidx[jj] < keptidx[j]);
                } else {
                    assert(keptidx[j] < keptidx[jj]);
                }
            }
            assert(s[keptidx[jj]].id@ != s[kk].id@);
            assert(keptidx[jj] < i);
            assert(s[keptidx[jj]].id@ != s[i].id@);
        }
    }
    assert forall|i2: int| i + 1 <= i2 < s.len() implies store2[(#[trigger] s[i2]).id@] == s[i2] by {
        assert(s[i2].id@ != s[i].id@);
        assert(s[i2].id@ != s[kk].id@);
    }
    assert forall|id: Seq<char>| #[trigger] store2.contains_key(id) && !has_id(s, id) implies store2[id]
        == start[id] by {
        if id == newk.id@ {
            assert(has_id(s, id)) by {
                assert(s[kk].id@ == id);
            }
        }
    }
}

/// After the last step, the invariant is the outcome.
pub proof fn lemma_inv_done<F: Fn(&Vec<u32>, &Vec<u32>) -> Option<u32>>(
    f: F,
    threshold: u32,
    s: Seq<Memo>,
    start: Map<Seq<char>, Memo>,
    plan: Seq<Option<int>>,
    keptidx: Seq<int>,
    kept: Seq<Memo>,
    removed: nat,
    store: Map<Seq<char>, Memo>,
)
    requires
        dedup_inv(f, threshold, s, start, plan, keptidx, kept, removed, store, s.len() as int),
    ensures
        valid_plan(f, threshold, s, plan),
        removed == removed_count(plan, plan.len() as int),
        dedup_outcome(start, s, plan, store),
{
    reveal(dedup_inv);
    assert forall|i: int| 0 <= i < s.len() && plan[i] is None implies merged_into(
        s,
        plan,
        i,
        plan.len() as int,
        store[(#[trigger] s[i]).id@],
    ) by {
        let j = choose|j: int| 0 <= j < keptidx.len() && #[trigger] keptidx[j] == i;
        assert(merged_into(s, plan, keptidx[j], s.len() as int, kept[j]));
    }
}

} // verus!

verus! {

proof fn lemma_insert_sorted_has(s: Seq<Memo>, x: Memo, id: Seq<char>)
    requires
        x.id@ == id || has_id(s, id),
    ensures
        has_id(insert_sorted(s, x), id),
    decreases s.len(),
{
    let r = insert_sorted(s, x);
    if s.len() == 0 {
        assert(r[0] == x);
    } else if dedup_before(x, s.last()) {
        let d = s.drop_last();
        if x.id@ == id {
            lemma_insert_sorted_has(d, x, id);
        } else {
            let i = choose|i: int| 0 <= i < s.len() && (#[trigger] s[i]).id@ == id;
            if i < s.len() - 1 {
                assert(d[i] == s[i]);
                lemma_insert_sorted_has(d, x, id);
            } else {
                assert(r[r.len() - 1] == s.last());
            }
        }
        let q = insert_sorted(d, x);
        if has_id(q, id) {
            let k = choose|k: int| 0 <= k < q.len() && (#[trigger] q[k]).id@ == id;
            assert(r[k] == q[k]);
        }
    } else {
        if x.id@ == id {
            assert(r[s.len() as int] == x);
        } else {
            let i = choose|i: int| 0 <= i < s.len() && (#[trigger] s[i]).id@ == id;
            assert(r[i] == s[i]);
        }
    }
}

/// Sorting loses no id.
proof fn lemma_dedup_sorted_has(v: Seq<Memo>, id: Seq<char>)
    requires
        has_id(v, id),
    ensures
        has_id(dedup_sorted(v), id),
    decreases v.len(),
{
    let d = v.drop_last();
    let i = choose|i: int| 0 <= i < v.len() && (#[trigger] v[i]).id@ == id;
    if i < v.len() - 1 {
        assert(d[i] == v[i]);
        lemma_dedup_sorted_has(d, id);
    }
    lemma_insert_sorted_has(dedup_sorted(d), v.last(), id);
}

/// The ids of the first `upto` memories of `s`.
pub open spec fn ids_upto(s: Seq<Memo>, upto: int) -> Set<Seq<char>>
    decreases upto,
{
    if upto <= 0 {
        Set::empty()
    } else {
        ids_upto(s, upto - 1).insert(s[upto - 1].id@)
    }
}

/// The ids of the first `upto` memories of `s` that `plan` keeps.
pub open spec fn kept_ids(s: Seq<Memo>, plan: Seq<Option<int>>, upto: int) -> Set<Seq<char>>
    decreases upto,
{
    if upto <= 0 {
        Set::empty()
    } else if plan[upto - 1] is None {
        kept_ids(s, plan, upto - 1).insert(s[upto - 1].id@)
    } else {
        kept_ids(s, plan, upto - 1)
    }
}

/// The first `upto` distinct ids are `upto` ids.
pub proof fn lemma_ids_upto(s: Seq<Memo>, upto: int)
    requires
        ids_distinct(s),
        0 <= upto <= s.len(),
    ensures
        ids_upto(s, upto).finite(),
        ids_upto(s, upto).len() == upto,
        forall|id: Seq<char>|
            #[trigger] ids_upto(s, upto).contains(id) <==> exists|i: int|
                0 <= i < upto && (#[trigger] s[i]).id@ == id,
    decreases upto,
{
    if upto > 0 {
        lemma_ids_upto(s, upto - 1);
        assert(!ids_upto(s, upto - 1).contains(s[upto - 1].id@)) by {
            if ids_upto(s, upto - 1).contains(s[upto - 1].id@) {
                let i = choose|i: int| 0 <= i < upto - 1 && (#[trigger] s[i]).id@ == s[upto - 1].id@;
                assert(s[i].id@ != s[upto - 1].id@);
            }
        }
        assert forall|id: Seq<char>| #[trigger] ids_upto(s, upto).contains(id) <==> exists|i: int|
            0 <= i < upto && (#[trigger] s[i]).id@ == id by {
            if exists|i: int| 0 <= i < upto && (#[trigger] s[i]).id@ == id {
                let i = choose|i: int| 0 <= i < upto && (#[trigger] s[i]).id@ == id;
                if i < upto - 1 {
                    assert(ids_upto(s, upto - 1).contains(id));
                }
            }
        }
    }
}

proof fn lemma_kept_ids(s: Seq<Memo>, plan: Seq<Option<int>>, upto: int)
    requires
        ids_distinct(s),
        0 <= upto <= s.len(),
        plan.len() == s.len(),
    ensures
        kept_ids(s, plan, upto).finite(),
        kept_ids(s, plan, upto).len() + removed_count(plan, upto) == upto,
        forall|id: Seq<char>|
            #[trigger] kept_ids(s, plan, upto).contains(id) <==> exists|i: int|
                0 <= i < upto && plan[i] is None && (#[trigger] s[i]).id@ == id,
    decreases upto,
{
    if upto > 0 {
        lemma_kept_ids(s, plan, upto - 1);
        let k = kept_ids(s, plan, upto - 1);
        assert(!k.contains(s[upto - 1].id@)) by {
            if k.contains(s[upto - 1].id@) {
                let i = choose|i: int|
                    0 <= i < upto - 1 && plan[i] is None && (#[trigger] s[i]).id@ == s[upto - 1].id@;
                assert(s[i].id@ != s[upto - 1].id@);
            }
        }
        assert forall|id: Seq<char>| #[trigger] kept_ids(s, plan, upto).contains(id) <==> exists|
            i: int,
        | 0 <= i < upto && plan[i] is None && (#[trigger] s[i]).id@ == id by {
            if exists|i: int| 0 <= i < upto && plan[i] is None && (#[trigger] s[i]).id@ == id {
                let i = choose|i: int| 0 <= i < upto && plan[i] is None && (#[trigger] s[i]).id@ == id;
                if i < upto - 1 {
                    assert(k.contains(id));
                }
            }
        }
    }
}

/// Deduplication forgets exactly as many memories as it reports: when the store listed
/// the memories `v` before, it holds `removed_count` fewer afterwards.
pub proof fn lemma_dedup_removes(
    old: Map<Seq<char>, Memo>,
    v: Seq<Memo>,
    plan: Seq<Option<int>>,
    new: Map<Seq<char>, Memo>,
)
    requires
        lists_exactly(old, None, v),
        plan.len() == v.len(),
        dedup_outcome(old, dedup_sorted(v), plan, new),
    ensures
        old.dom().finite(),
        new.dom().finite(),
        new.dom().len() + removed_count(plan, plan.len() as int) == old.dom().len(),
{
    let s = dedup_sorted(v);
    let n = v.len() as int;
    lemma_dedup_sorted(v);
    assert(ids_distinct(v));
    lemma_ids_upto(s, n);
    lemma_kept_ids(s, plan, n);
    assert forall|k: Seq<char>| #[trigger] old.contains_key(k) <==> ids_upto(s, n).contains(k) by {
        if old.contains_key(k) {
            assert(type_matches(None, old[k]));
            let i = choose|i: int| 0 <= i < v.len() && (#[trigger] v[i]).id@ == k;
            assert(has_id(v, k));
            lemma_dedup_sorted_has(v, k);
        }
        if ids_upto(s, n).contains(k) {
            let i = choose|i: int| 0 <= i < n && (#[trigger] s[i]).id@ == k;
            assert(v.contains(s[i]));
            let j = choose|j: int| 0 <= j < v.len() && v[j] == s[i];
        }
    }
    assert(old.dom() =~= ids_upto(s, n));
    assert forall|k: Seq<char>| #[trigger] new.contains_key(k) <==> kept_ids(s, plan, n).contains(k) by {
        if new.contains_key(k) {
            assert(ids_upto(s, n).contains(k));
            let i = choose|i: int| 0 <= i < n && (#[trigger] s[i]).id@ == k;
            if plan[i] is Some {
                assert(merged_away(s, plan, k));
            }
        }
        if kept_ids(s, plan, n).contains(k) {
            let i = choose|i: int| 0 <= i < n && plan[i] is None && (#[trigger] s[i]).id@ == k;
            assert(ids_upto(s, n).contains(k));
            if merged_away(s, plan, k) {
                let j = choose|j: int| 0 <= j < plan.len() && plan[j] is Some && (#[trigger] s[j]).id@ == k;
                assert(i == j);
            }
        }
    }
    assert(new.dom() =~= kept_ids(s, plan, n));
}

} // verus!

verus! {

/// The store after the first `plan.len()` steps of deduplicating the sorted memories `s`
/// of a store that started as `old`.
pub open spec fn partial_outcome(
    old: Map<Seq<char>, Memo>,
    s: Seq<Memo>,
    plan: Seq<Option<int>>,
    new: Map<Seq<char>, Memo>,
) -> bool {
    &&& forall|id: Seq<char>| #[trigger]
        new.contains_key(id) <==> old.contains_key(id) && !merged_away(s, plan, id)
    &&& forall|i: int|
        0 <= i < plan.len() && plan[i] is None ==> merged_into(
            s,
            plan,
            i,
            plan.len() as int,
            new[(#[trigger] s[i]).id@],
        )
    &&& forall|i: int| plan.len() <= i < s.len() ==> new[(#[trigger] s[i]).id@] == s[i]
    &&& forall|id: Seq<char>| #[trigger] new.contains_key(id) && !has_id(s, id) ==> new[id] == old[id]
}

/// Deduplication stopped after the valid steps `plan`: the store is their outcome or,
/// when the last step merged a memory away, that outcome with the merged memory still
/// present (the kept memory updated, the merged one not yet forgotten).
pub open spec fn dedup_stopped<F: Fn(&Vec<u32>, &Vec<u32>) -> Option<u32>>(
    f: F,
    threshold: u32,
    old: Map<Seq<char>, Memo>,
    s: Seq<Memo>,
    plan: Seq<Option<int>>,
    new: Map<Seq<char>, Memo>,
) -> bool {
    &&& plan.len() <= s.len()
    &&& forall|i: int| 0 <= i < plan.len() ==> plan_step_ok(f, threshold, s, plan, i)
    &&& {
        ||| partial_outcome(old, s, plan, new)
        ||| {
            let last = s[plan.len() - 1];
            &&& plan.len() > 0
            &&& plan.last() is Some
            &&& new.contains_key(last.id@)
            &&& new[last.id@] == last
            &&& partial_outcome(old, s, plan, new.remove(last.id@))
        }
    }
}

/// What the invariant says of the store when deduplication stops.
pub proof fn lemma_inv_stopped<F: Fn(&Vec<u32>, &Vec<u32>) -> Option<u32>>(
    f: F,
    threshold: u32,
    s: Seq<Memo>,
    start: Map<Seq<char>, Memo>,
    plan: Seq<Option<int>>,
    keptidx: Seq<int>,
    kept: Seq<Memo>,
    removed: nat,
    store: Map<Seq<char>, Memo>,
    i: int,
)
    requires
        dedup_inv(f, threshold, s, start, plan, keptidx, kept, removed, store, i),
    ensures
        plan.len() == i,
        i <= s.len(),
        forall|i2: int| 0 <= i2 < plan.len() ==> plan_step_ok(f, threshold, s, plan, i2),
        partial_outcome(start, s, plan, store),
{
    reveal(dedup_inv);
    assert forall|i2: int| 0 <= i2 < plan.len() && plan[i2] is None implies merged_into(
        s,
        plan,
        i2,
        plan.len() as int,
        store[(#[trigger] s[i2]).id@],
    ) by {
        let j = choose|j: int| 0 <= j < keptidx.len() && #[trigger] keptidx[j] == i2;
        assert(merged_into(s, plan, keptidx[j], i, kept[j]));
    }
}

} // verus!

verus! {

/// After deduplication the kept memories keep their embeddings, and of any two of them
/// the later one was declined by the earlier: no two survivors were found similar
/// enough to merge.
pub proof fn lemma_survivors_declined<F: Fn(&Vec<u32>, &Vec<u32>) -> Option<u32>>(
    f: F,
    threshold: u32,
    old: Map<Seq<char>, Memo>,
    s: Seq<Memo>,
    plan: Seq<Option<int>>,
    new: Map<Seq<char>, Memo>,
)
    requires
        valid_plan(f, threshold, s, plan),
        dedup_outcome(old, s, plan, new),
    ensures
        forall|i: int|
            0 <= i < s.len() && plan[i] is None ==> new[(#[trigger] s[i]).id@].embedding
                == s[i].embedding,
        forall|i: int, j: int|
            0 <= i < j < s.len() && plan[i] is None && plan[j] is None ==> declined(
                f,
                threshold,
                new[(#[trigger] s[i]).id@].embedding,
                new[(#[trigger] s[j]).id@].embedding,
            ),
{
    assert forall|i: int| 0 <= i < s.len() && plan[i] is None implies new[(#[trigger] s[i]).id@].embedding
        == s[i].embedding by {
        assert(merged_into(s, plan, i, plan.len() as int, new[s[i].id@]));
    }
    assert forall|i: int, j: int| 0 <= i < j < s.len() && plan[i] is None && plan[j] is None implies declined(
        f,
        threshold,
        new[(#[trigger] s[i]).id@].embedding,
        new[(#[trigger] s[j]).id@].embedding,
    ) by {
        assert(merged_into(s, plan, i, plan.len() as int, new[s[i].id@]));
        assert(merged_into(s, plan, j, plan.len() as int, new[s[j].id@]));
        assert(plan_step_ok(f, threshold, s, plan, j));
    }
}

} // verus!

verus! {

/// The similarity callback gives one answer for a pair of embeddings, however often and
/// whichever way round it is asked (as cosine similarity does).
pub open spec fn one_answer<F: Fn(&Vec<u32>, &Vec<u32>) -> Option<u32>>(f: F) -> bool {
    &&& forall|a: Vec<u32>, b: Vec<u32>, o1: Option<u32>, o2: Option<u32>|
        #[trigger] call_ensures(f, (&a, &b), o1) && #[trigger] call_ensures(f, (&a, &b), o2)
            ==> o1 == o2
    &&& forall|a: Vec<u32>, b: Vec<u32>, o1: Option<u32>, o2: Option<u32>|
        #[trigger] call_ensures(f, (&a, &b), o1) && #[trigger] call_ensures(f, (&b, &a), o2)
            ==> o1 == o2
}

/// Where a memory of the store after deduplication came from: a kept memory of the
/// first run, with the same embedding.
proof fn lemma_survivor_origin<F: Fn(&Vec<u32>, &Vec<u32>) -> Option<u32>>(
    f: F,
    threshold: u32,
    old: Map<Seq<char>, Memo>,
    v: Seq<Memo>,
    plan: Seq<Option<int>>,
    new: Map<Seq<char>, Memo>,
    id: Seq<char>,
) -> (a: int)
    requires
        lists_exactly(old, None, v),
        plan.len() == v.len(),
        valid_plan(f, threshold, dedup_sorted(v), plan),
        dedup_outcome(old, dedup_sorted(v), plan, new),
        new.contains_key(id),
    ensures
        0 <= a < dedup_sorted(v).len(),
        plan[a] is None,
        dedup_sorted(v)[a].id@ == id,
        new[id].embedding == dedup_sorted(v)[a].embedding,
{
    let s = dedup_sorted(v);
    lemma_dedup_sorted(v);
    assert(old.contains_key(id));
    assert(type_matches(None, old[id]));
    let i = choose|i: int| 0 <= i < v.len() && (#[trigger] v[i]).id@ == id;
    assert(has_id(v, id));
    lemma_dedup_sorted_has(v, id);
    let a = choose|a: int| 0 <= a < s.len() && (#[trigger] s[a]).id@ == id;
    if plan[a] is Some {
        assert(merged_away(s, plan, id));
    }
    lemma_survivors_declined(f, threshold, old, s, plan, new);
    a
}

/// Deduplication settles: when the similarity callback gives one answer per pair, a
/// second run over what the first one left merges nothing and changes nothing.
pub proof fn lemma_dedup_settles<F: Fn(&Vec<u32>, &Vec<u32>) -> Option<u32>>(
    f: F,
    threshold: u32,
    old: Map<Seq<char>, Memo>,
    v: Seq<Memo>,
    plan: Seq<Option<int>>,
    new: Map<Seq<char>, Memo>,
    v2: Seq<Memo>,
    plan2: Seq<Option<int>>,
    new2: Map<Seq<char>, Memo>,
)
    requires
        one_answer(f),
        lists_exactly(old, None, v),
        plan.len() == v.len(),
        valid_plan(f, threshold, dedup_sorted(v), plan),
        dedup_outcome(old, dedup_sorted(v), plan, new),
        lists_exactly(new, None, v2),
        valid_plan(f, threshold, dedup_sorted(v2), plan2),
        dedup_outcome(new, dedup_sorted(v2), plan2, new2),
    ensures
        forall|j: int| 0 <= j < plan2.len() ==> plan2[j] is None,
        new2 == new,
{
    let s = dedup_sorted(v);
    let s2 = dedup_sorted(v2);
    lemma_dedup_sorted(v2);
    assert(ids_distinct(v2));
    assert forall|j: int| 0 <= j < plan2.len() implies plan2[j] is None by {
        if plan2[j] is Some {
            assert(plan_step_ok(f, threshold, s2, plan2, j));
            let k = plan2[j]->0;
            assert(v2.contains(s2[k]));
            assert(v2.contains(s2[j]));
            let xk = choose|x: int| 0 <= x < v2.len() && v2[x] == s2[k];
            let xj = choose|x: int| 0 <= x < v2.len() && v2[x] == s2[j];
            assert(new.contains_key(v2[xk].id@) && new[v2[xk].id@] == s2[k]);
            assert(new.contains_key(v2[xj].id@) && new[v2[xj].id@] == s2[j]);
            assert(s2[k].id@ != s2[j].id@);
            let a = lemma_survivor_origin(f, threshold, old, v, plan, new, s2[k].id@);
            let b = lemma_survivor_origin(f, threshold, old, v, plan, new, s2[j].id@);
            assert(a != b);
            lemma_survivors_declined(f, threshold, old, s, plan, new);
            let ea = s2[k].embedding;
            let eb = s2[j].embedding;
            assert(accepted(f, threshold, ea, eb));
            let x = choose|x: u32| call_ensures(f, (&ea.unwrap(), &eb.unwrap()), Some(x)) && real_le(
                threshold,
                x,
            );
            if a < b {
                assert(declined(f, threshold, new[s[a].id@].embedding, new[s[b].id@].embedding));
                let o = choose|o: Option<u32>|
                    call_ensures(f, (&ea.unwrap(), &eb.unwrap()), o) && !(o matches Some(y) && real_le(
                        threshold,
                        y,
                    ));
                assert(o == Some(x));
            } else {
                assert(declined(f, threshold, new[s[b].id@].embedding, new[s[a].id@].embedding));
                let o = choose|o: Option<u32>|
                    call_ensures(f, (&eb.unwrap(), &ea.unwrap()), o) && !(o matches Some(y) && real_le(
                        threshold,
                        y,
                    ));
                assert(o == Some(x));
            }
        }
    }
    assert forall|id: Seq<char>| !merged_away(s2, plan2, id) by {
        if merged_away(s2, plan2, id) {
            let i = choose|i: int| 0 <= i < plan2.len() && plan2[i] is Some && (#[trigger] s2[i]).id@ == id;
        }
    }
    assert forall|id: Seq<char>| #[trigger] new2.contains_key(id) implies new2[id] == new[id] by {
        if has_id(s2, id) {
            let i = choose|i: int| 0 <= i < s2.len() && (#[trigger] s2[i]).id@ == id;
            lemma_count_zero(plan2, i, plan2.len() as int);
            assert(merged_into(s2, plan2, i, plan2.len() as int, new2[s2[i].id@]));
            assert(v2.contains(s2[i]));
            let x = choose|x: int| 0 <= x < v2.len() && v2[x] == s2[i];
            assert(new[v2[x].id@] == v2[x]);
        } else {
            assert(new.contains_key(id));
            assert(type_matches(None, new[id]));
            let x = choose|x: int| 0 <= x < v2.len() && (#[trigger] v2[x]).id@ == id;
            assert(has_id(v2, id));
            lemma_dedup_sorted_has(v2, id);
        }
    }
    assert(new2 =~= new);
}

} // verus!

verus! {

/// `a` may stand before `b` in the deduplication order: `a` is at least as important,
/// and, when both are equally important, updated no earlier.
spec fn ranks_first(a: Memo, b: Memo) -> bool {
    real_le(b.importance, a.importance) && (real_eq(a.importance, b.importance) ==> a.updated_at
        >= b.updated_at)
}

spec fn importances_numbers(s: Seq<Memo>) -> bool {
    forall|i: int| 0 <= i < s.len() ==> !real_is_nan((#[trigger] s[i]).importance)
}

spec fn ranked(s: Seq<Memo>) -> bool {
    forall|i: int, j: int| 0 <= i < j < s.len() ==> ranks_first(#[trigger] s[i], #[trigger] s[j])
}

proof fn lemma_insert_ranked(s: Seq<Memo>, x: Memo)
    requires
        ranked(s),
        importances_numbers(s),
        !real_is_nan(x.importance),
    ensures
        ranked(insert_sorted(s, x)),
        importances_numbers(insert_sorted(s, x)),
    decreases s.len(),
{
    lemma_insert_sorted(s, x);
    let r = insert_sorted(s, x);
    if s.len() == 0 {
    } else if dedup_before(x, s.last()) {
        let d = s.drop_last();
        let last = s.last();
        assert(s[s.len() - 1] == last);
        assert(ranked(d)) by {
            assert forall|i: int, j: int| 0 <= i < j < d.len() implies ranks_first(
                #[trigger] d[i],
                #[trigger] d[j],
            ) by {
                assert(d[i] == s[i] && d[j] == s[j]);
            }
        }
        assert(importances_numbers(d)) by {
            assert forall|i: int| 0 <= i < d.len() implies !real_is_nan((#[trigger] d[i]).importance) by {
                assert(d[i] == s[i]);
            }
        }
        lemma_insert_ranked(d, x);
        lemma_insert_sorted(d, x);
        let q = insert_sorted(d, x);
        assert forall|i: int| 0 <= i < q.len() implies ranks_first(#[trigger] q[i], last) by {
            if q[i] != x {
                let k = choose|k: int| 0 <= k < d.len() && d[k] == q[i];
                assert(d[k] == s[k]);
                assert(ranks_first(s[k], s[s.len() - 1]));
            }
        }
        assert forall|i: int, j: int| 0 <= i < j < r.len() implies ranks_first(
            #[trigger] r[i],
            #[trigger] r[j],
        ) by {
            assert(r[i] == q[i]);
            if j < q.len() {
                assert(r[j] == q[j]);
            } else {
                assert(r[j] == last);
            }
        }
        assert forall|i: int| 0 <= i < r.len() implies !real_is_nan((#[trigger] r[i]).importance) by {
            if i < q.len() {
                assert(r[i] == q[i]);
            } else {
                assert(r[i] == last);
            }
        }
    } else {
        let last = s.last();
        assert(s[s.len() - 1] == last);
        assert forall|i: int, j: int| 0 <= i < j < r.len() implies ranks_first(
            #[trigger] r[i],
            #[trigger] r[j],
        ) by {
            assert(r[i] == s[i]);
            if j < s.len() {
                assert(r[j] == s[j]);
            } else {
                assert(r[j] == x);
                assert(ranks_first(last, x));
                if i < s.len() - 1 {
                    assert(ranks_first(s[i], s[s.len() - 1]));
                }
            }
        }
        assert forall|i: int| 0 <= i < r.len() implies !real_is_nan((#[trigger] r[i]).importance) by {
            if i < s.len() {
                assert(r[i] == s[i]);
            }
        }
    }
}

proof fn lemma_sorted_ranked(v: Seq<Memo>)
    requires
        importances_numbers(v),
    ensures
        ranked(dedup_sorted(v)),
        importances_numbers(dedup_sorted(v)),
    decreases v.len(),
{
    if v.len() > 0 {
        let d = v.drop_last();
        assert(importances_numbers(d)) by {
            assert forall|i: int| 0 <= i < d.len() implies !real_is_nan((#[trigger] d[i]).importance) by {
                assert(d[i] == v[i]);
            }
        }
        assert(v[v.len() - 1] == v.last());
        lemma_sorted_ranked(d);
        lemma_insert_ranked(dedup_sorted(d), v.last());
    }
}

/// The order in which deduplication takes the memories never rises in importance: of
/// two memories, the one taken first is at least as important, and among equally
/// important ones the more recently updated is taken first.
pub proof fn lemma_dedup_order(v: Seq<Memo>)
    requires
        forall|i: int| 0 <= i < v.len() ==> !real_is_nan((#[trigger] v[i]).importance),
    ensures
        forall|i: int, j: int|
            0 <= i < j < dedup_sorted(v).len() ==> real_le(
                (#[trigger] dedup_sorted(v)[j]).importance,
                (#[trigger] dedup_sorted(v)[i]).importance,
            ) && (real_eq(dedup_sorted(v)[i].importance, dedup_sorted(v)[j].importance)
                ==> dedup_sorted(v)[i].updated_at >= dedup_sorted(v)[j].updated_at),
{
    lemma_sorted_ranked(v);
}

/// A memory that deduplication merges into a kept one is never more important than the
/// memory that keeps it.
pub proof fn lemma_kept_outranks<F: Fn(&Vec<u32>, &Vec<u32>) -> Option<u32>>(
    f: F,
    threshold: u32,
    v: Seq<Memo>,
    plan: Seq<Option<int>>,
)
    requires
        forall|i: int| 0 <= i < v.len() ==> !real_is_nan((#[trigger] v[i]).importance),
        valid_plan(f, threshold, dedup_sorted(v), plan),
    ensures
        forall|j: int|
            0 <= j < plan.len() && (#[trigger] plan[j]) is Some ==> 0 <= plan[j]->0 < j && real_le(
                dedup_sorted(v)[j].importance,
                dedup_sorted(v)[plan[j]->0].importance,
            ),
{
    lemma_sorted_ranked(v);
    let s = dedup_sorted(v);
    assert forall|j: int| 0 <= j < plan.len() && (#[trigger] plan[j]) is Some implies 0 <= plan[j]->0 < j
        && real_le(s[j].importance, s[plan[j]->0].importance) by {
        assert(plan_step_ok(f, threshold, s, plan, j));
        let k = plan[j]->0;
        assert(ranks_first(s[k], s[j]));
    }
}

} // verus!
