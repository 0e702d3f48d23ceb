//! Keyword overlap between a memory's content and a query.
use vstd::prelude::*;
use crate::text::{
    chars_of, contains_exec, contains_seq, lowercase, split_words, to_lowercase, trim, trim_chars,
    views, words,
};

verus! {

/// How many of `ws` occur in `content` (counted with repetition).
pub open spec fn count_contained(content: Seq<char>, ws: Seq<Seq<char>>) -> nat
    decreases ws.len(),
{
    if ws.len() == 0 {
        0
    } else {
        count_contained(content, ws.drop_last()) + if contains_seq(content, ws.last()) {
            1nat
        } else {
            0nat
        }
    }
}

/// The keyword score of already lowercased text as a fraction `(matched, total)`: the
/// number of query words (maximal alphanumeric runs) found in the content over the number
/// of query words; with no query word, whether the trimmed query occurs at all, over 1.
pub open spec fn spec_overlap_lowered(cl: Seq<char>, ql: Seq<char>) -> (nat, nat) {
    let ws = words(ql);
    if ws.len() == 0 {
        (
            if contains_seq(cl, trim(ql)) {
                1nat
            } else {
                0nat
            },
            1nat,
        )
    } else {
        (count_contained(cl, ws), ws.len())
    }
}

/// The keyword score as a fraction `(matched, total)`: [`spec_overlap_lowered`] of the
/// content and the query after Unicode lowercasing.
pub open spec fn spec_keyword_overlap(content: Seq<char>, query: Seq<char>) -> (nat, nat) {
    spec_overlap_lowered(lowercase(content), lowercase(query))
}

/// The parts of the keyword score of `content` for `query`; the score is
/// `matched / total` (1 when every query word occurs, 0 when none does).
pub fn keyword_overlap(content: &str, query: &str) -> (r: (usize, usize))
    ensures
        r.0 == spec_keyword_overlap(content@, query@).0,
        r.1 == spec_keyword_overlap(content@, query@).1,
        r.0 <= r.1,
        r.1 > 0,
{
    let cl = chars_of(to_lowercase(content).as_str());
    let ql = chars_of(to_lowercase(query).as_str());
    overlap_lowered(&cl, &ql)
}

/// [`keyword_overlap`] on content and query that are already lowercased.
pub fn overlap_lowered(cl: &Vec<char>, ql: &Vec<char>) -> (r: (usize, usize))
    ensures
        r.0 == spec_overlap_lowered(cl@, ql@).0,
        r.1 == spec_overlap_lowered(cl@, ql@).1,
        r.0 <= r.1,
        r.1 > 0,
{
    let ws = split_words(ql);
    if ws.len() == 0 {
        let t = trim_chars(ql);
        let m: usize = if contains_exec(cl, &t) {
            1
        } else {
            0
        };
        return (m, 1);
    }
    let mut matched: usize = 0;
    let mut i: usize = 0;
    while i < ws.len()
        invariant
            i <= ws.len(),
            views(ws@) == words(ql@),
            matched == count_contained(cl@, views(ws@).take(i as int)),
            matched <= i,
        decreases ws.len() - i,
    {
        proof {
            let t = views(ws@).take(i + 1);
            assert(t.drop_last() =~= views(ws@).take(i as int));
            assert(t.last() == ws@[i as int]@);
        }
        if contains_exec(cl, &ws[i]) {
            matched += 1;
        }
        i += 1;
    }
    proof {
        assert(views(ws@).take(ws.len() as int) =~= views(ws@));
    }
    (matched, ws.len())
}

proof fn lemma_count_is_filter(content: Seq<char>, ws: Seq<Seq<char>>)
    ensures
        count_contained(content, ws) == ws.filter(|w: Seq<char>| contains_seq(content, w)).len(),
    decreases ws.len(),
{
    reveal(Seq::filter);
    if ws.len() > 0 {
        lemma_count_is_filter(content, ws.drop_last());
    }
}

/// Every query word found in the content counts, whatever its length: when the query has
/// words, the matched part of the score is the number of query words (with repetition)
/// that occur in the content, out of all the query words; this holds of the lowercased
/// texts inside [`spec_keyword_overlap`] too.
pub proof fn lemma_overlap_counts_found_words(content: Seq<char>, query: Seq<char>)
    ensures
        words(query).len() > 0 ==> spec_overlap_lowered(content, query) == (
            words(query).filter(|w: Seq<char>| contains_seq(content, w)).len(),
            words(query).len(),
        ),
        words(lowercase(query)).len() > 0 ==> spec_keyword_overlap(content, query) == (
            words(lowercase(query)).filter(|w: Seq<char>| contains_seq(lowercase(content), w)).len(),
            words(lowercase(query)).len(),
        ),
{
    lemma_count_is_filter(content, words(query));
    lemma_count_is_filter(lowercase(content), words(lowercase(query)));
}

} // verus!
