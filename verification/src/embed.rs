//! The local embedder's integer part: tokens, hashed buckets and term counts.
//!
//! Text is tokenized into lowercase word 1- and 2-grams and character 2-grams; each
//! token is hashed (FNV-1a) into one of `dim` buckets, and the tokens falling into each
//! bucket are counted. Turning the counts into a unit vector is arithmetic on
//! single-precision values and happens where those are available.
use vstd::prelude::*;
use crate::error::MemoError;
use crate::text::{
    alphanumeric, chars_of, decimal, is_alphanumeric, lowercase, push_decimal, split_words,
    string_of, to_lowercase, views, words,
};

verus! {

/// Local lightweight embedder with a fixed vector dimension.
#[derive(Debug, Clone, Copy, PartialEq, Eq, Structural)]
pub struct LocalEmbedder {
    dim: usize,
}

impl LocalEmbedder {
    #[verifier::type_invariant]
    spec fn positive_dim(self) -> bool {
        self.dim > 0
    }

    /// An embedder of dimension `dim` (at least 1).
    pub fn new(dim: usize) -> (r: LocalEmbedder)
        ensures
            r.spec_dim() > 0,
            r.spec_dim() == if dim == 0 {
                1
            } else {
                dim
            },
    {
        LocalEmbedder { dim: if dim == 0 {
            1
        } else {
            dim
        } }
    }

    /// The vector dimension.
    pub closed spec fn spec_dim(&self) -> usize {
        self.dim
    }

    /// The vector dimension.
    pub fn dim(&self) -> (r: usize)
        ensures
            r == self.spec_dim(),
    {
        self.dim
    }
}

/// The alphanumeric characters of `s`, in order.
pub open spec fn alnum_only(s: Seq<char>) -> Seq<char>
    decreases s.len(),
{
    if s.len() == 0 {
        s
    } else if alphanumeric(s.last()) {
        alnum_only(s.drop_last()).push(s.last())
    } else {
        alnum_only(s.drop_last())
    }
}

/// `"a b"` for every pair of adjacent words.
pub open spec fn word_bigrams(ws: Seq<Seq<char>>) -> Seq<Seq<char>> {
    Seq::new(
        if ws.len() == 0 {
            0
        } else {
            (ws.len() - 1) as nat
        },
        |i: int| ws[i] + seq![' '] + ws[i + 1],
    )
}

/// Every pair of adjacent characters.
pub open spec fn char_bigrams(cs: Seq<char>) -> Seq<Seq<char>> {
    Seq::new(
        if cs.len() == 0 {
            0
        } else {
            (cs.len() - 1) as nat
        },
        |i: int| seq![cs[i], cs[i + 1]],
    )
}

/// The tokens of already lowercased text: its words, then each pair of adjacent words
/// joined by a space, then each pair of adjacent alphanumeric characters.
pub open spec fn tokens_of_lowered(l: Seq<char>) -> Seq<Seq<char>> {
    words(l) + word_bigrams(words(l)) + char_bigrams(alnum_only(l))
}

/// The tokens of a text: [`tokens_of_lowered`] after Unicode lowercasing.
pub open spec fn spec_tokens(text: Seq<char>) -> Seq<Seq<char>> {
    tokens_of_lowered(lowercase(text))
}

/// The views of a vector of strings.
pub open spec fn string_views(v: Seq<String>) -> Seq<Seq<char>> {
    v.map_values(|s: String| s@)
}

proof fn lemma_string_views_push(v: Seq<String>, s: String)
    ensures
        string_views(v.push(s)) == string_views(v).push(s@),
{
    assert(string_views(v.push(s)) =~= string_views(v).push(s@));
}

/// Tokenizes: lowercase word 1- and 2-grams and character 2-grams (CJK-compatible).
pub fn tokenize(text: &str) -> (r: Vec<String>)
    ensures
        string_views(r@) == spec_tokens(text@),
{
    let lower = chars_of(to_lowercase(text).as_str());
    tokenize_lowered(&lower)
}

/// [`tokenize`] on text that is already lowercased.
pub fn tokenize_lowered(lower: &Vec<char>) -> (r: Vec<String>)
    ensures
        string_views(r@) == tokens_of_lowered(lower@),
{
    let ws = split_words(lower);
    let mut toks: Vec<String> = Vec::new();
    let mut i: usize = 0;
    while i < ws.len()
        invariant
            i <= ws.len(),
            string_views(toks@) == views(ws@).take(i as int),
        decreases ws.len() - i,
    {
        let ghost before = toks@;
        let w = string_of(&ws[i]);
        toks.push(w);
        proof {
            lemma_string_views_push(before, w);
            assert(string_views(toks@) =~= views(ws@).take(i + 1));
        }
        i += 1;
    }
    proof {
        assert(views(ws@).take(ws.len() as int) =~= views(ws@));
    }
    let ghost ww = views(ws@);
    let mut j: usize = 0;
    while j + 1 < ws.len()
        invariant
            ww == views(ws@),
            ws.len() > 0 ==> j + 1 <= ws.len(),
            ws.len() == 0 ==> j == 0,
            string_views(toks@) == ww + word_bigrams(ww).take(j as int),
        decreases ws.len() - j,
    {
        let mut pair: Vec<char> = ws[j].clone();
        pair.push(' ');
        let pair2 = crate::text::concat_chars(&pair, &ws[j + 1]);
        let ghost before = toks@;
        let w = string_of(&pair2);
        toks.push(w);
        proof {
            lemma_string_views_push(before, w);
            assert(pair2@ == ww[j as int] + seq![' '] + ww[j + 1]);
            assert(string_views(toks@) =~= ww + word_bigrams(ww).take(j + 1));
        }
        j += 1;
    }
    proof {
        assert(word_bigrams(ww).take(j as int) =~= word_bigrams(ww));
    }
    let mut cs: Vec<char> = Vec::new();
    let mut k: usize = 0;
    while k < lower.len()
        invariant
            k <= lower.len(),
            cs@ == alnum_only(lower@.take(k as int)),
        decreases lower.len() - k,
    {
        proof {
            assert(lower@.take(k + 1).drop_last() =~= lower@.take(k as int));
        }
        if is_alphanumeric(lower[k]) {
            cs.push(lower[k]);
        }
        k += 1;
    }
    proof {
        assert(lower@.take(lower.len() as int) =~= lower@);
    }
    let ghost base = string_views(toks@);
    let mut m: usize = 0;
    while m + 1 < cs.len()
        invariant
            base == ww + word_bigrams(ww),
            cs.len() > 0 ==> m + 1 <= cs.len(),
            cs.len() == 0 ==> m == 0,
            string_views(toks@) == base + char_bigrams(cs@).take(m as int),
        decreases cs.len() - m,
    {
        let mut two: Vec<char> = Vec::new();
        two.push(cs[m]);
        two.push(cs[m + 1]);
        let ghost before = toks@;
        let w = string_of(&two);
        toks.push(w);
        proof {
            lemma_string_views_push(before, w);
            assert(two@ =~= seq![cs@[m as int], cs@[m + 1]]);
            assert(string_views(toks@) =~= base + char_bigrams(cs@).take(m + 1));
        }
        m += 1;
    }
    proof {
        assert(char_bigrams(cs@).take(m as int) =~= char_bigrams(cs@));
        assert(words(lower@) == ww);
    }
    toks
}

} // verus!

verus! {

/// FNV-1a offset basis.
pub const FNV_OFFSET: u64 = 0xcbf29ce484222325;

/// FNV-1a prime.
pub const FNV_PRIME: u64 = 0x100000001b3;

/// 64-bit FNV-1a hash of a byte sequence.
pub open spec fn fnv1a(bytes: Seq<u8>) -> u64
    decreases bytes.len(),
{
    if bytes.len() == 0 {
        FNV_OFFSET
    } else {
        let h = fnv1a(bytes.drop_last()) ^ (bytes.last() as u64);
        ((h as nat * FNV_PRIME as nat) % 0x1_0000_0000_0000_0000nat) as u64
    }
}

/// The bucket of a token: the FNV-1a hash of its UTF-8 bytes, as a `usize`, modulo `dim`.
pub open spec fn spec_hash_dim(s: Seq<char>, dim: usize) -> usize {
    ((fnv1a(vstd::utf8::encode_utf8(s)) as usize) % dim) as usize
}

/// FNV-1a stable hash of a token mapped into `[0, dim)`.
pub fn hash_dim(s: &str, dim: usize) -> (r: usize)
    requires
        dim > 0,
    ensures
        r == spec_hash_dim(s@, dim),
        r < dim,
{
    let bytes = s.as_bytes();
    let mut h: u64 = FNV_OFFSET;
    let mut i: usize = 0;
    while i < bytes.len()
        invariant
            i <= bytes@.len(),
            bytes@ == vstd::utf8::encode_utf8(s@),
            h == fnv1a(bytes@.take(i as int)),
        decreases bytes@.len() - i,
    {
        proof {
            assert(bytes@.take(i + 1).drop_last() =~= bytes@.take(i as int));
        }
        h ^= bytes[i] as u64;
        h = h.wrapping_mul(FNV_PRIME);
        i += 1;
    }
    proof {
        assert(bytes@.take(bytes@.len() as int) =~= bytes@);
    }
    (h as usize) % dim
}

/// How many of `toks` fall into bucket `b`.
pub open spec fn bucket_count(toks: Seq<Seq<char>>, dim: usize, b: int) -> nat
    decreases toks.len(),
{
    if toks.len() == 0 {
        0
    } else {
        bucket_count(toks.drop_last(), dim, b) + if spec_hash_dim(toks.last(), dim) == b {
            1nat
        } else {
            0nat
        }
    }
}

impl LocalEmbedder {
    /// The term counts of a text: for each of the `dim` buckets, how many of its tokens
    /// hash there. A text without tokens (blank, or punctuation only) is
    /// `EmptyEmbedding`.
    pub fn term_counts(&self, text: &str) -> (r: Result<Vec<u64>, MemoError>)
        ensures
            spec_tokens(text@).len() == 0 ==> r matches Err(MemoError::EmptyEmbedding),
            spec_tokens(text@).len() > 0 ==> (r matches Ok(v) && v@.len() == self.spec_dim()
                && forall|b: int|
                0 <= b < v@.len() ==> #[trigger] v@[b] == bucket_count(
                    spec_tokens(text@),
                    self.spec_dim(),
                    b,
                )),
    {
        let toks = tokenize(text);
        if toks.len() == 0 {
            return Err(MemoError::EmptyEmbedding);
        }
        let dim = self.dim;
        proof {
            use_type_invariant(self);
        }
        let mut counts: Vec<u64> = Vec::new();
        let mut z: usize = 0;
        while z < dim
            invariant
                z <= dim,
                counts@.len() == z,
                forall|b: int| 0 <= b < z ==> #[trigger] counts@[b] == 0,
            decreases dim - z,
        {
            counts.push(0);
            z += 1;
        }
        let ghost tv = string_views(toks@);
        let mut i: usize = 0;
        while i < toks.len()
            invariant
                dim > 0,
                i <= toks.len(),
                tv == string_views(toks@),
                counts@.len() == dim,
                forall|b: int|
                    0 <= b < dim ==> #[trigger] counts@[b] == bucket_count(tv.take(i as int), dim, b),
                forall|b: int| 0 <= b < dim ==> #[trigger] counts@[b] <= i,
            decreases toks.len() - i,
        {
            let h = hash_dim(toks[i].as_str(), dim);
            proof {
                assert(tv.take(i + 1).drop_last() =~= tv.take(i as int));
                assert(tv.take(i + 1).last() == toks@[i as int]@);
            }
            let c = counts[h];
            counts.set(h, c + 1);
            i += 1;
        }
        proof {
            assert(tv.take(toks.len() as int) =~= tv);
        }
        Ok(counts)
    }
}

/// The message for embeddings of different lengths.
pub open spec fn dim_mismatch_text(a: nat, b: nat) -> Seq<char> {
    "embedding dim mismatch: "@ + decimal(a) + " vs "@ + decimal(b)
}

/// Cosine similarity of two embeddings. Either one empty is `EmptyEmbedding`; lengths
/// that differ are `InvalidParam` (`embedding dim mismatch: {a} vs {b}`); otherwise the
/// similarity is what `compute` makes of the pair (the dot product over the product of
/// the norms, 0 when a norm is 0: single-precision arithmetic, which the caller
/// supplies).
pub fn cosine<F: Fn(&Vec<u32>, &Vec<u32>) -> u32>(a: &Vec<u32>, b: &Vec<u32>, compute: F) -> (r:
    Result<u32, MemoError>)
    requires
        a@.len() > 0 && a@.len() == b@.len() ==> call_requires(compute, (a, b)),
    ensures
        a@.len() == 0 || b@.len() == 0 ==> r matches Err(MemoError::EmptyEmbedding),
        a@.len() > 0 && b@.len() > 0 && a@.len() != b@.len() ==> (r matches Err(
            MemoError::InvalidParam(m),
        ) && m@ == dim_mismatch_text(a@.len(), b@.len())),
        a@.len() > 0 && a@.len() == b@.len() ==> (r matches Ok(x) && call_ensures(
            compute,
            (a, b),
            x,
        )),
{
    if a.len() == 0 || b.len() == 0 {
        return Err(MemoError::EmptyEmbedding);
    }
    if a.len() != b.len() {
        let mut m = chars_of("embedding dim mismatch: ");
        push_decimal(&mut m, a.len() as u64);
        let vs = chars_of(" vs ");
        let ghost head = m@;
        let mut i: usize = 0;
        while i < vs.len()
            invariant
                i <= vs@.len(),
                m@ == head + vs@.take(i as int),
            decreases vs@.len() - i,
        {
            m.push(vs[i]);
            proof {
                assert(head + vs@.take(i + 1) =~= (head + vs@.take(i as int)).push(vs@[i as int]));
            }
            i += 1;
        }
        proof {
            assert(vs@.take(vs@.len() as int) =~= vs@);
        }
        push_decimal(&mut m, b.len() as u64);
        return Err(MemoError::InvalidParam(string_of(&m)));
    }
    Ok(compute(a, b))
}

} // verus!
