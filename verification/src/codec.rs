//! The stored form of an embedding: a 4-byte little-endian length followed by each
//! component's 4 bytes, little-endian; no embedding is stored as no bytes.
use vstd::prelude::*;
use crate::error::MemoError;
use crate::text::owned;

verus! {

/// The 4 little-endian bytes of a 32-bit word.
pub open spec fn le_bytes(w: u32) -> Seq<u8> {
    seq![
        (w % 256) as u8,
        ((w / 256) % 256) as u8,
        ((w / 65536) % 256) as u8,
        (w / 16777216) as u8,
    ]
}

/// The 32-bit word of 4 little-endian bytes.
pub open spec fn le_word(b0: u8, b1: u8, b2: u8, b3: u8) -> u32 {
    (b0 + 256 * b1 + 65536 * b2 + 16777216 * b3) as u32
}

/// The bytes of each word in turn.
pub open spec fn encode_words(v: Seq<u32>) -> Seq<u8>
    decreases v.len(),
{
    if v.len() == 0 {
        Seq::empty()
    } else {
        encode_words(v.drop_last()) + le_bytes(v.last())
    }
}

/// The stored form of an optional embedding (the length is kept in 32 bits).
pub open spec fn spec_serialize(emb: Option<Seq<u32>>) -> Seq<u8> {
    match emb {
        None => Seq::empty(),
        Some(v) => le_bytes(v.len() as u32) + encode_words(v),
    }
}

/// The words encoded by `buf[4..]`, read four bytes at a time.
pub open spec fn decode_words(buf: Seq<u8>, n: nat) -> Seq<u32>
    decreases n,
{
    if n == 0 {
        Seq::empty()
    } else {
        let k = 4 + 4 * (n - 1);
        decode_words(buf, (n - 1) as nat).push(
            le_word(buf[k], buf[k + 1], buf[k + 2], buf[k + 3]),
        )
    }
}

/// How a stored embedding fails to read back.
pub enum BlobFault {
    /// Non-empty but shorter than the 4-byte length.
    TooShort,
    /// The length does not match the number of bytes that follow.
    LengthMismatch,
}

/// What reading a stored embedding gives.
pub open spec fn spec_deserialize(buf: Seq<u8>) -> Result<Option<Seq<u32>>, BlobFault> {
    if buf.len() == 0 {
        Ok(None)
    } else if buf.len() < 4 {
        Err(BlobFault::TooShort)
    } else {
        let n = le_word(buf[0], buf[1], buf[2], buf[3]) as nat;
        if buf.len() != 4 + 4 * n {
            Err(BlobFault::LengthMismatch)
        } else {
            Ok(Some(decode_words(buf, n)))
        }
    }
}

fn push_le(out: &mut Vec<u8>, w: u32)
    ensures
        final(out)@ == old(out)@ + le_bytes(w),
{
    out.push((w % 256) as u8);
    out.push(((w / 256) % 256) as u8);
    out.push(((w / 65536) % 256) as u8);
    out.push((w / 16777216) as u8);
    proof {
        assert(final(out)@ =~= old(out)@ + le_bytes(w));
    }
}

/// The bytes stored for an optional embedding (empty for none).
pub fn serialize_embedding(emb: Option<&Vec<u32>>) -> (r: Vec<u8>)
    ensures
        r@ == spec_serialize(
            match emb {
                Some(v) => Some(v@),
                None => None,
            },
        ),
{
    match emb {
        None => Vec::new(),
        Some(v) => {
            let mut buf: Vec<u8> = Vec::new();
            push_le(&mut buf, v.len() as u32);
            let mut i: usize = 0;
            while i < v.len()
                invariant
                    i <= v.len(),
                    buf@ == le_bytes(v@.len() as u32) + encode_words(v@.take(i as int)),
                decreases v.len() - i,
            {
                push_le(&mut buf, v[i]);
                proof {
                    assert(v@.take(i + 1).drop_last() =~= v@.take(i as int));
                    assert(le_bytes(v@.len() as u32) + encode_words(v@.take(i as int)) + le_bytes(
                        v@[i as int],
                    ) =~= le_bytes(v@.len() as u32) + encode_words(v@.take(i + 1)));
                }
                i += 1;
            }
            proof {
                assert(v@.take(v.len() as int) =~= v@);
            }
            buf
        },
    }
}

fn read_le(buf: &Vec<u8>, k: usize) -> (w: u32)
    requires
        k + 4 <= buf.len(),
    ensures
        w == le_word(buf@[k as int], buf@[k + 1], buf@[k + 2], buf@[k + 3]),
{
    (buf[k] as u32) + 256 * (buf[k + 1] as u32) + 65536 * (buf[k + 2] as u32) + 16777216 * (buf[k
        + 3] as u32)
}

/// Reads a stored embedding back: no bytes is no embedding; otherwise the 4-byte length
/// must be followed by exactly that many 4-byte components.
pub fn deserialize_embedding(buf: &Vec<u8>) -> (r: Result<Option<Vec<u32>>, MemoError>)
    ensures
        spec_deserialize(buf@) matches Ok(None) ==> r matches Ok(None),
        spec_deserialize(buf@) matches Ok(Some(v)) ==> (r matches Ok(Some(w)) && w@ == v),
        spec_deserialize(buf@) is Err ==> r matches Err(MemoError::Serialization(_)),
{
    if buf.len() == 0 {
        return Ok(None);
    }
    if buf.len() < 4 {
        return Err(MemoError::Serialization(owned("embedding blob too short")));
    }
    let n = read_le(buf, 0);
    if (buf.len() as u64) != 4 + 4 * (n as u64) {
        return Err(MemoError::Serialization(owned("embedding blob length mismatch")));
    }
    let mut v: Vec<u32> = Vec::new();
    let mut i: u32 = 0;
    while i < n
        invariant
            i <= n,
            buf@.len() == 4 + 4 * (n as nat),
            v@ == decode_words(buf@, i as nat),
        decreases n - i,
    {
        assert(4 + 4 * (i as nat) + 4 <= buf.len());
        let k = 4 + 4 * (i as usize);
        let w = read_le(buf, k);
        v.push(w);
        i += 1;
    }
    Ok(Some(v))
}

proof fn lemma_le_roundtrip(w: u32)
    ensures
        le_word(le_bytes(w)[0], le_bytes(w)[1], le_bytes(w)[2], le_bytes(w)[3]) == w,
{
    let b = le_bytes(w);
    assert(b[0] == w % 256);
    assert(b[1] == (w / 256) % 256);
    assert(b[2] == (w / 65536) % 256);
    assert(b[3] == w / 16777216);
    assert(w % 256 + 256 * ((w / 256) % 256) + 65536 * ((w / 65536) % 256) + 16777216 * (w
        / 16777216) == w) by (nonlinear_arith);
}

proof fn lemma_encode_len(v: Seq<u32>)
    ensures
        encode_words(v).len() == 4 * v.len(),
    decreases v.len(),
{
    if v.len() > 0 {
        lemma_encode_len(v.drop_last());
    }
}

proof fn lemma_decode_prefix(v: Seq<u32>, head: Seq<u8>, m: nat)
    requires
        head.len() == 4,
        m <= v.len(),
    ensures
        decode_words(head + encode_words(v), m) == v.take(m as int),
    decreases v.len(), m,
{
    lemma_encode_len(v);
    if m > 0 {
        if m < v.len() {
            // Dropping the last word keeps the first m bytes-groups.
            lemma_decode_prefix(v.drop_last(), head, m);
            lemma_decode_same_prefix(head + encode_words(v.drop_last()), head + encode_words(v), m);
            assert(v.drop_last().take(m as int) =~= v.take(m as int));
        } else {
            lemma_decode_prefix(v.drop_last(), head, (m - 1) as nat);
            lemma_decode_same_prefix(
                head + encode_words(v.drop_last()),
                head + encode_words(v),
                (m - 1) as nat,
            );
            let buf = head + encode_words(v);
            let k = 4 + 4 * (m - 1);
            lemma_encode_len(v.drop_last());
            assert(buf.subrange(k as int, k + 4) =~= le_bytes(v.last()));
            lemma_le_roundtrip(v.last());
            assert(buf[k as int] == le_bytes(v.last())[0]);
            assert(buf[k + 1] == le_bytes(v.last())[1]);
            assert(buf[k + 2] == le_bytes(v.last())[2]);
            assert(buf[k + 3] == le_bytes(v.last())[3]);
            assert(v.drop_last().take((m - 1) as int).push(v.last()) =~= v.take(m as int));
        }
    } else {
        assert(v.take(0) =~= Seq::<u32>::empty());
    }
}

proof fn lemma_decode_same_prefix(a: Seq<u8>, b: Seq<u8>, m: nat)
    requires
        a.len() >= 4 + 4 * m,
        b.len() >= a.len(),
        forall|i: int| 0 <= i < a.len() ==> a[i] == b[i],
    ensures
        decode_words(a, m) == decode_words(b, m),
    decreases m,
{
    if m > 0 {
        lemma_decode_same_prefix(a, b, (m - 1) as nat);
    }
}

/// Reading back a stored embedding gives the embedding.
pub proof fn lemma_blob_roundtrip(emb: Option<Seq<u32>>)
    requires
        emb matches Some(v) ==> v.len() <= u32::MAX,
    ensures
        spec_deserialize(spec_serialize(emb)) == Ok::<Option<Seq<u32>>, BlobFault>(emb),
{
    match emb {
        None => {},
        Some(v) => {
            let head = le_bytes(v.len() as u32);
            let buf = head + encode_words(v);
            lemma_encode_len(v);
            lemma_le_roundtrip(v.len() as u32);
            assert(buf[0] == head[0] && buf[1] == head[1] && buf[2] == head[2] && buf[3] == head[3]);
            lemma_decode_prefix(v, head, v.len());
            assert(v.take(v.len() as int) =~= v);
        },
    }
}

} // verus!
