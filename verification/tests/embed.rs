use memo::embed::{cosine, hash_dim, tokenize, tokenize_lowered, LocalEmbedder};
use memo::error::MemoError;

fn f(bits: u32) -> f32 {
    f32::from_bits(bits)
}

fn cosine_f32(a: &Vec<u32>, b: &Vec<u32>) -> u32 {
    let dot: f32 = a.iter().zip(b).map(|(x, y)| f(*x) * f(*y)).sum();
    let na = a.iter().map(|x| f(*x) * f(*x)).sum::<f32>().sqrt();
    let nb = b.iter().map(|x| f(*x) * f(*x)).sum::<f32>().sqrt();
    if na == 0.0 || nb == 0.0 {
        return 0.0f32.to_bits();
    }
    (dot / (na * nb)).to_bits()
}

fn bits(v: &[f32]) -> Vec<u32> {
    v.iter().map(|x| x.to_bits()).collect()
}

#[test]
fn identical_is_one() {
    let v = bits(&[0.5, 0.5, 0.0]);
    assert!((f(cosine(&v, &v, cosine_f32).unwrap()) - 1.0).abs() < 1e-6);
}

#[test]
fn orthogonal_is_zero() {
    let a = bits(&[1.0, 0.0]);
    let b = bits(&[0.0, 1.0]);
    assert!(f(cosine(&a, &b, cosine_f32).unwrap()).abs() < 1e-6);
}

#[test]
fn dim_mismatch_errors() {
    match cosine(&bits(&[1.0]), &bits(&[1.0, 0.0]), cosine_f32) {
        Err(MemoError::InvalidParam(m)) => assert_eq!(m, "embedding dim mismatch: 1 vs 2"),
        other => panic!("unexpected {other:?}"),
    }
}

#[test]
fn empty_errors() {
    assert!(matches!(
        cosine(&vec![], &bits(&[1.0]), cosine_f32),
        Err(MemoError::EmptyEmbedding)
    ));
    assert!(matches!(
        cosine(&bits(&[1.0]), &vec![], cosine_f32),
        Err(MemoError::EmptyEmbedding)
    ));
}

#[test]
fn zero_norm_is_zero() {
    let z = bits(&[0.0, 0.0]);
    let a = bits(&[1.0, 0.0]);
    assert_eq!(f(cosine(&z, &a, cosine_f32).unwrap()), 0.0);
}

#[test]
fn tokenize_words_bigrams_and_char_pairs() {
    assert_eq!(
        tokenize("Hi, Bob"),
        vec!["hi", "bob", "hi bob", "hi", "ib", "bo", "ob"]
    );
    assert_eq!(tokenize("用户"), vec!["用户", "用户"]);
    assert!(tokenize("  !! ").is_empty());
}

#[test]
fn hash_dim_is_fnv1a_modulo() {
    assert_eq!(hash_dim("", 64), 37);
    assert_eq!(hash_dim("a", 64), 12);
    assert_eq!(hash_dim("rust", 64), 39);
    assert_eq!(hash_dim("rust", 7), 1);
    assert_eq!(hash_dim("用户", 64), 57);
    for s in ["x", "hello", "用户喜欢"] {
        assert!(hash_dim(s, 5) < 5);
        assert_eq!(hash_dim(s, 5), hash_dim(s, 5));
    }
}

#[test]
fn deterministic_and_dim() {
    let e = LocalEmbedder::new(64);
    let a = e.term_counts("the quick brown fox").unwrap();
    let b = e.term_counts("the quick brown fox").unwrap();
    assert_eq!(a.len(), 64);
    assert_eq!(a, b);
    // 4 words, 3 word pairs, 15 character pairs.
    assert_eq!(a.iter().sum::<u64>(), 22);
}

#[test]
fn cjk_text_embedds() {
    let e = LocalEmbedder::new(64);
    let v = e.term_counts("用户喜欢 Rust 编程").unwrap();
    assert_eq!(v.len(), 64);
    assert!(v.iter().any(|x| *x != 0));
}

#[test]
fn empty_text_is_error() {
    let e = LocalEmbedder::new(64);
    assert!(matches!(e.term_counts("   "), Err(MemoError::EmptyEmbedding)));
    assert!(matches!(e.term_counts("!!! ???"), Err(MemoError::EmptyEmbedding)));
}

#[test]
fn dimension_is_at_least_one() {
    assert_eq!(LocalEmbedder::new(0).dim(), 1);
    assert_eq!(LocalEmbedder::new(32).dim(), 32);
    assert_eq!(LocalEmbedder::new(1).term_counts("a b").unwrap(), vec![4]);
}

#[test]
fn tokens_of_lowered_text_keep_case() {
    let chars: Vec<char> = "Hi bob".chars().collect();
    assert_eq!(
        tokenize_lowered(&chars),
        vec!["Hi", "bob", "Hi bob", "Hi", "ib", "bo", "ob"]
    );
}
