use memo::ids::secs_or_zero;
use memo::binary32::{REAL_0_3, REAL_0_7, REAL_ZERO};
use memo::error::MemoError;
use memo::ids::format_id;
use memo::keyword::{keyword_overlap, overlap_lowered};
use memo::model::{LongTermKind, Memo, MemoPatch, MemoType, RecallQuery, SearchQuery};
use std::collections::HashMap;

fn keyword_score(content: &str, query: &str) -> f32 {
    let (hit, total) = keyword_overlap(content, query);
    hit as f32 / total as f32
}

fn sample() -> Memo {
    Memo {
        id: "m1".into(),
        memo_type: MemoType::LongTerm {
            kind: LongTermKind::Episodic,
        },
        content: "hello world".into(),
        embedding: Some(vec![0.1f32.to_bits(), 0.2f32.to_bits(), 0.3f32.to_bits()]),
        metadata: HashMap::new(),
        importance: 0.5f32.to_bits(),
        version: 1,
        created_at: 100,
        updated_at: 100,
    }
}

#[test]
fn memo_validate_normal_and_abnormal() {
    assert!(sample().validate().is_ok());

    let mut m = sample();
    m.content = "   ".into();
    assert!(matches!(m.validate(), Err(MemoError::EmptyContent)));

    let mut m = sample();
    m.importance = 1.5f32.to_bits();
    assert!(matches!(m.validate(), Err(MemoError::InvalidParam(_))));

    let mut m = sample();
    m.embedding = Some(vec![]);
    assert!(matches!(m.validate(), Err(MemoError::EmptyEmbedding)));
}

#[test]
fn validate_rejects_nan_and_negative_importance() {
    let mut m = sample();
    m.importance = f32::NAN.to_bits();
    assert!(matches!(m.validate(), Err(MemoError::InvalidParam(_))));
    m.importance = (-0.1f32).to_bits();
    assert!(matches!(m.validate(), Err(MemoError::InvalidParam(_))));
    m.importance = (-0.0f32).to_bits();
    assert!(m.validate().is_ok());
    m.importance = 1.0f32.to_bits();
    assert!(m.validate().is_ok());
}

#[test]
fn query_defaults_and_validate() {
    let q = SearchQuery::new("rust");
    assert_eq!(q.top_k, 10);
    assert_eq!(q.semantic_weight, REAL_0_7);
    assert_eq!(f32::from_bits(q.semantic_weight), 0.7);
    assert_eq!(f32::from_bits(q.keyword_weight), 0.3);
    assert_eq!(q.keyword_weight, REAL_0_3);
    assert_eq!(q.score_threshold, REAL_ZERO);
    assert!(q.validate().is_ok());

    let q = SearchQuery::new("");
    assert!(matches!(q.validate(), Err(MemoError::InvalidParam(_))));

    let mut q = SearchQuery::new("x");
    q.top_k = 0;
    assert!(matches!(q.validate(), Err(MemoError::InvalidParam(_))));

    let mut q = SearchQuery::new("x");
    q.semantic_weight = 0.0f32.to_bits();
    q.keyword_weight = 0.0f32.to_bits();
    assert!(matches!(q.validate(), Err(MemoError::InvalidParam(_))));

    let mut q = SearchQuery::new("x");
    q.semantic_weight = 2.0f32.to_bits();
    assert!(matches!(q.validate(), Err(MemoError::InvalidParam(_))));
}

#[test]
fn keyword_score_behaves() {
    assert_eq!(keyword_score("hello world", "hello world"), 1.0);
    assert_eq!(keyword_score("hello world", "hello rust"), 0.5);
    assert_eq!(keyword_score("hello world", "nope"), 0.0);
    assert_eq!(keyword_score("用户喜欢 Rust", "Rust"), 1.0);
}

#[test]
fn keyword_score_partial_and_zero() {
    assert_eq!(keyword_score("hello world", "hello rust"), 0.5);
    assert_eq!(keyword_score("apple pie", "rust go"), 0.0);
    assert_eq!(keyword_score("", "x"), 0.0);
}

#[test]
fn keyword_overlap_counts_words() {
    assert_eq!(keyword_overlap("hello world", "hello rust"), (1, 2));
    assert_eq!(keyword_overlap("Hello World", "HELLO"), (1, 1));
    assert_eq!(keyword_overlap("a-b", "x!!"), (0, 1));
    // No query word: the trimmed query as a whole.
    assert_eq!(keyword_overlap("what?! ok", " ?! "), (1, 1));
    assert_eq!(keyword_overlap("abc", " ?! "), (0, 1));
}

#[test]
fn recall_query_defaults_and_validate() {
    let q = RecallQuery::new("rust");
    assert_eq!(q.top_k, 10);
    assert!(q.validate().is_ok());
    assert!(q.query_embedding.is_none());

    let q = RecallQuery::new("");
    assert!(matches!(q.validate(), Err(MemoError::InvalidParam(_))));

    let mut q = RecallQuery::new("x");
    q.top_k = 0;
    assert!(matches!(q.validate(), Err(MemoError::InvalidParam(_))));
}

#[test]
fn memo_patch_is_empty() {
    assert!(MemoPatch::default().is_empty());
    assert!(!MemoPatch {
        content: Some("x".into()),
        ..Default::default()
    }
    .is_empty());
    assert!(!MemoPatch {
        importance: Some(0.5f32.to_bits()),
        ..Default::default()
    }
    .is_empty());
}

#[test]
fn ids_are_m_then_hex() {
    assert_eq!(format_id(0, 0), "m00");
    assert_eq!(format_id(255, 16), "mff10");
    assert_eq!(format_id(0x1234abcd, 0xf), "m1234abcdf");
}

#[test]
fn parse_error_names_the_type() {
    match MemoType::parse("bogus") {
        Err(MemoError::InvalidParam(m)) => assert_eq!(m, "unknown memo_type: bogus"),
        other => panic!("unexpected {other:?}"),
    }
    assert_eq!(MemoType::ShortTerm.as_str(), "short_term");
    assert_eq!(
        MemoType::LongTerm {
            kind: LongTermKind::Graph
        }
        .as_str(),
        "long_term:graph"
    );
}

#[test]
fn unicode_whitespace_is_blank() {
    assert!(matches!(
        SearchQuery::new("\u{3000}\u{a0}\t").validate(),
        Err(MemoError::InvalidParam(_))
    ));
    let mut m = sample();
    m.content = "\u{2028} \u{85}".into();
    assert!(matches!(m.validate(), Err(MemoError::EmptyContent)));
    m.content = "\u{200b}".into();
    assert!(m.validate().is_ok());
}

#[test]
fn clock_seconds() {
    assert_eq!(secs_or_zero(None), 0);
    assert_eq!(secs_or_zero(Some(1_700_000_000)), 1_700_000_000);
    assert_eq!(secs_or_zero(Some(u64::MAX)), -1);
}

#[test]
fn overlap_of_lowered_text_is_case_sensitive() {
    let chars = |t: &str| t.chars().collect::<Vec<char>>();
    assert_eq!(overlap_lowered(&chars("hello world"), &chars("hello rust")), (1, 2));
    assert_eq!(overlap_lowered(&chars("hello world"), &chars("HELLO")), (0, 1));
    assert_eq!(overlap_lowered(&chars("what?! ok"), &chars(" ?! ")), (1, 1));
}
