use memo::codec::{deserialize_embedding, serialize_embedding};
use memo::error::MemoError;
use memo::model::{LongTermKind, Memo, MemoType, ScoredMemo};
use memo::ranking::rank;
use memo::row::MemoRow;
use std::collections::HashMap;

fn memo(id: &str, content: &str, embedding: Option<Vec<u32>>) -> Memo {
    Memo {
        id: id.into(),
        memo_type: MemoType::LongTerm {
            kind: LongTermKind::Episodic,
        },
        content: content.into(),
        embedding,
        metadata: HashMap::new(),
        importance: 0.5f32.to_bits(),
        version: 1,
        created_at: 1,
        updated_at: 1,
    }
}

fn row(embedding: Vec<u8>, metadata: &str, memo_type: &str) -> MemoRow {
    MemoRow {
        id: "x".into(),
        memo_type: memo_type.into(),
        content: "c".into(),
        embedding,
        metadata: metadata.into(),
        importance: 0.5f32.to_bits(),
        version: 1,
        created_at: 0,
        updated_at: 0,
    }
}

#[test]
fn blob_layout_is_length_then_words_little_endian() {
    assert!(serialize_embedding(None).is_empty());
    let v = vec![1.0f32.to_bits(), 0x0102_0304];
    assert_eq!(
        serialize_embedding(Some(&v)),
        vec![2, 0, 0, 0, 0x00, 0x00, 0x80, 0x3f, 0x04, 0x03, 0x02, 0x01]
    );
}

#[test]
fn blob_roundtrip() {
    let v = vec![0.1f32.to_bits(), 0.2f32.to_bits(), 0.3f32.to_bits()];
    let b = serialize_embedding(Some(&v));
    assert_eq!(deserialize_embedding(&b).unwrap(), Some(v));
    assert_eq!(deserialize_embedding(&vec![]).unwrap(), None);
}

#[test]
fn blob_faults_are_serialization_errors() {
    assert!(matches!(
        deserialize_embedding(&vec![0]),
        Err(MemoError::Serialization(_))
    ));
    assert!(matches!(
        deserialize_embedding(&vec![2, 0, 0, 0, 1, 2, 3, 4]),
        Err(MemoError::Serialization(_))
    ));
    assert_eq!(deserialize_embedding(&vec![0, 0, 0, 0]).unwrap(), Some(vec![]));
}

#[test]
fn row_roundtrip() {
    let mut m = memo("a", "hello world", Some(vec![0.1f32.to_bits(), 0.2f32.to_bits()]));
    m.metadata.insert("source".into(), "chat \"1\"".into());
    m.metadata.insert("lang".into(), "中文".into());
    m.version = u64::MAX;
    m.updated_at = -5;
    let r = MemoRow::from_memo(&m).unwrap();
    assert_eq!(r.memo_type, "long_term:episodic");
    assert_eq!(r.version, -1);
    let back = r.into_memo().unwrap();
    assert_eq!(back.id, m.id);
    assert_eq!(back.memo_type, m.memo_type);
    assert_eq!(back.content, m.content);
    assert_eq!(back.embedding, m.embedding);
    assert_eq!(back.metadata, m.metadata);
    assert_eq!(back.importance, m.importance);
    assert_eq!(back.version, u64::MAX);
    assert_eq!(back.created_at, 1);
    assert_eq!(back.updated_at, -5);
}

#[test]
fn corrupt_embedding_blob_errors_on_read() {
    let r = row(vec![0], "{}", "working");
    assert!(matches!(r.into_memo(), Err(MemoError::Serialization(_))));
}

#[test]
fn bad_metadata_json_errors_on_read() {
    assert!(matches!(
        row(vec![], "not json", "working").into_memo(),
        Err(MemoError::Serialization(_))
    ));
    assert!(matches!(
        row(vec![], "{\"a\": 1}", "working").into_memo(),
        Err(MemoError::Serialization(_))
    ));
}

#[test]
fn unknown_type_errors_on_read() {
    assert!(matches!(
        row(vec![], "{}", "bogus").into_memo(),
        Err(MemoError::InvalidParam(_))
    ));
    let m = row(vec![], "{\"k\":\"v\"}", "working").into_memo().unwrap();
    assert_eq!(m.memo_type, MemoType::Working);
    assert_eq!(m.metadata.get("k").map(|s| s.as_str()), Some("v"));
    assert!(m.embedding.is_none());
}

fn scored(id: &str, score: f32) -> ScoredMemo {
    ScoredMemo {
        memo: memo(id, "c", None),
        score: score.to_bits(),
    }
}

fn ids(v: &[ScoredMemo]) -> Vec<String> {
    v.iter().map(|s| s.memo.id.clone()).collect()
}

#[test]
fn rank_filters_sorts_and_truncates() {
    let v = vec![
        scored("a", 0.2),
        scored("b", 0.9),
        scored("c", 0.5),
        scored("d", 0.9),
        scored("e", -0.1),
    ];
    assert_eq!(ids(&rank(v.clone(), 0.0f32.to_bits(), 10)), vec!["b", "d", "c", "a"]);
    assert_eq!(ids(&rank(v.clone(), 0.0f32.to_bits(), 2)), vec!["b", "d"]);
    assert_eq!(ids(&rank(v.clone(), 0.5f32.to_bits(), 10)), vec!["b", "d", "c"]);
    assert_eq!(ids(&rank(v.clone(), (-1.0f32).to_bits(), 10)), vec!["b", "d", "c", "a", "e"]);
    assert!(rank(v, 0.95f32.to_bits(), 10).is_empty());
}

#[test]
fn rank_drops_nan_scores() {
    let v = vec![scored("a", f32::NAN), scored("b", 0.1)];
    assert_eq!(ids(&rank(v, 0.0f32.to_bits(), 10)), vec!["b"]);
}

#[test]
fn rows_are_always_made() {
    let m = memo("a", "c", None);
    let r = MemoRow::from_memo(&m).unwrap();
    assert_eq!(r.metadata, "{}");
    assert!(r.embedding.is_empty());
}
