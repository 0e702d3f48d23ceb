use memo::backend::{BackendKind, ReplicatedBackend};
use memo::error::MemoError;
use memo::ids::generate_id;
use memo::model::{LongTermKind, MemoType};
use memo::traits::StorageBackend;
use std::str::FromStr;

#[test]
fn display_messages() {
    assert_eq!(MemoError::EmptyContent.message(), "empty content");
    assert_eq!(
        MemoError::NotFound("x1".into()).message(),
        "memo not found: x1"
    );
    assert_eq!(
        MemoError::DuplicateId("x2".into()).message(),
        "duplicate memo id: x2"
    );
    assert!(MemoError::Db("boom".into()).message().contains("boom"));
}

#[test]
fn io_from_conversion() {
    let e: MemoError = std::io::Error::other("disk").into();
    match e {
        MemoError::Io(_) => {}
        other => panic!("expected Io, got {other:?}"),
    }
}

#[test]
fn invalid_param_carries_reason() {
    let e = MemoError::InvalidParam("top_k=0".into());
    assert!(e.message().contains("top_k=0"));
}

#[test]
fn memo_type_roundtrip() {
    for t in [
        MemoType::Working,
        MemoType::ShortTerm,
        MemoType::LongTerm {
            kind: LongTermKind::Episodic,
        },
        MemoType::LongTerm {
            kind: LongTermKind::Semantic,
        },
        MemoType::LongTerm {
            kind: LongTermKind::Entity,
        },
        MemoType::LongTerm {
            kind: LongTermKind::Graph,
        },
    ] {
        let s = t.as_str();
        assert_eq!(<MemoType as std::str::FromStr>::from_str(&s).unwrap(), t);
    }
}

#[test]
fn memo_type_invalid() {
    assert!(<MemoType as std::str::FromStr>::from_str("bogus").is_err());
}

#[test]
fn generate_id_unique() {
    let a = generate_id();
    let b = generate_id();
    assert_ne!(a, b);
}

#[test]
fn replicated_backend_not_implemented() {
    assert!(ReplicatedBackend::open("any").is_err());
    assert_eq!(
        ReplicatedBackend::new().backend_kind(),
        BackendKind::Replicated.as_str()
    );
}

#[test]
fn backend_kind_roundtrip() {
    for k in [BackendKind::Embedded, BackendKind::Replicated] {
        assert_eq!(BackendKind::from_str(k.as_str()).unwrap(), k);
    }
    assert!("bogus".parse::<BackendKind>().is_err());
}

#[test]
fn every_message() {
    assert_eq!(MemoError::EmptyEmbedding.message(), "empty embedding");
    assert_eq!(MemoError::InvalidParam("p".into()).message(), "invalid parameter: p");
    assert_eq!(MemoError::Serialization("s".into()).message(), "serialization error: s");
    assert_eq!(MemoError::Embedding("e".into()).message(), "embedding error: e");
    assert_eq!(MemoError::Other("o".into()).message(), "other error: o");
    assert_eq!(MemoError::Db("d".into()).message(), "database error: d");
    let io: MemoError = std::io::Error::other("disk").into();
    assert_eq!(io.message(), "io error: disk");
}

#[test]
fn backend_kind_names() {
    assert_eq!(BackendKind::Embedded.as_str(), "embedded");
    assert_eq!(BackendKind::Replicated.as_str(), "replicated");
    assert!(ReplicatedBackend::default().migrate().is_err());
    match BackendKind::parse("x") {
        Err(MemoError::InvalidParam(m)) => assert_eq!(m, "unknown backend kind: x"),
        other => panic!("unexpected {other:?}"),
    }
}

#[test]
fn errors_clone() {
    let e = MemoError::NotFound("a".into());
    assert!(matches!(e.clone(), MemoError::NotFound(s) if s == "a"));
    let io: MemoError = std::io::Error::new(std::io::ErrorKind::NotFound, "gone").into();
    match io.clone() {
        MemoError::Io(c) => {
            assert_eq!(c.kind(), std::io::ErrorKind::NotFound);
            assert_eq!(c.to_string(), "gone");
        }
        other => panic!("unexpected {other:?}"),
    }
}
