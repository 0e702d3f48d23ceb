use memo::embed::{cosine, LocalEmbedder};
use memo::error::MemoError;
use memo::keyword::keyword_overlap;
use memo::lifecycle::{decay_importance, prune};
use memo::bench::run_bench;
use memo::commands;
use memo::manager::MemoryManager;
use memo::model::{LongTermKind, Memo, MemoId, MemoPatch, MemoType, RecallQuery, ScoredMemo, SearchQuery};
use memo::ranking::rank;
use memo::traits::{Embedder, MemoStore};
use std::collections::HashMap;

fn f(bits: u32) -> f32 {
    f32::from_bits(bits)
}

fn cosine_f32(a: &Vec<u32>, b: &Vec<u32>) -> u32 {
    let dot: f32 = a.iter().zip(b).map(|(x, y)| f(*x) * f(*y)).sum();
    let na = a.iter().map(|x| f(*x) * f(*x)).sum::<f32>().sqrt();
    let nb = b.iter().map(|x| f(*x) * f(*x)).sum::<f32>().sqrt();
    if na == 0.0 || nb == 0.0 {
        return 0.0f32.to_bits();
    }
    (dot / (na * nb)).to_bits()
}

fn similarity(a: &Vec<u32>, b: &Vec<u32>) -> Option<u32> {
    cosine(a, b, cosine_f32).ok()
}

/// The local embedder with its counts normalized to a unit vector.
struct UnitEmbedder(LocalEmbedder);

impl Embedder for UnitEmbedder {
    fn embed(&self, text: &str) -> Result<Vec<u32>, MemoError> {
        let counts = self.0.term_counts(text)?;
        let max = counts.iter().map(|c| *c as f32).fold(1.0f32, f32::max);
        let v: Vec<f32> = counts
            .iter()
            .map(|c| if *c == 0 { 0.0 } else { (*c as f32 / max).sqrt() })
            .collect();
        let norm = v.iter().map(|x| x * x).sum::<f32>().sqrt();
        if norm == 0.0 {
            return Err(MemoError::EmptyEmbedding);
        }
        Ok(v.iter().map(|x| (x / norm).to_bits()).collect())
    }

    fn dim(&self) -> usize {
        self.0.dim()
    }
}

/// Memories kept in a vector, scored like the SQLite store.
#[derive(Default)]
struct VecStore {
    memos: Vec<Memo>,
}

impl MemoStore for VecStore {
    fn add(&mut self, memo: &Memo) -> Result<(), MemoError> {
        memo.validate()?;
        if self.memos.iter().any(|m| m.id == memo.id) {
            return Err(MemoError::DuplicateId(memo.id.clone()));
        }
        self.memos.push(memo.clone());
        Ok(())
    }

    fn get(&self, id: &MemoId) -> Result<Option<Memo>, MemoError> {
        Ok(self.memos.iter().find(|m| &m.id == id).cloned())
    }

    fn update(&mut self, memo: &Memo) -> Result<(), MemoError> {
        match self.memos.iter_mut().find(|m| m.id == memo.id) {
            Some(m) => {
                *m = memo.clone();
                Ok(())
            }
            None => Err(MemoError::NotFound(memo.id.clone())),
        }
    }

    fn forget(&mut self, id: &MemoId) -> Result<bool, MemoError> {
        let before = self.memos.len();
        self.memos.retain(|m| &m.id != id);
        Ok(self.memos.len() < before)
    }

    fn search(&self, q: &SearchQuery) -> Result<Vec<ScoredMemo>, MemoError> {
        q.validate()?;
        let candidates: Vec<ScoredMemo> = self
            .memos
            .iter()
            .filter(|m| q.memo_type.map_or(true, |t| t == m.memo_type))
            .map(|m| {
                let semantic = match (&q.query_embedding, &m.embedding) {
                    (Some(a), Some(b)) => similarity(a, b).map(f).unwrap_or(0.0),
                    _ => 0.0,
                };
                let (hit, total) = keyword_overlap(&m.content, &q.text);
                let keyword = hit as f32 / total as f32;
                let score = f(q.semantic_weight) * semantic + f(q.keyword_weight) * keyword;
                ScoredMemo {
                    memo: m.clone(),
                    score: score.to_bits(),
                }
            })
            .collect();
        Ok(rank(candidates, q.score_threshold, q.top_k))
    }

    fn list(&self, memo_type: Option<MemoType>) -> Result<Vec<Memo>, MemoError> {
        Ok(self
            .memos
            .iter()
            .filter(|m| memo_type.map_or(true, |t| t == m.memo_type))
            .cloned()
            .collect())
    }
}

fn mgr() -> MemoryManager<UnitEmbedder, VecStore> {
    MemoryManager::new(UnitEmbedder(LocalEmbedder::new(64)), VecStore::default())
}

fn semantic() -> MemoType {
    MemoType::LongTerm {
        kind: LongTermKind::Semantic,
    }
}

#[test]
fn golden_path_add_search_get() {
    let mut m = mgr();
    let id = m
        .add(
            "user prefers rust for systems programming",
            MemoType::Working,
            HashMap::new(),
            0.8f32.to_bits(),
        )
        .unwrap();
    let mut q = SearchQuery::new("rust systems");
    q.top_k = 5;
    let rs = m.search(q).unwrap();
    assert!(!rs.is_empty());
    assert_eq!(rs[0].memo.id, id);
    let got = m.get(&id).unwrap().unwrap();
    assert!(got.content.contains("rust"));
    assert!(got.embedding.is_some());
}

#[test]
fn add_validation_errors() {
    let mut m = mgr();
    assert!(matches!(
        m.add("", MemoType::Working, HashMap::new(), 0.5f32.to_bits()),
        Err(MemoError::EmptyContent)
    ));
    assert!(matches!(
        m.add("x", MemoType::Working, HashMap::new(), 1.5f32.to_bits()),
        Err(MemoError::InvalidParam(_))
    ));
}

#[test]
fn update_changes_content_and_embedding() {
    let mut m = mgr();
    let id = m
        .add("old content here", MemoType::ShortTerm, HashMap::new(), 0.5f32.to_bits())
        .unwrap();
    m.update(
        &id,
        MemoPatch {
            content: Some("new fresh content".into()),
            ..Default::default()
        },
    )
    .unwrap();
    let got = m.get(&id).unwrap().unwrap();
    assert_eq!(got.content, "new fresh content");
    assert_eq!(got.version, 2);
}

#[test]
fn update_missing_is_not_found() {
    let mut m = mgr();
    assert!(matches!(
        m.update(
            &"missing".to_string(),
            MemoPatch {
                content: Some("x".into()),
                ..Default::default()
            }
        ),
        Err(MemoError::NotFound(_))
    ));
    assert!(matches!(
        m.update(&"missing".to_string(), MemoPatch::default()),
        Err(MemoError::InvalidParam(_))
    ));
}

#[test]
fn forget_returns_bool() {
    let mut m = mgr();
    let id = m
        .add("to forget", MemoType::Working, HashMap::new(), 0.5f32.to_bits())
        .unwrap();
    assert!(m.forget(&id).unwrap());
    assert!(!m.forget(&id).unwrap());
}

#[test]
fn consolidate_clamps() {
    let mut m = mgr();
    let id = m
        .add("imp", MemoType::Working, HashMap::new(), 0.5f32.to_bits())
        .unwrap();
    m.consolidate(&id, |i: u32| (f(i) + 1.0).clamp(0.0, 1.0).to_bits())
        .unwrap();
    assert!((f(m.get(&id).unwrap().unwrap().importance) - 1.0).abs() < 1e-6);
    m.consolidate(&id, |i: u32| (f(i) - 5.0).clamp(0.0, 1.0).to_bits())
        .unwrap();
    assert!(f(m.get(&id).unwrap().unwrap().importance).abs() < 1e-6);
}

#[test]
fn dedup_merges_similar() {
    let mut m = mgr();
    m.add("user likes rust language", semantic(), HashMap::new(), 0.9f32.to_bits())
        .unwrap();
    m.add("user likes rust language", semantic(), HashMap::new(), 0.4f32.to_bits())
        .unwrap();
    let removed = m.dedup(0.95f32.to_bits(), similarity).unwrap();
    assert_eq!(removed, 1);
    let left = m.list(None).unwrap();
    assert_eq!(left.len(), 1);
    assert_eq!(left[0].content, "user likes rust language | user likes rust language");
    assert_eq!(f(left[0].importance), 0.9);
    assert_eq!(left[0].version, 2);
}

#[test]
fn dedup_keeps_dissimilar_and_rejects_bad_threshold() {
    let mut m = mgr();
    m.add("user likes rust language", semantic(), HashMap::new(), 0.9f32.to_bits())
        .unwrap();
    m.add("banana smoothie recipe with ice", semantic(), HashMap::new(), 0.4f32.to_bits())
        .unwrap();
    assert_eq!(m.dedup(0.95f32.to_bits(), similarity).unwrap(), 0);
    assert_eq!(m.list(None).unwrap().len(), 2);
    assert!(matches!(
        m.dedup(1.5f32.to_bits(), similarity),
        Err(MemoError::InvalidParam(_))
    ));
}

#[test]
fn consolidate_missing_is_not_found() {
    let mut m = mgr();
    assert!(matches!(
        m.consolidate(&"nope".to_string(), |i: u32| i),
        Err(MemoError::NotFound(_))
    ));
}

#[test]
fn update_rejects_blank_content_and_bad_importance() {
    let mut m = mgr();
    let id = m
        .add("stable content", MemoType::Working, HashMap::new(), 0.5f32.to_bits())
        .unwrap();
    assert!(matches!(
        m.update(
            &id,
            MemoPatch {
                content: Some("   ".into()),
                ..Default::default()
            }
        ),
        Err(MemoError::EmptyContent)
    ));
    assert!(matches!(
        m.update(
            &id,
            MemoPatch {
                importance: Some(2.0f32.to_bits()),
                ..Default::default()
            }
        ),
        Err(MemoError::InvalidParam(_))
    ));
    m.update(
        &id,
        MemoPatch {
            memo_type: Some(MemoType::ShortTerm),
            ..Default::default()
        },
    )
    .unwrap();
    let got = m.get(&id).unwrap().unwrap();
    assert_eq!(got.memo_type, MemoType::ShortTerm);
    assert_eq!(got.content, "stable content");
    assert_eq!(got.version, 2);
}

#[test]
fn search_rejects_invalid_query() {
    let m = mgr();
    assert!(matches!(
        m.search(SearchQuery::new("  ")),
        Err(MemoError::InvalidParam(_))
    ));
}

#[test]
fn recall_ranks_similar_first() {
    let mut m = mgr();
    let a = m
        .add("user prefers rust programming language", MemoType::Working, HashMap::new(), 0.5f32.to_bits())
        .unwrap();
    m.add("banana smoothie recipe with ice", MemoType::Working, HashMap::new(), 0.5f32.to_bits())
        .unwrap();
    let rs = m
        .recall(RecallQuery::new("user likes rust programming language"), similarity)
        .unwrap();
    assert_eq!(rs.len(), 2);
    assert_eq!(rs[0].memo.id, a);
    assert!(f(rs[0].score) > f(rs[1].score));
    assert!(matches!(
        m.recall(RecallQuery::new(""), similarity),
        Err(MemoError::InvalidParam(_))
    ));
}

#[test]
fn recall_uses_given_vector() {
    let mut m = mgr();
    m.add("user prefers rust programming language", MemoType::Working, HashMap::new(), 0.5f32.to_bits())
        .unwrap();
    let mut q = RecallQuery::new("anything");
    // A vector of the wrong length scores 0 against every memory.
    q.query_embedding = Some(vec![1.0f32.to_bits()]);
    let rs = m.recall(q, similarity).unwrap();
    assert_eq!(rs.len(), 1);
    assert_eq!(rs[0].score, 0.0f32.to_bits());
}

fn sample(id: &str, importance: f32) -> Memo {
    Memo {
        id: id.into(),
        memo_type: MemoType::LongTerm {
            kind: LongTermKind::Episodic,
        },
        content: "x".into(),
        embedding: Some(vec![0.1f32.to_bits()]),
        metadata: HashMap::new(),
        importance: importance.to_bits(),
        version: 1,
        created_at: 0,
        updated_at: 0,
    }
}

fn half_life(importance: u32, elapsed: i64, half: i64) -> u32 {
    let factor = 0.5f64.powf(elapsed as f64 / half as f64);
    let v = f(importance) as f64 * factor;
    (if v < 0.0 { 0.0 } else { v as f32 }).to_bits()
}

#[test]
fn lifecycle_decay_halves_at_half_life() {
    let mut m = sample("a", 1.0);
    decay_importance(&mut m, 100, 100, half_life);
    assert!((f(m.importance) - 0.5).abs() < 1e-6);
    decay_importance(&mut m, 0, 100, half_life);
    assert!((f(m.importance) - 0.5).abs() < 1e-6);
}

#[test]
fn decay_reduces_and_skips_invalid() {
    let mut m = sample("a", 1.0);
    decay_importance(&mut m, 100, 200, half_life);
    assert!(f(m.importance) < 1.0 && f(m.importance) > 0.5, "importance={}", f(m.importance));
    let before = m.importance;
    decay_importance(&mut m, 100, 0, half_life);
    decay_importance(&mut m, -10, 100, half_life);
    decay_importance(&mut m, 0, 100, half_life);
    assert_eq!(m.importance, before);
}

#[test]
fn lifecycle_prune_removes_low_importance() {
    let mut s = VecStore::default();
    s.add(&sample("a", 0.1)).unwrap();
    s.add(&sample("b", 0.9)).unwrap();
    let n = prune(&mut s, 0.3f32.to_bits()).unwrap();
    assert_eq!(n, 1);
    assert!(s.get(&"a".into()).unwrap().is_none());
    assert!(s.get(&"b".into()).unwrap().is_some());
}

#[test]
fn prune_invalid_floor_and_noop() {
    let mut s = VecStore::default();
    assert!(matches!(prune(&mut s, 2.0f32.to_bits()), Err(MemoError::InvalidParam(_))));
    s.add(&sample("a", 0.9)).unwrap();
    s.add(&sample("b", 0.9)).unwrap();
    assert_eq!(prune(&mut s, 0.5f32.to_bits()).unwrap(), 0);
    assert_eq!(s.list(None).unwrap().len(), 2);
}

#[test]
fn trait_contract_add_get_forget() {
    let mut s = VecStore::default();
    let m = Memo {
        id: "a".into(),
        memo_type: MemoType::Working,
        content: "x".into(),
        embedding: None,
        metadata: HashMap::new(),
        importance: 0.5f32.to_bits(),
        version: 1,
        created_at: 0,
        updated_at: 0,
    };
    s.add(&m).unwrap();
    assert!(s.get(&"a".into()).unwrap().is_some());
    assert!(s.forget(&"a".into()).unwrap());
    assert!(!s.forget(&"a".into()).unwrap());
    s.add(&m).unwrap();
    let dup = Memo {
        id: "a".into(),
        ..m.clone()
    };
    assert!(matches!(s.add(&dup), Err(MemoError::DuplicateId(_))));
    let mut bad = m.clone();
    bad.content = "".into();
    assert!(matches!(s.add(&bad), Err(MemoError::EmptyContent)));
}

struct ConstEmbedder;

impl Embedder for ConstEmbedder {
    fn embed(&self, _text: &str) -> Result<Vec<u32>, MemoError> {
        Ok(vec![1.0f32.to_bits(), 0, 0])
    }

    fn dim(&self) -> usize {
        3
    }
}

#[test]
fn embedder_dim_and_value() {
    let e = ConstEmbedder;
    assert_eq!(e.dim(), 3);
    assert_eq!(e.embed("anything").unwrap(), vec![1.0f32.to_bits(), 0, 0]);
}

#[test]
fn add_batch_adds_in_order_and_stops_at_duplicate() {
    let mut s = VecStore::default();
    s.add_batch(&[sample("a", 0.5), sample("b", 0.5)]).unwrap();
    assert_eq!(s.list(None).unwrap().len(), 2);
    assert!(matches!(
        s.add_batch(&[sample("c", 0.5), sample("a", 0.5)]),
        Err(MemoError::DuplicateId(_))
    ));
    assert!(s.get(&"c".into()).unwrap().is_some());
}

#[test]
fn cli_bench_rejects_zero_size() {
    let mut m = mgr();
    assert!(matches!(run_bench(&mut m, 0, 5, 0), Err(MemoError::InvalidParam(_))));
    assert!(matches!(run_bench(&mut m, 5, 0, 0), Err(MemoError::InvalidParam(_))));
    assert!(m.list(None).unwrap().is_empty());
}

#[test]
fn bench_runs_the_workload() {
    let mut m = mgr();
    let t = run_bench(&mut m, 8, 3, 1).unwrap();
    assert_eq!(t.add.len(), 8);
    assert_eq!(t.search.len(), 8);
    let all = m.list(None).unwrap();
    assert_eq!(all.len(), 9);
    assert!(all.iter().any(|x| x.content == "warmup memo content 0"));
    assert!(all.iter().any(|x| x.content
        == "bench item 7: user prefers rust systems programming and local-first memo 7"));
}

#[test]
fn cli_unknown_type_falls_back_to_working() {
    let mut m = mgr();
    let id = commands::add(&mut m, "bogus", "x", 0.5f32.to_bits())
        .expect("unknown type should fall back, not error");
    assert!(!id.is_empty());
    assert_eq!(m.get(&id).unwrap().unwrap().memo_type, MemoType::Working);
    let id2 = commands::add(&mut m, "short_term", "y", 0.5f32.to_bits()).unwrap();
    assert_eq!(m.get(&id2).unwrap().unwrap().memo_type, MemoType::ShortTerm);
}

#[test]
fn cli_update_success_and_errors() {
    let mut m = mgr();
    let id = commands::add(&mut m, "working", "old content", 0.5f32.to_bits()).unwrap();
    assert!(commands::update(&mut m, &id, None, None, None).is_err());
    commands::update(&mut m, &id, Some("new content"), None, Some(0.9f32.to_bits())).unwrap();
    let got = m.get(&id).unwrap().unwrap();
    assert_eq!(got.content, "new content");
    assert_eq!(f(got.importance) as f64, 0.9f32 as f64);
    assert_eq!(got.version, 2);
    assert!(commands::update(&mut m, &id, Some("x"), Some("bogus"), None).is_err());
    assert!(commands::update(&mut m, "nope", Some("x"), None, None).is_err());
}

#[test]
fn cli_forget_reports() {
    let mut m = mgr();
    let id = commands::add(&mut m, "working", "user likes rust", 0.8f32.to_bits()).unwrap();
    assert_eq!(commands::forget(&mut m, &id).unwrap(), "forgotten");
    assert_eq!(commands::forget(&mut m, &id).unwrap(), "not found");
}

#[test]
fn update_found_error_kinds() {
    let mut m = mgr();
    let id = m
        .add("kept content", MemoType::Working, HashMap::new(), 0.5f32.to_bits())
        .unwrap();
    let found = m.get(&id).unwrap();
    let patch = |content: Option<&str>, importance: Option<f32>| MemoPatch {
        content: content.map(|c| c.to_string()),
        importance: importance.map(f32::to_bits),
        ..Default::default()
    };
    match m.update_found(&"nope".to_string(), None, patch(Some("x"), None)) {
        Err(MemoError::NotFound(s)) => assert_eq!(s, "nope"),
        other => panic!("unexpected {other:?}"),
    }
    assert!(matches!(
        m.update_found(&id, found.clone(), patch(Some(" "), None)),
        Err(MemoError::EmptyContent)
    ));
    assert!(matches!(
        m.update_found(&id, found.clone(), patch(None, Some(1.5))),
        Err(MemoError::InvalidParam(_))
    ));
    assert_eq!(m.get(&id).unwrap().unwrap().version, 1);
    m.update_found(&id, found, patch(None, Some(0.25))).unwrap();
    let got = m.get(&id).unwrap().unwrap();
    assert_eq!(f(got.importance), 0.25);
    assert_eq!(got.version, 2);
}

#[test]
fn consolidate_found_error_and_effect() {
    let mut m = mgr();
    let id = m
        .add("imp", MemoType::Working, HashMap::new(), 0.5f32.to_bits())
        .unwrap();
    assert!(matches!(
        m.consolidate_found(&"x".to_string(), None, |i: u32| i),
        Err(MemoError::NotFound(_))
    ));
    let found = m.get(&id).unwrap();
    m.consolidate_found(&id, found, |i: u32| (f(i) + 0.25).clamp(0.0, 1.0).to_bits())
        .unwrap();
    let got = m.get(&id).unwrap().unwrap();
    assert_eq!(f(got.importance), 0.75);
    assert_eq!(got.version, 2);
}

#[test]
fn query_gets_its_vector() {
    let m = mgr();
    let q = m.query_with_vector(SearchQuery::new("rust systems")).unwrap();
    assert_eq!(q.text, "rust systems");
    assert_eq!(q.query_embedding.as_ref().map(|v| v.len()), Some(64));
    let mut given = SearchQuery::new("x");
    given.query_embedding = Some(vec![7]);
    assert_eq!(m.query_with_vector(given).unwrap().query_embedding, Some(vec![7]));
}

#[test]
fn embedder_errors_come_back_unchanged() {
    let mut m = mgr();
    match m.add_embedded(
        "x",
        MemoType::Working,
        HashMap::new(),
        0.5f32.to_bits(),
        Err(MemoError::Embedding("boom".into())),
    ) {
        Err(MemoError::Embedding(s)) => assert_eq!(s, "boom"),
        other => panic!("unexpected {other:?}"),
    }
    assert!(m.list(None).unwrap().is_empty());
    let id = m
        .add_embedded("x", MemoType::Working, HashMap::new(), 0.5f32.to_bits(), Ok(vec![1, 2]))
        .unwrap();
    let before = m.get(&id).unwrap().unwrap();
    assert_eq!(before.embedding, Some(vec![1, 2]));
    let patch = MemoPatch {
        content: Some("y".into()),
        importance: Some(2.0f32.to_bits()),
        ..Default::default()
    };
    assert!(matches!(
        m.update_embedded(&id, before.clone(), patch.clone(), Some(Err(MemoError::EmptyEmbedding))),
        Err(MemoError::EmptyEmbedding)
    ));
    assert!(matches!(
        m.update_embedded(&id, before.clone(), patch, Some(Ok(vec![3]))),
        Err(MemoError::InvalidParam(_))
    ));
    let ok = MemoPatch {
        content: Some("y".into()),
        ..Default::default()
    };
    m.update_embedded(&id, before, ok, Some(Ok(vec![3]))).unwrap();
    let got = m.get(&id).unwrap().unwrap();
    assert_eq!(got.content, "y");
    assert_eq!(got.embedding, Some(vec![3]));
    assert_eq!(got.version, 2);
}

#[test]
fn version_wraps_at_its_largest() {
    let mut old = sample("a", 0.5);
    old.version = u64::MAX;
    old.created_at = 7;
    let mut m = MemoryManager::new(
        UnitEmbedder(LocalEmbedder::new(64)),
        VecStore { memos: vec![old] },
    );
    m.update(
        &"a".to_string(),
        MemoPatch {
            memo_type: Some(MemoType::Working),
            ..Default::default()
        },
    )
    .unwrap();
    let got = m.get(&"a".to_string()).unwrap().unwrap();
    assert_eq!(got.version, 0);
    assert_eq!(got.created_at, 7);
}

#[test]
fn second_dedup_merges_nothing() {
    let mut m = mgr();
    m.add("user likes rust language", semantic(), HashMap::new(), 0.9f32.to_bits())
        .unwrap();
    m.add("user likes rust language", semantic(), HashMap::new(), 0.4f32.to_bits())
        .unwrap();
    m.add("banana smoothie recipe with ice", semantic(), HashMap::new(), 0.5f32.to_bits())
        .unwrap();
    assert_eq!(m.dedup(0.95f32.to_bits(), similarity).unwrap(), 1);
    let before = m.list(None).unwrap();
    assert_eq!(m.dedup(0.95f32.to_bits(), similarity).unwrap(), 0);
    let after = m.list(None).unwrap();
    assert_eq!(before.len(), after.len());
    for (a, b) in before.iter().zip(after.iter()) {
        assert_eq!(a.id, b.id);
        assert_eq!(a.version, b.version);
        assert_eq!(a.content, b.content);
    }
}
