use rag_core::database::{Database, EmbeddedDocument, SimilarDocument, StoreError};
use rag_core::ranking::rank_by_score;

fn doc(source: &str, embedding: Vec<u64>) -> EmbeddedDocument {
    EmbeddedDocument { source: source.to_string(), embedding }
}

fn store_of(items: &[(&str, &str)]) -> Database {
    let mut db = Database::new();
    for (content, source) in items {
        assert_eq!(db.add_document(content.to_string(), source.to_string(), vec![1, 2]), Ok(true));
    }
    db
}

#[test]
fn ranking_keeps_scores_at_or_above_mean() {
    assert_eq!(rank_by_score(&vec![900, 500, 100]), vec![0, 1]);
}

#[test]
fn ranking_orders_best_first() {
    assert_eq!(rank_by_score(&vec![100, 500, 900]), vec![2, 1]);
}

#[test]
fn ranking_of_nothing_is_empty() {
    assert_eq!(rank_by_score(&vec![]), Vec::<usize>::new());
}

#[test]
fn ranking_of_one_record_keeps_it() {
    assert_eq!(rank_by_score(&vec![-42]), vec![0]);
}

#[test]
fn ranking_ties_keep_record_order() {
    assert_eq!(rank_by_score(&vec![5, 7, 5, 7, 1]), vec![1, 3, 0, 2]);
}

#[test]
fn ranking_all_equal_keeps_everything() {
    assert_eq!(rank_by_score(&vec![3, 3, 3]), vec![0, 1, 2]);
}

#[test]
fn ranking_negative_scores_not_empty() {
    assert_eq!(rank_by_score(&vec![-3, -1, -2]), vec![1, 2]);
}

#[test]
fn ranking_extreme_scores_do_not_overflow() {
    assert_eq!(rank_by_score(&vec![i64::MAX, i64::MIN, i64::MAX]), vec![0, 2]);
    assert_eq!(rank_by_score(&vec![i64::MIN, i64::MIN]), vec![0, 1]);
}

#[test]
fn search_three_records_filters_low_score() {
    let db = store_of(&[("a", "fa"), ("b", "fb"), ("c", "fc")]);
    let found: Vec<SimilarDocument> = db.similarity_search(&vec![900_000_000, 500_000_000, 100_000_000]);
    assert_eq!(found.len(), 2);
    assert_eq!(found[0].content, "a");
    assert_eq!(found[0].source, "fa");
    assert_eq!(found[0].score, 900_000_000);
    assert_eq!(found[1].content, "b");
    assert_eq!(found[1].source, "fb");
    assert_eq!(found[1].score, 500_000_000);
}

#[test]
fn search_empty_store_gives_nothing() {
    let db = Database::new();
    assert!(db.similarity_search(&vec![]).is_empty());
}

#[test]
fn search_single_record_always_returned() {
    let db = store_of(&[("only", "f")]);
    let found = db.similarity_search(&vec![-7]);
    assert_eq!(found.len(), 1);
    assert_eq!(found[0].content, "only");
}

#[test]
fn add_same_content_twice_keeps_first_source() {
    let mut db = Database::new();
    assert_eq!(db.add_document("X".to_string(), "fileA".to_string(), vec![1, 2, 3]), Ok(true));
    assert_eq!(db.add_document("X".to_string(), "fileB".to_string(), vec![4, 5, 6]), Ok(false));
    assert_eq!(db.len(), 1);
    let entries = db.entries();
    assert_eq!(entries[0].0, "X");
    assert_eq!(entries[0].1.source, "fileA");
    assert_eq!(entries[0].1.embedding, vec![1, 2, 3]);
}

#[test]
fn add_twice_identical_inserts_once() {
    let mut db = Database::new();
    db.add_document("same".to_string(), "s".to_string(), vec![9]).unwrap();
    db.add_document("same".to_string(), "s".to_string(), vec![9]).unwrap();
    assert_eq!(db.len(), 1);
    assert!(db.contains(&"same".to_string()));
    assert!(!db.contains(&"other".to_string()));
}

#[test]
fn add_refuses_other_dimension() {
    let mut db = Database::new();
    db.add_document("a".to_string(), "s".to_string(), vec![1, 2]).unwrap();
    assert_eq!(
        db.add_document("b".to_string(), "s".to_string(), vec![1, 2, 3]),
        Err(StoreError::DimensionMismatch)
    );
    assert_eq!(db.len(), 1);
    assert!(!db.contains(&"b".to_string()));
}

#[test]
fn snapshot_then_load_restores_records() {
    let db = store_of(&[("one", "f1"), ("two", "f2"), ("three", "f3")]);
    let snap = db.snapshot();
    let mut restored = Database::new();
    restored.add_document("stale".to_string(), "old".to_string(), vec![0]).unwrap();
    assert_eq!(restored.load(snap), Ok(()));
    assert_eq!(restored.len(), 3);
    for (content, d) in db.entries() {
        assert!(restored.contains(content));
        let (_, r) = restored.entries().iter().find(|(c, _)| c == content).unwrap();
        assert_eq!(r.source, d.source);
        assert_eq!(r.embedding, d.embedding);
    }
    assert!(!restored.contains(&"stale".to_string()));
}

#[test]
fn load_in_other_order_gives_same_records() {
    let db = store_of(&[("one", "f1"), ("two", "f2")]);
    let mut snap = db.snapshot();
    snap.reverse();
    let mut restored = Database::new();
    assert_eq!(restored.load(snap), Ok(()));
    assert!(restored.contains(&"one".to_string()));
    assert!(restored.contains(&"two".to_string()));
    assert_eq!(restored.len(), 2);
}

#[test]
fn load_refuses_repeated_content() {
    let mut db = store_of(&[("keep", "k")]);
    let snap = vec![("x".to_string(), doc("a", vec![1])), ("x".to_string(), doc("b", vec![2]))];
    assert_eq!(db.load(snap), Err(StoreError::DuplicateContent));
    assert_eq!(db.len(), 1);
    assert!(db.contains(&"keep".to_string()));
}

#[test]
fn load_refuses_mixed_dimensions() {
    let mut db = Database::new();
    let snap = vec![("x".to_string(), doc("a", vec![1])), ("y".to_string(), doc("b", vec![2, 3]))];
    assert_eq!(db.load(snap), Err(StoreError::DimensionMismatch));
    assert_eq!(db.len(), 0);
}

#[test]
fn load_of_empty_snapshot_empties_store() {
    let mut db = store_of(&[("a", "s")]);
    assert_eq!(db.load(vec![]), Ok(()));
    assert_eq!(db.len(), 0);
}

#[test]
fn duplicate_copies_document() {
    let d = doc("src", vec![7, 8]);
    let c = d.duplicate();
    assert_eq!(c.source, "src");
    assert_eq!(c.embedding, vec![7, 8]);
}

#[test]
fn missing_contents_lists_each_new_content_once() {
    let db = store_of(&[("old", "s")]);
    let chunks: Vec<String> =
        ["new1", "old", "new2", "new1", "new2", "old"].iter().map(|s| s.to_string()).collect();
    assert_eq!(db.missing_contents(&chunks), vec!["new1".to_string(), "new2".to_string()]);
}

#[test]
fn missing_contents_of_known_chunks_is_empty() {
    let db = store_of(&[("a", "s"), ("b", "s")]);
    let chunks = vec!["b".to_string(), "a".to_string()];
    assert!(db.missing_contents(&chunks).is_empty());
}
