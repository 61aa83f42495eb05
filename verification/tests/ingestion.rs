use markov_chat::ingest::ingest;
use markov_chat::store::WordPairStore;

#[test]
fn ingest_empty_message_records_nothing() {
    let mut store = WordPairStore::new();
    ingest(&mut store, "");
    assert_eq!(store.len(), 0);
}

#[test]
fn ingest_spaces_only_records_nothing() {
    let mut store = WordPairStore::new();
    ingest(&mut store, "  ");
    assert_eq!(store.len(), 0);
}

#[test]
fn ingest_single_token_records_nothing() {
    let mut store = WordPairStore::new();
    ingest(&mut store, "one");
    assert_eq!(store.len(), 0);
}

#[test]
fn ingest_irregular_spacing_collapses_runs() {
    let mut store = WordPairStore::new();
    ingest(&mut store, "a  b   c");
    assert_eq!(store.len(), 2);
    let p0 = store.pair_at(0);
    assert_eq!(p0.0, "a");
    assert_eq!(p0.1, "b");
    let p1 = store.pair_at(1);
    assert_eq!(p1.0, "b");
    assert_eq!(p1.1, "c");
}

#[test]
fn ingest_records_n_minus_one_pairs_in_order() {
    let mut store = WordPairStore::new();
    ingest(&mut store, "w1 w2 w3 w4 w5");
    assert_eq!(store.len(), 4);
    let expected = [("w1", "w2"), ("w2", "w3"), ("w3", "w4"), ("w4", "w5")];
    for (i, (a, b)) in expected.iter().enumerate() {
        let p = store.pair_at(i);
        assert_eq!(p.0, *a);
        assert_eq!(p.1, *b);
    }
}

#[test]
fn ingest_appends_across_messages() {
    let mut store = WordPairStore::new();
    ingest(&mut store, "a b");
    ingest(&mut store, "c d");
    assert_eq!(store.len(), 2);
    let p1 = store.pair_at(1);
    assert_eq!(p1.0, "c");
    assert_eq!(p1.1, "d");
}
