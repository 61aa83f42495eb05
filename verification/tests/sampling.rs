use markov_chat::ingest::ingest;
use markov_chat::store::WordPairStore;

#[test]
fn successor_on_empty_store_is_none() {
    let store = WordPairStore::new();
    assert!(store.sample_successor("anything").is_none());
}

#[test]
fn successor_of_unknown_word_is_none() {
    let mut store = WordPairStore::new();
    ingest(&mut store, "a b");
    assert!(store.sample_successor("zzz").is_none());
    // "b" appears only as word2, never as word1.
    assert!(store.sample_successor("b").is_none());
}

#[test]
fn start_on_empty_store_is_none() {
    let store = WordPairStore::new();
    assert!(store.sample_any_start().is_none());
}

#[test]
fn start_is_a_recorded_word1() {
    let mut store = WordPairStore::new();
    ingest(&mut store, "a b");
    for _ in 0..32 {
        assert_eq!(store.sample_any_start().unwrap(), "a");
    }
}

#[test]
fn single_candidate_is_deterministic() {
    let mut store = WordPairStore::new();
    ingest(&mut store, "a b");
    for _ in 0..64 {
        assert_eq!(store.sample_successor("a").unwrap(), "b");
    }
}

#[test]
fn two_candidates_yield_only_those_and_both() {
    let mut store = WordPairStore::new();
    ingest(&mut store, "a b");
    ingest(&mut store, "a c");
    let mut saw_b = false;
    let mut saw_c = false;
    for _ in 0..256 {
        let w = store.sample_successor("a").unwrap();
        match w.as_str() {
            "b" => saw_b = true,
            "c" => saw_c = true,
            other => panic!("unexpected successor {other}"),
        }
    }
    assert!(saw_b && saw_c);
}

#[test]
fn row_multiplicity_weights_the_draw() {
    let mut store = WordPairStore::new();
    ingest(&mut store, "a b");
    ingest(&mut store, "a b");
    ingest(&mut store, "a b");
    ingest(&mut store, "a c");
    let mut b_count: u64 = 0;
    let mut c_count: u64 = 0;
    for _ in 0..4000 {
        let w = store.sample_successor("a").unwrap();
        match w.as_str() {
            "b" => b_count += 1,
            "c" => c_count += 1,
            other => panic!("unexpected successor {other}"),
        }
    }
    assert!(c_count > 0);
    let ratio = b_count as f64 / c_count as f64;
    assert!(ratio > 2.0 && ratio < 4.0, "ratio {ratio} not near 3");
}

#[test]
fn deterministic_sampler_is_uniform_over_rows() {
    let mut store = WordPairStore::new();
    ingest(&mut store, "a b");
    ingest(&mut store, "a c");
    // Matching rows in store order are [b, c]; the index is r mod 2.
    assert_eq!(store.sample_successor_at("a", 0).unwrap(), "b");
    assert_eq!(store.sample_successor_at("a", 1).unwrap(), "c");
    assert_eq!(store.sample_successor_at("a", 2).unwrap(), "b");
    assert_eq!(store.sample_successor_at("a", 7).unwrap(), "c");
    assert!(store.sample_successor_at("b", 0).is_none());
    assert_eq!(store.sample_any_start_at(0).unwrap(), "a");
    assert_eq!(store.sample_any_start_at(5).unwrap(), "a");
}
