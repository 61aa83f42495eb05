use markov_chat::chain::generate;
use markov_chat::chain::GeneratedText;
use markov_chat::chain::DEFAULT_MAX_WORDS;
use markov_chat::ingest::ingest;
use markov_chat::store::WordPairStore;

#[test]
fn empty_store_without_seed_is_empty() {
    let store = WordPairStore::new();
    assert!(matches!(generate(&store, None, DEFAULT_MAX_WORDS), GeneratedText::Empty));
}

#[test]
fn empty_store_with_empty_seed_is_empty() {
    let store = WordPairStore::new();
    assert!(matches!(generate(&store, Some(""), DEFAULT_MAX_WORDS), GeneratedText::Empty));
}

#[test]
fn seed_without_successors_is_unavailable() {
    let store = WordPairStore::new();
    assert!(matches!(
        generate(&store, Some("the cat"), DEFAULT_MAX_WORDS),
        GeneratedText::Unavailable
    ));
}

#[test]
fn dead_end_stops_generation() {
    let mut store = WordPairStore::new();
    ingest(&mut store, "the cat sat");
    match generate(&store, Some("the cat"), DEFAULT_MAX_WORDS) {
        GeneratedText::Text(t) => assert_eq!(t, "the cat sat "),
        other => panic!("expected text, got {other:?}"),
    }
}

#[test]
fn empty_successor_terminates_the_chain() {
    let mut store = WordPairStore::new();
    store.record("s".to_string(), "x".to_string());
    store.record("x".to_string(), "".to_string());
    // The only successor of the seed itself is the empty-string terminator:
    // no word is appended, so generation reports Unavailable.
    assert!(matches!(
        generate(&store, Some("x"), DEFAULT_MAX_WORDS),
        GeneratedText::Unavailable
    ));
    // One step in, the terminator stops the walk and never appears in the
    // output.
    match generate(&store, Some("s"), DEFAULT_MAX_WORDS) {
        GeneratedText::Text(t) => assert_eq!(t, "s x "),
        other => panic!("expected text, got {other:?}"),
    }
}

#[test]
fn generation_never_exceeds_max_words() {
    let mut store = WordPairStore::new();
    // A fully connected store over ten distinct words: no walk ever reaches
    // a dead end.
    let words: Vec<String> = (0..10).map(|i| format!("w{i}")).collect();
    for a in &words {
        for b in &words {
            store.record(a.clone(), b.clone());
        }
    }
    match generate(&store, Some("w0"), DEFAULT_MAX_WORDS) {
        GeneratedText::Text(t) => {
            let appended = t.split(' ').filter(|s| !s.is_empty()).count() - 1;
            assert_eq!(appended, DEFAULT_MAX_WORDS as usize);
        },
        other => panic!("expected text, got {other:?}"),
    }
    match generate(&store, Some("w3"), 5) {
        GeneratedText::Text(t) => {
            let appended = t.split(' ').filter(|s| !s.is_empty()).count() - 1;
            assert_eq!(appended, 5);
        },
        other => panic!("expected text, got {other:?}"),
    }
}

#[test]
fn seed_is_echoed_as_prefix() {
    let mut store = WordPairStore::new();
    ingest(&mut store, "the cat sat");
    for _ in 0..16 {
        match generate(&store, Some("see the cat"), DEFAULT_MAX_WORDS) {
            GeneratedText::Text(t) => assert_eq!(t, "see the cat sat "),
            other => panic!("expected text, got {other:?}"),
        }
    }
}

#[test]
fn unseeded_generation_starts_from_a_recorded_word() {
    let mut store = WordPairStore::new();
    ingest(&mut store, "a b");
    for _ in 0..16 {
        match generate(&store, None, DEFAULT_MAX_WORDS) {
            // Both start rows hold word1 "a", whose only successor is "b".
            GeneratedText::Text(t) => assert_eq!(t, "a b "),
            other => panic!("expected text, got {other:?}"),
        }
    }
}

#[test]
fn zero_max_words_yields_unavailable() {
    let mut store = WordPairStore::new();
    ingest(&mut store, "a b");
    assert!(matches!(generate(&store, Some("a"), 0), GeneratedText::Unavailable));
}
