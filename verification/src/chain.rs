//! The chain generator: walks the word-pair store from a start phrase,
//! sampling one successor word at a time until a dead end, an empty-string
//! terminator, or the word bound.

use vstd::prelude::*;
use crate::store::WordPairStore;
use crate::store::successors_of;
use crate::text::last_word;
use crate::text::last_word_of;

verus! {

/// The default bound on the number of generated words.
pub const DEFAULT_MAX_WORDS: u32 = 21;

/// The outcome of one generation request.
#[derive(Debug)]
pub enum GeneratedText {
    /// No start phrase exists: no seed was given and the store holds no row.
    Empty,
    /// A start phrase exists but not one successor word was found.
    Unavailable,
    /// The start phrase, echoed back, followed by each generated word with a
    /// trailing space.
    Text(String),
}

/// Whether `w` can follow `prev` in one generation step: `w` is a recorded
/// successor of `prev` and is not the empty-string terminator.
pub open spec fn chain_step(
    ps: Seq<(Seq<char>, Seq<char>)>,
    prev: Seq<char>,
    w: Seq<char>,
) -> bool {
    successors_of(ps, prev).contains(w) && w.len() > 0
}

/// The word that precedes position `i` of a chain whose start word is
/// `first`.
pub open spec fn chain_prev(first: Seq<char>, ws: Seq<Seq<char>>, i: int) -> Seq<char> {
    if i == 0 {
        first
    } else {
        ws[i - 1]
    }
}

/// A valid chain from `first`: every word is a recorded successor of the
/// word before it, and no word is empty.
pub open spec fn valid_chain(
    ps: Seq<(Seq<char>, Seq<char>)>,
    first: Seq<char>,
    ws: Seq<Seq<char>>,
) -> bool {
    forall|i: int|
        0 <= i < ws.len() ==> #[trigger] chain_step(ps, chain_prev(first, ws, i), ws[i])
}

/// The rendered reply text: the start phrase, one space, then each generated
/// word with one trailing space.
pub open spec fn rendered(start: Seq<char>, ws: Seq<Seq<char>>) -> Seq<char>
    decreases ws.len(),
{
    if ws.len() == 0 {
        start + seq![' ']
    } else {
        rendered(start, ws.drop_last()) + ws.last() + seq![' ']
    }
}

/// The start phrase is always echoed back: whatever words a generation walk
/// appended, the rendered reply begins with the start phrase followed by one
/// space.
pub proof fn lemma_rendered_prefix(start: Seq<char>, ws: Seq<Seq<char>>)
    ensures
        rendered(start, ws).len() >= start.len() + 1,
        rendered(start, ws).take(start.len() as int + 1) == start + seq![' '],
    decreases ws.len(),
{
    if ws.len() == 0 {
        assert((start + seq![' ']).take(start.len() as int + 1) =~= start + seq![' ']);
    } else {
        lemma_rendered_prefix(start, ws.drop_last());
        let r = rendered(start, ws.drop_last());
        assert((r + ws.last() + seq![' ']).take(start.len() as int + 1) =~= r.take(
            start.len() as int + 1,
        ));
    }
}

/// What generation from the fixed start phrase `start` guarantees of its
/// outcome `g`, whatever randomness the successor samples drew: the chain
/// starts at the last word of `start`, a dead end at the start is reported
/// as `Unavailable`, at least one word is owed whenever the start word has
/// successors and none of them is the empty-string terminator, and any text
/// renders a valid chain of no more than `max_words` words.
pub open spec fn generated_from(
    ps: Seq<(Seq<char>, Seq<char>)>,
    start: Seq<char>,
    max_words: u32,
    g: GeneratedText,
) -> bool {
    let w0 = last_word_of(start);
    let succ = successors_of(ps, w0);
    &&& !(g is Empty)
    &&& (succ.len() == 0 ==> g is Unavailable)
    &&& (g is Unavailable ==> (max_words == 0 || succ.len() == 0 || succ.contains(
        Seq::<char>::empty(),
    )))
    &&& (succ.len() > 0 && max_words >= 1 && (forall|j: int|
        0 <= j < succ.len() ==> #[trigger] succ[j].len() > 0) ==> g is Text)
    &&& (g matches GeneratedText::Text(t) ==> exists|ws: Seq<Seq<char>>|
        {
            &&& valid_chain(ps, w0, ws)
            &&& 1 <= ws.len() <= max_words
            &&& t@ == rendered(start, ws)
        })
}

/// Whether a seed was supplied and is non-empty, so that generation starts
/// from it verbatim.
pub open spec fn seeded(seed: Option<Seq<char>>) -> bool {
    seed matches Some(s) && s.len() > 0
}

/// What `generate` guarantees of its outcome `g`: `Empty` exactly when no
/// start phrase exists, a non-empty seed is continued verbatim, and an
/// absent or empty seed continues some recorded start word.
pub open spec fn generated(
    ps: Seq<(Seq<char>, Seq<char>)>,
    seed: Option<Seq<char>>,
    max_words: u32,
    g: GeneratedText,
) -> bool {
    &&& (g is Empty <==> (!seeded(seed) && ps.len() == 0))
    &&& (seed matches Some(s) ==> (s.len() > 0 ==> generated_from(ps, s, max_words, g)))
    &&& (!seeded(seed) && ps.len() > 0 ==> exists|i: int|
        0 <= i < ps.len() && generated_from(ps, #[trigger] ps[i].0, max_words, g))
}

/// The view of the seed argument.
pub open spec fn seed_view(seed: Option<&str>) -> Option<Seq<char>> {
    match seed {
        Some(s) => Some(s@),
        None => None,
    }
}

/// Walks the store from the start phrase `start`: repeatedly samples a
/// successor of the last word, stopping at a dead end, at an empty-string
/// successor, or once `max_words` words were appended; renders the start
/// phrase followed by the words, or `Unavailable` when none was found.
#[verifier::loop_isolation(false)]
fn extend_phrase(store: &WordPairStore, start: String, max_words: u32) -> (g: GeneratedText)
    ensures
        generated_from(store@, start@, max_words, g),
{
    let ghost stv = start@;
    let w0 = last_word(start.as_str());
    let ghost w0v = w0@;
    let mut words: Vec<String> = Vec::new();
    let mut last_w: String = w0;
    let mut count: u32 = 0;
    let mut halted = false;
    proof {
        assert(words@.map_values(|t: String| t@) =~= Seq::<Seq<char>>::empty());
    }
    while !halted && count < max_words
        invariant
            count <= max_words,
            words@.len() == count as int,
            valid_chain(store@, w0v, words@.map_values(|t: String| t@)),
            last_w@ == chain_prev(w0v, words@.map_values(|t: String| t@), count as int),
            halted ==> (successors_of(store@, last_w@).len() == 0 || successors_of(
                store@,
                last_w@,
            ).contains(Seq::<char>::empty())),
        decreases max_words - count, (if halted { 0int } else { 1int }),
    {
        match store.sample_successor(last_w.as_str()) {
            None => {
                halted = true;
            },
            Some(w2) => {
                if w2.as_str().is_empty() {
                    proof {
                        assert(w2@ =~= Seq::<char>::empty());
                    }
                    halted = true;
                } else {
                    let ghost prior = words@.map_values(|t: String| t@);
                    let ghost w2v = w2@;
                    words.push(w2.clone());
                    proof {
                        let nw = words@.map_values(|t: String| t@);
                        assert(nw =~= prior.push(w2v));
                        assert forall|i: int| 0 <= i < nw.len() implies #[trigger] chain_step(
                            store@,
                            chain_prev(w0v, nw, i),
                            nw[i],
                        ) by {
                            if i < prior.len() {
                                assert(chain_step(store@, chain_prev(w0v, prior, i), prior[i]));
                                assert(nw[i] == prior[i]);
                                assert(chain_prev(w0v, nw, i) == chain_prev(w0v, prior, i));
                            } else {
                                assert(chain_prev(w0v, nw, i) == last_w@);
                                assert(successors_of(store@, last_w@).contains(w2v));
                                assert(w2v.len() > 0);
                            }
                        }
                    }
                    last_w = w2;
                    count = count + 1;
                }
            },
        }
    }
    let ghost ws = words@.map_values(|t: String| t@);
    if words.len() == 0 {
        proof {
            let succ = successors_of(store@, w0v);
            assert(last_w@ == w0v);
            if !halted {
                assert(count == max_words && count == 0);
            }
            if succ.len() > 0 && max_words >= 1 && (forall|j: int|
                0 <= j < succ.len() ==> #[trigger] succ[j].len() > 0) {
                assert(halted);
                if succ.contains(Seq::<char>::empty()) {
                    let j = choose|j: int|
                        0 <= j < succ.len() && succ[j] == Seq::<char>::empty();
                    assert(succ[j].len() > 0);
                }
                assert(false);
            }
        }
        GeneratedText::Unavailable
    } else {
        proof {
            if successors_of(store@, w0v).len() == 0 {
                assert(chain_step(store@, chain_prev(w0v, ws, 0), ws[0]));
                assert(false);
            }
        }
        let total = words.len();
        let mut out: String = start;
        out.append(" ");
        proof {
            reveal_strlit(" ");
            assert(" "@ =~= seq![' ']);
            assert(ws.take(0) =~= Seq::<Seq<char>>::empty());
            assert(out@ == rendered(stv, ws.take(0)));
        }
        let mut k: usize = 0;
        while k < total
            invariant
                k <= total,
                out@ == rendered(stv, ws.take(k as int)),
            decreases total - k,
        {
            out.append(words[k].as_str());
            out.append(" ");
            proof {
                assert(ws.take(k as int + 1).drop_last() =~= ws.take(k as int));
                assert(ws.take(k as int + 1).last() == ws[k as int]);
                assert(out@ == rendered(stv, ws.take(k as int + 1)));
            }
            k = k + 1;
        }
        proof {
            assert(ws.take(total as int) =~= ws);
        }
        GeneratedText::Text(out)
    }
}

/// Samples a random recorded start word and continues from it, or reports
/// `Empty` on an empty store.
fn generate_random_start(store: &WordPairStore, max_words: u32) -> (g: GeneratedText)
    ensures
        g is Empty <==> store@.len() == 0,
        store@.len() > 0 ==> exists|i: int|
            0 <= i < store@.len() && generated_from(store@, #[trigger] store@[i].0, max_words, g),
{
    match store.sample_any_start() {
        None => GeneratedText::Empty,
        Some(w) => {
            let ghost wv = w@;
            let g = extend_phrase(store, w, max_words);
            proof {
                let i = choose|i: int| 0 <= i < store@.len() && wv == store@[i].0;
                assert(generated_from(store@, store@[i].0, max_words, g));
            }
            g
        },
    }
}

/// Generates a bounded continuation. A non-empty `seed` is used verbatim as
/// the start phrase; otherwise a uniformly random recorded start word is
/// drawn, and an empty store yields `Empty`. The chain then grows from the
/// last word of the start phrase, one sampled successor at a time, stopping
/// at a dead end (not an error), at an empty-string successor (an explicit
/// terminator), or after `max_words` words. When no word at all was found
/// the outcome is `Unavailable`; otherwise the text is the start phrase
/// followed by every generated word, each with a trailing space.
pub fn generate(store: &WordPairStore, seed: Option<&str>, max_words: u32) -> (g: GeneratedText)
    ensures
        generated(store@, seed_view(seed), max_words, g),
{
    match seed {
        Some(s) => {
            if !s.is_empty() {
                extend_phrase(store, String::from_str(s), max_words)
            } else {
                generate_random_start(store, max_words)
            }
        },
        None => generate_random_start(store, max_words),
    }
}

} // verus!
