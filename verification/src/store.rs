//! The word-pair store: an append-only multiset of ordered word-pair
//! observations, with uniformly randomized sampling over matching rows.

use vstd::prelude::*;

verus! {

/// One observed adjacency: `word1` immediately followed by `word2` in some
/// ingested message. Repeated identical pairs are meaningful: they raise the
/// transition's sampling weight.
pub struct WordPair {
    pub word1: String,
    pub word2: String,
}

impl View for WordPair {
    type V = (Seq<char>, Seq<char>);

    open spec fn view(&self) -> (Seq<char>, Seq<char>) {
        (self.word1@, self.word2@)
    }
}

/// The successors of `w`: the second components of all pairs whose first
/// component is `w`, in store order (one entry per row, so multiplicity
/// carries sampling weight).
pub open spec fn successors_of(ps: Seq<(Seq<char>, Seq<char>)>, w: Seq<char>) -> Seq<Seq<char>>
    decreases ps.len(),
{
    if ps.len() == 0 {
        Seq::empty()
    } else {
        let rest = successors_of(ps.drop_last(), w);
        if ps.last().0 == w {
            rest.push(ps.last().1)
        } else {
            rest
        }
    }
}

/// What sampling a start word with randomness `r` yields: the first component
/// of the row at index `r` modulo the number of rows, or `None` on an empty
/// store.
pub open spec fn start_sample(ps: Seq<(Seq<char>, Seq<char>)>, r: u64) -> Option<Seq<char>> {
    if ps.len() == 0 {
        None
    } else {
        Some(ps[(r as int) % (ps.len() as int)].0)
    }
}

/// What sampling a successor of `w` with randomness `r` yields: the entry of
/// `successors_of` at index `r` modulo its length, or `None` when `w` has no
/// recorded successor. Uniform randomness in `r` is uniform over matching
/// rows, not over distinct successor values.
pub open spec fn successor_sample(
    ps: Seq<(Seq<char>, Seq<char>)>,
    w: Seq<char>,
    r: u64,
) -> Option<Seq<char>> {
    let m = successors_of(ps, w);
    if m.len() == 0 {
        None
    } else {
        Some(m[(r as int) % (m.len() as int)])
    }
}

/// In-memory store of word-pair observations. Append-only: rows are recorded
/// one at a time and never updated or deleted.
pub struct WordPairStore {
    pairs: Vec<WordPair>,
}

impl View for WordPairStore {
    type V = Seq<(Seq<char>, Seq<char>)>;

    closed spec fn view(&self) -> Seq<(Seq<char>, Seq<char>)> {
        self.pairs@.map_values(|p: WordPair| p@)
    }
}

impl WordPairStore {
    /// An empty store.
    pub fn new() -> (s: Self)
        ensures
            s@ == Seq::<(Seq<char>, Seq<char>)>::empty(),
    {
        let s = WordPairStore { pairs: Vec::new() };
        proof {
            assert(s@ =~= Seq::<(Seq<char>, Seq<char>)>::empty());
        }
        s
    }

    /// Appends one observation. Never fails and never rejects a value: empty
    /// strings are recorded like any other word.
    pub fn record(&mut self, word1: String, word2: String)
        ensures
            final(self)@ == old(self)@.push((word1@, word2@)),
    {
        let ghost w1 = word1@;
        let ghost w2 = word2@;
        self.pairs.push(WordPair { word1, word2 });
        proof {
            assert(self@ =~= old(self)@.push((w1, w2)));
        }
    }

    /// The number of recorded observations.
    pub fn len(&self) -> (n: usize)
        ensures
            n == self@.len(),
    {
        self.pairs.len()
    }

    /// The observation at row `i`, as a `(word1, word2)` copy.
    pub fn pair_at(&self, i: usize) -> (p: (String, String))
        requires
            i < self@.len(),
        ensures
            (p.0@, p.1@) == self@[i as int],
    {
        (self.pairs[i].word1.clone(), self.pairs[i].word2.clone())
    }

    /// Samples a start word deterministically from the randomness `r`:
    /// the `word1` of the row at `r` modulo the row count.
    pub fn sample_any_start_at(&self, r: u64) -> (res: Option<String>)
        ensures
            opt_view(res) == start_sample(self@, r),
    {
        let n = self.pairs.len();
        if n == 0 {
            None
        } else {
            let idx = (r % (n as u64)) as usize;
            Some(self.pairs[idx].word1.clone())
        }
    }

    /// Samples a successor of `word` deterministically from the randomness
    /// `r`: the entry of `successors_of` at `r` modulo its length. Uniform
    /// `r` weights each matching row equally, so repeated transitions
    /// dominate in proportion to their multiplicity.
    #[verifier::loop_isolation(false)]
    pub fn sample_successor_at(&self, word: &str, r: u64) -> (res: Option<String>)
        ensures
            opt_view(res) == successor_sample(self@, word@, r),
    {
        let w = String::from_str(word);
        let mut found: Vec<String> = Vec::new();
        let mut i: usize = 0;
        while i < self.pairs.len()
            invariant
                i <= self.pairs.len(),
                found@.map_values(|s: String| s@) == successors_of(self@.take(i as int), word@),
            decreases self.pairs.len() - i,
        {
            proof {
                let t = self@.take(i as int + 1);
                assert(t.drop_last() =~= self@.take(i as int));
                assert(t.last() == self@[i as int]);
                assert(self@[i as int] == (self.pairs@[i as int].word1@, self.pairs@[i as int].word2@));
            }
            let ghost prior = found@.map_values(|s: String| s@);
            if self.pairs[i].word1 == w {
                found.push(self.pairs[i].word2.clone());
                proof {
                    assert(found@.map_values(|s: String| s@) =~= prior.push(self@[i as int].1));
                    assert(successors_of(self@.take(i as int + 1), word@) == prior.push(
                        self@[i as int].1,
                    ));
                }
            } else {
                proof {
                    assert(self@[i as int].0 != word@);
                    assert(successors_of(self@.take(i as int + 1), word@) == prior);
                }
            }
            i = i + 1;
        }
        proof {
            assert(self@.take(self@.len() as int) =~= self@);
        }
        let m = found.len();
        if m == 0 {
            None
        } else {
            let idx = (r % (m as u64)) as usize;
            proof {
                assert(found@.map_values(|s: String| s@)[idx as int] == found@[idx as int]@);
            }
            Some(found[idx].clone())
        }
    }

    /// Returns one uniformly random start word across all stored rows, or
    /// `None` when the store is empty.
    pub fn sample_any_start(&self) -> (res: Option<String>)
        ensures
            res is Some <==> self@.len() > 0,
            res matches Some(w) ==> exists|i: int| 0 <= i < self@.len() && w@ == self@[i].0,
    {
        let r = random_word();
        let res = self.sample_any_start_at(r);
        proof {
            if self@.len() > 0 {
                let k = (r as int) % (self@.len() as int);
                assert(0 <= k < self@.len() && (res matches Some(w) && w@ == self@[k].0));
            }
        }
        res
    }

    /// Returns one successor of `word`, drawn uniformly over the rows whose
    /// `word1` equals `word` (so multiplicity weights the draw), or `None`
    /// when no row matches.
    pub fn sample_successor(&self, word: &str) -> (res: Option<String>)
        ensures
            res is Some <==> successors_of(self@, word@).len() > 0,
            res matches Some(w) ==> successors_of(self@, word@).contains(w@),
    {
        let r = random_word();
        let res = self.sample_successor_at(word, r);
        proof {
            let m = successors_of(self@, word@);
            if m.len() > 0 {
                let k = (r as int) % (m.len() as int);
                assert(0 <= k < m.len() && (res matches Some(w) && w@ == m[k]));
            }
        }
        res
    }
}

/// Single-candidate determinism: when every recorded successor of `w` is the
/// one value `v`, sampling a successor of `w` yields `Some(v)` whatever
/// randomness is drawn.
pub proof fn lemma_single_successor(
    ps: Seq<(Seq<char>, Seq<char>)>,
    w: Seq<char>,
    v: Seq<char>,
)
    requires
        successors_of(ps, w) == seq![v],
    ensures
        forall|r: u64| successor_sample(ps, w, r) == Some(v),
{
    assert forall|r: u64| successor_sample(ps, w, r) == Some(v) by {
        assert((r as int) % 1int == 0);
    }
}

/// The view of an optional word.
pub open spec fn opt_view(o: Option<String>) -> Option<Seq<char>> {
    match o {
        Some(s) => Some(s@),
        None => None,
    }
}

/// Relies on `rand::random`: one machine word drawn from the thread-local
/// generator. Nothing is promised of its value.
#[verifier::external_body]
fn random_word() -> u64 {
    rand::random::<u64>()
}

} // verus!
