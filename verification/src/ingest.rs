//! The ingestion updater: tokenizes one message and appends every
//! adjacent-word pair to the store.

use vstd::prelude::*;
use crate::store::WordPairStore;
use crate::text::tokenize;
use crate::text::tokens_of;

verus! {

/// The adjacent pairs of a token sequence: `(toks[i], toks[i + 1])` for each
/// consecutive `i`, in left-to-right order. A sequence of zero or one tokens
/// has no pairs.
pub open spec fn pair_seq(toks: Seq<Seq<char>>) -> Seq<(Seq<char>, Seq<char>)> {
    Seq::new(
        if toks.len() == 0 {
            0
        } else {
            (toks.len() - 1) as nat
        },
        |i: int| (toks[i], toks[i + 1]),
    )
}

/// A non-empty sequence of `n` tokens yields exactly `n - 1` pairs, and the
/// pair at position `i` is the adjacency `(toks[i], toks[i + 1])`.
pub proof fn lemma_pair_count(toks: Seq<Seq<char>>)
    requires
        toks.len() > 0,
    ensures
        pair_seq(toks).len() == toks.len() - 1,
        forall|i: int| 0 <= i < toks.len() - 1 ==> pair_seq(toks)[i] == (toks[i], toks[i + 1]),
{
}

/// Tokenizes `text` and appends one observation per adjacent token pair, in
/// left-to-right order. A message of zero or one tokens appends nothing,
/// which is a no-op rather than an error.
#[verifier::loop_isolation(false)]
pub fn ingest(store: &mut WordPairStore, text: &str)
    ensures
        final(store)@ == old(store)@ + pair_seq(tokens_of(text@)),
{
    let toks = tokenize(text);
    let ghost tv = toks@.map_values(|t: String| t@);
    let ghost ps = pair_seq(tv);
    proof {
        assert(store@ =~= old(store)@ + ps.take(0));
    }
    let mut i: usize = 0;
    while i + 1 < toks.len()
        invariant
            i as int <= ps.len(),
            store@ == old(store)@ + ps.take(i as int),
        decreases toks.len() - i,
    {
        store.record(toks[i].clone(), toks[i + 1].clone());
        proof {
            assert((old(store)@ + ps.take(i as int)).push((tv[i as int], tv[i as int + 1])) =~= old(
                store,
            )@ + ps.take(i as int + 1));
        }
        i = i + 1;
    }
    proof {
        assert(ps.take(i as int) =~= ps);
    }
}

} // verus!
