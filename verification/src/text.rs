//! Character-level text operations: tokenization on single-space boundaries,
//! last-word extraction, prefix testing, and first-space splitting.

use vstd::prelude::*;

verus! {

/// The tokens of `s`: maximal runs of non-space characters, in order.
/// Runs of spaces collapse, so no token is ever empty.
pub open spec fn tokens_of(s: Seq<char>) -> Seq<Seq<char>>
    decreases s.len(),
{
    if s.len() == 0 {
        Seq::empty()
    } else {
        let rest = tokens_of(s.drop_last());
        let c = s.last();
        if c == ' ' {
            rest
        } else if s.len() >= 2 && s[s.len() - 2] != ' ' {
            rest.update(rest.len() - 1, rest.last().push(c))
        } else {
            rest.push(seq![c])
        }
    }
}

/// The index of the first space in `s`, or `s.len()` when there is none.
pub open spec fn first_space(s: Seq<char>) -> nat
    decreases s.len(),
{
    if s.len() == 0 {
        0
    } else if s[0] == ' ' {
        0
    } else {
        1 + first_space(s.skip(1))
    }
}

/// The characters after the last space of `s`: all of `s` when it holds no
/// space, empty when `s` ends in a space.
pub open spec fn last_word_of(s: Seq<char>) -> Seq<char>
    decreases s.len(),
{
    if s.len() == 0 {
        Seq::empty()
    } else if s.last() == ' ' {
        Seq::empty()
    } else {
        last_word_of(s.drop_last()).push(s.last())
    }
}

/// Whether `p` is a prefix of `s`.
pub open spec fn is_prefix_of(p: Seq<char>, s: Seq<char>) -> bool {
    p.len() <= s.len() && s.take(p.len() as int) == p
}

/// The characters after the first space of `s`, or `None` when `s` holds no
/// space.
pub open spec fn after_first_space(s: Seq<char>) -> Option<Seq<char>> {
    if first_space(s) < s.len() {
        Some(s.skip(first_space(s) as int + 1))
    } else {
        None
    }
}

proof fn lemma_tokens_take_space(s: Seq<char>, i: int)
    requires
        0 <= i < s.len(),
        s[i] == ' ',
    ensures
        tokens_of(s.take(i + 1)) == tokens_of(s.take(i)),
{
    assert(s.take(i + 1).drop_last() =~= s.take(i));
    assert(s.take(i + 1).last() == s[i]);
}

proof fn lemma_tokens_take_run(s: Seq<char>, start: int, p: int)
    requires
        0 <= start < p <= s.len(),
        start == 0 || s[start - 1] == ' ',
        forall|q: int| start <= q < p ==> s[q] != ' ',
    ensures
        tokens_of(s.take(p)) == tokens_of(s.take(start)).push(s.subrange(start, p)),
    decreases p - start,
{
    let t = s.take(p);
    assert(t.drop_last() =~= s.take(p - 1));
    assert(t.last() == s[p - 1]);
    if p == start + 1 {
        assert(seq![s[start]] =~= s.subrange(start, p));
        if start == 0 {
            assert(tokens_of(t) == tokens_of(s.take(start)).push(seq![s[start]]));
        } else {
            assert(t.len() >= 2 && t[t.len() - 2] == s[start - 1]);
            assert(tokens_of(t) == tokens_of(s.take(start)).push(seq![s[start]]));
        }
    } else {
        lemma_tokens_take_run(s, start, p - 1);
        let rest = tokens_of(s.take(p - 1));
        assert(rest == tokens_of(s.take(start)).push(s.subrange(start, p - 1)));
        assert(rest.len() >= 1 && rest.last() == s.subrange(start, p - 1));
        assert(t.len() >= 2 && t[t.len() - 2] == s[p - 2] && s[p - 2] != ' ');
        assert(tokens_of(t) == rest.update(rest.len() - 1, rest.last().push(s[p - 1])));
        assert(s.subrange(start, p - 1).push(s[p - 1]) =~= s.subrange(start, p));
        assert(rest.update(rest.len() - 1, rest.last().push(s[p - 1])) =~= tokens_of(
            s.take(start),
        ).push(s.subrange(start, p)));
    }
}

proof fn lemma_last_word_suffix(s: Seq<char>, k: int)
    requires
        0 <= k <= s.len(),
        forall|q: int| k <= q < s.len() ==> s[q] != ' ',
        k == 0 || s[k - 1] == ' ',
    ensures
        last_word_of(s) == s.subrange(k, s.len() as int),
    decreases s.len() - k,
{
    if k == s.len() {
        assert(last_word_of(s) =~= s.subrange(k, s.len() as int));
    } else {
        assert(s.last() != ' ');
        lemma_last_word_suffix(s.drop_last(), k);
        assert(s.drop_last().subrange(k, s.len() - 1) =~= s.subrange(k, s.len() - 1));
        assert(s.subrange(k, s.len() - 1).push(s.last()) =~= s.subrange(k, s.len() as int));
    }
}

proof fn lemma_first_space_at(s: Seq<char>, q: int)
    requires
        0 <= q <= s.len(),
        forall|p: int| 0 <= p < q ==> s[p] != ' ',
        q == s.len() || s[q] == ' ',
    ensures
        first_space(s) == q,
    decreases q,
{
    if q == 0 {
    } else {
        assert(s[0] != ' ');
        let t = s.skip(1);
        assert forall|p: int| 0 <= p < q - 1 implies t[p] != ' ' by {
            assert(t[p] == s[p + 1]);
        }
        if q - 1 < t.len() {
            assert(t[q - 1] == s[q]);
        }
        lemma_first_space_at(t, q - 1);
    }
}

/// Splits `s` on single-space boundaries, dropping zero-length tokens, so a
/// run of spaces acts as one separator and a message of none or one token
/// yields none or one entry.
#[verifier::loop_isolation(false)]
pub fn tokenize(s: &str) -> (toks: Vec<String>)
    ensures
        toks@.map_values(|t: String| t@) == tokens_of(s@),
{
    let n = s.unicode_len();
    let mut toks: Vec<String> = Vec::new();
    proof {
        assert(s@.take(0) =~= Seq::<char>::empty());
        assert(toks@.map_values(|t: String| t@) =~= tokens_of(s@.take(0)));
    }
    let mut i: usize = 0;
    while i < n
        invariant
            i <= n,
            toks@.map_values(|t: String| t@) == tokens_of(s@.take(i as int)),
            i == 0 || i == n || s@[i as int - 1] == ' ' || s@[i as int] == ' ',
        decreases n - i,
    {
        let c = s.get_char(i);
        if c == ' ' {
            proof {
                lemma_tokens_take_space(s@, i as int);
            }
            i = i + 1;
        } else {
            let start = i;
            let mut j = i + 1;
            while j < n && s.get_char(j) != ' '
                invariant
                    start < j <= n,
                    forall|q: int| start <= q < j ==> s@[q] != ' ',
                decreases n - j,
            {
                j = j + 1;
            }
            let tok = s.substring_char(start, j);
            let ghost prior = toks@.map_values(|t: String| t@);
            toks.push(String::from_str(tok));
            proof {
                lemma_tokens_take_run(s@, start as int, j as int);
                assert(toks@.map_values(|t: String| t@) =~= prior.push(
                    s@.subrange(start as int, j as int),
                ));
            }
            i = j;
        }
    }
    proof {
        assert(s@.take(n as int) =~= s@);
    }
    toks
}

/// The final whitespace-delimited token of `s`: the characters after its
/// last space, or all of `s` when it holds none.
#[verifier::loop_isolation(false)]
pub fn last_word(s: &str) -> (w: String)
    ensures
        w@ == last_word_of(s@),
{
    let n = s.unicode_len();
    let mut k = n;
    while k > 0 && s.get_char(k - 1) != ' '
        invariant
            k <= n,
            forall|q: int| k <= q < n ==> s@[q] != ' ',
        decreases k,
    {
        k = k - 1;
    }
    proof {
        lemma_last_word_suffix(s@, k as int);
    }
    String::from_str(s.substring_char(k, n))
}

/// Whether `s` begins with the prefix `p`.
#[verifier::loop_isolation(false)]
pub fn has_prefix(s: &str, p: &str) -> (b: bool)
    ensures
        b == is_prefix_of(p@, s@),
{
    let n = s.unicode_len();
    let m = p.unicode_len();
    if m > n {
        return false;
    }
    let mut i: usize = 0;
    while i < m
        invariant
            i <= m,
            forall|q: int| 0 <= q < i ==> s@[q] == p@[q],
        decreases m - i,
    {
        if s.get_char(i) != p.get_char(i) {
            proof {
                assert(s@.take(m as int)[i as int] != p@[i as int]);
            }
            return false;
        }
        i = i + 1;
    }
    proof {
        assert(s@.take(m as int) =~= p@);
    }
    true
}

/// The remainder of `s` after its first space, or `None` when `s` holds no
/// space.
#[verifier::loop_isolation(false)]
pub fn split_after_first_space(s: &str) -> (res: Option<String>)
    ensures
        crate::store::opt_view(res) == after_first_space(s@),
{
    let n = s.unicode_len();
    let mut i: usize = 0;
    while i < n && s.get_char(i) != ' '
        invariant
            i <= n,
            forall|q: int| 0 <= q < i ==> s@[q] != ' ',
        decreases n - i,
    {
        i = i + 1;
    }
    proof {
        lemma_first_space_at(s@, i as int);
    }
    if i < n {
        Some(String::from_str(s.substring_char(i + 1, n)))
    } else {
        None
    }
}

} // verus!
