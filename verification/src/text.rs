//! Strings as sequences of code points: the leading characters that two
//! of them share, and the lexicographic order that follows from it.

use vstd::prelude::*;
use vstd::std_specs::iter::IteratorSpec;
use vstd::utf8::encode_utf8;

verus! {

/// Number of leading characters on which `a` and `b` agree.
pub open spec fn common_prefix(a: Seq<char>, b: Seq<char>) -> nat
    decreases a.len(),
{
    if a.len() > 0 && b.len() > 0 && a[0] == b[0] {
        1 + common_prefix(a.drop_first(), b.drop_first())
    } else {
        0
    }
}

/// The character at place `k`, if the string reaches that far.
pub open spec fn char_at(s: Seq<char>, k: int) -> Option<char> {
    if 0 <= k < s.len() {
        Some(s[k])
    } else {
        None
    }
}

/// Strict lexicographic order by code point: at the first place where
/// the two strings part, `a` has ended or holds the smaller character.
pub open spec fn lex_lt(a: Seq<char>, b: Seq<char>) -> bool {
    let k = common_prefix(a, b) as int;
    k < b.len() && (k == a.len() || a[k] < b[k])
}

/// `a` comes no later than `b` in lexicographic order.
pub open spec fn lex_le(a: Seq<char>, b: Seq<char>) -> bool {
    !lex_lt(b, a)
}

/// Every entry comes no later than the entries after it.
pub open spec fn sorted(ids: Seq<Seq<char>>) -> bool {
    forall|i: int, j: int| 0 <= i < j < ids.len() ==> lex_le(#[trigger] ids[i], #[trigger] ids[j])
}

/// The two strings agree on their first `common_prefix` characters and
/// part right after them.
pub proof fn lemma_common_prefix_agrees(a: Seq<char>, b: Seq<char>)
    ensures
        common_prefix(a, b) <= a.len(),
        common_prefix(a, b) <= b.len(),
        forall|i: int| 0 <= i < common_prefix(a, b) ==> a[i] == b[i],
        ({
            let k = common_prefix(a, b) as int;
            k < a.len() && k < b.len() ==> a[k] != b[k]
        }),
    decreases a.len(),
{
    if a.len() > 0 && b.len() > 0 && a[0] == b[0] {
        let (x, y) = (a.drop_first(), b.drop_first());
        lemma_common_prefix_agrees(x, y);
        assert forall|i: int| 0 <= i < common_prefix(a, b) implies a[i] == b[i] by {
            if i > 0 {
                assert(a[i] == x[i - 1] && b[i] == y[i - 1]);
            }
        }
    }
}

/// A length up to which two strings agree, and at which one ends or they
/// differ, is their `common_prefix`.
pub proof fn lemma_common_prefix_is(a: Seq<char>, b: Seq<char>, k: nat)
    requires
        k <= a.len(),
        k <= b.len(),
        forall|i: int| 0 <= i < k ==> a[i] == b[i],
        k == a.len() || k == b.len() || a[k as int] != b[k as int],
    ensures
        common_prefix(a, b) == k,
    decreases k,
{
    if k > 0 {
        let (x, y) = (a.drop_first(), b.drop_first());
        assert forall|i: int| 0 <= i < k - 1 implies x[i] == y[i] by {
            assert(x[i] == a[i + 1] && y[i] == b[i + 1]);
        }
        lemma_common_prefix_is(x, y, (k - 1) as nat);
    }
}

/// The shared length does not depend on the order of the two strings.
pub proof fn lemma_common_prefix_symmetric(a: Seq<char>, b: Seq<char>)
    ensures
        common_prefix(a, b) == common_prefix(b, a),
{
    lemma_common_prefix_agrees(a, b);
    lemma_common_prefix_is(b, a, common_prefix(a, b));
}

/// A string begins with the first `n` characters of `t` just when it
/// shares at least `n` leading characters with `t`.
pub proof fn lemma_prefix_iff_shared(s: Seq<char>, t: Seq<char>, n: int)
    requires
        0 <= n <= t.len(),
    ensures
        t.take(n).is_prefix_of(s) <==> n <= common_prefix(s, t),
{
    lemma_common_prefix_agrees(s, t);
    let k = common_prefix(s, t) as int;
    if t.take(n).is_prefix_of(s) && k < n {
        assert(s.subrange(0, n)[k] == t.take(n)[k]);
    }
}

/// Of two strings exactly one comes first, unless they are equal.
pub proof fn lemma_lex_total(a: Seq<char>, b: Seq<char>)
    ensures
        lex_lt(a, b) || a == b || lex_lt(b, a),
        !(lex_lt(a, b) && lex_lt(b, a)),
        a == b ==> !lex_lt(a, b),
{
    lemma_common_prefix_agrees(a, b);
    lemma_common_prefix_symmetric(a, b);
    if common_prefix(a, b) == a.len() && common_prefix(a, b) == b.len() {
        assert(a =~= b);
    }
}

/// The strict order is transitive, and the two ends of a chain share
/// exactly what both of its links share.
pub proof fn lemma_lex_lt_chain(a: Seq<char>, b: Seq<char>, c: Seq<char>)
    requires
        lex_lt(a, b),
        lex_lt(b, c),
    ensures
        lex_lt(a, c),
        common_prefix(a, c) == vstd::math::min(
            common_prefix(a, b) as int,
            common_prefix(b, c) as int,
        ),
{
    lemma_common_prefix_agrees(a, b);
    lemma_common_prefix_agrees(b, c);
    let k = vstd::math::min(common_prefix(a, b) as int, common_prefix(b, c) as int);
    lemma_common_prefix_is(a, c, k as nat);
}

/// The order is transitive, through strict and non-strict links alike.
pub proof fn lemma_lex_transitive(a: Seq<char>, b: Seq<char>, c: Seq<char>)
    requires
        lex_le(a, b),
        lex_le(b, c),
    ensures
        lex_le(a, c),
        lex_lt(a, b) || lex_lt(b, c) ==> lex_lt(a, c),
{
    lemma_lex_total(a, b);
    lemma_lex_total(b, c);
    lemma_lex_total(a, c);
    if a != b && b != c {
        lemma_lex_lt_chain(a, b, c);
    }
}

/// A string that lies between two others shares with each of them at
/// least what they share with one another.
pub proof fn lemma_between_shares_more(a: Seq<char>, b: Seq<char>, c: Seq<char>)
    requires
        lex_le(a, b),
        lex_le(b, c),
    ensures
        common_prefix(a, c) <= common_prefix(a, b),
        common_prefix(a, c) <= common_prefix(b, c),
{
    lemma_lex_total(a, b);
    lemma_lex_total(b, c);
    lemma_common_prefix_agrees(a, c);
    if a == b {
        lemma_common_prefix_is(a, a, a.len());
    } else if b == c {
        lemma_common_prefix_is(c, c, c.len());
    } else {
        lemma_lex_lt_chain(a, b, c);
    }
}

/// A string has no more characters than its UTF-8 encoding has bytes.
pub proof fn lemma_encoding_no_shorter(s: Seq<char>)
    ensures
        s.len() <= encode_utf8(s).len(),
    decreases s.len(),
{
    if s.len() > 0 {
        lemma_encoding_no_shorter(s.drop_first());
    }
}

/// Walks both strings up to where they part. Returns how many leading
/// characters they share and the character that each holds right after
/// these, if it has one.
fn first_difference(a: &str, b: &str) -> (r: (usize, Option<char>, Option<char>))
    ensures
        r.0 == common_prefix(a@, b@),
        r.1 == char_at(a@, r.0 as int),
        r.2 == char_at(b@, r.0 as int),
{
    let bound: usize = a.as_bytes().len();
    proof {
        lemma_encoding_no_shorter(a@);
    }
    let mut left = a.chars();
    let mut right = b.chars();
    let mut n: usize = 0;
    loop
        invariant
            a@.len() <= bound,
            n <= a@.len(),
            n <= b@.len(),
            left.remaining() == a@.skip(n as int),
            right.remaining() == b@.skip(n as int),
            common_prefix(a@, b@) == n + common_prefix(a@.skip(n as int), b@.skip(n as int)),
        decreases a@.len() - n,
    {
        proof {
            if n < a@.len() && n < b@.len() {
                assert(a@.skip(n as int).drop_first() == a@.skip(n + 1));
                assert(b@.skip(n as int).drop_first() == b@.skip(n + 1));
            }
        }
        let x = left.next();
        let y = right.next();
        match (x, y) {
            (Some(c), Some(d)) => {
                if c != d {
                    return (n, x, y);
                }
                n = n + 1;
            },
            _ => {
                return (n, x, y);
            },
        }
    }
}

/// Counts the leading characters that `a` and `b` have in common.
pub fn common_prefix_len(a: &str, b: &str) -> (n: usize)
    ensures
        n == common_prefix(a@, b@),
{
    first_difference(a, b).0
}

/// Whether `a` comes strictly before `b` in lexicographic order.
pub fn precedes(a: &str, b: &str) -> (r: bool)
    ensures
        r == lex_lt(a@, b@),
{
    proof {
        lemma_common_prefix_agrees(a@, b@);
    }
    match first_difference(a, b) {
        (_, _, None) => false,
        (_, None, Some(_)) => true,
        (_, Some(c), Some(d)) => c < d,
    }
}

} // verus!
