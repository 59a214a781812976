//! The shortest prefix that tells one identifier from all the others.
//!
//! The model speaks of identifiers in any order. The algorithm works on
//! sorted identifiers, where it only has to look at the two neighbours
//! of the target.

use crate::text::{
    common_prefix, common_prefix_len, lemma_between_shares_more, lemma_common_prefix_symmetric,
    lemma_lex_total, lemma_lex_transitive, lex_le, lex_lt, precedes, sorted,
};
use vstd::math::{max, min};
use vstd::prelude::*;

verus! {

/// No abbreviation is shorter than this, unless the identifier itself is.
pub const MIN_PREFIX_LEN: usize = 4;

/// Greatest number of leading characters that `t` shares with an entry
/// of `others`; zero when there is none.
pub open spec fn longest_shared(others: Seq<Seq<char>>, t: Seq<char>) -> nat
    decreases others.len(),
{
    if others.len() == 0 {
        0
    } else {
        max(
            longest_shared(others.drop_last(), t) as int,
            common_prefix(others.last(), t) as int,
        ) as nat
    }
}

/// The identifiers that `t` has to be told from: `ids` without one
/// occurrence of `t`.
pub open spec fn rivals(ids: Seq<Seq<char>>, t: Seq<char>) -> Seq<Seq<char>> {
    ids.remove(ids.index_of(t))
}

/// Length of the abbreviation of an identifier of `len` characters that
/// shares `shared` leading characters with its closest rival: one more
/// than `shared`, at least `MIN_PREFIX_LEN`, at most `len`.
pub open spec fn abbreviated_len(shared: nat, len: nat) -> nat {
    min(max((shared + 1) as int, MIN_PREFIX_LEN as int), len as int) as nat
}

/// The shortest length that an abbreviation of an identifier of `len`
/// characters may have.
pub open spec fn shortest_allowed(len: nat) -> nat {
    min(MIN_PREFIX_LEN as int, len as int) as nat
}

/// The abbreviation of `t` among `ids`, or `None` where `t` is not one
/// of them.
pub open spec fn abbreviation(ids: Seq<Seq<char>>, t: Seq<char>) -> Option<Seq<char>> {
    if ids.contains(t) {
        Some(t.take(abbreviated_len(longest_shared(rivals(ids, t), t), t.len()) as int))
    } else {
        None
    }
}

/// What `t` shares with the entry at `j`; zero where `ids` has no such
/// entry.
pub open spec fn shared_with(ids: Seq<Seq<char>>, j: int, t: Seq<char>) -> nat {
    if 0 <= j < ids.len() {
        common_prefix(ids[j], t)
    } else {
        0
    }
}

/// `longest_shared` bounds what every entry shares with `t`, and some
/// entry reaches it.
pub proof fn lemma_longest_shared_bounds(others: Seq<Seq<char>>, t: Seq<char>)
    ensures
        ({
            let m = longest_shared(others, t);
            &&& forall|j: int| 0 <= j < others.len() ==> common_prefix(#[trigger] others[j], t) <= m
            &&& others.len() > 0 ==> exists|j: int|
                0 <= j < others.len() && common_prefix(#[trigger] others[j], t) == m
        }),
    decreases others.len(),
{
    if others.len() > 0 {
        let m = longest_shared(others, t);
        let front = others.drop_last();
        lemma_longest_shared_bounds(front, t);
        assert forall|j: int| 0 <= j < others.len() implies common_prefix(#[trigger] others[j], t)
            <= m by {
            if j < front.len() {
                assert(others[j] == front[j]);
            }
        }
        if common_prefix(others.last(), t) != m {
            let rest = longest_shared(front, t);
            let j = choose|j: int|
                0 <= j < front.len() && common_prefix(#[trigger] front[j], t) == rest;
            assert(others[j] == front[j]);
        }
    }
}

/// A bound on what the entries share with `t` that is zero or reached by
/// one of them is `longest_shared`.
pub proof fn lemma_longest_shared_is(others: Seq<Seq<char>>, t: Seq<char>, m: nat)
    requires
        forall|j: int| 0 <= j < others.len() ==> common_prefix(#[trigger] others[j], t) <= m,
        m == 0 || exists|j: int|
            0 <= j < others.len() && common_prefix(#[trigger] others[j], t) == m,
    ensures
        longest_shared(others, t) == m,
{
    lemma_longest_shared_bounds(others, t);
}

/// `longest_shared` looks at which entries there are, not at their order.
pub proof fn lemma_longest_shared_permuted(x: Seq<Seq<char>>, y: Seq<Seq<char>>, t: Seq<char>)
    requires
        x.to_multiset() == y.to_multiset(),
    ensures
        longest_shared(x, t) == longest_shared(y, t),
{
    let m = longest_shared(x, t);
    x.to_multiset_ensures();
    y.to_multiset_ensures();
    lemma_longest_shared_bounds(x, t);
    assert forall|j: int| 0 <= j < y.len() implies common_prefix(#[trigger] y[j], t) <= m by {
        assert(x.to_multiset().count(y[j]) > 0);
    }
    if x.len() > 0 {
        let j = choose|j: int| 0 <= j < x.len() && common_prefix(#[trigger] x[j], t) == m;
        assert(y.to_multiset().count(x[j]) > 0);
    }
    lemma_longest_shared_is(y, t, m);
}

/// Whichever occurrence of an identifier is set aside, its abbreviation
/// is measured against the same rivals.
pub proof fn lemma_abbreviation_at(ids: Seq<Seq<char>>, i: int)
    requires
        0 <= i < ids.len(),
    ensures
        ({
            let t = ids[i];
            let n = abbreviated_len(longest_shared(ids.remove(i), t), t.len());
            abbreviation(ids, t) == Some(t.take(n as int))
        }),
{
    let t = ids[i];
    let k = ids.index_of(t);
    ids.to_multiset_ensures();
    lemma_longest_shared_permuted(ids.remove(i), ids.remove(k), t);
}

/// The abbreviation looks at which identifiers there are, not at their
/// order.
pub proof fn lemma_abbreviation_permuted(x: Seq<Seq<char>>, y: Seq<Seq<char>>, t: Seq<char>)
    requires
        x.to_multiset() == y.to_multiset(),
    ensures
        x.contains(t) <==> y.contains(t),
        abbreviation(x, t) == abbreviation(y, t),
{
    x.to_multiset_ensures();
    y.to_multiset_ensures();
    assert(x.contains(t) <==> x.to_multiset().count(t) > 0);
    assert(y.contains(t) <==> y.to_multiset().count(t) > 0);
    if x.contains(t) {
        let i = x.index_of(t);
        let j = y.index_of(t);
        lemma_longest_shared_permuted(x.remove(i), y.remove(j), t);
    }
}

/// In sorted identifiers no entry shares more with the entry at `i`
/// than one of its two neighbours does.
pub proof fn lemma_neighbours_decide(ids: Seq<Seq<char>>, i: int)
    requires
        sorted(ids),
        0 <= i < ids.len(),
    ensures
        longest_shared(ids.remove(i), ids[i]) == max(
            shared_with(ids, i - 1, ids[i]) as int,
            shared_with(ids, i + 1, ids[i]) as int,
        ),
{
    let t = ids[i];
    let others = ids.remove(i);
    let before = shared_with(ids, i - 1, t);
    let after = shared_with(ids, i + 1, t);
    let m = max(before as int, after as int) as nat;
    assert forall|j: int| 0 <= j < others.len() implies common_prefix(#[trigger] others[j], t)
        <= m by {
        if j < i - 1 {
            lemma_between_shares_more(ids[j], ids[i - 1], t);
        } else if j > i {
            lemma_between_shares_more(t, ids[i + 1], ids[j + 1]);
            lemma_common_prefix_symmetric(t, ids[j + 1]);
            lemma_common_prefix_symmetric(t, ids[i + 1]);
        }
    }
    if m > 0 {
        if before == m {
            assert(others[i - 1] == ids[i - 1]);
        } else {
            assert(others[i] == ids[i + 1]);
        }
    }
    lemma_longest_shared_is(others, t, m);
}

/// Finds `target` in `sorted_hashes` by binary search. Returns the place
/// of its first occurrence, or `None` where it does not occur.
pub fn locate(sorted_hashes: &[String], target: &str) -> (r: Option<usize>)
    requires
        sorted(sorted_hashes.deep_view()),
    ensures
        match r {
            Some(i) => {
                &&& i < sorted_hashes.len()
                &&& sorted_hashes[i as int]@ == target@
                &&& forall|j: int| 0 <= j < i ==> sorted_hashes[j]@ != target@
            },
            None => !sorted_hashes.deep_view().contains(target@),
        },
{
    let ghost ids = sorted_hashes.deep_view();
    let ghost t = target@;
    let n: usize = sorted_hashes.len();
    let mut lo: usize = 0;
    let mut hi: usize = n;
    while lo < hi
        invariant
            lo <= hi <= n,
            n == sorted_hashes.len(),
            ids == sorted_hashes.deep_view(),
            t == target@,
            sorted(ids),
            forall|j: int| 0 <= j < lo ==> lex_lt(#[trigger] ids[j], t),
            forall|j: int| hi <= j < n ==> lex_le(t, #[trigger] ids[j]),
        decreases hi - lo,
    {
        let mid: usize = lo + (hi - lo) / 2;
        if precedes(sorted_hashes[mid].as_str(), target) {
            assert forall|j: int| 0 <= j <= mid implies lex_lt(#[trigger] ids[j], t) by {
                if j < mid {
                    lemma_lex_total(ids[mid as int], t);
                    lemma_lex_transitive(ids[j], ids[mid as int], t);
                }
            }
            lo = mid + 1;
        } else {
            assert forall|j: int| mid <= j < n implies lex_le(t, #[trigger] ids[j]) by {
                if j > mid {
                    lemma_lex_transitive(t, ids[mid as int], ids[j]);
                }
            }
            hi = mid;
        }
    }
    proof {
        assert forall|j: int| 0 <= j < lo implies sorted_hashes[j]@ != t by {
            lemma_lex_total(ids[j], t);
        }
    }
    if lo < n && !precedes(target, sorted_hashes[lo].as_str()) {
        proof {
            lemma_lex_total(ids[lo as int], t);
        }
        Some(lo)
    } else {
        proof {
            assert forall|j: int| lo <= j < n implies ids[j] != t by {
                if j > lo {
                    lemma_lex_transitive(t, ids[lo as int], ids[j]);
                }
            }
        }
        None
    }
}

/// How long the abbreviation of an identifier of `len` characters is
/// that shares `shared` leading characters with its closest rival.
pub fn prefix_len(shared: usize, len: usize) -> (n: usize)
    ensures
        n == abbreviated_len(shared as nat, len as nat),
{
    if shared >= len {
        len
    } else if shared + 1 > MIN_PREFIX_LEN {
        shared + 1
    } else if MIN_PREFIX_LEN < len {
        MIN_PREFIX_LEN
    } else {
        len
    }
}

/// Looks `target` up in `sorted_hashes` and returns its abbreviation:
/// the shortest prefix of at least `MIN_PREFIX_LEN` characters that no
/// other entry begins with, or all of `target` where there is no such
/// prefix. Returns `None` where `target` is not an entry.
pub fn compute_shortest_prefix(sorted_hashes: &[String], target: &str) -> (r: Option<String>)
    requires
        sorted(sorted_hashes.deep_view()),
    ensures
        r is Some <==> sorted_hashes.deep_view().contains(target@),
        r matches Some(p) ==> abbreviation(sorted_hashes.deep_view(), target@) == Some(p@),
        r matches Some(p) ==> p@.is_prefix_of(target@) && p@.len() >= shortest_allowed(
            target@.len(),
        ),
{
    let ghost ids = sorted_hashes.deep_view();
    let idx: usize = match locate(sorted_hashes, target) {
        Some(i) => i,
        None => {
            return None;
        },
    };
    let before: usize = if idx > 0 {
        common_prefix_len(sorted_hashes[idx - 1].as_str(), target)
    } else {
        0
    };
    let after: usize = if idx + 1 < sorted_hashes.len() {
        common_prefix_len(sorted_hashes[idx + 1].as_str(), target)
    } else {
        0
    };
    let shared: usize = if before > after {
        before
    } else {
        after
    };
    proof {
        lemma_neighbours_decide(ids, idx as int);
        lemma_abbreviation_at(ids, idx as int);
    }
    let final_len: usize = prefix_len(shared, target.unicode_len());
    Some(target.substring_char(0, final_len).to_string())
}

} // verus!
