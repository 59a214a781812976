//! What an abbreviation promises: it names one identifier only, it
//! cannot be shortened, and it does not depend on the target's case.

use crate::prefix::{
    abbreviated_len, abbreviation, lemma_abbreviation_at, lemma_longest_shared_bounds,
    lemma_neighbours_decide, longest_shared, rivals, shortest_allowed, MIN_PREFIX_LEN,
};
use crate::resolver::{lowercase_of, resolution};
use crate::text::{common_prefix, lemma_prefix_iff_shared, sorted};
use vstd::prelude::*;

verus! {

/// An abbreviation is a prefix of its identifier, and is no shorter
/// than `MIN_PREFIX_LEN` characters unless the identifier is.
pub proof fn lemma_abbreviation_floor(ids: Seq<Seq<char>>, t: Seq<char>)
    requires
        ids.contains(t),
    ensures
        abbreviation(ids, t) matches Some(p) && p.is_prefix_of(t) && p.len() >= shortest_allowed(
            t.len(),
        ),
{
}

/// An abbreviation names one identifier only. Where `t` is an entry of
/// `ids` and no entry at another place begins with all of `t`, the
/// abbreviation of `t` is a prefix of exactly one entry: the one where
/// `t` stands.
pub proof fn lemma_abbreviation_unique(ids: Seq<Seq<char>>, t: Seq<char>)
    requires
        ids.contains(t),
        forall|j: int|
            0 <= j < ids.len() && j != ids.index_of(t) ==> !t.is_prefix_of(#[trigger] ids[j]),
    ensures
        abbreviation(ids, t) matches Some(p) && forall|j: int|
            0 <= j < ids.len() ==> (p.is_prefix_of(#[trigger] ids[j]) <==> j == ids.index_of(t)),
{
    let i = ids.index_of(t);
    let others = rivals(ids, t);
    let m = longest_shared(others, t);
    let n = abbreviated_len(m, t.len()) as int;
    let p = t.take(n);
    lemma_longest_shared_bounds(others, t);
    assert forall|j: int| 0 <= j < ids.len() implies (p.is_prefix_of(#[trigger] ids[j]) <==> j
        == i) by {
        lemma_prefix_iff_shared(ids[j], t, n);
        if j < i {
            assert(others[j] == ids[j]);
        } else if j > i {
            assert(others[j - 1] == ids[j]);
        }
    }
}

/// An abbreviation cannot be shortened. Where it has more than
/// `MIN_PREFIX_LEN` characters, what is left of it without the last one
/// is also a prefix of an entry at another place than `t`.
pub proof fn lemma_abbreviation_minimal(ids: Seq<Seq<char>>, t: Seq<char>)
    requires
        ids.contains(t),
        abbreviation(ids, t)->0.len() > MIN_PREFIX_LEN,
    ensures
        exists|j: int|
            0 <= j < ids.len() && j != ids.index_of(t) && abbreviation(
                ids,
                t,
            )->0.drop_last().is_prefix_of(#[trigger] ids[j]),
{
    let i = ids.index_of(t);
    let others = rivals(ids, t);
    let m = longest_shared(others, t);
    let n = abbreviated_len(m, t.len()) as int;
    lemma_longest_shared_bounds(others, t);
    let k = choose|k: int| 0 <= k < others.len() && common_prefix(#[trigger] others[k], t) == m;
    let j = if k < i { k } else { k + 1 };
    assert(ids[j] == others[k]);
    lemma_prefix_iff_shared(ids[j], t, n - 1);
}

/// In sorted identifiers it is a neighbour that stands in the way. An
/// abbreviation of more than `MIN_PREFIX_LEN` characters, once without
/// its last one, is also a prefix of the entry just before or just
/// after its own.
pub proof fn lemma_abbreviation_minimal_among_sorted(ids: Seq<Seq<char>>, i: int)
    requires
        sorted(ids),
        0 <= i < ids.len(),
        abbreviation(ids, ids[i])->0.len() > MIN_PREFIX_LEN,
    ensures
        ({
            let shorter = abbreviation(ids, ids[i])->0.drop_last();
            ||| i > 0 && shorter.is_prefix_of(ids[i - 1])
            ||| i + 1 < ids.len() && shorter.is_prefix_of(ids[i + 1])
        }),
{
    let t = ids[i];
    lemma_abbreviation_at(ids, i);
    lemma_neighbours_decide(ids, i);
    let m = longest_shared(ids.remove(i), t);
    let n = abbreviated_len(m, t.len()) as int;
    if i > 0 {
        lemma_prefix_iff_shared(ids[i - 1], t, n - 1);
    }
    if i + 1 < ids.len() {
        lemma_prefix_iff_shared(ids[i + 1], t, n - 1);
    }
}

/// Resolving does not depend on the case a target is written in: two
/// targets with the same lowercase form resolve alike among any
/// identifiers. So a target resolves like its own lowercase form
/// wherever turning that form to lowercase again leaves it as it is.
pub proof fn lemma_resolution_ignores_case(ids: Seq<Seq<char>>, t: Seq<char>, u: Seq<char>)
    requires
        lowercase_of(t) == lowercase_of(u),
    ensures
        resolution(ids, t) == resolution(ids, u),
{
}

} // verus!
