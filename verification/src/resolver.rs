//! Resolving a target identifier against everything a repository holds.

use crate::prefix::{
    abbreviation, compute_shortest_prefix, lemma_abbreviation_permuted, shortest_allowed,
};
use crate::text::sorted;
use vstd::prelude::*;

verus! {

/// A source of identifiers: everything a repository currently holds, in
/// no particular order.
pub trait HashRepository {
    /// Lists every identifier, or reports why the repository could not
    /// be read.
    fn get_all_hashes(&self) -> Result<Vec<String>, String>;
}

/// Why a target could not be resolved.
#[derive(Debug, PartialEq, Eq)]
pub enum ResolveError {
    /// The repository could not list its identifiers; holds its report.
    RepositoryAccess(String),
    /// The target, held here in lowercase, is not among the identifiers.
    NotFound(String),
}

impl ResolveError {
    /// The text of `message`.
    pub open spec fn message_text(self) -> Seq<char> {
        match self {
            ResolveError::RepositoryAccess(report) => report@,
            ResolveError::NotFound(target) => "Hash '"@ + target@ + "' not found in repository"@,
        }
    }

    /// A line for the user that says what went wrong.
    pub fn message(&self) -> (m: String)
        ensures
            m@ == self.message_text(),
    {
        match self {
            ResolveError::RepositoryAccess(report) => report.clone(),
            ResolveError::NotFound(target) => {
                let mut m = String::from_str("Hash '");
                m.append(target.as_str());
                m.append("' not found in repository");
                m
            },
        }
    }
}

/// The lowercase form of a string, as Unicode defines it.
pub uninterp spec fn lowercase_of(s: Seq<char>) -> Seq<char>;

/// `str::to_lowercase`: the result is the lowercase form of `s`, which
/// depends on the characters of `s` alone.
#[verifier::external_body]
fn lowercase(s: &str) -> (r: String)
    ensures
        r@ == lowercase_of(s@),
{
    s.to_lowercase()
}

/// `<[String]>::sort`: afterwards the vector holds the strings it held
/// before, each as often as before, in ascending lexicographic order of
/// their code points.
#[verifier::external_body]
fn sort_identifiers(identifiers: &mut Vec<String>)
    ensures
        sorted(final(identifiers).deep_view()),
        final(identifiers).deep_view().to_multiset() == old(identifiers).deep_view().to_multiset(),
{
    identifiers.sort();
}

/// What resolving `target` among `ids` gives: the abbreviation of its
/// lowercase form, or `None` where that form is not one of `ids`.
pub open spec fn resolution(ids: Seq<Seq<char>>, target: Seq<char>) -> Option<Seq<char>> {
    abbreviation(ids, lowercase_of(target))
}

/// Abbreviates `target`, taken as it stands, among `identifiers`, which
/// may come in any order. Fails with `ResolveError::NotFound`, holding
/// `target`, where `target` is not one of them.
pub fn resolve_normalized(identifiers: Vec<String>, target: &str) -> (r: Result<
    String,
    ResolveError,
>)
    ensures
        r is Ok <==> identifiers.deep_view().contains(target@),
        r matches Ok(p) ==> abbreviation(identifiers.deep_view(), target@) == Some(p@),
        r matches Ok(p) ==> p@.is_prefix_of(target@) && p@.len() >= shortest_allowed(
            target@.len(),
        ),
        r matches Err(e) ==> e matches ResolveError::NotFound(s) && s@ == target@,
{
    let mut hashes = identifiers;
    sort_identifiers(&mut hashes);
    let sorted_hashes = hashes.as_slice();
    proof {
        lemma_abbreviation_permuted(identifiers.deep_view(), hashes.deep_view(), target@);
    }
    match compute_shortest_prefix(sorted_hashes, target) {
        Some(p) => Ok(p),
        None => Err(ResolveError::NotFound(target.to_string())),
    }
}

/// Abbreviates `target` among `identifiers`, whatever the case `target`
/// is written in: it is looked up in lowercase. Fails with
/// `ResolveError::NotFound`, holding the lowercase form of `target`,
/// where that form is not one of `identifiers`.
pub fn resolve_among(identifiers: Vec<String>, target: &str) -> (r: Result<String, ResolveError>)
    ensures
        r is Ok <==> identifiers.deep_view().contains(lowercase_of(target@)),
        r matches Ok(p) ==> resolution(identifiers.deep_view(), target@) == Some(p@),
        r matches Ok(p) ==> p@.is_prefix_of(lowercase_of(target@)) && p@.len() >= shortest_allowed(
            lowercase_of(target@).len(),
        ),
        r matches Err(e) ==> e matches ResolveError::NotFound(s) && s@ == lowercase_of(target@),
{
    let normalized = lowercase(target);
    resolve_normalized(identifiers, normalized.as_str())
}

/// Abbreviates `target` among the identifiers that `repo` lists, as
/// `resolve_among` does. Where `repo` cannot list them, fails with
/// `ResolveError::RepositoryAccess`, holding what `repo` reported.
pub fn resolve(repo: &impl HashRepository, target: &str) -> (r: Result<String, ResolveError>)
    ensures
        r matches Ok(p) ==> p@.is_prefix_of(lowercase_of(target@)) && p@.len() >= shortest_allowed(
            lowercase_of(target@).len(),
        ),
        r matches Err(ResolveError::NotFound(s)) ==> s@ == lowercase_of(target@),
{
    match repo.get_all_hashes() {
        Ok(hashes) => resolve_among(hashes, target),
        Err(report) => Err(ResolveError::RepositoryAccess(report)),
    }
}

} // verus!
