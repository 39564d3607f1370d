//! The [`Corpus`] trait, and the default admissibility rule.

use vstd::prelude::*;
use crate::error::Error;
use crate::package::{shares_author, AuthorSet, Package};

verus! {

/// The default rule: `corpus_name` may be the target of `package_name` when the names differ,
/// `corpus_name` is in the corpus, and its entry shares no author with the candidate.
pub open spec fn default_admits(
    entry: Option<Set<Seq<char>>>,
    corpus_name: Seq<char>,
    package_name: Seq<char>,
    authors: Set<Seq<char>>,
) -> bool {
    corpus_name != package_name && entry is Some && !shares_author(entry.unwrap(), authors)
}

/// A corpus of existing, popular packages that checks are run against.
pub trait Corpus {
    type Item: Package;

    /// The authors of the entry named `name`, or `None` when the corpus has no such entry.
    /// A corpus written in verified code defines it; otherwise it is left unspecified.
    closed spec fn entry(&self, name: Seq<char>) -> Option<Set<Seq<char>>> {
        arbitrary()
    }

    /// Whether `corpus_name` could be the package that `package_name`, with authors `authors`,
    /// is squatting. Most corpora use [`default_admits`] here; otherwise it is left
    /// unspecified.
    closed spec fn admits(
        &self,
        corpus_name: Seq<char>,
        package_name: Seq<char>,
        authors: Set<Seq<char>>,
    ) -> bool {
        arbitrary()
    }

    /// The corpus answers every lookup: none of its methods fails. A corpus written in
    /// verified code defines it; otherwise it is left unspecified.
    closed spec fn answers(&self) -> bool {
        arbitrary()
    }

    fn contains_name(&self, name: &str) -> (r: Result<bool, Error>)
        ensures
            r is Ok ==> r->Ok_0 == self.entry(name@) is Some,
            self.answers() ==> r is Ok,
            r is Err ==> r->Err_0 is Corpus,
    ;

    fn get(&self, name: &str) -> (r: Result<Option<&Self::Item>, Error>)
        ensures
            r is Ok ==> (r->Ok_0 is Some <==> self.entry(name@) is Some),
            r is Ok && r->Ok_0 is Some ==> r->Ok_0->Some_0.authors_view() == self.entry(
                name@,
            )->Some_0,
            self.answers() ==> r is Ok,
            r is Err ==> r->Err_0 is Corpus,
    ;

    /// Checks whether `corpus_name`, a package of the corpus, could be the package that
    /// `package`, named `package_name`, is squatting.
    ///
    /// Most corpora implement this with [`default_possible_squat`], and may layer
    /// ecosystem-specific exclusions on top of it.
    fn possible_squat<P: Package>(&self, corpus_name: &str, package_name: &str, package: &P) -> (r:
        Result<bool, Error>)
        ensures
            r is Ok ==> r->Ok_0 == self.admits(corpus_name@, package_name@, package.authors_view()),
            self.answers() ==> r is Ok,
            r is Err ==> r->Err_0 is Corpus,
    ;
}

/// The default implementation of [`Corpus::possible_squat`], for reuse by corpora that layer
/// their own exclusions on top of it.
///
/// A package cannot squat itself, nor a name that is not in the corpus, and an author cannot
/// squat their own package.
pub fn default_possible_squat<C: Corpus + ?Sized, P: Package>(
    corpus: &C,
    corpus_name: &str,
    package_name: &str,
    package: &P,
) -> (r: Result<bool, Error>)
    ensures
        r is Ok ==> r->Ok_0 == default_admits(
            corpus.entry(corpus_name@),
            corpus_name@,
            package_name@,
            package.authors_view(),
        ),
        corpus_name@ == package_name@ ==> r == Ok::<bool, Error>(false),
        corpus.answers() ==> r is Ok,
        r is Err ==> r->Err_0 is Corpus,
{
    if str_eq(corpus_name, package_name) {
        return Ok(false);
    }
    match corpus.get(corpus_name) {
        Err(e) => Err(e),
        Ok(None) => Ok(false),
        Ok(Some(checked)) => Ok(!checked.shared_authors(package.authors())),
    }
}

/// Whether two strings hold the same characters.
pub fn str_eq(a: &str, b: &str) -> (r: bool)
    ensures
        r == (a@ == b@),
{
    let n = a.unicode_len();
    if n != b.unicode_len() {
        return false;
    }
    let mut i: usize = 0;
    while i < n
        invariant
            n == a@.len(),
            n == b@.len(),
            i <= n,
            forall|j: int| 0 <= j < i ==> a@[j] == b@[j],
        decreases n - i,
    {
        if a.get_char(i) != b.get_char(i) {
            return false;
        }
        i = i + 1;
    }
    assert(a@ =~= b@);
    true
}

} // verus!
