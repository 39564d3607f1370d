use vstd::prelude::*;

verus! {

/// Answers whether an author owns a package.
///
/// An author is a string that is unique within one package ecosystem: a user name, a user id
/// or an e-mail address.
pub trait AuthorSet {
    /// The authors in this set; left unspecified unless an implementation defines it.
    closed spec fn author_view(&self) -> Set<Seq<char>> {
        arbitrary()
    }

    fn contains(&self, author: &str) -> (r: bool)
        ensures
            r == self.author_view().contains(author@),
    ;
}

/// The metadata of a package that checks and corpora rely on.
pub trait Package {
    type Authors: AuthorSet;

    /// The authors of this package; left unspecified unless an implementation defines it.
    closed spec fn authors_view(&self) -> Set<Seq<char>> {
        arbitrary()
    }

    /// The set that answers which authors own this package.
    fn authors(&self) -> (r: &Self::Authors)
        ensures
            r.author_view() == self.authors_view(),
    ;

    /// The package description, if it has one.
    fn description(&self) -> Option<&str>;

    /// Whether some author of this package is also in `other`.
    fn shared_authors<A: AuthorSet>(&self, other: &A) -> (r: bool)
        ensures
            r == shares_author(self.authors_view(), other.author_view()),
    ;
}

/// Two author sets have an author in common.
pub open spec fn shares_author(a: Set<Seq<char>>, b: Set<Seq<char>>) -> bool {
    exists|x: Seq<char>| a.contains(x) && b.contains(x)
}

} // verus!
