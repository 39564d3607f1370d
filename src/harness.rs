use vstd::prelude::*;
use crate::checks::{
    admitted, lemma_admitted_append, squats_view, Bitflips, Check, Omitted, Repeated, Squat,
    SquatView, SwappedCharacters, SwappedWords, Typos, Version,
};
use crate::corpus::Corpus;
use crate::error::Error;
use crate::package::Package;

verus! {

/// One of the built-in checks, as the harness holds them.
pub enum AnyCheck {
    Bitflips(Bitflips),
    Omitted(Omitted),
    Repeated(Repeated),
    SwappedCharacters(SwappedCharacters),
    SwappedWords(SwappedWords),
    Typos(Typos),
    Version(Version),
}

impl Check for AnyCheck {
    open spec fn proposals(&self, name: Seq<char>) -> Seq<SquatView> {
        match self {
            AnyCheck::Bitflips(c) => c.proposals(name),
            AnyCheck::Omitted(c) => c.proposals(name),
            AnyCheck::Repeated(c) => c.proposals(name),
            AnyCheck::SwappedCharacters(c) => c.proposals(name),
            AnyCheck::SwappedWords(c) => c.proposals(name),
            AnyCheck::Typos(c) => c.proposals(name),
            AnyCheck::Version(c) => c.proposals(name),
        }
    }

    fn check<C: Corpus, P: Package>(&self, corpus: &C, name: &str, package: &P) -> (r: Result<
        Vec<Squat>,
        Error,
    >) {
        match self {
            AnyCheck::Bitflips(c) => c.check(corpus, name, package),
            AnyCheck::Omitted(c) => c.check(corpus, name, package),
            AnyCheck::Repeated(c) => c.check(corpus, name, package),
            AnyCheck::SwappedCharacters(c) => c.check(corpus, name, package),
            AnyCheck::SwappedWords(c) => c.check(corpus, name, package),
            AnyCheck::Typos(c) => c.check(corpus, name, package),
            AnyCheck::Version(c) => c.check(corpus, name, package),
        }
    }
}

/// The proposals of each of `checks` in turn, for `name`.
pub open spec fn all_proposals<K: Check>(checks: Seq<K>, name: Seq<char>) -> Seq<SquatView>
    decreases checks.len(),
{
    if checks.len() == 0 {
        Seq::empty()
    } else {
        all_proposals(checks.drop_last(), name) + checks.last().proposals(name)
    }
}

/// A harness that runs its checks, in order, against candidate packages.
///
/// The checks are of one type: [`AnyCheck`] for the built-in ones, or a type of the user's
/// that implements [`Check`] (for example an enum that holds `AnyCheck` and custom checks).
pub struct Harness<C: Corpus, K: Check = AnyCheck> {
    checks: Vec<K>,
    corpus: C,
}

/// A builder for [`Harness`].
pub struct Builder<K: Check = AnyCheck> {
    checks: Vec<K>,
}

impl Builder<AnyCheck> {
    /// A builder that starts with the checks that need no knowledge of the ecosystem.
    fn new() -> (r: Self)
        ensures
            r.checks() == seq![
                AnyCheck::Repeated(Repeated),
                AnyCheck::SwappedCharacters(SwappedCharacters),
                AnyCheck::Version(Version),
            ],
    {
        let mut checks: Vec<AnyCheck> = Vec::new();
        checks.push(AnyCheck::Repeated(Repeated));
        checks.push(AnyCheck::SwappedCharacters(SwappedCharacters));
        checks.push(AnyCheck::Version(Version));
        assert(checks@ =~= seq![
            AnyCheck::Repeated(Repeated),
            AnyCheck::SwappedCharacters(SwappedCharacters),
            AnyCheck::Version(Version),
        ]);
        Builder { checks }
    }
}

impl<K: Check> Builder<K> {
    /// The checks added so far, in order.
    pub closed spec fn checks(&self) -> Seq<K> {
        self.checks@
    }

    /// A builder with no checks.
    fn empty() -> (r: Self)
        ensures
            r.checks() == Seq::<K>::empty(),
    {
        Builder { checks: Vec::new() }
    }

    /// Adds a check after those already added.
    pub fn with_check(self, check: K) -> (r: Self)
        ensures
            r.checks() == self.checks().push(check),
    {
        let mut checks = self.checks;
        checks.push(check);
        Builder { checks }
    }

    /// Binds the checks to `corpus`.
    pub fn build<C: Corpus>(self, corpus: C) -> (r: Harness<C, K>)
        ensures
            r.checks() == self.checks(),
            r.corpus() == corpus,
    {
        Harness { checks: self.checks, corpus }
    }
}

/// The entry of a batch for `name`: present only when its squats are not empty.
pub fn flagged_entry(name: String, squats: Vec<Squat>) -> (r: Option<(String, Vec<Squat>)>)
    ensures
        r is Some <==> squats@.len() > 0,
        r is Some ==> r->Some_0.0 == name && r->Some_0.1 == squats,
{
    if squats.len() == 0 {
        None
    } else {
        Some((name, squats))
    }
}

impl<C: Corpus> Harness<C, AnyCheck> {
    /// A builder that starts with [`Repeated`], [`SwappedCharacters`] and [`Version`], the
    /// checks that need no knowledge of the ecosystem.
    pub fn builder() -> (r: Builder<AnyCheck>)
        ensures
            r.checks() == seq![
                AnyCheck::Repeated(Repeated),
                AnyCheck::SwappedCharacters(SwappedCharacters),
                AnyCheck::Version(Version),
            ],
    {
        Builder::new()
    }
}

impl<C: Corpus, K: Check> Harness<C, K> {
    /// The checks, in the order they run.
    pub closed spec fn checks(&self) -> Seq<K> {
        self.checks@
    }

    /// The corpus the checks ask.
    pub closed spec fn corpus(&self) -> C {
        self.corpus
    }

    /// What [`Harness::check_package`] returns for `name`, whose package has `authors`.
    pub open spec fn flagged(&self, name: Seq<char>, authors: Set<Seq<char>>) -> Seq<SquatView> {
        if self.corpus().entry(name) is Some {
            Seq::empty()
        } else {
            admitted(&self.corpus(), all_proposals(self.checks(), name), name, authors)
        }
    }

    /// The flagged entries of a batch: each name whose squats are not empty, with its squats,
    /// in the order of `packages`.
    pub open spec fn batch<P: Package>(&self, packages: Seq<(String, P)>) -> Seq<
        (Seq<char>, Seq<SquatView>),
    >
        decreases packages.len(),
    {
        if packages.len() == 0 {
            Seq::empty()
        } else {
            let before = self.batch(packages.drop_last());
            let f = self.flagged(packages.last().0@, packages.last().1.authors_view());
            if f.len() > 0 {
                before.push((packages.last().0@, f))
            } else {
                before
            }
        }
    }

    /// A builder with no checks.
    pub fn empty_builder() -> (r: Builder<K>)
        ensures
            r.checks() == Seq::<K>::empty(),
    {
        Builder::empty()
    }

    /// Checks one package against the corpus with every check, in order.
    ///
    /// A name that the corpus already holds is never flagged. The first error stops the
    /// evaluation and is returned.
    pub fn check_package<P: Package>(&self, name: &str, package: &P) -> (r: Result<
        Vec<Squat>,
        Error,
    >)
        ensures
            r is Ok ==> squats_view(r->Ok_0@) == self.flagged(name@, package.authors_view()),
            r is Ok && self.corpus().entry(name@) is Some ==> r->Ok_0@.len() == 0,
            self.corpus().answers() ==> r is Ok,
            r is Err ==> r->Err_0 is Corpus,
    {
        match self.corpus.contains_name(name) {
            Err(e) => {
                return Err(e);
            },
            Ok(true) => {
                return Ok(Vec::new());
            },
            Ok(false) => {},
        }
        let ghost authors = package.authors_view();
        let mut squats: Vec<Squat> = Vec::new();
        let mut i: usize = 0;
        while i < self.checks.len()
            invariant
                i <= self.checks@.len(),
                authors == package.authors_view(),
                squats_view(squats@) == admitted(
                    &self.corpus,
                    all_proposals(self.checks@.subrange(0, i as int), name@),
                    name@,
                    authors,
                ),
            decreases self.checks@.len() - i,
        {
            let found = self.checks[i].check(&self.corpus, name, package);
            match found {
                Err(e) => {
                    return Err(e);
                },
                Ok(more) => {
                    let ghost before = squats@;
                    let ghost added = more@;
                    let mut more = more;
                    squats.append(&mut more);
                    proof {
                        let sub = self.checks@.subrange(0, i + 1);
                        assert(sub.drop_last() =~= self.checks@.subrange(0, i as int));
                        lemma_admitted_append(
                            &self.corpus,
                            all_proposals(self.checks@.subrange(0, i as int), name@),
                            self.checks@[i as int].proposals(name@),
                            name@,
                            authors,
                        );
                        assert(squats_view(squats@) =~= squats_view(before) + squats_view(added));
                    }
                },
            }
            i = i + 1;
        }
        assert(self.checks@.subrange(0, i as int) =~= self.checks@);
        Ok(squats)
    }

    /// Checks every package of a batch, one after another, and keeps those with squats.
    ///
    /// The first error stops the batch and is returned; no partial result is.
    pub fn check<P: Package>(&self, packages: &Vec<(String, P)>) -> (r: Result<
        Vec<(String, Vec<Squat>)>,
        Error,
    >)
        ensures
            r is Ok ==> r->Ok_0@.map_values(|e: (String, Vec<Squat>)| entry_view(e)) == self.batch(
                packages@,
            ),
            r is Ok ==> forall|j: int|
                0 <= j < r->Ok_0@.len() ==> (#[trigger] r->Ok_0@[j]).1@.len() > 0,
            packages@.len() == 0 ==> r is Ok && r->Ok_0@.len() == 0,
            self.corpus().answers() ==> r is Ok,
            r is Err ==> r->Err_0 is Corpus,
    {
        let mut out: Vec<(String, Vec<Squat>)> = Vec::new();
        let mut i: usize = 0;
        while i < packages.len()
            invariant
                i <= packages@.len(),
                out@.map_values(|e: (String, Vec<Squat>)| entry_view(e)) == self.batch(
                    packages@.subrange(0, i as int),
                ),
                forall|j: int| 0 <= j < out@.len() ==> (#[trigger] out@[j]).1@.len() > 0,
            decreases packages@.len() - i,
        {
            let name = &packages[i].0;
            let squats = self.check_package(name.as_str(), &packages[i].1);
            assert(packages@.subrange(0, i + 1).drop_last() =~= packages@.subrange(0, i as int));
            match squats {
                Err(e) => {
                    return Err(e);
                },
                Ok(squats) => {
                    let ghost sv = squats@;
                    let ghost before = out@;
                    match flagged_entry(name.clone(), squats) {
                        Some(entry) => {
                            out.push(entry);
                            assert(out@.map_values(|e: (String, Vec<Squat>)| entry_view(e))
                                =~= before.map_values(|e: (String, Vec<Squat>)| entry_view(e)).push(
                                (name@, squats_view(sv)),
                            ));
                        },
                        None => {},
                    }
                },
            }
            i = i + 1;
        }
        assert(packages@.subrange(0, i as int) =~= packages@);
        Ok(out)
    }
}

/// No name that the corpus holds appears among the flagged entries of a batch, and every
/// flagged entry has at least one squat.
pub proof fn lemma_batch_flags_unknown_names<C: Corpus, K: Check, P: Package>(
    harness: &Harness<C, K>,
    packages: Seq<(String, P)>,
)
    ensures
        forall|j: int|
            0 <= j < harness.batch(packages).len() ==> harness.corpus().entry(
                (#[trigger] harness.batch(packages)[j]).0,
            ) is None && harness.batch(packages)[j].1.len() > 0,
    decreases packages.len(),
{
    if packages.len() > 0 {
        lemma_batch_flags_unknown_names(harness, packages.drop_last());
    }
}

pub open spec fn entry_view(e: (String, Vec<Squat>)) -> (Seq<char>, Seq<SquatView>) {
    (e.0@, squats_view(e.1@))
}

} // verus!
