//! The checks, along with the traits and types needed to define custom checks.
//!
//! Every check reconstructs, from a suspect name, the names it could be imitating (its
//! proposals), and keeps those that the corpus admits as targets.

use vstd::prelude::*;
use crate::corpus::Corpus;
use crate::error::Error;
use crate::package::Package;

pub mod bitflips;
pub mod omitted;
pub mod repeated;
pub mod swapped;
pub mod typos;
pub mod util;
pub mod version;

pub use bitflips::Bitflips;
pub use omitted::Omitted;
pub use repeated::Repeated;
pub use swapped::{Characters as SwappedCharacters, Words as SwappedWords};
pub use typos::Typos;
pub use version::Version;

verus! {

/// A potential typosquat: the technique and the corpus name that is believed to be the target.
#[derive(Debug, Clone)]
pub enum Squat {
    Bitflip(String),
    OmittedCharacter(String),
    RepeatedCharacter(String),
    SwappedCharacters(String),
    SwappedWords(String),
    Typo(String),
    Version(String),
    Custom { message: String, package: String },
}

/// The mathematical value of a [`Squat`].
pub enum SquatView {
    Bitflip(Seq<char>),
    OmittedCharacter(Seq<char>),
    RepeatedCharacter(Seq<char>),
    SwappedCharacters(Seq<char>),
    SwappedWords(Seq<char>),
    Typo(Seq<char>),
    Version(Seq<char>),
    Custom { message: Seq<char>, package: Seq<char> },
}

impl SquatView {
    /// The corpus name that the squat points at.
    pub open spec fn target(self) -> Seq<char> {
        match self {
            SquatView::Bitflip(p) => p,
            SquatView::OmittedCharacter(p) => p,
            SquatView::RepeatedCharacter(p) => p,
            SquatView::SwappedCharacters(p) => p,
            SquatView::SwappedWords(p) => p,
            SquatView::Typo(p) => p,
            SquatView::Version(p) => p,
            SquatView::Custom { message, package } => package,
        }
    }
}

impl View for Squat {
    type V = SquatView;

    open spec fn view(&self) -> SquatView {
        match self {
            Squat::Bitflip(p) => SquatView::Bitflip(p@),
            Squat::OmittedCharacter(p) => SquatView::OmittedCharacter(p@),
            Squat::RepeatedCharacter(p) => SquatView::RepeatedCharacter(p@),
            Squat::SwappedCharacters(p) => SquatView::SwappedCharacters(p@),
            Squat::SwappedWords(p) => SquatView::SwappedWords(p@),
            Squat::Typo(p) => SquatView::Typo(p@),
            Squat::Version(p) => SquatView::Version(p@),
            Squat::Custom { message, package } => SquatView::Custom {
                message: message@,
                package: package@,
            },
        }
    }
}

/// The views of a list of squats.
pub open spec fn squats_view(v: Seq<Squat>) -> Seq<SquatView> {
    v.map_values(|s: Squat| s@)
}

/// The techniques of the built-in checks, each with its kind of [`Squat`].
#[derive(Debug, Clone, Copy, PartialEq, Eq)]
pub enum Technique {
    Bitflip,
    OmittedCharacter,
    RepeatedCharacter,
    SwappedCharacters,
    SwappedWords,
    Typo,
    Version,
}

impl Technique {
    /// The squat of this technique that points at `target`.
    pub open spec fn squat(self, target: Seq<char>) -> SquatView {
        match self {
            Technique::Bitflip => SquatView::Bitflip(target),
            Technique::OmittedCharacter => SquatView::OmittedCharacter(target),
            Technique::RepeatedCharacter => SquatView::RepeatedCharacter(target),
            Technique::SwappedCharacters => SquatView::SwappedCharacters(target),
            Technique::SwappedWords => SquatView::SwappedWords(target),
            Technique::Typo => SquatView::Typo(target),
            Technique::Version => SquatView::Version(target),
        }
    }

    /// The squats of this technique that point at each of `targets`, in order.
    pub open spec fn squats(self, targets: Seq<Seq<char>>) -> Seq<SquatView> {
        targets.map_values(|t: Seq<char>| self.squat(t))
    }

    /// Builds the squat of this technique that points at `target`.
    pub fn make(self, target: String) -> (r: Squat)
        ensures
            r@ == self.squat(target@),
    {
        match self {
            Technique::Bitflip => Squat::Bitflip(target),
            Technique::OmittedCharacter => Squat::OmittedCharacter(target),
            Technique::RepeatedCharacter => Squat::RepeatedCharacter(target),
            Technique::SwappedCharacters => Squat::SwappedCharacters(target),
            Technique::SwappedWords => Squat::SwappedWords(target),
            Technique::Typo => Squat::Typo(target),
            Technique::Version => Squat::Version(target),
        }
    }
}

impl Squat {
    /// Instantiates a custom squat.
    pub fn custom(message: &str, package: &str) -> (r: Self)
        ensures
            r@ == (SquatView::Custom { message: message@, package: package@ }),
    {
        Squat::Custom { message: message.to_owned(), package: package.to_owned() }
    }

    /// The corpus name that the squat points at.
    pub fn target(&self) -> (r: &str)
        ensures
            r@ == self@.target(),
    {
        match self {
            Squat::Bitflip(p) => p.as_str(),
            Squat::OmittedCharacter(p) => p.as_str(),
            Squat::RepeatedCharacter(p) => p.as_str(),
            Squat::SwappedCharacters(p) => p.as_str(),
            Squat::SwappedWords(p) => p.as_str(),
            Squat::Typo(p) => p.as_str(),
            Squat::Version(p) => p.as_str(),
            Squat::Custom { message, package } => package.as_str(),
        }
    }

    /// The human-readable rendering of the squat.
    pub fn message(&self) -> (r: String)
        ensures
            r@ == self@.message(),
    {
        match self {
            Squat::Bitflip(p) => "may be a bitflip of ".to_owned().concat(p.as_str()),
            Squat::OmittedCharacter(p) => "omits characters in ".to_owned().concat(p.as_str()),
            Squat::RepeatedCharacter(p) => "repeats characters in ".to_owned().concat(p.as_str()),
            Squat::SwappedCharacters(p) => "swaps characters in ".to_owned().concat(p.as_str()),
            Squat::SwappedWords(p) => "swaps words in ".to_owned().concat(p.as_str()),
            Squat::Typo(p) => "uses a common typo for ".to_owned().concat(p.as_str()),
            Squat::Version(p) => "only changes the version from ".to_owned().concat(p.as_str()),
            Squat::Custom { message, package } => message.clone().concat(" for ").concat(
                package.as_str(),
            ),
        }
    }
}

impl SquatView {
    /// The human-readable rendering of the squat.
    pub open spec fn message(self) -> Seq<char> {
        match self {
            SquatView::Bitflip(p) => "may be a bitflip of "@ + p,
            SquatView::OmittedCharacter(p) => "omits characters in "@ + p,
            SquatView::RepeatedCharacter(p) => "repeats characters in "@ + p,
            SquatView::SwappedCharacters(p) => "swaps characters in "@ + p,
            SquatView::SwappedWords(p) => "swaps words in "@ + p,
            SquatView::Typo(p) => "uses a common typo for "@ + p,
            SquatView::Version(p) => "only changes the version from "@ + p,
            SquatView::Custom { message, package } => message + " for "@ + package,
        }
    }
}

/// The proposals that `corpus` admits as targets of `name`, whose package has `authors`, in
/// their order.
pub open spec fn admitted<C: Corpus>(
    corpus: &C,
    proposals: Seq<SquatView>,
    name: Seq<char>,
    authors: Set<Seq<char>>,
) -> Seq<SquatView>
    decreases proposals.len(),
{
    if proposals.len() == 0 {
        Seq::empty()
    } else {
        let before = admitted(corpus, proposals.drop_last(), name, authors);
        if corpus.admits(proposals.last().target(), name, authors) {
            before.push(proposals.last())
        } else {
            before
        }
    }
}

/// A squat is admitted exactly when it is proposed and the corpus admits its target.
pub proof fn lemma_admitted_contains<C: Corpus>(
    corpus: &C,
    proposals: Seq<SquatView>,
    name: Seq<char>,
    authors: Set<Seq<char>>,
    s: SquatView,
)
    ensures
        admitted(corpus, proposals, name, authors).contains(s) <==> (proposals.contains(s)
            && corpus.admits(s.target(), name, authors)),
    decreases proposals.len(),
{
    if proposals.len() > 0 {
        let pre = proposals.drop_last();
        lemma_admitted_contains(corpus, pre, name, authors, s);
        assert(proposals =~= pre.push(proposals.last()));
        if proposals.contains(s) && s != proposals.last() {
            let i = choose|i: int| 0 <= i < proposals.len() && proposals[i] == s;
            assert(pre[i] == s);
        }
        if pre.contains(s) {
            let i = choose|i: int| 0 <= i < pre.len() && pre[i] == s;
            assert(proposals[i] == s);
        }
        let before = admitted(corpus, pre, name, authors);
        if corpus.admits(proposals.last().target(), name, authors) {
            assert(before.push(proposals.last())[before.len() as int] == proposals.last());
            if before.contains(s) {
                let i = choose|i: int| 0 <= i < before.len() && before[i] == s;
                assert(before.push(proposals.last())[i] == s);
            }
            if before.push(proposals.last()).contains(s) && s != proposals.last() {
                let i = choose|i: int|
                    0 <= i < before.len() + 1 && before.push(proposals.last())[i] == s;
                assert(before[i] == s);
            }
        }
    }
}

/// Admission distributes over concatenation of proposal lists.
pub proof fn lemma_admitted_append<C: Corpus>(
    corpus: &C,
    a: Seq<SquatView>,
    b: Seq<SquatView>,
    name: Seq<char>,
    authors: Set<Seq<char>>,
)
    ensures
        admitted(corpus, a + b, name, authors) == admitted(corpus, a, name, authors) + admitted(
            corpus,
            b,
            name,
            authors,
        ),
    decreases b.len(),
{
    if b.len() == 0 {
        assert(a + b =~= a);
        assert(admitted(corpus, a, name, authors) + admitted(corpus, b, name, authors) =~= admitted(
            corpus,
            a,
            name,
            authors,
        ));
    } else {
        lemma_admitted_append(corpus, a, b.drop_last(), name, authors);
        assert((a + b).drop_last() =~= a + b.drop_last());
        assert((a + b).last() == b.last());
        let x = admitted(corpus, a, name, authors);
        let y = admitted(corpus, b.drop_last(), name, authors);
        assert((x + y).push(b.last()) =~= x + y.push(b.last()));
    }
}

/// A check whose proposals are squats of one technique flags a name exactly when the name is
/// among its targets and the corpus admits it.
pub proof fn lemma_flagged_technique<C: Corpus>(
    corpus: &C,
    technique: Technique,
    targets: Seq<Seq<char>>,
    name: Seq<char>,
    authors: Set<Seq<char>>,
    target: Seq<char>,
)
    ensures
        admitted(corpus, technique.squats(targets), name, authors).contains(
            technique.squat(target),
        ) <==> (targets.contains(target) && corpus.admits(target, name, authors)),
{
    let sq = technique.squats(targets);
    lemma_admitted_contains(corpus, sq, name, authors, technique.squat(target));
    assert(technique.squat(target).target() == target);
    if sq.contains(technique.squat(target)) {
        let i = choose|i: int| 0 <= i < sq.len() && sq[i] == technique.squat(target);
        assert(technique.squat(targets[i]).target() == targets[i]);
        assert(targets[i] == target);
    }
    if targets.contains(target) {
        let i = choose|i: int| 0 <= i < targets.len() && targets[i] == target;
        assert(sq[i] == technique.squat(target));
    }
}

/// Asks `corpus` about each of `targets`, in order, and keeps a squat of `technique` for each
/// one that it admits. The first error of the corpus is returned as it is.
pub fn flag_admitted<C: Corpus, P: Package>(
    corpus: &C,
    technique: Technique,
    targets: &Vec<String>,
    name: &str,
    package: &P,
) -> (r: Result<Vec<Squat>, Error>)
    ensures
        r is Ok ==> squats_view(r->Ok_0@) == admitted(
            corpus,
            technique.squats(targets@.map_values(|t: String| t@)),
            name@,
            package.authors_view(),
        ),
        targets@.len() == 0 ==> r is Ok && r->Ok_0@.len() == 0,
        corpus.answers() ==> r is Ok,
        r is Err ==> r->Err_0 is Corpus,
{
    let ghost tv = targets@.map_values(|t: String| t@);
    let mut squats: Vec<Squat> = Vec::new();
    let mut i: usize = 0;
    while i < targets.len()
        invariant
            i <= targets.len(),
            tv == targets@.map_values(|t: String| t@),
            squats_view(squats@) == admitted(
                corpus,
                technique.squats(tv.subrange(0, i as int)),
                name@,
                package.authors_view(),
            ),
        decreases targets.len() - i,
    {
        let target = &targets[i];
        let answer = corpus.possible_squat(target.as_str(), name, package);
        let ghost before = squats@;
        match answer {
            Err(e) => {
                return Err(e);
            },
            Ok(true) => {
                squats.push(technique.make(target.clone()));
                assert(squats_view(squats@) =~= squats_view(before).push(
                    technique.squat(target@),
                ));
            },
            Ok(false) => {},
        }
        proof {
            let s0 = technique.squats(tv.subrange(0, i as int));
            let s1 = technique.squats(tv.subrange(0, i + 1));
            assert(s1.drop_last() =~= s0);
            assert(s1.last() == technique.squat(target@));
        }
        i = i + 1;
    }
    assert(tv.subrange(0, targets.len() as int) =~= tv);
    Ok(squats)
}

/// A check that compares a package to the corpus.
pub trait Check {
    /// The squats that the check proposes for `name`, before the corpus is asked about them;
    /// left unspecified unless an implementation defines it.
    closed spec fn proposals(&self, name: Seq<char>) -> Seq<SquatView> {
        arbitrary()
    }

    /// The squats among [`Check::proposals`] whose targets `corpus` admits, in order.
    fn check<C: Corpus, P: Package>(&self, corpus: &C, name: &str, package: &P) -> (r: Result<
        Vec<Squat>,
        Error,
    >)
        ensures
            r is Ok ==> squats_view(r->Ok_0@) == admitted(
                corpus,
                self.proposals(name@),
                name@,
                package.authors_view(),
            ),
            self.proposals(name@).len() == 0 ==> r is Ok && r->Ok_0@.len() == 0,
            corpus.answers() ==> r is Ok,
            r is Err ==> r->Err_0 is Corpus,
    ;
}

} // verus!
