use vstd::prelude::*;
use crate::checks::util::{rebuild_name, rebuilt};
use crate::checks::{admitted, flag_admitted, lemma_flagged_technique, Check, Squat, SquatView, Technique};
use crate::corpus::Corpus;
use crate::error::Error;
use crate::package::Package;

verus! {

/// Checks whether a package differs from a package of the corpus only by omitting one
/// character.
pub struct Omitted {
    alphabet: Vec<String>,
}

/// `s` with `c` inserted before position `i`.
pub open spec fn inserted(s: Seq<char>, i: int, c: char) -> Seq<char> {
    rebuilt(s, i, 0, seq![c])
}

/// The names made by inserting each character of `alphabet` at each position of `s` before
/// `i`, position by position.
pub open spec fn insertions(s: Seq<char>, alphabet: Seq<char>, i: int) -> Seq<Seq<char>>
    decreases i,
{
    if i <= 0 {
        Seq::empty()
    } else {
        insertions(s, alphabet, i - 1) + alphabet.map_values(|c: char| inserted(s, i - 1, c))
    }
}

/// The names that the check asks about for `s`.
pub open spec fn omitted_targets(s: Seq<char>, alphabet: Seq<char>) -> Seq<Seq<char>> {
    insertions(s, alphabet, s.len() + 1int)
}

impl Omitted {
    /// The characters that are valid in a package name, in order.
    pub closed spec fn alphabet_view(&self) -> Seq<char> {
        self.alphabet@.map_values(|a: String| a@[0])
    }

    #[verifier::type_invariant]
    spec fn well_formed(&self) -> bool {
        forall|k: int| 0 <= k < self.alphabet@.len() ==> self.alphabet@[k]@.len() == 1
    }

    /// Instantiates an omitted-character check; `alphabet` holds the characters that are
    /// valid in a package name.
    pub fn new(alphabet: &str) -> (r: Self)
        ensures
            r.alphabet_view() == alphabet@,
    {
        let n = alphabet.unicode_len();
        let mut chars: Vec<String> = Vec::new();
        let mut i: usize = 0;
        while i < n
            invariant
                n == alphabet@.len(),
                i <= n,
                chars@.len() == i,
                forall|k: int| 0 <= k < i ==> chars@[k]@ == seq![alphabet@[k]],
            decreases n - i,
        {
            let c = alphabet.substring_char(i, i + 1).to_owned();
            assert(c@ =~= seq![alphabet@[i as int]]);
            chars.push(c);
            i = i + 1;
        }
        let r = Omitted { alphabet: chars };
        assert(r.alphabet_view() =~= alphabet@);
        r
    }

    /// The names made by inserting each character of the alphabet at each position of `name`.
    pub fn targets(&self, name: &str) -> (r: Vec<String>)
        ensures
            r@.map_values(|t: String| t@) == omitted_targets(name@, self.alphabet_view()),
    {
        proof {
            use_type_invariant(self);
        }
        let len = name.unicode_len();
        let ghost alpha = self.alphabet_view();
        let mut out: Vec<String> = Vec::new();
        let mut i: usize = 0;
        loop
            invariant_except_break
                out@.map_values(|t: String| t@) == insertions(name@, alpha, i as int),
            invariant
                len == name@.len(),
                i <= len,
                self.well_formed(),
                alpha == self.alphabet_view(),
            ensures
                out@.map_values(|t: String| t@) == insertions(name@, alpha, len + 1),
            decreases len - i,
        {
            let mut j: usize = 0;
            let ghost start = out@.map_values(|t: String| t@);
            while j < self.alphabet.len()
                invariant
                    len == name@.len(),
                    i <= len,
                    j <= self.alphabet@.len(),
                    self.well_formed(),
                    alpha == self.alphabet_view(),
                    alpha.len() == self.alphabet@.len(),
                    start == insertions(name@, alpha, i as int),
                    out@.map_values(|t: String| t@) == start + alpha.subrange(0, j as int).map_values(
                        |c: char| inserted(name@, i as int, c),
                    ),
                decreases self.alphabet@.len() - j,
            {
                let c = &self.alphabet[j];
                let t = rebuild_name(name, i, 0, c.as_str());
                proof {
                    assert(c@ =~= seq![alpha[j as int]]);
                }
                let ghost before = out@;
                out.push(t);
                assert(out@.map_values(|t: String| t@) =~= before.map_values(|t: String| t@).push(
                    t@,
                ));
                assert(alpha.subrange(0, j + 1).map_values(|c: char| inserted(name@, i as int, c))
                    =~= alpha.subrange(0, j as int).map_values(
                    |c: char| inserted(name@, i as int, c),
                ).push(inserted(name@, i as int, alpha[j as int])));
                j = j + 1;
            }
            assert(alpha.subrange(0, j as int) =~= alpha);
            if i == len {
                break;
            }
            i = i + 1;
        }
        out
    }
}

impl Check for Omitted {
    open spec fn proposals(&self, name: Seq<char>) -> Seq<SquatView> {
        Technique::OmittedCharacter.squats(omitted_targets(name, self.alphabet_view()))
    }

    fn check<C: Corpus, P: Package>(&self, corpus: &C, name: &str, package: &P) -> (r: Result<
        Vec<Squat>,
        Error,
    >) {
        let targets = self.targets(name);
        flag_admitted(corpus, Technique::OmittedCharacter, &targets, name, package)
    }
}

proof fn lemma_insertions_contains(s: Seq<char>, alphabet: Seq<char>, i: int, t: Seq<char>)
    ensures
        insertions(s, alphabet, i).contains(t) <==> exists|p: int, j: int|
            0 <= p < i && 0 <= j < alphabet.len() && t == #[trigger] inserted(s, p, alphabet[j]),
    decreases i,
{
    if i > 0 {
        lemma_insertions_contains(s, alphabet, i - 1, t);
        let pre = insertions(s, alphabet, i - 1);
        let row = alphabet.map_values(|c: char| inserted(s, i - 1, c));
        let all = insertions(s, alphabet, i);
        assert(all == pre + row);
        if all.contains(t) {
            let x = choose|x: int| 0 <= x < all.len() && all[x] == t;
            if x < pre.len() {
                assert(pre[x] == t);
            } else {
                assert(row[x - pre.len()] == t);
                assert(t == inserted(s, i - 1, alphabet[x - pre.len()]));
            }
        }
        if exists|p: int, j: int|
            0 <= p < i && 0 <= j < alphabet.len() && t == #[trigger] inserted(s, p, alphabet[j]) {
            let (p, j) = choose|p: int, j: int|
                0 <= p < i && 0 <= j < alphabet.len() && t == #[trigger] inserted(
                    s,
                    p,
                    alphabet[j],
                );
            if p < i - 1 {
                let x = choose|x: int| 0 <= x < pre.len() && pre[x] == t;
                assert(all[x] == t);
            } else {
                assert(row[j] == t);
                assert(all[pre.len() + j] == t);
            }
        }
    }
}

/// The omitted-character check flags `name` with `target` exactly when `target` is `name` with
/// one character of the alphabet inserted at some position, and the corpus admits `target`.
pub proof fn lemma_omitted_flags<C: Corpus>(
    check: Omitted,
    corpus: &C,
    name: Seq<char>,
    authors: Set<Seq<char>>,
    target: Seq<char>,
)
    ensures
        admitted(corpus, check.proposals(name), name, authors).contains(
            SquatView::OmittedCharacter(target),
        ) <==> ((exists|p: int, j: int|
            0 <= p <= name.len() && 0 <= j < check.alphabet_view().len() && target
                == #[trigger] inserted(name, p, check.alphabet_view()[j])) && corpus.admits(
            target,
            name,
            authors,
        )),
{
    lemma_flagged_technique(
        corpus,
        Technique::OmittedCharacter,
        omitted_targets(name, check.alphabet_view()),
        name,
        authors,
        target,
    );
    lemma_insertions_contains(name, check.alphabet_view(), name.len() + 1int, target);
}

} // verus!
