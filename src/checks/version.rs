use vstd::prelude::*;
use crate::checks::{admitted, flag_admitted, lemma_flagged_technique, Check, Squat, SquatView, Technique};
use crate::corpus::Corpus;
use crate::error::Error;
use crate::package::Package;

verus! {

/// Checks whether a package differs from a package of the corpus only by a version suffix.
pub struct Version;

pub open spec fn is_digit(c: char) -> bool {
    '0' <= c <= '9'
}

/// `s` without its trailing ASCII digits.
pub open spec fn trim_digits(s: Seq<char>) -> Seq<char>
    decreases s.len(),
{
    if s.len() > 0 && is_digit(s.last()) {
        trim_digits(s.drop_last())
    } else {
        s
    }
}

/// `s` without its trailing ASCII digits, and then without one trailing hyphen.
pub open spec fn version_base(s: Seq<char>) -> Seq<char> {
    let t = trim_digits(s);
    if t.len() > 0 && t.last() == '-' {
        t.drop_last()
    } else {
        t
    }
}

/// The name that the check asks about: the base of `s`, when it is not empty and differs
/// from `s`.
pub open spec fn version_targets(s: Seq<char>) -> Seq<Seq<char>> {
    let t = version_base(s);
    if t.len() > 0 && t != s {
        seq![t]
    } else {
        Seq::empty()
    }
}

fn is_digit_at(name: &str, i: usize) -> (r: bool)
    requires
        i < name@.len(),
    ensures
        r == is_digit(name@[i as int]),
{
    let c = name.get_char(i);
    '0' <= c && c <= '9'
}

/// The length of [`version_base`]`(name@)`.
fn version_base_len(name: &str) -> (r: usize)
    ensures
        r <= name@.len(),
        name@.subrange(0, r as int) == version_base(name@),
{
    let len = name.unicode_len();
    let mut j: usize = len;
    assert(name@.subrange(0, len as int) =~= name@);
    while j > 0 && is_digit_at(name, j - 1)
        invariant
            j <= len == name@.len(),
            trim_digits(name@) == trim_digits(name@.subrange(0, j as int)),
        decreases j,
    {
        assert(name@.subrange(0, j as int).drop_last() =~= name@.subrange(0, j - 1));
        j = j - 1;
    }
    assert(trim_digits(name@) == name@.subrange(0, j as int));
    if j > 0 && name.get_char(j - 1) == '-' {
        assert(name@.subrange(0, j as int).drop_last() =~= name@.subrange(0, j - 1));
        j = j - 1;
    }
    j
}

impl Check for Version {
    open spec fn proposals(&self, name: Seq<char>) -> Seq<SquatView> {
        Technique::Version.squats(version_targets(name))
    }

    fn check<C: Corpus, P: Package>(&self, corpus: &C, name: &str, package: &P) -> (r: Result<
        Vec<Squat>,
        Error,
    >) {
        let j = version_base_len(name);
        let mut targets: Vec<String> = Vec::new();
        if j > 0 && j < name.unicode_len() {
            targets.push(name.substring_char(0, j).to_owned());
        }
        proof {
            if j == name@.len() {
                assert(name@.subrange(0, j as int) =~= name@);
            } else {
                assert(name@.subrange(0, j as int).len() != name@.len());
            }
            assert(targets@.map_values(|t: String| t@) =~= version_targets(name@));
        }
        flag_admitted(corpus, Technique::Version, &targets, name, package)
    }
}

/// The version check flags `name` with `target` exactly when stripping the trailing digits of
/// `name`, and then one trailing hyphen, leaves `target`, which is neither empty nor `name`,
/// and the corpus admits `target`.
pub proof fn lemma_version_flags<C: Corpus>(
    check: Version,
    corpus: &C,
    name: Seq<char>,
    authors: Set<Seq<char>>,
    target: Seq<char>,
)
    ensures
        admitted(corpus, check.proposals(name), name, authors).contains(
            SquatView::Version(target),
        ) <==> (target == version_base(name) && target.len() > 0 && target != name
            && corpus.admits(target, name, authors)),
{
    lemma_flagged_technique(corpus, Technique::Version, version_targets(name), name, authors, target);
    let t = version_targets(name);
    if t.contains(target) {
        let i = choose|i: int| 0 <= i < t.len() && t[i] == target;
    }
    if target == version_base(name) && target.len() > 0 && target != name {
        assert(t[0] == target);
    }
}

} // verus!
