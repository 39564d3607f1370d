use vstd::prelude::*;
use crate::checks::util::{rebuild_name, rebuilt};
use crate::checks::{admitted, flag_admitted, lemma_flagged_technique, Check, Squat, SquatView, Technique};
use crate::corpus::Corpus;
use crate::error::Error;
use crate::package::Package;

verus! {

/// Checks whether a package differs from a package of the corpus only by repeating one
/// character.
pub struct Repeated;

pub open spec fn is_ascii_char(c: char) -> bool {
    (c as u32) < 128
}

/// The names made by collapsing one doubled ASCII character of `s`, for each pair that starts
/// before position `i`, in order.
pub open spec fn collapsed_names(s: Seq<char>, i: int) -> Seq<Seq<char>>
    decreases i,
{
    if i <= 0 {
        Seq::empty()
    } else {
        let before = collapsed_names(s, i - 1);
        let k = i - 1;
        if s[k] == s[k + 1] && is_ascii_char(s[k]) {
            before.push(rebuilt(s, k, 2, seq![s[k]]))
        } else {
            before
        }
    }
}

/// The names that the check asks about for `s`.
pub open spec fn repeated_targets(s: Seq<char>) -> Seq<Seq<char>> {
    collapsed_names(s, s.len() - 1)
}

impl Repeated {
    /// The names made by collapsing each doubled ASCII character of `name`, in order.
    pub fn targets(name: &str) -> (r: Vec<String>)
        ensures
            r@.map_values(|t: String| t@) == repeated_targets(name@),
    {
        let len = name.unicode_len();
        let mut out: Vec<String> = Vec::new();
        let mut i: usize = 0;
        while i + 1 < len
            invariant
                len == name@.len(),
                i == 0 || i + 1 <= len,
                out@.map_values(|t: String| t@) == collapsed_names(name@, i as int),
            decreases len - i,
        {
            let a = name.get_char(i);
            let b = name.get_char(i + 1);
            let ghost before = out@;
            if a == b && (a as u32) < 128 {
                let t = rebuild_name(name, i, 2, name.substring_char(i, i + 1));
                assert(name@.subrange(i as int, i + 1) =~= seq![a]);
                out.push(t);
                assert(out@.map_values(|t: String| t@) =~= before.map_values(|t: String| t@).push(
                    t@,
                ));
            }
            i = i + 1;
        }
        proof {
            if len == 0 {
                assert(collapsed_names(name@, -1) =~= collapsed_names(name@, 0));
            }
        }
        out
    }
}

impl Check for Repeated {
    open spec fn proposals(&self, name: Seq<char>) -> Seq<SquatView> {
        Technique::RepeatedCharacter.squats(repeated_targets(name))
    }

    fn check<C: Corpus, P: Package>(&self, corpus: &C, name: &str, package: &P) -> (r: Result<
        Vec<Squat>,
        Error,
    >) {
        let targets = Repeated::targets(name);
        flag_admitted(corpus, Technique::RepeatedCharacter, &targets, name, package)
    }
}

proof fn lemma_collapsed_contains(s: Seq<char>, i: int, t: Seq<char>)
    requires
        i <= s.len() - 1,
    ensures
        collapsed_names(s, i).contains(t) <==> exists|k: int|
            0 <= k < i && s[k] == s[k + 1] && is_ascii_char(s[k]) && t == rebuilt(
                s,
                k,
                2,
                seq![s[k]],
            ),
    decreases i,
{
    if i > 0 {
        lemma_collapsed_contains(s, i - 1, t);
        let pre = collapsed_names(s, i - 1);
        let all = collapsed_names(s, i);
        let k = i - 1;
        if s[k] == s[k + 1] && is_ascii_char(s[k]) {
            let x = rebuilt(s, k, 2, seq![s[k]]);
            assert(all == pre.push(x));
            if all.contains(t) {
                let j = choose|j: int| 0 <= j < all.len() && all[j] == t;
                if j < pre.len() {
                    assert(pre[j] == t);
                }
            }
            if pre.contains(t) {
                let j = choose|j: int| 0 <= j < pre.len() && pre[j] == t;
                assert(all[j] == t);
            }
            if t == x {
                assert(all[pre.len() as int] == t);
            }
        }
    }
}

/// The repeated-character check flags `name` with `target` exactly when `target` is `name`
/// with one doubled ASCII character collapsed, and the corpus admits `target`.
pub proof fn lemma_repeated_flags<C: Corpus>(
    check: Repeated,
    corpus: &C,
    name: Seq<char>,
    authors: Set<Seq<char>>,
    target: Seq<char>,
)
    ensures
        admitted(corpus, check.proposals(name), name, authors).contains(
            SquatView::RepeatedCharacter(target),
        ) <==> ((exists|k: int|
            0 <= k < name.len() - 1 && name[k] == name[k + 1] && is_ascii_char(name[k]) && target
                == rebuilt(name, k, 2, seq![name[k]])) && corpus.admits(target, name, authors)),
{
    lemma_flagged_technique(
        corpus,
        Technique::RepeatedCharacter,
        repeated_targets(name),
        name,
        authors,
        target,
    );
    lemma_collapsed_contains(name, name.len() - 1, target);
}

} // verus!
