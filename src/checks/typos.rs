use vstd::prelude::*;
use crate::checks::util::{rebuild_name, rebuilt};
use crate::checks::{admitted, flag_admitted, lemma_flagged_technique, Check, Squat, SquatView, Technique};
use crate::corpus::Corpus;
use crate::error::Error;
use crate::package::Package;

verus! {

/// Checks for common typos, from a table that maps a character to the strings that it is
/// commonly mistyped as (an empty string models an omission).
pub struct Typos {
    typos: Vec<(char, Vec<String>)>,
}

/// The replacements of `c` in `table`: those of its last entry for `c`.
pub open spec fn typo_entry(table: Seq<(char, Seq<Seq<char>>)>, c: char) -> Option<
    Seq<Seq<char>>,
>
    decreases table.len(),
{
    if table.len() == 0 {
        None
    } else if table.last().0 == c {
        Some(table.last().1)
    } else {
        typo_entry(table.drop_last(), c)
    }
}

/// The names made by replacing the character at one position of `s` before `i` with one of
/// its replacements, position by position.
pub open spec fn typo_names(s: Seq<char>, table: Seq<(char, Seq<Seq<char>>)>, i: int) -> Seq<
    Seq<char>,
>
    decreases i,
{
    if i <= 0 {
        Seq::empty()
    } else {
        typo_names(s, table, i - 1) + match typo_entry(table, s[i - 1]) {
            Some(reps) => reps.map_values(|t: Seq<char>| rebuilt(s, i - 1, 1, t)),
            None => Seq::empty(),
        }
    }
}

/// The names that the check asks about for `s`.
pub open spec fn typo_targets(s: Seq<char>, table: Seq<(char, Seq<Seq<char>>)>) -> Seq<
    Seq<char>,
> {
    typo_names(s, table, s.len() as int)
}

pub open spec fn entry_view(e: (char, Vec<String>)) -> (char, Seq<Seq<char>>) {
    (e.0, e.1@.map_values(|t: String| t@))
}

impl Typos {
    /// The table of replacements, entry by entry; a later entry for a character overrides an
    /// earlier one.
    pub closed spec fn table(&self) -> Seq<(char, Seq<Seq<char>>)> {
        self.typos@.map_values(|e: (char, Vec<String>)| entry_view(e))
    }

    /// Instantiates a typo check: each character of a name is replaced in turn by each string
    /// of its entry in `typos`.
    pub fn new(typos: Vec<(char, Vec<String>)>) -> (r: Self)
        ensures
            r.table() == typos@.map_values(|e: (char, Vec<String>)| entry_view(e)),
    {
        Typos { typos }
    }

    /// The index of the entry that holds the replacements of `c`.
    fn entry_of(&self, c: char) -> (r: Option<usize>)
        ensures
            r is None ==> typo_entry(self.table(), c) is None,
            r is Some ==> r->Some_0 < self.typos@.len() && typo_entry(self.table(), c) == Some(
                entry_view(self.typos@[r->Some_0 as int]).1,
            ),
    {
        let mut j: usize = self.typos.len();
        assert(self.table().subrange(0, j as int) =~= self.table());
        while j > 0
            invariant
                j <= self.typos@.len(),
                typo_entry(self.table(), c) == typo_entry(self.table().subrange(0, j as int), c),
            decreases j,
        {
            assert(self.table().subrange(0, j as int).drop_last() =~= self.table().subrange(
                0,
                j - 1,
            ));
            if self.typos[j - 1].0 == c {
                return Some(j - 1);
            }
            j = j - 1;
        }
        None
    }

    /// The names made by replacing one character of `name` with one of its replacements.
    pub fn targets(&self, name: &str) -> (r: Vec<String>)
        ensures
            r@.map_values(|t: String| t@) == typo_targets(name@, self.table()),
    {
        let len = name.unicode_len();
        let mut out: Vec<String> = Vec::new();
        let mut i: usize = 0;
        while i < len
            invariant
                len == name@.len(),
                i <= len,
                out@.map_values(|t: String| t@) == typo_names(name@, self.table(), i as int),
            decreases len - i,
        {
            let c = name.get_char(i);
            let ghost start = out@.map_values(|t: String| t@);
            match self.entry_of(c) {
                None => {
                    assert(start + Seq::<Seq<char>>::empty() =~= start);
                },
                Some(k) => {
                    let reps = &self.typos[k].1;
                    let ghost rv = reps@.map_values(|t: String| t@);
                    let mut j: usize = 0;
                    while j < reps.len()
                        invariant
                            i < len == name@.len(),
                            j <= reps@.len(),
                            rv == reps@.map_values(|t: String| t@),
                            out@.map_values(|t: String| t@) == start + rv.subrange(
                                0,
                                j as int,
                            ).map_values(|t: Seq<char>| rebuilt(name@, i as int, 1, t)),
                        decreases reps@.len() - j,
                    {
                        let t = rebuild_name(name, i, 1, reps[j].as_str());
                        let ghost before = out@;
                        out.push(t);
                        assert(out@.map_values(|t: String| t@) =~= before.map_values(
                            |t: String| t@,
                        ).push(t@));
                        assert(rv.subrange(0, j + 1).map_values(
                            |t: Seq<char>| rebuilt(name@, i as int, 1, t),
                        ) =~= rv.subrange(0, j as int).map_values(
                            |t: Seq<char>| rebuilt(name@, i as int, 1, t),
                        ).push(rebuilt(name@, i as int, 1, rv[j as int])));
                        j = j + 1;
                    }
                    assert(rv.subrange(0, j as int) =~= rv);
                },
            }
            i = i + 1;
        }
        out
    }
}

impl Check for Typos {
    open spec fn proposals(&self, name: Seq<char>) -> Seq<SquatView> {
        Technique::Typo.squats(typo_targets(name, self.table()))
    }

    fn check<C: Corpus, P: Package>(&self, corpus: &C, name: &str, package: &P) -> (r: Result<
        Vec<Squat>,
        Error,
    >) {
        let targets = self.targets(name);
        flag_admitted(corpus, Technique::Typo, &targets, name, package)
    }
}

/// `s` with the character at `p` replaced by the `x`-th replacement of that character.
pub open spec fn replaced_at(s: Seq<char>, table: Seq<(char, Seq<Seq<char>>)>, p: int, x: int) -> Seq<
    char,
> {
    rebuilt(s, p, 1, typo_entry(table, s[p])->Some_0[x])
}

/// The character at `p` of `s` has an `x`-th replacement.
pub open spec fn has_replacement(
    s: Seq<char>,
    table: Seq<(char, Seq<Seq<char>>)>,
    p: int,
    x: int,
) -> bool {
    typo_entry(table, s[p]) is Some && 0 <= x < typo_entry(table, s[p])->Some_0.len()
}

proof fn lemma_typo_names_contains(
    s: Seq<char>,
    table: Seq<(char, Seq<Seq<char>>)>,
    i: int,
    t: Seq<char>,
)
    requires
        i <= s.len(),
    ensures
        typo_names(s, table, i).contains(t) <==> exists|p: int, x: int|
            0 <= p < i && has_replacement(s, table, p, x) && t == #[trigger] replaced_at(
                s,
                table,
                p,
                x,
            ),
    decreases i,
{
    if i > 0 {
        lemma_typo_names_contains(s, table, i - 1, t);
        let pre = typo_names(s, table, i - 1);
        let all = typo_names(s, table, i);
        let p = i - 1;
        match typo_entry(table, s[p]) {
            Some(reps) => {
                let row = reps.map_values(|r: Seq<char>| rebuilt(s, p, 1, r));
                assert(all == pre + row);
                if all.contains(t) {
                    let y = choose|y: int| 0 <= y < all.len() && all[y] == t;
                    if y < pre.len() {
                        assert(pre[y] == t);
                    } else {
                        assert(row[y - pre.len()] == t);
                        assert(t == replaced_at(s, table, p, y - pre.len()));
                    }
                }
                if exists|q: int, x: int|
                    0 <= q < i && has_replacement(s, table, q, x) && t == #[trigger] replaced_at(
                        s,
                        table,
                        q,
                        x,
                    ) {
                    let (q, x) = choose|q: int, x: int|
                        0 <= q < i && has_replacement(s, table, q, x) && t
                            == #[trigger] replaced_at(s, table, q, x);
                    if q < p {
                        let y = choose|y: int| 0 <= y < pre.len() && pre[y] == t;
                        assert(all[y] == t);
                    } else {
                        assert(row[x] == t);
                        assert(all[pre.len() + x] == t);
                    }
                }
            },
            None => {
                assert(all =~= pre);
            },
        }
    }
}

/// The typo check flags `name` with `target` exactly when `target` is `name` with one
/// character replaced by one of that character's replacements in the table, and the corpus
/// admits `target`.
pub proof fn lemma_typos_flags<C: Corpus>(
    check: Typos,
    corpus: &C,
    name: Seq<char>,
    authors: Set<Seq<char>>,
    target: Seq<char>,
)
    ensures
        admitted(corpus, check.proposals(name), name, authors).contains(SquatView::Typo(target))
            <==> ((exists|p: int, x: int|
            0 <= p < name.len() && has_replacement(name, check.table(), p, x) && target
                == #[trigger] replaced_at(name, check.table(), p, x)) && corpus.admits(
            target,
            name,
            authors,
        )),
{
    lemma_flagged_technique(
        corpus,
        Technique::Typo,
        typo_targets(name, check.table()),
        name,
        authors,
        target,
    );
    lemma_typo_names_contains(name, check.table(), name.len() as int, target);
}

} // verus!
