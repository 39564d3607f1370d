use vstd::prelude::*;
use itertools::Itertools;
use crate::checks::util::{names_view, rebuild_name, rebuilt};
use crate::checks::{admitted, flag_admitted, lemma_flagged_technique, Check, Squat, SquatView, Technique};
use crate::corpus::Corpus;
use crate::error::Error;
use crate::package::Package;

verus! {

/// Checks whether two adjacent characters have been swapped in a package name.
pub struct Characters;

/// `s` with the characters at `k` and `k + 1` transposed.
pub open spec fn transposed_at(s: Seq<char>, k: int) -> Seq<char> {
    rebuilt(s, k, 2, seq![s[k + 1], s[k]])
}

/// The names made by transposing one adjacent pair of differing characters of `s`, for each
/// pair that starts before position `i`, in order.
pub open spec fn transposed_names(s: Seq<char>, i: int) -> Seq<Seq<char>>
    decreases i,
{
    if i <= 0 {
        Seq::empty()
    } else {
        let before = transposed_names(s, i - 1);
        let k = i - 1;
        if s[k] != s[k + 1] {
            before.push(transposed_at(s, k))
        } else {
            before
        }
    }
}

/// The names that the check asks about for `s`.
pub open spec fn swapped_targets(s: Seq<char>) -> Seq<Seq<char>> {
    transposed_names(s, s.len() - 1)
}

impl Characters {
    /// The names made by transposing each adjacent pair of differing characters of `name`, in
    /// order.
    pub fn targets(name: &str) -> (r: Vec<String>)
        ensures
            r@.map_values(|t: String| t@) == swapped_targets(name@),
    {
        let len = name.unicode_len();
        let mut out: Vec<String> = Vec::new();
        let mut i: usize = 0;
        while i + 1 < len
            invariant
                len == name@.len(),
                i == 0 || i + 1 <= len,
                out@.map_values(|t: String| t@) == transposed_names(name@, i as int),
            decreases len - i,
        {
            let a = name.get_char(i);
            let b = name.get_char(i + 1);
            let ghost before = out@;
            if a != b {
                let pair = name.substring_char(i + 1, i + 2).to_owned().concat(
                    name.substring_char(i, i + 1),
                );
                assert(pair@ =~= seq![b, a]);
                let t = rebuild_name(name, i, 2, pair.as_str());
                out.push(t);
                assert(out@.map_values(|t: String| t@) =~= before.map_values(|t: String| t@).push(
                    t@,
                ));
            }
            i = i + 1;
        }
        proof {
            if len == 0 {
                assert(transposed_names(name@, -1) =~= transposed_names(name@, 0));
            }
        }
        out
    }
}

impl Check for Characters {
    open spec fn proposals(&self, name: Seq<char>) -> Seq<SquatView> {
        Technique::SwappedCharacters.squats(swapped_targets(name))
    }

    fn check<C: Corpus, P: Package>(&self, corpus: &C, name: &str, package: &P) -> (r: Result<
        Vec<Squat>,
        Error,
    >) {
        let targets = Characters::targets(name);
        flag_admitted(corpus, Technique::SwappedCharacters, &targets, name, package)
    }
}

/// Checks whether delimiter-separated words have been reordered in a package name.
pub struct Words {
    delimiters: Vec<char>,
    max_k: usize,
}

/// `s` split at every character of `d`; a name with no delimiter is one word.
pub open spec fn split_on(s: Seq<char>, d: Seq<char>) -> Seq<Seq<char>>
    decreases s.len(),
{
    if s.len() == 0 {
        seq![Seq::empty()]
    } else {
        let t = split_on(s.drop_last(), d);
        if d.contains(s.last()) {
            t.push(Seq::empty())
        } else {
            t.update(t.len() - 1, t.last().push(s.last()))
        }
    }
}

/// `parts` joined by `d`.
pub open spec fn join_with(parts: Seq<Seq<char>>, d: char) -> Seq<char>
    decreases parts.len(),
{
    if parts.len() == 0 {
        Seq::empty()
    } else if parts.len() == 1 {
        parts[0]
    } else {
        join_with(parts.drop_last(), d) + seq![d] + parts.last()
    }
}

/// `p` is an ordered choice of `k` distinct indices below `n`.
pub open spec fn is_k_permutation(p: Seq<usize>, n: nat, k: nat) -> bool {
    &&& p.len() == k
    &&& p.no_duplicates()
    &&& forall|i: int| 0 <= i < k ==> p[i] < n
}

/// The `k`-permutations of `0..n`, in the order that itertools yields them.
pub uninterp spec fn k_permutations(n: nat, k: nat) -> Seq<Seq<usize>>;

/// Relies on itertools' `Itertools::permutations`, which yields every `k`-permutation of
/// `0..n` and nothing else.
#[verifier::external_body]
fn index_permutations(n: usize, k: usize) -> (r: Vec<Vec<usize>>)
    ensures
        r@.map_values(|p: Vec<usize>| p@) == k_permutations(n as nat, k as nat),
        forall|i: int| 0 <= i < r@.len() ==> is_k_permutation(r@[i]@, n as nat, k as nat),
        forall|p: Seq<usize>|
            is_k_permutation(p, n as nat, k as nat) ==> exists|i: int|
                0 <= i < r@.len() && r@[i]@ == p,
{
    (0..n).permutations(k).collect()
}

/// The words of `tokens` chosen by `p`, in the order of `p`.
pub open spec fn pick(tokens: Seq<Seq<char>>, p: Seq<usize>) -> Seq<Seq<char>> {
    p.map_values(|x: usize| tokens[x as int])
}

/// The names made by joining the words chosen by each of the first `i` of `perms` with each
/// delimiter.
pub open spec fn rejoined(
    tokens: Seq<Seq<char>>,
    perms: Seq<Seq<usize>>,
    delimiters: Seq<char>,
    i: int,
) -> Seq<Seq<char>>
    decreases i,
{
    if i <= 0 {
        Seq::empty()
    } else {
        rejoined(tokens, perms, delimiters, i - 1) + delimiters.map_values(
            |d: char| join_with(pick(tokens, perms[i - 1]), d),
        )
    }
}

/// How many words a reordering takes: all of them, up to `max_k`.
pub open spec fn words_k(n: nat, max_k: nat) -> nat {
    if n > max_k {
        max_k
    } else {
        n
    }
}

/// The names that the check asks about for `s`.
pub open spec fn words_targets(s: Seq<char>, delimiters: Seq<char>, max_k: nat) -> Seq<
    Seq<char>,
> {
    let tokens = split_on(s, delimiters);
    if tokens.len() <= 1 {
        Seq::empty()
    } else {
        let perms = k_permutations(tokens.len(), words_k(tokens.len(), max_k));
        rejoined(tokens, perms, delimiters, perms.len() as int)
    }
}

proof fn lemma_split_nonempty(s: Seq<char>, d: Seq<char>)
    ensures
        split_on(s, d).len() >= 1,
    decreases s.len(),
{
    if s.len() > 0 {
        lemma_split_nonempty(s.drop_last(), d);
    }
}

fn contains_char(v: &Vec<char>, c: char) -> (r: bool)
    ensures
        r == v@.contains(c),
{
    let mut i: usize = 0;
    while i < v.len()
        invariant
            i <= v@.len(),
            forall|j: int| 0 <= j < i ==> v@[j] != c,
        decreases v@.len() - i,
    {
        if v[i] == c {
            return true;
        }
        i = i + 1;
    }
    false
}

fn split_words(s: &str, d: &Vec<char>) -> (r: Vec<String>)
    ensures
        r@.map_values(|t: String| t@) == split_on(s@, d@),
{
    let len = s.unicode_len();
    let mut out: Vec<String> = Vec::new();
    let mut start: usize = 0;
    let mut i: usize = 0;
    assert(s@.subrange(0, 0) =~= Seq::<char>::empty());
    assert(s@.subrange(0, 0).len() == 0);
    while i < len
        invariant
            len == s@.len(),
            start <= i <= len,
            out@.map_values(|t: String| t@).push(s@.subrange(start as int, i as int)) == split_on(
                s@.subrange(0, i as int),
                d@,
            ),
        decreases len - i,
    {
        let c = s.get_char(i);
        let ghost before = out@.map_values(|t: String| t@);
        proof {
            assert(s@.subrange(0, i + 1).drop_last() =~= s@.subrange(0, i as int));
            assert(s@.subrange(0, i + 1).last() == c);
        }
        if contains_char(d, c) {
            out.push(s.substring_char(start, i).to_owned());
            assert(out@.map_values(|t: String| t@) =~= before.push(
                s@.subrange(start as int, i as int),
            ));
            start = i + 1;
            assert(s@.subrange(start as int, i + 1) =~= Seq::<char>::empty());
        } else {
            assert(s@.subrange(start as int, i + 1) =~= s@.subrange(start as int, i as int).push(
                c,
            ));
            assert(before.push(s@.subrange(start as int, i + 1)) =~= before.push(
                s@.subrange(start as int, i as int),
            ).update(before.len() as int, s@.subrange(start as int, i as int).push(c)));
        }
        i = i + 1;
    }
    out.push(s.substring_char(start, len).to_owned());
    assert(s@.subrange(0, len as int) =~= s@);
    out
}

fn join_words(parts: &Vec<String>, d: char) -> (r: String)
    ensures
        r@ == join_with(parts@.map_values(|t: String| t@), d),
{
    let ghost pv = parts@.map_values(|t: String| t@);
    if parts.len() == 0 {
        return String::new();
    }
    let ds = char_string(d);
    let mut out = parts[0].clone();
    let mut i: usize = 1;
    assert(pv.subrange(0, 1) =~= seq![pv[0]]);
    while i < parts.len()
        invariant
            1 <= i <= parts@.len(),
            ds@ == seq![d],
            pv == parts@.map_values(|t: String| t@),
            out@ == join_with(pv.subrange(0, i as int), d),
        decreases parts@.len() - i,
    {
        assert(pv.subrange(0, i + 1).drop_last() =~= pv.subrange(0, i as int));
        out = out.concat(ds.as_str()).concat(parts[i].as_str());
        i = i + 1;
    }
    assert(pv.subrange(0, i as int) =~= pv);
    out
}

/// The one-character string `c`.
fn char_string(c: char) -> (r: String)
    ensures
        r@ == seq![c],
{
    let mut v: Vec<char> = Vec::new();
    v.push(c);
    chars_to_string(&v)
}

/// Relies on std's `FromIterator<&char>` for `String`: the characters in order.
#[verifier::external_body]
fn chars_to_string(v: &Vec<char>) -> (r: String)
    ensures
        r@ == v@,
{
    v.iter().collect()
}

impl Words {
    /// The delimiters that separate words, in order.
    pub closed spec fn delimiters_view(&self) -> Seq<char> {
        self.delimiters@
    }

    /// The largest number of words that a reordering takes.
    pub closed spec fn max_k_view(&self) -> nat {
        self.max_k as nat
    }

    /// Sets up a swapped-word check that takes each character of `delimiters` as a word
    /// delimiter, and reorders at most 5 words.
    pub fn new(delimiters: &str) -> (r: Self)
        ensures
            r.delimiters_view() == delimiters@,
            r.max_k_view() == 5,
    {
        let n = delimiters.unicode_len();
        let mut v: Vec<char> = Vec::new();
        let mut i: usize = 0;
        while i < n
            invariant
                n == delimiters@.len(),
                i <= n,
                v@ == delimiters@.subrange(0, i as int),
            decreases n - i,
        {
            v.push(delimiters.get_char(i));
            assert(v@ =~= delimiters@.subrange(0, i + 1));
            i = i + 1;
        }
        assert(delimiters@.subrange(0, n as int) =~= delimiters@);
        Words { delimiters: v, max_k: 5 }
    }

    /// Changes the largest number of words that a reordering takes.
    ///
    /// A name with more words than that has only its partial reorderings checked: with a
    /// maximum of 3, `foo-bar-baz-quux` is checked against `foo-bar-baz`, `foo-bar-quux` and
    /// the like, not against reorderings of all four words. This bounds the work that one name
    /// can cause.
    pub fn with_max_k(self, max_k: usize) -> (r: Self)
        ensures
            r.delimiters_view() == self.delimiters_view(),
            r.max_k_view() == max_k,
    {
        Words { delimiters: self.delimiters, max_k }
    }

    /// The names made by joining each reordering of the words of `name` with each delimiter.
    pub fn targets(&self, name: &str) -> (r: Vec<String>)
        ensures
            r@.map_values(|t: String| t@) == words_targets(
                name@,
                self.delimiters_view(),
                self.max_k_view(),
            ),
            forall|t: Seq<char>|
                #[trigger] names_view(r@).contains(t) <==> {
                    let tokens = split_on(name@, self.delimiters_view());
                    &&& tokens.len() > 1
                    &&& exists|p: Seq<usize>, d: char|
                        is_k_permutation(
                            p,
                            tokens.len(),
                            words_k(tokens.len(), self.max_k_view()),
                        ) && self.delimiters_view().contains(d) && t == join_with(
                            pick(tokens, p),
                            d,
                        )
                },
    {
        let tokens = split_words(name, &self.delimiters);
        let ghost tv = tokens@.map_values(|t: String| t@);
        let ghost dv = self.delimiters@;
        let n = tokens.len();
        let mut out: Vec<String> = Vec::new();
        if n <= 1 {
            return out;
        }
        let k = if n > self.max_k {
            self.max_k
        } else {
            n
        };
        let perms = index_permutations(n, k);
        let ghost pv = perms@.map_values(|p: Vec<usize>| p@);
        let mut i: usize = 0;
        while i < perms.len()
            invariant
                i <= perms@.len(),
                n == tokens@.len(),
                tv == tokens@.map_values(|t: String| t@),
                dv == self.delimiters@,
                pv == perms@.map_values(|p: Vec<usize>| p@),
                forall|a: int| 0 <= a < perms@.len() ==> is_k_permutation(perms@[a]@, n as nat, k as nat),
                out@.map_values(|t: String| t@) == rejoined(tv, pv, dv, i as int),
            decreases perms@.len() - i,
        {
            let p = &perms[i];
            let mut chosen: Vec<String> = Vec::new();
            let mut a: usize = 0;
            while a < p.len()
                invariant
                    a <= p@.len(),
                    p@.len() == k,
                    forall|b: int| 0 <= b < k ==> p@[b] < n,
                    n == tokens@.len(),
                    tv == tokens@.map_values(|t: String| t@),
                    chosen@.map_values(|t: String| t@) == pick(tv, p@.subrange(0, a as int)),
                decreases p@.len() - a,
            {
                let ghost before = chosen@;
                let w = tokens[p[a]].clone();
                assert(w@ == tv[p@[a as int] as int]);
                chosen.push(w);
                assert(chosen@.map_values(|t: String| t@) =~= before.map_values(|t: String| t@).push(w@));
                assert(pick(tv, p@.subrange(0, a + 1)) =~= pick(tv, p@.subrange(0, a as int)).push(w@));
                a = a + 1;
            }
            assert(p@.subrange(0, a as int) =~= p@);
            let ghost start = out@.map_values(|t: String| t@);
            let mut j: usize = 0;
            while j < self.delimiters.len()
                invariant
                    j <= dv.len(),
                    i < pv.len(),
                    dv == self.delimiters@,
                    chosen@.map_values(|t: String| t@) == pick(tv, pv[i as int]),
                    out@.map_values(|t: String| t@) == start + dv.subrange(0, j as int).map_values(
                        |d: char| join_with(pick(tv, pv[i as int]), d),
                    ),
                decreases dv.len() - j,
            {
                let t = join_words(&chosen, self.delimiters[j]);
                let ghost before = out@;
                out.push(t);
                assert(out@.map_values(|t: String| t@) =~= before.map_values(|t: String| t@).push(
                    t@,
                ));
                assert(dv.subrange(0, j + 1).map_values(
                    |d: char| join_with(pick(tv, pv[i as int]), d),
                ) =~= dv.subrange(0, j as int).map_values(
                    |d: char| join_with(pick(tv, pv[i as int]), d),
                ).push(join_with(pick(tv, pv[i as int]), dv[j as int])));
                j = j + 1;
            }
            assert(dv.subrange(0, j as int) =~= dv);
            i = i + 1;
        }
        proof {
            assert(pv.len() == perms@.len());
            assert forall|t: Seq<char>|
                #[trigger] names_view(out@).contains(t) <==> exists|p: Seq<usize>, d: char|
                    is_k_permutation(p, n as nat, k as nat) && dv.contains(d) && t == join_with(
                        pick(tv, p),
                        d,
                    ) by {
                lemma_rejoined_contains(tv, pv, dv, i as int, t);
                if names_view(out@).contains(t) {
                    let (a, d) = choose|a: int, d: char|
                        0 <= a < i && dv.contains(d) && t == join_with(pick(tv, pv[a]), d);
                    assert(is_k_permutation(pv[a], n as nat, k as nat));
                }
                if exists|p: Seq<usize>, d: char|
                    is_k_permutation(p, n as nat, k as nat) && dv.contains(d) && t == join_with(
                        pick(tv, p),
                        d,
                    ) {
                    let (p, d) = choose|p: Seq<usize>, d: char|
                        is_k_permutation(p, n as nat, k as nat) && dv.contains(d) && t == join_with(
                            pick(tv, p),
                            d,
                        );
                    let a = choose|a: int| 0 <= a < perms@.len() && perms@[a]@ == p;
                    assert(pv[a] == p);
                }
            }
        }
        out
    }
}

proof fn lemma_rejoined_contains(
    tokens: Seq<Seq<char>>,
    perms: Seq<Seq<usize>>,
    delimiters: Seq<char>,
    i: int,
    t: Seq<char>,
)
    requires
        0 <= i <= perms.len(),
    ensures
        rejoined(tokens, perms, delimiters, i).contains(t) <==> exists|a: int, d: char|
            0 <= a < i && delimiters.contains(d) && t == join_with(pick(tokens, perms[a]), d),
    decreases i,
{
    if i > 0 {
        lemma_rejoined_contains(tokens, perms, delimiters, i - 1, t);
        let pre = rejoined(tokens, perms, delimiters, i - 1);
        let last = delimiters.map_values(|d: char| join_with(pick(tokens, perms[i - 1]), d));
        let all = rejoined(tokens, perms, delimiters, i);
        assert(all == pre + last);
        if all.contains(t) {
            let x = choose|x: int| 0 <= x < all.len() && all[x] == t;
            if x < pre.len() {
                assert(pre[x] == t);
            } else {
                let d = delimiters[x - pre.len()];
                assert(last[x - pre.len()] == t);
                assert(delimiters.contains(d));
            }
        }
        if exists|a: int, d: char|
            0 <= a < i && delimiters.contains(d) && t == join_with(pick(tokens, perms[a]), d) {
            let (a, d) = choose|a: int, d: char|
                0 <= a < i && delimiters.contains(d) && t == join_with(pick(tokens, perms[a]), d);
            if a < i - 1 {
                let x = choose|x: int| 0 <= x < pre.len() && pre[x] == t;
                assert(all[x] == t);
            } else {
                let y = choose|y: int| 0 <= y < delimiters.len() && delimiters[y] == d;
                assert(last[y] == t);
                assert(all[pre.len() + y] == t);
            }
        }
    }
}

impl Check for Words {
    open spec fn proposals(&self, name: Seq<char>) -> Seq<SquatView> {
        Technique::SwappedWords.squats(
            words_targets(name, self.delimiters_view(), self.max_k_view()),
        )
    }

    fn check<C: Corpus, P: Package>(&self, corpus: &C, name: &str, package: &P) -> (r: Result<
        Vec<Squat>,
        Error,
    >) {
        let targets = self.targets(name);
        flag_admitted(corpus, Technique::SwappedWords, &targets, name, package)
    }
}

proof fn lemma_transposed_contains(s: Seq<char>, i: int, t: Seq<char>)
    requires
        i <= s.len() - 1,
    ensures
        transposed_names(s, i).contains(t) <==> exists|k: int|
            0 <= k < i && s[k] != s[k + 1] && t == #[trigger] transposed_at(s, k),
    decreases i,
{
    if i > 0 {
        lemma_transposed_contains(s, i - 1, t);
        let pre = transposed_names(s, i - 1);
        let all = transposed_names(s, i);
        let k = i - 1;
        if s[k] != s[k + 1] {
            let x = transposed_at(s, k);
            assert(all == pre.push(x));
            if all.contains(t) {
                let j = choose|j: int| 0 <= j < all.len() && all[j] == t;
                if j < pre.len() {
                    assert(pre[j] == t);
                }
            }
            if pre.contains(t) {
                let j = choose|j: int| 0 <= j < pre.len() && pre[j] == t;
                assert(all[j] == t);
            }
            if t == x {
                assert(all[pre.len() as int] == t);
            }
        }
    }
}

/// The swapped-characters check flags `name` with `target` exactly when `target` is `name`
/// with one adjacent pair of differing characters transposed, and the corpus admits `target`.
pub proof fn lemma_characters_flags<C: Corpus>(
    check: Characters,
    corpus: &C,
    name: Seq<char>,
    authors: Set<Seq<char>>,
    target: Seq<char>,
)
    ensures
        admitted(corpus, check.proposals(name), name, authors).contains(
            SquatView::SwappedCharacters(target),
        ) <==> ((exists|k: int|
            0 <= k < name.len() - 1 && name[k] != name[k + 1] && target == #[trigger] transposed_at(name, k)) && corpus.admits(target, name, authors)),
{
    lemma_flagged_technique(
        corpus,
        Technique::SwappedCharacters,
        swapped_targets(name),
        name,
        authors,
        target,
    );
    lemma_transposed_contains(name, name.len() - 1, target);
}

} // verus!
