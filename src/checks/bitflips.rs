use std::collections::HashMap;
use vstd::prelude::*;
use crate::checks::util::names_view;
use crate::checks::{admitted, flag_admitted, lemma_flagged_technique, Check, Squat, SquatView, Technique};
use crate::corpus::Corpus;
use crate::error::Error;
use crate::package::Package;

verus! {

broadcast use vstd::std_specs::hash::group_hash_axioms;

/// Checks whether a package name is a corpus name with one bit flipped (bitsquatting).
///
/// The variants of every corpus name are computed once, when the check is built, from its own
/// copy of the names.
pub struct Bitflips {
    flips: Vec<(String, usize)>,
    index: HashMap<u64, Vec<usize>>,
    names: Vec<String>,
    alphabet: Vec<char>,
}

/// The modulus of [`name_key`].
pub const KEY_MODULUS: u64 = 1000000007;

/// A hash of the characters of `s`, below [`KEY_MODULUS`], by which variants are indexed.
pub open spec fn name_key(s: Seq<char>) -> int
    decreases s.len(),
{
    if s.len() == 0 {
        0
    } else {
        (name_key(s.drop_last()) * 31 + (s.last() as u32) as int) % (KEY_MODULUS as int)
    }
}

/// Computes [`name_key`]`(s@)`.
fn key_of(s: &str) -> (r: u64)
    ensures
        r as int == name_key(s@),
{
    let n = s.unicode_len();
    let mut h: u64 = 0;
    let mut i: usize = 0;
    assert(s@.subrange(0, 0) =~= Seq::<char>::empty());
    while i < n
        invariant
            n == s@.len(),
            i <= n,
            h < KEY_MODULUS,
            h as int == name_key(s@.subrange(0, i as int)),
        decreases n - i,
    {
        let c = s.get_char(i);
        assert(s@.subrange(0, i + 1).drop_last() =~= s@.subrange(0, i as int));
        h = (h * 31 + c as u32 as u64) % KEY_MODULUS;
        i = i + 1;
    }
    assert(s@.subrange(0, n as int) =~= s@);
    h
}

/// The positions in `pairs` of the variants whose key is `key`, in order.
pub open spec fn bucket(pairs: Seq<(Seq<char>, int)>, key: int) -> Seq<int>
    decreases pairs.len(),
{
    if pairs.len() == 0 {
        Seq::empty()
    } else {
        let b = bucket(pairs.drop_last(), key);
        if name_key(pairs.last().0) == key {
            b.push(pairs.len() - 1)
        } else {
            b
        }
    }
}

/// The names whose variant at one of the positions `at` of `pairs` is `n`, in order.
pub open spec fn origins_at(
    at: Seq<int>,
    pairs: Seq<(Seq<char>, int)>,
    names: Seq<Seq<char>>,
    n: Seq<char>,
) -> Seq<Seq<char>>
    decreases at.len(),
{
    if at.len() == 0 {
        Seq::empty()
    } else {
        let before = origins_at(at.drop_last(), pairs, names, n);
        if pairs[at.last()].0 == n {
            before.push(names[pairs[at.last()].1])
        } else {
            before
        }
    }
}

/// The positions that `index` holds for `key`.
pub open spec fn index_bucket(index: Map<u64, Vec<usize>>, key: u64) -> Seq<int> {
    if index.contains_key(key) {
        index[key]@.map_values(|x: usize| x as int)
    } else {
        Seq::empty()
    }
}

proof fn lemma_bucket_in_range(pairs: Seq<(Seq<char>, int)>, key: int)
    ensures
        forall|i: int|
            0 <= i < bucket(pairs, key).len() ==> 0 <= #[trigger] bucket(pairs, key)[i]
                < pairs.len(),
    decreases pairs.len(),
{
    if pairs.len() > 0 {
        let pre = pairs.drop_last();
        lemma_bucket_in_range(pre, key);
        let b = bucket(pre, key);
        assert forall|i: int|
            0 <= i < bucket(pairs, key).len() implies 0 <= #[trigger] bucket(pairs, key)[i]
                < pairs.len() by {
            if i < b.len() {
                assert(bucket(pairs, key)[i] == b[i]);
            }
        }
    }
}

proof fn lemma_origins_at_extend(
    at: Seq<int>,
    pairs: Seq<(Seq<char>, int)>,
    more: Seq<(Seq<char>, int)>,
    names: Seq<Seq<char>>,
    n: Seq<char>,
)
    requires
        pairs.len() <= more.len(),
        forall|j: int| 0 <= j < pairs.len() ==> more[j] == pairs[j],
        forall|i: int| 0 <= i < at.len() ==> 0 <= #[trigger] at[i] < pairs.len(),
    ensures
        origins_at(at, pairs, names, n) == origins_at(at, more, names, n),
    decreases at.len(),
{
    if at.len() > 0 {
        lemma_origins_at_extend(at.drop_last(), pairs, more, names, n);
        assert(0 <= at[at.len() - 1] < pairs.len());
    }
}

/// Looking a name up in its bucket finds what a scan of every variant finds.
proof fn lemma_bucket_origins(pairs: Seq<(Seq<char>, int)>, names: Seq<Seq<char>>, n: Seq<char>)
    ensures
        flip_origins(pairs, names, n) == origins_at(bucket(pairs, name_key(n)), pairs, names, n),
    decreases pairs.len(),
{
    if pairs.len() > 0 {
        let pre = pairs.drop_last();
        let k = name_key(n);
        lemma_bucket_origins(pre, names, n);
        lemma_bucket_in_range(pre, k);
        lemma_origins_at_extend(bucket(pre, k), pre, pairs, names, n);
        let b = bucket(pre, k);
        if name_key(pairs.last().0) == k {
            assert(bucket(pairs, k).drop_last() =~= b);
        }
    }
}

/// The strings that `bitflip::ascii_str` yields for `s`, in order.
pub uninterp spec fn ascii_flips(s: Seq<char>) -> Seq<Seq<char>>;

pub open spec fn is_ascii_name(s: Seq<char>) -> bool {
    forall|q: int| 0 <= q < s.len() ==> (#[trigger] s[q] as u32) < 128
}

/// `v` is `s` with bit `b` of the character at position `p` flipped.
pub open spec fn is_bit_flip_at(s: Seq<char>, v: Seq<char>, p: int, b: int) -> bool {
    &&& v.len() == s.len()
    &&& 0 <= p < s.len()
    &&& 0 <= b < 7
    &&& (v[p] as u32) == ((s[p] as u32) ^ (1u32 << (b as u32)))
    &&& forall|q: int| 0 <= q < s.len() && q != p ==> v[q] == s[q]
}

/// Relies on `bitflip::ascii_str`, which flips each of the low seven bits of each byte in
/// turn and yields the results that are valid UTF-8; for an ASCII input that is all of them.
#[verifier::external_body]
fn ascii_bitflips(s: &str) -> (r: Vec<String>)
    ensures
        names_view(r@) == ascii_flips(s@),
        is_ascii_name(s@) ==> r@.len() == 7 * s@.len(),
        is_ascii_name(s@) ==> forall|p: int, b: int|
            0 <= p < s@.len() && 0 <= b < 7 ==> is_bit_flip_at(s@, #[trigger] r@[7 * p + b]@, p, b),
{
    bitflip::ascii_str(s).collect()
}

/// `v` is `s` with one of the low seven bits of one character flipped.
pub open spec fn is_one_bit_flip(s: Seq<char>, v: Seq<char>) -> bool {
    exists|p: int, b: int| is_bit_flip_at(s, v, p, b)
}

/// For an ASCII name, the variants are exactly its one-bit flips.
pub open spec fn flips_are_one_bit(s: Seq<char>) -> bool {
    is_ascii_name(s) ==> forall|v: Seq<char>|
        #[trigger] ascii_flips(s).contains(v) <==> is_one_bit_flip(s, v)
}

/// Every character of `v` is in `alphabet`.
pub open spec fn in_alphabet(v: Seq<char>, alphabet: Seq<char>) -> bool {
    forall|q: int| 0 <= q < v.len() ==> alphabet.contains(#[trigger] v[q])
}

/// The variants among `flips` that lie in `alphabet`, each paired with `origin`.
pub open spec fn kept_flips(flips: Seq<Seq<char>>, alphabet: Seq<char>, origin: int) -> Seq<
    (Seq<char>, int),
>
    decreases flips.len(),
{
    if flips.len() == 0 {
        Seq::empty()
    } else {
        kept_flips(flips.drop_last(), alphabet, origin) + if in_alphabet(flips.last(), alphabet) {
            seq![(flips.last(), origin)]
        } else {
            Seq::empty()
        }
    }
}

/// The variants of every name, each paired with the index of its name, name by name.
pub open spec fn flip_pairs(names: Seq<Seq<char>>, alphabet: Seq<char>) -> Seq<(Seq<char>, int)>
    decreases names.len(),
{
    if names.len() == 0 {
        Seq::empty()
    } else {
        flip_pairs(names.drop_last(), alphabet) + kept_flips(
            ascii_flips(names.last()),
            alphabet,
            names.len() - 1,
        )
    }
}

/// The names whose variant `n` is, in the order of `pairs`.
pub open spec fn flip_origins(pairs: Seq<(Seq<char>, int)>, names: Seq<Seq<char>>, n: Seq<char>) -> Seq<
    Seq<char>,
>
    decreases pairs.len(),
{
    if pairs.len() == 0 {
        Seq::empty()
    } else {
        let before = flip_origins(pairs.drop_last(), names, n);
        if pairs.last().0 == n {
            before.push(names[pairs.last().1])
        } else {
            before
        }
    }
}

pub open spec fn pair_view(e: (String, usize)) -> (Seq<char>, int) {
    (e.0@, e.1 as int)
}

fn all_in_alphabet(v: &str, alphabet: &Vec<char>) -> (r: bool)
    ensures
        r == in_alphabet(v@, alphabet@),
{
    let n = v.unicode_len();
    let mut i: usize = 0;
    while i < n
        invariant
            n == v@.len(),
            i <= n,
            forall|q: int| 0 <= q < i ==> alphabet@.contains(#[trigger] v@[q]),
        decreases n - i,
    {
        let c = v.get_char(i);
        let mut j: usize = 0;
        let mut found = false;
        while j < alphabet.len()
            invariant
                j <= alphabet@.len(),
                found ==> alphabet@.contains(c),
                !found ==> forall|x: int| 0 <= x < j ==> alphabet@[x] != c,
            decreases alphabet@.len() - j,
        {
            if alphabet[j] == c {
                found = true;
                assert(alphabet@[j as int] == c);
            }
            j = j + 1;
        }
        if !found {
            assert(!alphabet@.contains(v@[i as int]));
            return false;
        }
        i = i + 1;
    }
    true
}

impl Bitflips {
    /// The cached corpus names.
    pub closed spec fn names_view(&self) -> Seq<Seq<char>> {
        names_view(self.names@)
    }

    /// The characters that are valid in a package name.
    pub closed spec fn alphabet_view(&self) -> Seq<char> {
        self.alphabet@
    }

    /// Every variant that the check knows, paired with the index of the name it comes from.
    pub closed spec fn pairs(&self) -> Seq<(Seq<char>, int)> {
        self.flips@.map_values(|e: (String, usize)| pair_view(e))
    }

    #[verifier::type_invariant]
    spec fn well_formed(&self) -> bool {
        &&& self.pairs() == flip_pairs(self.names_view(), self.alphabet_view())
        &&& forall|j: int|
            0 <= j < self.flips@.len() ==> (#[trigger] self.flips@[j]).1 < self.names@.len()
        &&& forall|key: u64|
            #[trigger] index_bucket(self.index@, key) == bucket(self.pairs(), key as int)
    }

    /// Instantiates a bitflip check; `alphabet` holds the characters that are valid in a
    /// package name, and `names` the names of the corpus.
    pub fn new(alphabet: &str, names: &Vec<String>) -> (r: Self)
        ensures
            r.names_view() == names_view(names@),
            r.alphabet_view() == alphabet@,
            r.pairs() == flip_pairs(names_view(names@), alphabet@),
            forall|i: int| 0 <= i < names@.len() ==> flips_are_one_bit(#[trigger] names@[i]@),
    {
        let an = alphabet.unicode_len();
        let mut chars: Vec<char> = Vec::new();
        let mut i: usize = 0;
        while i < an
            invariant
                an == alphabet@.len(),
                i <= an,
                chars@ == alphabet@.subrange(0, i as int),
            decreases an - i,
        {
            chars.push(alphabet.get_char(i));
            assert(chars@ =~= alphabet@.subrange(0, i + 1));
            i = i + 1;
        }
        assert(alphabet@.subrange(0, an as int) =~= alphabet@);
        let ghost nv = names_view(names@);
        let mut flips: Vec<(String, usize)> = Vec::new();
        let mut index: HashMap<u64, Vec<usize>> = HashMap::new();
        let mut copies: Vec<String> = Vec::new();
        let mut k: usize = 0;
        while k < names.len()
            invariant
                k <= names@.len(),
                chars@ == alphabet@,
                nv == names_view(names@),
                names_view(copies@) == nv.subrange(0, k as int),
                flips@.map_values(|e: (String, usize)| pair_view(e)) == flip_pairs(
                    nv.subrange(0, k as int),
                    alphabet@,
                ),
                forall|j: int| 0 <= j < flips@.len() ==> (#[trigger] flips@[j]).1 < k,
                forall|i: int| 0 <= i < k ==> flips_are_one_bit(#[trigger] names@[i]@),
                forall|key: u64|
                    #[trigger] index_bucket(index@, key) == bucket(
                        flips@.map_values(|e: (String, usize)| pair_view(e)),
                        key as int,
                    ),
            decreases names@.len() - k,
        {
            let name = &names[k];
            let variants = ascii_bitflips(name.as_str());
            let ghost start = flips@.map_values(|e: (String, usize)| pair_view(e));
            let ghost fv = names_view(variants@);
            proof {
                lemma_flips_one_bit(name@, variants@);
            }
            let mut j: usize = 0;
            while j < variants.len()
                invariant
                    k < names@.len(),
                    j <= variants@.len(),
                    chars@ == alphabet@,
                    fv == names_view(variants@),
                    flips@.map_values(|e: (String, usize)| pair_view(e)) == start + kept_flips(
                        fv.subrange(0, j as int),
                        alphabet@,
                        k as int,
                    ),
                    forall|x: int| 0 <= x < flips@.len() ==> (#[trigger] flips@[x]).1 < k + 1,
                    forall|key: u64|
                        #[trigger] index_bucket(index@, key) == bucket(
                            flips@.map_values(|e: (String, usize)| pair_view(e)),
                            key as int,
                        ),
                decreases variants@.len() - j,
            {
                let v = &variants[j];
                let ghost before = flips@;
                assert(fv.subrange(0, j + 1).drop_last() =~= fv.subrange(0, j as int));
                if all_in_alphabet(v.as_str(), &chars) {
                    let at = flips.len();
                    let kv = key_of(v.as_str());
                    let ghost old_index = index@;
                    let mut b = match index.remove(&kv) {
                        Some(b) => b,
                        None => Vec::new(),
                    };
                    let ghost mid = index@;
                    assert(mid == old_index.remove(kv));
                    assert(b@.map_values(|x: usize| x as int) == index_bucket(old_index, kv));
                    let ghost old_b = b@;
                    let ghost nb = b@.push(at);
                    b.push(at);
                    assert(b@.map_values(|x: usize| x as int) =~= old_b.map_values(
                        |x: usize| x as int,
                    ).push(at as int));
                    index.insert(kv, b);
                    assert(index@ == mid.insert(kv, b));
                    flips.push((v.clone(), k));
                    let ghost pv = flips@.map_values(|e: (String, usize)| pair_view(e));
                    assert(pv =~= before.map_values(|e: (String, usize)| pair_view(e)).push(
                        (v@, k as int),
                    ));
                    assert(pv.drop_last() =~= before.map_values(|e: (String, usize)| pair_view(e)));
                    assert forall|key: u64| #[trigger]
                        index_bucket(index@, key) == bucket(pv, key as int) by {
                        let bv = before.map_values(|e: (String, usize)| pair_view(e));
                        assert(index_bucket(old_index, key) == bucket(bv, key as int));
                        assert(pv.last().0 == v@);
                        if key != kv {
                            assert(index@.contains_key(key) == old_index.contains_key(key));
                            if old_index.contains_key(key) {
                                assert(index@[key] == old_index[key]);
                            }
                            assert(index_bucket(index@, key) == index_bucket(old_index, key));
                            assert(bucket(pv, key as int) == bucket(bv, key as int));
                        } else {
                            assert(index@[kv]@ == nb);
                            assert(name_key(pv.last().0) == kv as int);
                            assert(bucket(pv, key as int) == bucket(bv, key as int).push(at as int));
                            assert(index_bucket(index@, key) =~= bucket(bv, key as int).push(
                                at as int,
                            ));
                        }
                    }
                }
                j = j + 1;
            }
            assert(fv.subrange(0, j as int) =~= fv);
            copies.push(name.clone());
            assert(names_view(copies@) =~= nv.subrange(0, k + 1));
            assert(nv.subrange(0, k + 1).drop_last() =~= nv.subrange(0, k as int));
            k = k + 1;
        }
        assert(nv.subrange(0, k as int) =~= nv);
        Bitflips { flips, index, names: copies, alphabet: chars }
    }

    /// The corpus names that `name` is a variant of, in order.
    pub fn targets(&self, name: &str) -> (r: Result<Vec<String>, Error>)
        ensures
            r is Ok,
            r is Ok ==> names_view(r->Ok_0@) == flip_origins(self.pairs(), self.names_view(), name@),
    {
        proof {
            use_type_invariant(self);
        }
        let k = key_of(name);
        let ghost pairs = self.pairs();
        proof {
            lemma_bucket_origins(pairs, self.names_view(), name@);
            lemma_bucket_in_range(pairs, k as int);
        }
        let mut out: Vec<String> = Vec::new();
        match self.index.get(&k) {
            None => {
                assert(index_bucket(self.index@, k) == bucket(pairs, k as int));
            },
            Some(at) => {
                let ghost av = at@.map_values(|x: usize| x as int);
                assert(index_bucket(self.index@, k) == bucket(pairs, k as int));
                assert(av == bucket(pairs, k as int));
                let mut i: usize = 0;
                assert(av.subrange(0, 0) =~= Seq::<int>::empty());
                while i < at.len()
                    invariant
                        i <= at@.len(),
                        av == at@.map_values(|x: usize| x as int),
                        av == bucket(pairs, k as int),
                        pairs == self.pairs(),
                        pairs.len() == self.flips@.len(),
                        forall|x: int| 0 <= x < av.len() ==> 0 <= #[trigger] av[x] < pairs.len(),
                        forall|x: int|
                            0 <= x < self.flips@.len() ==> (#[trigger] self.flips@[x]).1
                                < self.names@.len(),
                        names_view(out@) == origins_at(
                            av.subrange(0, i as int),
                            pairs,
                            self.names_view(),
                            name@,
                        ),
                    decreases at@.len() - i,
                {
                    let j = at[i];
                    assert(av[i as int] == j as int);
                    let (variant, index) = (&self.flips[j].0, self.flips[j].1);
                    assert(av.subrange(0, i + 1).drop_last() =~= av.subrange(0, i as int));
                    assert(pairs[j as int] == pair_view(self.flips@[j as int]));
                    if crate::corpus::str_eq(variant.as_str(), name) {
                        if index >= self.names.len() {
                            return Err(Error::OutOfRangeIndex { index, len: self.names.len() });
                        }
                        let ghost before = out@;
                        out.push(self.names[index].clone());
                        assert(names_view(out@) =~= names_view(before).push(
                            self.names_view()[index as int],
                        ));
                    }
                    i = i + 1;
                }
                assert(av.subrange(0, i as int) =~= av);
            },
        }
        Ok(out)
    }
}

impl Check for Bitflips {
    open spec fn proposals(&self, name: Seq<char>) -> Seq<SquatView> {
        Technique::Bitflip.squats(flip_origins(self.pairs(), self.names_view(), name))
    }

    fn check<C: Corpus, P: Package>(&self, corpus: &C, name: &str, package: &P) -> (r: Result<
        Vec<Squat>,
        Error,
    >) {
        match self.targets(name) {
            Err(e) => Err(e),
            Ok(targets) => flag_admitted(corpus, Technique::Bitflip, &targets, name, package),
        }
    }
}

proof fn char_eq_from_u32(a: char, b: char)
    requires
        (a as u32) == (b as u32),
    ensures
        a == b,
{
}

proof fn lemma_flips_one_bit(s: Seq<char>, r: Seq<String>)
    requires
        names_view(r) == ascii_flips(s),
        is_ascii_name(s) ==> r.len() == 7 * s.len(),
        is_ascii_name(s) ==> forall|p: int, b: int|
            0 <= p < s.len() && 0 <= b < 7 ==> is_bit_flip_at(s, #[trigger] r[7 * p + b]@, p, b),
    ensures
        flips_are_one_bit(s),
{
    if is_ascii_name(s) {
        assert forall|v: Seq<char>| #[trigger]
            ascii_flips(s).contains(v) <==> is_one_bit_flip(s, v) by {
            if ascii_flips(s).contains(v) {
                let x = choose|x: int| 0 <= x < ascii_flips(s).len() && ascii_flips(s)[x] == v;
                let p = x / 7;
                let b = x % 7;
                assert(7 * p + b == x);
                assert(is_bit_flip_at(s, r[7 * p + b]@, p, b));
            }
            if is_one_bit_flip(s, v) {
                let (p, b) = choose|p: int, b: int| is_bit_flip_at(s, v, p, b);
                let w = r[7 * p + b]@;
                assert(is_bit_flip_at(s, w, p, b));
                assert(v[p] as u32 == w[p] as u32);
                assert forall|q: int| 0 <= q < v.len() implies v[q] == w[q] by {
                    if q != p {
                        assert(v[q] == s[q]);
                        assert(w[q] == s[q]);
                    } else {
                        char_eq_from_u32(v[q], w[q]);
                    }
                }
                assert(v =~= w);
                assert(ascii_flips(s)[7 * p + b] == v);
            }
        }
    }
}

proof fn lemma_kept_contains(f: Seq<Seq<char>>, alphabet: Seq<char>, o: int, e: (Seq<char>, int))
    ensures
        kept_flips(f, alphabet, o).contains(e) <==> (e.1 == o && f.contains(e.0) && in_alphabet(
            e.0,
            alphabet,
        )),
    decreases f.len(),
{
    if f.len() > 0 {
        let pre = f.drop_last();
        lemma_kept_contains(pre, alphabet, o, e);
        let k = kept_flips(pre, alphabet, o);
        let all = kept_flips(f, alphabet, o);
        assert(f =~= pre.push(f.last()));
        if f.contains(e.0) && e.0 != f.last() {
            let i = choose|i: int| 0 <= i < f.len() && f[i] == e.0;
            assert(pre[i] == e.0);
        }
        if pre.contains(e.0) {
            let i = choose|i: int| 0 <= i < pre.len() && pre[i] == e.0;
            assert(f[i] == e.0);
        }
        if in_alphabet(f.last(), alphabet) {
            assert(all == k + seq![(f.last(), o)]);
            if all.contains(e) {
                let i = choose|i: int| 0 <= i < all.len() && all[i] == e;
                if i < k.len() {
                    assert(k[i] == e);
                }
            }
            if k.contains(e) {
                let i = choose|i: int| 0 <= i < k.len() && k[i] == e;
                assert(all[i] == e);
            }
            if e == (f.last(), o) {
                assert(all[k.len() as int] == e);
            }
        } else {
            assert(all =~= k);
        }
    }
}

proof fn lemma_pairs_contains(names: Seq<Seq<char>>, alphabet: Seq<char>, e: (Seq<char>, int))
    ensures
        flip_pairs(names, alphabet).contains(e) <==> (0 <= e.1 < names.len() && ascii_flips(
            names[e.1],
        ).contains(e.0) && in_alphabet(e.0, alphabet)),
    decreases names.len(),
{
    if names.len() > 0 {
        let pre = names.drop_last();
        lemma_pairs_contains(pre, alphabet, e);
        let o = names.len() - 1;
        lemma_kept_contains(ascii_flips(names.last()), alphabet, o, e);
        let a = flip_pairs(pre, alphabet);
        let b = kept_flips(ascii_flips(names.last()), alphabet, o);
        let all = flip_pairs(names, alphabet);
        assert(all == a + b);
        if 0 <= e.1 < pre.len() {
            assert(pre[e.1] == names[e.1]);
        }
        if all.contains(e) {
            let i = choose|i: int| 0 <= i < all.len() && all[i] == e;
            if i < a.len() {
                assert(a[i] == e);
            } else {
                assert(b[i - a.len()] == e);
            }
        }
        if a.contains(e) {
            let i = choose|i: int| 0 <= i < a.len() && a[i] == e;
            assert(all[i] == e);
        }
        if b.contains(e) {
            let i = choose|i: int| 0 <= i < b.len() && b[i] == e;
            assert(all[a.len() + i] == e);
        }
    }
}

proof fn lemma_origins_contains(
    pairs: Seq<(Seq<char>, int)>,
    names: Seq<Seq<char>>,
    n: Seq<char>,
    c: Seq<char>,
)
    ensures
        flip_origins(pairs, names, n).contains(c) <==> exists|j: int|
            0 <= j < pairs.len() && (#[trigger] pairs[j]).0 == n && names[pairs[j].1] == c,
    decreases pairs.len(),
{
    if pairs.len() > 0 {
        let pre = pairs.drop_last();
        lemma_origins_contains(pre, names, n, c);
        let before = flip_origins(pre, names, n);
        let all = flip_origins(pairs, names, n);
        if exists|j: int| 0 <= j < pre.len() && (#[trigger] pre[j]).0 == n && names[pre[j].1] == c {
            let j = choose|j: int|
                0 <= j < pre.len() && (#[trigger] pre[j]).0 == n && names[pre[j].1] == c;
            assert(pairs[j] == pre[j]);
        }
        if exists|j: int|
            0 <= j < pairs.len() && (#[trigger] pairs[j]).0 == n && names[pairs[j].1] == c {
            let j = choose|j: int|
                0 <= j < pairs.len() && (#[trigger] pairs[j]).0 == n && names[pairs[j].1] == c;
            if j < pre.len() {
                assert(pre[j] == pairs[j]);
            }
        }
        if pairs.last().0 == n {
            assert(all == before.push(names[pairs.last().1]));
            if all.contains(c) {
                let i = choose|i: int| 0 <= i < all.len() && all[i] == c;
                if i < before.len() {
                    assert(before[i] == c);
                } else {
                    assert(pairs[pairs.len() - 1].0 == n);
                }
            }
            if before.contains(c) {
                let i = choose|i: int| 0 <= i < before.len() && before[i] == c;
                assert(all[i] == c);
            }
            if names[pairs.last().1] == c {
                assert(all[before.len() as int] == c);
            }
        }
    }
}

/// The bitflip check flags `name` with `target` exactly when `target` is one of its names,
/// `name` is one of the variants of `target` and lies in the alphabet, and the corpus admits
/// `target`. For an ASCII name the variants are its one-bit flips (see [`Bitflips::new`]).
pub proof fn lemma_bitflips_flags<C: Corpus>(
    check: Bitflips,
    corpus: &C,
    name: Seq<char>,
    authors: Set<Seq<char>>,
    target: Seq<char>,
)
    requires
        check.pairs() == flip_pairs(check.names_view(), check.alphabet_view()),
    ensures
        admitted(corpus, check.proposals(name), name, authors).contains(SquatView::Bitflip(target))
            <==> (check.names_view().contains(target) && ascii_flips(target).contains(name)
            && in_alphabet(name, check.alphabet_view()) && corpus.admits(target, name, authors)),
{
    let names = check.names_view();
    let pairs = check.pairs();
    lemma_flagged_technique(
        corpus,
        Technique::Bitflip,
        flip_origins(pairs, names, name),
        name,
        authors,
        target,
    );
    lemma_origins_contains(pairs, names, name, target);
    if flip_origins(pairs, names, name).contains(target) {
        let j = choose|j: int|
            0 <= j < pairs.len() && (#[trigger] pairs[j]).0 == name && names[pairs[j].1] == target;
        assert(pairs.contains(pairs[j]));
        lemma_pairs_contains(names, check.alphabet_view(), pairs[j]);
    }
    if names.contains(target) && ascii_flips(target).contains(name) && in_alphabet(
        name,
        check.alphabet_view(),
    ) {
        let i = choose|i: int| 0 <= i < names.len() && names[i] == target;
        lemma_pairs_contains(names, check.alphabet_view(), (name, i));
        let j = choose|j: int| 0 <= j < pairs.len() && pairs[j] == (name, i);
        assert(pairs[j].0 == name && names[pairs[j].1] == target);
    }
}

} // verus!
