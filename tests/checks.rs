use std::collections::{HashMap, HashSet};
use std::sync::RwLock;

use typomania::checks::util::rebuild_name;
use typomania::checks::{
    Bitflips, Check, Omitted, Repeated, Squat, SwappedCharacters, SwappedWords, Typos, Version,
};
use typomania::corpus::default_possible_squat;
use typomania::{AnyCheck, AuthorSet, Corpus, Error, Harness, Package};

#[derive(Debug, Clone, Default)]
struct TestPackage {
    authors: HashSet<String>,
    description: Option<String>,
}

impl TestPackage {
    fn new(author: &str) -> Self {
        Self {
            authors: [String::from(author)].into_iter().collect(),
            description: None,
        }
    }
}

impl AuthorSet for TestPackage {
    fn contains(&self, author: &str) -> bool {
        self.authors.contains(author)
    }
}

impl Package for TestPackage {
    type Authors = Self;

    fn authors(&self) -> &Self {
        self
    }

    fn description(&self) -> Option<&str> {
        self.description.as_deref()
    }

    fn shared_authors<A: AuthorSet>(&self, other: &A) -> bool {
        self.authors.iter().any(|author| other.contains(author))
    }
}

struct SimpleCorpus(HashMap<String, TestPackage>);

impl Corpus for SimpleCorpus {
    type Item = TestPackage;

    fn contains_name(&self, name: &str) -> Result<bool, Error> {
        Ok(self.0.contains_key(name))
    }

    fn get(&self, name: &str) -> Result<Option<&TestPackage>, Error> {
        Ok(self.0.get(name))
    }

    fn possible_squat<P: Package>(
        &self,
        corpus_name: &str,
        package_name: &str,
        package: &P,
    ) -> Result<bool, Error> {
        default_possible_squat(self, corpus_name, package_name, package)
    }
}

/// Records every name that a check asks about, and admits none.
struct NameTracker {
    known: HashMap<String, TestPackage>,
    seen: RwLock<HashMap<String, TestPackage>>,
}

impl NameTracker {
    fn new(known: &str) -> Self {
        Self {
            known: [(String::from(known), TestPackage::new(known))]
                .into_iter()
                .collect(),
            seen: RwLock::new(HashMap::default()),
        }
    }

    fn assert_contains_exactly(&self, want: &[&str]) {
        let set: HashSet<String> = want.iter().map(|term| String::from(*term)).collect();
        let seen: HashSet<String> = self.seen.read().unwrap().keys().cloned().collect();
        let mut diff: Vec<String> = seen.symmetric_difference(&set).cloned().collect();
        diff.sort();
        assert_eq!(diff, Vec::<String>::new());
    }
}

impl Corpus for NameTracker {
    type Item = TestPackage;

    fn contains_name(&self, name: &str) -> Result<bool, Error> {
        Ok(if self.known.contains_key(name) {
            true
        } else {
            self.seen
                .write()
                .unwrap()
                .entry(name.into())
                .or_insert_with(|| TestPackage::new(name));
            false
        })
    }

    fn get(&self, name: &str) -> Result<Option<&TestPackage>, Error> {
        Ok(if let Some(package) = self.known.get(name) {
            Some(package)
        } else {
            self.seen
                .write()
                .unwrap()
                .entry(name.into())
                .or_insert_with(|| TestPackage::new(name));
            None
        })
    }

    fn possible_squat<P: Package>(
        &self,
        corpus_name: &str,
        package_name: &str,
        package: &P,
    ) -> Result<bool, Error> {
        default_possible_squat(self, corpus_name, package_name, package)
    }
}

fn assert_check<C: Check>(check: C, input: &str, want: &[&str]) {
    let names = NameTracker::new(input);
    check
        .check(&names, input, &TestPackage::new(input))
        .unwrap();
    names.assert_contains_exactly(want);
}

fn corpus_of(names: &[&str]) -> SimpleCorpus {
    SimpleCorpus(
        names
            .iter()
            .map(|name| (String::from(*name), TestPackage::new("owner")))
            .collect(),
    )
}

fn targets(squats: &[Squat]) -> Vec<String> {
    squats.iter().map(|s| String::from(s.target())).collect()
}

#[test]
fn test_bitflips() {
    let names = vec![String::from("ab")];
    assert_check(Bitflips::new("abcdef", &names), "ac", &["ab"]);

    // Even more limited alphabet.
    assert_check(Bitflips::new("ab", &names), "ac", &[]);
}

#[test]
fn test_possible_squat() {
    let corpus = SimpleCorpus(
        [("a", TestPackage::new("adam")), ("d", TestPackage::default())]
            .into_iter()
            .map(|(name, package)| (String::from(name), package))
            .collect(),
    );

    // Not a possible squat: same package.
    assert_eq!(
        corpus.possible_squat("a", "a", &TestPackage::default()),
        Ok(false)
    );

    // Possible squat: no authors in common.
    assert_eq!(
        corpus.possible_squat("d", "x", &TestPackage::default()),
        Ok(true)
    );

    // Not a possible squat: author "adam" in common.
    assert_eq!(
        corpus.possible_squat("a", "x", &TestPackage::new("adam")),
        Ok(false)
    );

    // Possible squat: no authors in common.
    assert_eq!(
        corpus.possible_squat("a", "x", &TestPackage::default()),
        Ok(true)
    );
}

#[test]
fn test_omitted() {
    assert_check(
        Omitted::new("abc"),
        "xyz",
        &[
            "axyz", "bxyz", "cxyz", "xayz", "xbyz", "xcyz", "xyaz", "xybz", "xycz", "xyza",
            "xyzb", "xyzc",
        ],
    );
}

#[test]
fn test_repeated() {
    let test = |input: &str, want: &[&str]| assert_check(Repeated, input, want);

    test("", &[]);
    test("a", &[]);
    test("aa", &["a"]);
    test("abc", &[]);
    test("abbc", &["abc"]);
    test("abbbc", &["abbc"]);
    test("abbbbc", &["abbbc"]);
    test("aaaaaa", &["aaaaa"]);
}

#[test]
fn test_characters() {
    let test = |input: &str, want: &[&str]| assert_check(SwappedCharacters, input, want);

    test("", &[]);
    test("a", &[]);
    test("ab", &["ba"]);
    test("abc", &["bac", "acb"]);
}

#[test]
fn test_words() {
    let test = |input: &str, want: &[&str]| assert_check(SwappedWords::new("-_"), input, want);

    test("", &[]);
    test("a", &[]);
    test("abc", &[]);
    test("abc-def", &["abc_def", "def-abc", "def_abc"]);
    test(
        "abc-def_ghi",
        &[
            "abc_def_ghi",
            "abc-def-ghi",
            "abc_ghi_def",
            "abc-ghi-def",
            "def_abc_ghi",
            "def-abc-ghi",
            "def_ghi_abc",
            "def-ghi-abc",
            "ghi_abc_def",
            "ghi-abc-def",
            "ghi_def_abc",
            "ghi-def-abc",
        ],
    );

    // Test max_k.
    assert_check(
        SwappedWords::new("-_").with_max_k(2),
        "a-b-c",
        &[
            "b_a", "c_b", "c-b", "a-c", "c_a", "b-a", "c-a", "a_c", "b_c", "a-b", "b-c", "a_b",
        ],
    );
}

#[test]
fn test_typos() {
    let test = |input: &str, want: &[&str]| {
        assert_check(
            Typos::new(vec![('a', vec![String::from("ab"), String::from("b")])]),
            input,
            want,
        )
    };

    test("", &[]);
    test("x", &[]);
    test("a", &["ab", "b"]);
    test("xax", &["xabx", "xbx"]);
}

#[test]
fn test_rebuild_name() {
    assert_eq!("foobar", rebuild_name("foobar", 3, 0, ""));
    assert_eq!("fooxbar", rebuild_name("foobar", 3, 0, "x"));
    assert_eq!("fooxar", rebuild_name("foobar", 3, 1, "x"));
    assert_eq!("fxbar", rebuild_name("foobar", 1, 2, "x"));
    assert_eq!("fxxbar", rebuild_name("foobar", 1, 2, "xx"));
}

#[test]
fn test_version() {
    assert_check(Version, "", &[]);
    assert_check(Version, "-2", &[]);
    assert_check(Version, "2", &[]);
    assert_check(Version, "abc", &[]);
    assert_check(Version, "abc234", &["abc"]);
    assert_check(Version, "abc-234", &["abc"]);
    assert_check(Version, "abc-", &["abc"]);
    assert_check(Version, "abc0", &["abc"]);
}

#[test]
fn repeated_flags_collapsed_name() {
    let corpus = corpus_of(&["abc"]);
    let squats = Repeated
        .check(&corpus, "abbc", &TestPackage::new("mallory"))
        .unwrap();
    assert_eq!(squats.len(), 1);
    assert!(matches!(&squats[0], Squat::RepeatedCharacter(p) if p == "abc"));
}

#[test]
fn swapped_characters_flags_both_neighbours() {
    let corpus = corpus_of(&["bac", "acb"]);
    let squats = SwappedCharacters
        .check(&corpus, "abc", &TestPackage::new("mallory"))
        .unwrap();
    assert_eq!(targets(&squats), vec!["bac", "acb"]);
    assert!(squats
        .iter()
        .all(|s| matches!(s, Squat::SwappedCharacters(_))));
}

#[test]
fn version_flags_stripped_suffix_only() {
    let corpus = corpus_of(&["abc"]);
    let squats = Version
        .check(&corpus, "abc234", &TestPackage::new("mallory"))
        .unwrap();
    assert_eq!(squats.len(), 1);
    assert!(matches!(&squats[0], Squat::Version(p) if p == "abc"));
    let none = Version
        .check(&corpus, "abc", &TestPackage::new("mallory"))
        .unwrap();
    assert!(none.is_empty());
}

#[test]
fn version_strips_one_hyphen_only() {
    let corpus = corpus_of(&["abc-", "abc"]);
    let squats = Version
        .check(&corpus, "abc--1", &TestPackage::new("mallory"))
        .unwrap();
    assert_eq!(targets(&squats), vec!["abc-"]);
}

#[test]
fn words_bounded_permutations_only() {
    let all = [
        "b_a", "c_b", "c-b", "a-c", "c_a", "b-a", "c-a", "a_c", "b_c", "a-b", "b-c", "a_b",
        "a-b-c", "b-a-c", "c-b-a", "a_c_b",
    ];
    let corpus = corpus_of(&all);
    let squats = SwappedWords::new("-_")
        .with_max_k(2)
        .check(&corpus, "a-b-c", &TestPackage::new("mallory"))
        .unwrap();
    let mut got = targets(&squats);
    got.sort();
    let mut want: Vec<String> = all[..12].iter().map(|s| String::from(*s)).collect();
    want.sort();
    assert_eq!(got, want);
    assert!(squats.iter().all(|s| matches!(s, Squat::SwappedWords(_))));
}

#[test]
fn omitted_respects_shared_authors() {
    let corpus = corpus_of(&["axyz"]);
    let squats = Omitted::new("abc")
        .check(&corpus, "xyz", &TestPackage::new("mallory"))
        .unwrap();
    assert_eq!(squats.len(), 1);
    assert!(matches!(&squats[0], Squat::OmittedCharacter(p) if p == "axyz"));
    let none = Omitted::new("abc")
        .check(&corpus, "xyz", &TestPackage::new("owner"))
        .unwrap();
    assert!(none.is_empty());
}

#[test]
fn bitflips_respect_alphabet() {
    let names = vec![String::from("ab")];
    let corpus = corpus_of(&["ab"]);
    let wide = Bitflips::new("abc", &names)
        .check(&corpus, "ac", &TestPackage::new("mallory"))
        .unwrap();
    assert_eq!(wide.len(), 1);
    assert!(matches!(&wide[0], Squat::Bitflip(p) if p == "ab"));
    // 'c' is outside the alphabet, so "ac" is never a known variant.
    let narrow = Bitflips::new("ab", &names)
        .check(&corpus, "ac", &TestPackage::new("mallory"))
        .unwrap();
    assert!(narrow.is_empty());
    // "ac" is a one-bit flip of "aa" and lies in the alphabet "ac".
    let doubled = vec![String::from("aa")];
    let inside = Bitflips::new("ac", &doubled)
        .check(&corpus_of(&["aa"]), "ac", &TestPackage::new("mallory"))
        .unwrap();
    assert_eq!(targets(&inside), vec!["aa"]);
}

#[test]
fn typos_replace_one_character() {
    let corpus = corpus_of(&["xbx", "xabx"]);
    let check = Typos::new(vec![('a', vec![String::from("ab"), String::from("b")])]);
    let squats = check
        .check(&corpus, "xax", &TestPackage::new("mallory"))
        .unwrap();
    assert_eq!(targets(&squats), vec!["xabx", "xbx"]);
}

#[test]
fn typos_later_entry_overrides() {
    let corpus = corpus_of(&["xbx", "xcx"]);
    let check = Typos::new(vec![
        ('a', vec![String::from("b")]),
        ('a', vec![String::from("c")]),
    ]);
    let squats = check
        .check(&corpus, "xax", &TestPackage::new("mallory"))
        .unwrap();
    assert_eq!(targets(&squats), vec!["xcx"]);
}

#[test]
fn squat_messages() {
    assert_eq!(
        Squat::Bitflip(String::from("x")).message(),
        "may be a bitflip of x"
    );
    assert_eq!(
        Squat::OmittedCharacter(String::from("x")).message(),
        "omits characters in x"
    );
    assert_eq!(
        Squat::RepeatedCharacter(String::from("x")).message(),
        "repeats characters in x"
    );
    assert_eq!(
        Squat::SwappedCharacters(String::from("x")).message(),
        "swaps characters in x"
    );
    assert_eq!(
        Squat::SwappedWords(String::from("x")).message(),
        "swaps words in x"
    );
    assert_eq!(
        Squat::Typo(String::from("x")).message(),
        "uses a common typo for x"
    );
    assert_eq!(
        Squat::Version(String::from("x")).message(),
        "only changes the version from x"
    );
    assert_eq!(Squat::custom("looks odd", "x").message(), "looks odd for x");
}

#[test]
fn default_possible_squat_rules() {
    let corpus = corpus_of(&["abc"]);
    let stranger = TestPackage::new("mallory");
    assert_eq!(default_possible_squat(&corpus, "abc", "abc", &stranger), Ok(false));
    assert_eq!(default_possible_squat(&corpus, "zzz", "abc", &stranger), Ok(false));
    assert_eq!(
        default_possible_squat(&corpus, "abc", "abd", &TestPackage::new("owner")),
        Ok(false)
    );
    assert_eq!(default_possible_squat(&corpus, "abc", "abd", &stranger), Ok(true));
}

struct FailingCorpus;

impl Corpus for FailingCorpus {
    type Item = TestPackage;

    fn contains_name(&self, _name: &str) -> Result<bool, Error> {
        Err(Error::Corpus(String::from("store unavailable")))
    }

    fn get(&self, _name: &str) -> Result<Option<&TestPackage>, Error> {
        Err(Error::Corpus(String::from("store unavailable")))
    }

    fn possible_squat<P: Package>(
        &self,
        corpus_name: &str,
        package_name: &str,
        package: &P,
    ) -> Result<bool, Error> {
        default_possible_squat(self, corpus_name, package_name, package)
    }
}

#[test]
fn harness_runs_default_checks_in_order() {
    let harness = Harness::<SimpleCorpus>::builder().build(corpus_of(&["abc", "bac", "bacc"]));
    let squats = harness
        .check_package("abcc2", &TestPackage::new("mallory"))
        .unwrap();
    assert!(squats.is_empty());
    let squats = harness
        .check_package("bacc", &TestPackage::new("mallory"))
        .unwrap();
    assert!(squats.is_empty());
    let squats = harness
        .check_package("abcc", &TestPackage::new("mallory"))
        .unwrap();
    assert_eq!(targets(&squats), vec!["abc", "bacc"]);
    assert!(matches!(&squats[0], Squat::RepeatedCharacter(_)));
    assert!(matches!(&squats[1], Squat::SwappedCharacters(_)));
    let squats = harness
        .check_package("bacc1", &TestPackage::new("mallory"))
        .unwrap();
    assert_eq!(targets(&squats), vec!["bacc"]);
    assert!(matches!(&squats[0], Squat::Version(_)));
}

#[test]
fn harness_concatenates_in_check_order() {
    let harness = Harness::<SimpleCorpus>::empty_builder()
        .with_check(AnyCheck::Version(Version))
        .with_check(AnyCheck::Omitted(Omitted::new("x")))
        .build(corpus_of(&["ab", "abx", "xab"]));
    let squats = harness
        .check_package("ab-7", &TestPackage::new("mallory"))
        .unwrap();
    assert_eq!(targets(&squats), vec!["ab"]);
    let squats = harness
        .check_package("ab", &TestPackage::new("mallory"))
        .unwrap();
    assert!(squats.is_empty());
    let harness = Harness::<SimpleCorpus>::empty_builder()
        .with_check(AnyCheck::Omitted(Omitted::new("x")))
        .with_check(AnyCheck::SwappedCharacters(SwappedCharacters))
        .build(corpus_of(&["xba", "bax"]));
    let squats = harness
        .check_package("ba", &TestPackage::new("mallory"))
        .unwrap();
    assert_eq!(targets(&squats), vec!["xba", "bax"]);
    assert!(matches!(&squats[0], Squat::OmittedCharacter(_)));
}

#[test]
fn harness_never_flags_known_names() {
    let harness = Harness::<SimpleCorpus>::builder().build(corpus_of(&["abc", "abcc"]));
    let squats = harness
        .check_package("abcc", &TestPackage::new("mallory"))
        .unwrap();
    assert!(squats.is_empty());
}

#[test]
fn empty_harness_flags_nothing() {
    let harness = Harness::<SimpleCorpus>::empty_builder().build(corpus_of(&["abc"]));
    let squats = harness
        .check_package("abcc", &TestPackage::new("mallory"))
        .unwrap();
    assert!(squats.is_empty());
}

#[test]
fn batch_drops_unflagged_candidates() {
    let harness = Harness::<SimpleCorpus>::builder().build(corpus_of(&["abc", "xyz"]));
    let packages = vec![
        (String::from("abbc"), TestPackage::new("mallory")),
        (String::from("qqq"), TestPackage::new("mallory")),
        (String::from("abc"), TestPackage::new("mallory")),
        (String::from("xyz9"), TestPackage::new("mallory")),
    ];
    let flagged = harness.check(&packages).unwrap();
    assert_eq!(flagged.len(), 2);
    assert_eq!(flagged[0].0, "abbc");
    assert_eq!(targets(&flagged[0].1), vec!["abc"]);
    assert_eq!(flagged[1].0, "xyz9");
    assert!(matches!(&flagged[1].1[0], Squat::Version(p) if p == "xyz"));
}

#[test]
fn corpus_errors_abort() {
    let harness = Harness::<FailingCorpus>::builder().build(FailingCorpus);
    assert_eq!(
        harness
            .check_package("abbc", &TestPackage::new("mallory"))
            .unwrap_err(),
        Error::Corpus(String::from("store unavailable"))
    );
    let packages = vec![(String::from("abbc"), TestPackage::new("mallory"))];
    assert!(harness.check(&packages).is_err());
    assert!(Repeated
        .check(&FailingCorpus, "abbc", &TestPackage::new("mallory"))
        .is_err());
}

#[test]
fn flagged_entry_keeps_nonempty() {
    assert!(typomania::flagged_entry(String::from("a"), Vec::new()).is_none());
    let entry =
        typomania::flagged_entry(String::from("a"), vec![Squat::Typo(String::from("b"))]);
    assert_eq!(entry.map(|e| e.0), Some(String::from("a")));
}

/// The built-in checks plus one of the test's own, which flags names that end in "-rs" with
/// the name without that suffix.
enum MyCheck {
    Builtin(AnyCheck),
    RustSuffix,
}

impl Check for MyCheck {
    fn check<C: Corpus, P: Package>(
        &self,
        corpus: &C,
        name: &str,
        package: &P,
    ) -> Result<Vec<Squat>, Error> {
        match self {
            MyCheck::Builtin(check) => check.check(corpus, name, package),
            MyCheck::RustSuffix => match name.strip_suffix("-rs") {
                Some(base) if corpus.possible_squat(base, name, package)? => {
                    Ok(vec![Squat::custom("adds a language suffix", base)])
                }
                _ => Ok(Vec::new()),
            },
        }
    }
}

#[test]
fn harness_runs_custom_checks() {
    let harness = Harness::<SimpleCorpus, MyCheck>::empty_builder()
        .with_check(MyCheck::Builtin(AnyCheck::Version(Version)))
        .with_check(MyCheck::RustSuffix)
        .build(corpus_of(&["serde"]));
    let squats = harness
        .check_package("serde-rs", &TestPackage::new("mallory"))
        .unwrap();
    assert_eq!(squats.len(), 1);
    assert_eq!(squats[0].message(), "adds a language suffix for serde");
    let squats = harness
        .check_package("serde-2", &TestPackage::new("mallory"))
        .unwrap();
    assert_eq!(targets(&squats), vec!["serde"]);
}

#[test]
fn bitflips_index_finds_every_origin() {
    // "ac" is a one-bit variant of both "ab" and "aa", and of nothing else here.
    let names = vec![
        String::from("ab"),
        String::from("zz"),
        String::from("aa"),
    ];
    let corpus = corpus_of(&["ab", "zz", "aa"]);
    let squats = Bitflips::new("abcz", &names)
        .check(&corpus, "ac", &TestPackage::new("mallory"))
        .unwrap();
    assert_eq!(targets(&squats), vec!["ab", "aa"]);
    let none = Bitflips::new("abcz", &names)
        .check(&corpus, "ab", &TestPackage::new("owner"))
        .unwrap();
    assert!(none.is_empty());
}
