use name_rank::Dictionary;
use name_rank::file_name;
use name_rank::Ranker;
use name_rank::WordList;
use name_rank::without_extension;
use std::cmp::Ordering;

fn build_ranker() -> Ranker<WordList> {
    let mut set = WordList::new();
    set.insert(String::from("one"));
    Ranker::new(set)
}

#[test]
fn can_create_ranker() {
    build_ranker();
}

#[test]
fn prefer_nonnumbered_names() {
    let ranker = build_ranker();
    let left = ranker.rank("/ordinary/name/number/one.txt");
    let right = ranker.rank("/ordinary/name/number/one (1).txt");

    assert!(left > right);
}

#[test]
fn prefer_englishy_names() {
    let ranker = build_ranker();
    let left = ranker.rank("/ordinary/name/number/f87sf34UL.txt");
    let right = ranker.rank("/ordinary/name/number/one (1).txt");

    assert!(right > left);
}

#[test]
fn total_order_on_scores() {
    let mut words = WordList::new();
    words.insert(String::from("alpha"));
    words.insert(String::from("beta"));
    let ranker = Ranker::new(words);

    let a = ranker.rank("alpha beta.txt").unwrap();
    let b = ranker.rank("alpha zz.txt").unwrap();
    let c = ranker.rank("qq.txt").unwrap();

    // Any two scores are comparable and exactly one of <, ==, > holds.
    for x in [a, b, c] {
        for y in [a, b, c] {
            let lt = x < y;
            let eq = x == y;
            let gt = x > y;
            assert_eq!(x.partial_cmp(&y).is_some(), true);
            assert_eq!(u8::from(lt) + u8::from(eq) + u8::from(gt), 1);
        }
    }

    // Transitive: c < b and b < a, so c < a.
    assert!(c < b);
    assert!(b < a);
    assert!(c < a);

    // Comparison is antisymmetric and equality is reflexive.
    assert_eq!(a.partial_cmp(&b), Some(Ordering::Greater));
    assert_eq!(b.partial_cmp(&a), Some(Ordering::Less));
    assert_eq!(a.partial_cmp(&a), Some(Ordering::Equal));
}

#[test]
fn dictionary_hits_dominate() {
    let mut words = WordList::new();
    words.insert(String::from("alpha"));
    words.insert(String::from("beta"));
    let ranker = Ranker::new(words);

    let hit = ranker.rank("alpha beta").unwrap();
    let miss = ranker.rank("zz99 qq11").unwrap();
    assert_eq!(hit.dictionary_hits, 2);
    assert_eq!(miss.dictionary_hits, 0);
    assert!(hit > miss);
}

#[test]
fn marker_penalty_dominates_length() {
    let ranker = Ranker::new(WordList::new());

    let plain = ranker.rank("report.txt").unwrap();
    let marked = ranker.rank("report (1).txt").unwrap();
    assert_eq!(plain.dictionary_hits, marked.dictionary_hits);
    assert!(!plain.has_duplicate_marker);
    assert!(marked.has_duplicate_marker);
    assert!(marked.length > plain.length);
    assert!(plain > marked);
}

#[test]
fn longer_base_name_breaks_ties() {
    let ranker = Ranker::new(WordList::new());

    let long = ranker.rank("abcdef.txt").unwrap();
    let short = ranker.rank("abc.txt").unwrap();
    assert_eq!(long.dictionary_hits, short.dictionary_hits);
    assert_eq!(long.has_duplicate_marker, short.has_duplicate_marker);
    assert!(long > short);
}

#[test]
fn only_the_last_dot_strips() {
    assert_eq!(without_extension("notes.final.txt"), "notes.final");
    assert_eq!(without_extension("a.b.c"), "a.b");
    assert_eq!(without_extension("abc"), "abc");
    assert_eq!(without_extension("a."), "a");
    assert_eq!(without_extension(".hidden"), "");

    // "notes.final" is a single whitespace-free token: the dictionary is
    // consulted for it whole, never for "notes" or "final" alone.
    let mut whole = WordList::new();
    whole.insert(String::from("notes.final"));
    let ranker = Ranker::new(whole);
    assert_eq!(ranker.rank("notes.final.txt").unwrap().dictionary_hits, 1);

    let mut halves = WordList::new();
    halves.insert(String::from("notes"));
    halves.insert(String::from("final"));
    let ranker = Ranker::new(halves);
    let score = ranker.rank("notes.final.txt").unwrap();
    assert_eq!(score.dictionary_hits, 0);
    assert_eq!(score.length, "notes.final".chars().count());
}

#[test]
fn unscoreable_inputs_yield_none() {
    let ranker = Ranker::new(WordList::new());
    assert!(ranker.rank("/").is_none());
    assert!(ranker.rank("").is_none());
    assert!(ranker.rank("//").is_none());
    assert!(ranker.rank(".").is_none());
    assert!(ranker.rank("..").is_none());
    assert!(ranker.rank("a/..").is_none());
}

#[test]
fn end_to_end_scenario() {
    let mut words = WordList::new();
    words.insert(String::from("one"));
    let ranker = Ranker::new(words);

    let plain = ranker.rank("/a/b/one.txt").unwrap();
    assert_eq!(plain.dictionary_hits, 1);
    assert!(!plain.has_duplicate_marker);
    assert_eq!(plain.length, "one".chars().count());

    let marked = ranker.rank("/a/b/one (1).txt").unwrap();
    assert_eq!(marked.dictionary_hits, 1);
    assert!(marked.has_duplicate_marker);
    assert_eq!(marked.length, "one (1)".chars().count());

    assert!(plain > marked);
}

#[test]
fn marker_is_anchored_to_the_end() {
    let ranker = Ranker::new(WordList::new());
    assert!(ranker.rank("x (1).txt").unwrap().has_duplicate_marker);
    assert!(ranker.rank("x (007).txt").unwrap().has_duplicate_marker);
    assert!(ranker.rank("name (42)").unwrap().has_duplicate_marker);

    // The parenthesized number must close the base name...
    assert!(!ranker.rank("x (1)y.txt").unwrap().has_duplicate_marker);
    // ...hold at least one digit...
    assert!(!ranker.rank("x ().txt").unwrap().has_duplicate_marker);
    assert!(!ranker.rank("x (a).txt").unwrap().has_duplicate_marker);
    // ...and follow at least one character and a space.
    assert!(!ranker.rank("(1).txt").unwrap().has_duplicate_marker);
    assert!(!ranker.rank("x(1).txt").unwrap().has_duplicate_marker);
    // The last-dot rule strips " (1)" markers buried in the extension.
    assert!(!ranker.rank("report.txt (1)x").unwrap().has_duplicate_marker);
}

#[test]
fn filename_component_rules() {
    assert_eq!(file_name("a/b/c.txt"), Some("c.txt"));
    assert_eq!(file_name("c.txt"), Some("c.txt"));
    assert_eq!(file_name("a/b/"), Some("b"));
    assert_eq!(file_name("a//b//"), Some("b"));
    assert_eq!(file_name("/a"), Some("a"));
    assert_eq!(file_name("a/."), Some("a"));
    assert_eq!(file_name("./a"), Some("a"));
    assert_eq!(file_name("a/..."), Some("..."));
    assert_eq!(file_name("/"), None);
    assert_eq!(file_name(""), None);
    assert_eq!(file_name("./"), None);
    assert_eq!(file_name("a/.."), None);
}

#[test]
fn length_counts_characters() {
    let ranker = Ranker::new(WordList::new());
    // A five-character name that is six bytes long: lengths are counted in
    // characters, not bytes.
    let score = ranker.rank("h\u{e9}llo.txt").unwrap();
    assert_eq!(score.length, 5);
}

#[test]
fn word_list_answers_exactly() {
    let mut words = WordList::new();
    words.insert(String::from("one"));
    words.insert(String::from("two"));
    assert!(words.contains("one"));
    assert!(words.contains("two"));
    assert!(!words.contains("three"));
    assert!(!words.contains("One"));
    assert!(!words.contains("one "));
    assert!(!words.contains(""));
}
