use vstd::prelude::*;
use crate::dict::Dictionary;
use crate::score::Score;
use crate::text::has_marker;
use crate::text::is_space;
use crate::text::is_space_char;
use crate::text::lemma_token_run_exact;
use crate::text::spec_file_name;
use crate::text::spec_tokens;
use crate::text::spec_without_extension;
use crate::text::file_name;
use crate::text::without_extension;

verus! {

#[verifier::external_type_specification]
#[verifier::external_body]
pub struct ExRegex(regex::Regex);

/// Relies on `regex::Regex::new`: the duplicate-marker pattern below is a
/// valid expression, so `new` returns `Ok` and the `unwrap` cannot panic.
/// The pattern — with `(?s)` so that `.` matches every character, and `$`
/// anchoring the match to the end of the haystack — accepts exactly the
/// strings ending in one-or-more arbitrary characters, a space, `(`,
/// one-or-more ASCII digits, and `)`: the strings [`has_marker`] holds of.
#[verifier::external_body]
fn marker_regex() -> regex::Regex {
    regex::Regex::new(r"(?s).+ \([0-9]+\)$").unwrap()
}

/// How many of `toks` the dictionary `d` recognizes.
pub open spec fn spec_hits<D: Dictionary>(d: D, toks: Seq<Seq<char>>) -> nat
    decreases toks.len(),
{
    if toks.len() == 0 {
        0
    } else {
        (if d.spec_contains(toks[0]) {
            1nat
        } else {
            0nat
        }) + spec_hits(d, toks.subrange(1, toks.len() as int))
    }
}

proof fn lemma_hits_cons<D: Dictionary>(d: D, tok: Seq<char>, rest: Seq<Seq<char>>)
    ensures
        spec_hits(d, seq![tok] + rest) == (if d.spec_contains(tok) {
            1nat
        } else {
            0nat
        }) + spec_hits(d, rest),
{
    let toks = seq![tok] + rest;
    assert(toks[0] == tok);
    assert(toks.subrange(1, toks.len() as int) =~= rest);
}

/// Scores candidate filenames against one fixed [`Dictionary`], so that the
/// resulting [`Score`]s rank the candidates. The duplicate-marker pattern is
/// compiled once, at construction, since one ranker is typically asked to
/// score many candidates.
pub struct Ranker<D: Dictionary> {
    dictionary: D,
    nth_pattern: regex::Regex,
}

impl<D: Dictionary> Ranker<D> {
    /// The dictionary this ranker was constructed with.
    pub closed spec fn dict(&self) -> D {
        self.dictionary
    }

    /// Builds a ranker around `dictionary`, which it holds for its whole
    /// lifetime.
    pub fn new(dictionary: D) -> (r: Self)
        ensures
            r.dict() == dictionary,
    {
        Ranker { dictionary, nth_pattern: marker_regex() }
    }

    /// Scores one candidate, interpreted as a filesystem path or bare
    /// filename; any string is accepted. The score is computed from the
    /// candidate's base name (final path segment with the last-dot extension
    /// removed): how many of its whitespace-separated tokens the dictionary
    /// recognizes, whether it ends in a ` (N)` duplicate marker, and its
    /// length in characters. An input with no final path segment cannot be
    /// scored and yields `None` — never an error — so that the caller can
    /// exclude it from the ranking.
    pub fn rank(&self, s: &str) -> (r: Option<Score>)
        ensures
            r is Some <==> spec_file_name(s@) is Some,
            r is Some ==> ({
                let base = spec_without_extension(spec_file_name(s@).unwrap());
                &&& r.unwrap().dictionary_hits == spec_hits(self.dict(), spec_tokens(base))
                &&& r.unwrap().has_duplicate_marker == has_marker(base)
                &&& r.unwrap().length == base.len()
            }),
    {
        let name = match file_name(s) {
            Some(name) => name,
            None => {
                return None;
            },
        };
        let name = without_extension(name);
        Some(
            Score {
                dictionary_hits: self.score(name),
                has_duplicate_marker: self.has_penalty(name),
                length: name.unicode_len(),
            },
        )
    }

    /// Counts the whitespace-separated tokens of `name` that the dictionary
    /// recognizes.
    fn score(&self, name: &str) -> (r: usize)
        ensures
            r == spec_hits(self.dict(), spec_tokens(name@)),
    {
        let n = name.unicode_len();
        let mut i: usize = 0;
        let mut count: usize = 0;
        proof {
            assert(name@.subrange(0, n as int) =~= name@);
        }
        while i < n
            invariant
                i <= n,
                n == name@.len(),
                count <= i,
                spec_hits(self.dict(), spec_tokens(name@)) == count + spec_hits(
                    self.dict(),
                    spec_tokens(name@.subrange(i as int, n as int)),
                ),
            decreases n - i,
        {
            let ghost suffix = name@.subrange(i as int, n as int);
            if is_space(name.get_char(i)) {
                proof {
                    assert(suffix.subrange(1, suffix.len() as int) =~= name@.subrange(
                        i + 1,
                        n as int,
                    ));
                }
                i = i + 1;
            } else {
                let mut j = i + 1;
                while j < n && !is_space(name.get_char(j))
                    invariant
                        i < j <= n,
                        n == name@.len(),
                        forall|m: int| i <= m < j ==> !is_space_char(name@[m]),
                    decreases n - j,
                {
                    j = j + 1;
                }
                let tok = name.substring_char(i, j);
                proof {
                    assert forall|m: int| 0 <= m < j - i implies !is_space_char(suffix[m]) by {
                        assert(suffix[m] == name@[i + m]);
                    }
                    lemma_token_run_exact(suffix, j - i);
                    assert(tok@ =~= suffix.subrange(0, j - i));
                    assert(suffix.subrange(j - i, suffix.len() as int) =~= name@.subrange(
                        j as int,
                        n as int,
                    ));
                    lemma_hits_cons(
                        self.dict(),
                        tok@,
                        spec_tokens(name@.subrange(j as int, n as int)),
                    );
                    assert(spec_tokens(suffix) == seq![tok@] + spec_tokens(
                        name@.subrange(j as int, n as int),
                    ));
                }
                if self.dictionary.contains(tok) {
                    count = count + 1;
                }
                i = j;
            }
        }
        proof {
            assert(name@.subrange(n as int, n as int) =~= Seq::<char>::empty());
        }
        count
    }

    /// Relies on `regex::Regex::is_match`, with the fixed pattern that
    /// [`marker_regex`] compiles and `Ranker::new` — the type's only
    /// constructor — stores: the match succeeds exactly on the strings
    /// [`has_marker`] holds of. `is_match` answers whether the pattern
    /// matches anywhere in the haystack, and the pattern's trailing `$` pins
    /// that match to the haystack's end.
    #[verifier::external_body]
    fn has_penalty(&self, name: &str) -> (r: bool)
        ensures
            r == has_marker(name@),
    {
        self.nth_pattern.is_match(name)
    }
}

} // verus!
