use vstd::prelude::*;
use crate::text::str_eq;

verus! {

/// The caller-supplied "is this token a known word?" capability that a
/// [`crate::Ranker`] consults while scoring. It is an opaque, pure predicate
/// over strings: the ranker never mutates it, and an implementation must
/// answer — `false` for unknown or garbage tokens — rather than fail.
pub trait Dictionary {
    /// The set of recognized words, as a mathematical predicate over the
    /// token's characters.
    spec fn spec_contains(&self, token: Seq<char>) -> bool;

    /// Answers whether `token`, passed exactly as split (no case folding, no
    /// trimming), is a recognized word.
    fn contains(&self, token: &str) -> (r: bool)
        ensures
            r == self.spec_contains(token@),
    ;
}

/// A ready-made [`Dictionary`] backed by an in-memory list of words.
pub struct WordList {
    words: Vec<String>,
}

impl WordList {
    /// An empty dictionary: it recognizes no token at all.
    pub fn new() -> (r: WordList)
        ensures
            forall|t: Seq<char>| !r.spec_contains(t),
    {
        WordList { words: Vec::new() }
    }

    /// Adds `word` to the recognized set; every word recognized before stays
    /// recognized.
    pub fn insert(&mut self, word: String)
        ensures
            forall|t: Seq<char>|
                final(self).spec_contains(t) <==> (old(self).spec_contains(t) || t == word@),
    {
        self.words.push(word);
        proof {
            let ws = self.words@;
            let ows = old(self).words@;
            assert forall|t: Seq<char>|
                self.spec_contains(t) <==> (old(self).spec_contains(t) || t == word@) by {
                if t == word@ {
                    assert(ws[ws.len() - 1]@ == t);
                }
                if old(self).spec_contains(t) {
                    let i = choose|i: int| 0 <= i < ows.len() && ows[i]@ == t;
                    assert(ws[i]@ == t);
                }
                if self.spec_contains(t) {
                    let i = choose|i: int| 0 <= i < ws.len() && ws[i]@ == t;
                    if i < ows.len() {
                        assert(ows[i]@ == t);
                    } else {
                        assert(ws[i] == word);
                    }
                }
            }
        }
    }
}

impl Dictionary for WordList {
    closed spec fn spec_contains(&self, token: Seq<char>) -> bool {
        exists|i: int| 0 <= i < self.words@.len() && self.words@[i]@ == token
    }

    fn contains(&self, token: &str) -> (r: bool) {
        let n = self.words.len();
        let mut i: usize = 0;
        while i < n
            invariant
                i <= n,
                n == self.words@.len(),
                forall|j: int| 0 <= j < i ==> self.words@[j]@ != token@,
            decreases n - i,
        {
            if str_eq(self.words[i].as_str(), token) {
                return true;
            }
            i = i + 1;
        }
        false
    }
}

} // verus!
