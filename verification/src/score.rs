use vstd::prelude::*;
use core::cmp::Ordering;

verus! {

/// The comparable summary of one filename's ranking inputs, all derived from
/// the filename's base name (final path segment with the last-dot extension
/// removed):
///
/// - `dictionary_hits`: how many whitespace-separated tokens of the base name
///   the caller's dictionary recognizes;
/// - `has_duplicate_marker`: whether the base name ends in a ` (N)` qualifier
///   of the kind file managers append to avoid name collisions;
/// - `length`: the base name's length in characters.
///
/// Scores are ordered lexicographically over those three fields, in that
/// precedence: see [`spec_cmp`].
#[derive(Debug, Clone, Copy, PartialEq, Eq, Structural)]
pub struct Score {
    pub dictionary_hits: usize,
    pub has_duplicate_marker: bool,
    pub length: usize,
}

/// The three-level lexicographic order on scores, each level consulted only
/// when every level before it ties:
///
/// 1. more `dictionary_hits` is greater (preferred);
/// 2. a score *without* the duplicate marker is greater than one with it;
/// 3. a greater `length` is greater — the final tie-break deliberately favors
///    *longer* base names; this is kept as literal behavior, even though one
///    might expect shorter names to win.
pub open spec fn spec_cmp(a: Score, b: Score) -> Ordering {
    if a.dictionary_hits < b.dictionary_hits {
        Ordering::Less
    } else if a.dictionary_hits > b.dictionary_hits {
        Ordering::Greater
    } else if a.has_duplicate_marker && !b.has_duplicate_marker {
        Ordering::Less
    } else if !a.has_duplicate_marker && b.has_duplicate_marker {
        Ordering::Greater
    } else if a.length < b.length {
        Ordering::Less
    } else if a.length > b.length {
        Ordering::Greater
    } else {
        Ordering::Equal
    }
}

impl PartialOrd for Score {
    fn partial_cmp(&self, other: &Self) -> Option<Ordering> {
        if self.dictionary_hits < other.dictionary_hits {
            Some(Ordering::Less)
        } else if self.dictionary_hits > other.dictionary_hits {
            Some(Ordering::Greater)
        } else if self.has_duplicate_marker && !other.has_duplicate_marker {
            Some(Ordering::Less)
        } else if !self.has_duplicate_marker && other.has_duplicate_marker {
            Some(Ordering::Greater)
        } else if self.length < other.length {
            Some(Ordering::Less)
        } else if self.length > other.length {
            Some(Ordering::Greater)
        } else {
            Some(Ordering::Equal)
        }
    }
}

impl vstd::std_specs::cmp::PartialOrdSpecImpl for Score {
    open spec fn obeys_partial_cmp_spec() -> bool {
        true
    }

    open spec fn partial_cmp_spec(&self, other: &Self) -> Option<Ordering> {
        Some(spec_cmp(*self, *other))
    }
}

/// Scores form a strict total order: any two scores are comparable, and for
/// any two of them exactly one of "less", "equal", "greater" holds. Equality
/// under the order coincides with equality of the three fields, and the order
/// is antisymmetric.
pub proof fn lemma_cmp_trichotomy(a: Score, b: Score)
    ensures
        (spec_cmp(a, b) == Ordering::Equal) <==> a == b,
        (spec_cmp(a, b) == Ordering::Less) <==> (spec_cmp(b, a) == Ordering::Greater),
        (spec_cmp(a, b) == Ordering::Less) || (spec_cmp(a, b) == Ordering::Equal) || (spec_cmp(
            a,
            b,
        ) == Ordering::Greater),
{
}

/// The order on scores is transitive.
pub proof fn lemma_cmp_transitive(a: Score, b: Score, c: Score)
    requires
        spec_cmp(a, b) == Ordering::Less,
        spec_cmp(b, c) == Ordering::Less,
    ensures
        spec_cmp(a, c) == Ordering::Less,
{
}

/// Dictionary hits dominate: a score with strictly more recognized tokens
/// outranks one with fewer, whatever the two marker flags and lengths are.
pub proof fn lemma_hits_dominate(a: Score, b: Score)
    requires
        a.dictionary_hits > b.dictionary_hits,
    ensures
        spec_cmp(b, a) == Ordering::Less,
{
}

/// Given equal dictionary hits, the duplicate-marker penalty dominates the
/// length tie-break: a score without the marker outranks one with it, even
/// when the marked name is longer.
pub proof fn lemma_marker_dominates_length(a: Score, b: Score)
    requires
        a.dictionary_hits == b.dictionary_hits,
        !a.has_duplicate_marker,
        b.has_duplicate_marker,
    ensures
        spec_cmp(b, a) == Ordering::Less,
{
}

/// Given equal dictionary hits and equal marker status, the longer base name
/// wins.
pub proof fn lemma_length_breaks_ties(a: Score, b: Score)
    requires
        a.dictionary_hits == b.dictionary_hits,
        a.has_duplicate_marker == b.has_duplicate_marker,
        a.length > b.length,
    ensures
        spec_cmp(b, a) == Ordering::Less,
{
}

} // verus!
