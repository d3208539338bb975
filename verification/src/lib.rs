//! Ranks candidate filenames (typically duplicate names for the same logical
//! file, such as `report.txt` against `report (1).txt`) so that a
//! deduplication or sync tool can pick the preferred, "canonical" one.
//!
//! The caller supplies a [`Dictionary`] — an abstract "is this token a known
//! word?" predicate — and asks a [`Ranker`] for a [`Score`] per candidate.
//! Scores form a strict total order: more recognized words win, then names
//! without a trailing ` (N)` duplicate marker win, then longer base names win.

mod dict;
mod ranker;
mod score;
mod text;

pub use dict::Dictionary;
pub use dict::WordList;
pub use ranker::Ranker;
pub use ranker::spec_hits;
pub use text::file_name;
pub use text::has_marker;
pub use text::spec_file_name;
pub use text::spec_tokens;
pub use text::spec_without_extension;
pub use text::without_extension;
pub use score::Score;
pub use score::lemma_cmp_transitive;
pub use score::lemma_cmp_trichotomy;
pub use score::lemma_hits_dominate;
pub use score::lemma_length_breaks_ties;
pub use score::lemma_marker_dominates_length;
pub use score::spec_cmp;
