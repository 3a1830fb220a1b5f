//! The rule on spaces before punctuation marks, in its plain form.
//!
//! It looks for the same marks as [`super::punctuation::Punctuation`] and
//! knows fewer of the places where such a space is meant: it leaves alone a
//! colon after a run of spaces, a colon that no space follows, `!=`, `!Send`,
//! `!Sync`, a shell test and `?Sized`. After a run of spaces before another
//! mark it reports the space that touches the mark.
use vstd::prelude::*;

pub use super::punctuation::TypoSpaceBeforePunctuationMarks;
use super::punctuation::{findings, scan, Finding, Heuristics};
use super::Rule;

verus! {

/// A rule that detects when a space is present *before* a punctuation mark.
///
/// See [`TypoSpaceBeforePunctuationMarks`] for more details.
pub struct SpaceBeforePunctuationMarks;

impl Rule for SpaceBeforePunctuationMarks {
    open spec fn findings(&self, bytes: Seq<u8>) -> Seq<Finding> {
        findings(Heuristics::Basic, bytes)
    }

    fn check(&self, bytes: &[u8]) -> (typos: Vec<TypoSpaceBeforePunctuationMarks>) {
        scan(Heuristics::Basic, bytes)
    }
}

} // verus!
