//! What an update did, label by label.

use vstd::prelude::*;

verus! {

/// What one label did to one place of a document.
#[derive(Debug, Clone, Copy, PartialEq, Eq, Structural)]
pub enum Outcome {
    /// The place took new identifiers.
    Changed,
    /// The place already held matching identifiers.
    Skipped,
    /// The place and the result have nothing to do with each other.
    Untouched,
}

/// The texts of a list as sequences of characters.
pub open spec fn string_views(texts: Seq<String>) -> Seq<Seq<char>> {
    Seq::new(texts.len(), |i: int| texts[i]@)
}

/// The labels that changed one document and those that found it up to date.
#[derive(Debug)]
pub struct DocumentReport {
    pub changed: Vec<String>,
    pub skipped: Vec<String>,
}

} // verus!
