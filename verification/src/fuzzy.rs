//! The fuzzy keyword resolver: decides whether a user-typed word denotes
//! a canonical vocabulary entry, tolerating misspellings up to an
//! edit-distance threshold.
use vstd::prelude::*;
use crate::outside::{edit_dist, edit_distance};

verus! {

/// A word matches a canonical name when its edit distance to the name is
/// strictly below the threshold.
pub open spec fn fuzzy_spec(word: Seq<char>, canon: Seq<char>, threshold: nat) -> bool {
    edit_dist(word, canon) < threshold
}

/// Decides a fuzzy match of `word` against the canonical name `canon`.
/// A word always matches itself when the threshold admits distance 0.
pub fn fuzzy_match(word: &str, canon: &str, threshold: usize) -> (b: bool)
    ensures
        b == fuzzy_spec(word@, canon@, threshold as nat),
        word@ == canon@ && threshold >= 1 ==> b,
{
    let d = edit_distance(word, canon);
    d < threshold
}

} // verus!
