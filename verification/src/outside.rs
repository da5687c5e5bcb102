//! The only items of this crate whose contracts Verus takes on trust.
//! Each wraps one function of an outside crate (or of std where vstd
//! gives none a specification); everything else in the crate is verified
//! against these contracts.
use vstd::prelude::*;

verus! {

/// What `str::to_lowercase` returns for a given character sequence.
/// The result depends on the characters alone.
pub uninterp spec fn lower_of(s: Seq<char>) -> Seq<char>;

/// Relies on `str::to_lowercase` (std): the Unicode lowercase mapping of
/// the whole string; an empty string stays empty.
#[verifier::external_body]
pub(crate) fn lowercase(s: &str) -> (r: String)
    ensures
        r@ == lower_of(s@),
        s@.len() == 0 ==> r@.len() == 0,
{
    s.to_lowercase()
}

/// What `strsim::damerau_levenshtein` returns for a given pair of
/// character sequences. The result depends on the characters alone.
pub uninterp spec fn edit_dist(a: Seq<char>, b: Seq<char>) -> nat;

/// Relies on `strsim::damerau_levenshtein`: the Damerau-Levenshtein edit
/// distance between the two strings; equal strings are at distance 0
/// (the crate's own test suite shows `damerau_levenshtein("damerau",
/// "damerau") == 0`, and the underlying recurrence charges nothing for
/// matching characters).
#[verifier::external_body]
pub(crate) fn edit_distance(a: &str, b: &str) -> (d: usize)
    ensures
        d == edit_dist(a@, b@),
        a@ == b@ ==> d == 0,
{
    strsim::damerau_levenshtein(a, b)
}

/// Relies on `rand::Rng::gen_range` on `rand::thread_rng`: a uniformly
/// distributed index below `n`. Nothing more than the bound can be
/// promised of a random draw.
#[verifier::external_body]
pub(crate) fn rand_below(n: usize) -> (r: usize)
    requires
        1 <= n,
    ensures
        r < n,
{
    rand::Rng::gen_range(&mut rand::thread_rng(), 0..n)
}

/// Relies on `String::push` (std): appends the given character to the
/// end of the string.
#[verifier::external_body]
pub(crate) fn push_char(s: &mut String, c: char)
    ensures
        final(s)@ == old(s)@.push(c),
{
    s.push(c)
}

} // verus!
