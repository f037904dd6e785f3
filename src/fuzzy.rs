//! Approximate label matching by edit distance.

use vstd::prelude::*;

verus! {

/// The largest edit distance at which a stored label still matches a query.
pub const MAX_DISTANCE: usize = 2;

/// Levenshtein distance: the least number of single-character insertions,
/// deletions and substitutions that turn `a` into `b`.
pub open spec fn edit_distance(a: Seq<char>, b: Seq<char>) -> nat
    decreases a.len() + b.len(),
{
    if a.len() == 0 {
        b.len()
    } else if b.len() == 0 {
        a.len()
    } else {
        let delete = edit_distance(a.drop_last(), b) + 1;
        let insert = edit_distance(a, b.drop_last()) + 1;
        let substitute = edit_distance(a.drop_last(), b.drop_last()) + if a.last() == b.last() {
            0nat
        } else {
            1nat
        };
        let m = if delete <= insert {
            delete
        } else {
            insert
        };
        if m <= substitute {
            m
        } else {
            substitute
        }
    }
}

/// Whether a stored `label` is close enough to `query` to be offered for it.
pub open spec fn is_match(label: Seq<char>, query: Seq<char>) -> bool {
    edit_distance(label, query) <= MAX_DISTANCE
}

/// Relies on `strsim::levenshtein`, which computes the Levenshtein distance
/// over the two strings' characters.
#[verifier::external_body]
fn levenshtein(a: &str, b: &str) -> (r: usize)
    ensures
        r == edit_distance(a@, b@),
{
    strsim::levenshtein(a, b)
}

/// Whether `label` lies within the match threshold of `query`.
pub fn is_close_match(label: &str, query: &str) -> (r: bool)
    ensures
        r == is_match(label@, query@),
{
    levenshtein(label, query) <= MAX_DISTANCE
}

} // verus!
