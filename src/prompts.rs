//! The texts exchanged with the person at the terminal: the phrase that
//! confirms a removal, and the hint offered for a near match.

use vstd::prelude::*;
use vstd::string::StringExecFns;

verus! {

/// Whether `c` has the Unicode White_Space property.
pub open spec fn is_white_space(c: char) -> bool {
    ||| '\u{9}' <= c <= '\u{d}'
    ||| c == ' '
    ||| c == '\u{85}'
    ||| c == '\u{a0}'
    ||| c == '\u{1680}'
    ||| '\u{2000}' <= c <= '\u{200a}'
    ||| c == '\u{2028}'
    ||| c == '\u{2029}'
    ||| c == '\u{202f}'
    ||| c == '\u{205f}'
    ||| c == '\u{3000}'
}

/// `s` without its leading whitespace.
pub open spec fn trimmed_start(s: Seq<char>) -> Seq<char>
    decreases s.len(),
{
    if s.len() > 0 && is_white_space(s[0]) {
        trimmed_start(s.drop_first())
    } else {
        s
    }
}

/// `s` without its trailing whitespace.
pub open spec fn trimmed_end(s: Seq<char>) -> Seq<char>
    decreases s.len(),
{
    if s.len() > 0 && is_white_space(s.last()) {
        trimmed_end(s.drop_last())
    } else {
        s
    }
}

/// `s` without its leading and trailing whitespace.
pub open spec fn trimmed(s: Seq<char>) -> Seq<char> {
    trimmed_end(trimmed_start(s))
}

/// Relies on `str::trim`, which drops leading and trailing characters with
/// the Unicode White_Space property.
#[verifier::external_body]
fn trim(s: &str) -> (r: &str)
    ensures
        r@ == trimmed(s@),
{
    s.trim()
}

/// The phrase that must be typed to confirm removing `label`.
pub open spec fn removal_phrase(label: Seq<char>) -> Seq<char> {
    "Delete: "@ + label + "."@
}

/// The hint offered when a match's label differs from the query.
pub open spec fn hint_text(label: Seq<char>) -> Seq<char> {
    "did you mean: "@ + label + "?"@
}

/// The phrase that confirms removing `label`, as it is shown to be typed.
pub fn confirmation_phrase(label: &str) -> (r: String)
    ensures
        r@ == removal_phrase(label@),
{
    let mut phrase = String::from_str("Delete: ");
    phrase.append(label);
    phrase.append(".");
    phrase
}

/// Whether `typed` is exactly the phrase that confirms removing `label`.
pub fn typed_confirms(typed: &str, label: &str) -> (r: bool)
    ensures
        r == (typed@ == removal_phrase(label@)),
{
    let phrase = confirmation_phrase(label);
    typed.to_owned() == phrase
}

/// Whether `input`, once trimmed, is the phrase that confirms removing `label`.
pub fn confirms_removal(input: &str, label: &str) -> (r: bool)
    ensures
        r == (trimmed(input@) == removal_phrase(label@)),
{
    typed_confirms(trim(input), label)
}

/// The hint for a match labelled `label` found for `query`: none when the
/// two are the same.
pub fn did_you_mean(query: &str, label: &str) -> (r: Option<String>)
    ensures
        query@ == label@ ==> r is None,
        query@ != label@ ==> r is Some && r->Some_0@ == hint_text(label@),
{
    let q = query.to_owned();
    let l = label.to_owned();
    if q == l {
        None
    } else {
        let mut hint = String::from_str("did you mean: ");
        hint.append(label);
        hint.append("?");
        Some(hint)
    }
}

} // verus!
