//! Characters of names and their case folding.

use vstd::prelude::*;

verus! {

/// Whether `c` may stand in a segment of a name: an ASCII letter, an ASCII
/// digit or an underscore.
pub open spec fn is_name_char(c: char) -> bool {
    ('a' <= c && c <= 'z') || ('A' <= c && c <= 'Z') || ('0' <= c && c <= '9') || c == '_'
}

/// The ASCII upper-case form of `c`. Only the letters `a` to `z` change.
pub open spec fn upper_char(c: char) -> char {
    if 'a' <= c && c <= 'z' {
        ((c as u8) - 32) as char
    } else {
        c
    }
}

/// The text with each character folded to upper case.
pub open spec fn to_upper(s: Seq<char>) -> Seq<char> {
    Seq::new(s.len(), |i: int| upper_char(s[i]))
}

/// Whether two texts differ in the case of ASCII letters at most.
pub open spec fn same_but_case(a: Seq<char>, b: Seq<char>) -> bool {
    to_upper(a) == to_upper(b)
}

/// Folding is idempotent, keeps the length, and keeps a character of a name
/// a character of a name.
pub proof fn lemma_upper_char(c: char)
    ensures
        upper_char(upper_char(c)) == upper_char(c),
        is_name_char(upper_char(c)) == is_name_char(c),
        (upper_char(c) == '-') == (c == '-'),
{
}

/// Folding a text that is already folded changes nothing.
pub proof fn lemma_to_upper_idempotent(s: Seq<char>)
    ensures
        to_upper(to_upper(s)) == to_upper(s),
{
    assert forall|i: int| 0 <= i < s.len() implies to_upper(to_upper(s))[i] == to_upper(s)[i] by {
        lemma_upper_char(s[i]);
    }
    assert(to_upper(to_upper(s)) =~= to_upper(s));
}

/// Tells whether `c` may stand in a segment of a name.
pub(crate) fn name_char(c: char) -> (b: bool)
    ensures
        b == is_name_char(c),
{
    (c >= 'a' && c <= 'z') || (c >= 'A' && c <= 'Z') || (c >= '0' && c <= '9') || c == '_'
}

/// Calls `str::to_ascii_uppercase`, which the standard library documents as
/// a copy of the text in which the ASCII letters `a` to `z` are replaced by
/// `A` to `Z` and every other character is left as it is. The contract says
/// that, character by character.
#[verifier::external_body]
pub(crate) fn ascii_upper(s: &str) -> (r: String)
    ensures
        r@ == to_upper(s@),
{
    s.to_ascii_uppercase()
}

} // verus!
