//! Unicode case mapping, supplied by the standard library. The mappings are
//! functions of the characters alone, so their results carry names that the
//! contracts of the audit recorder speak of.

use vstd::prelude::*;

verus! {

pub uninterp spec fn lower_of(s: Seq<char>) -> Seq<char>;

pub uninterp spec fn upper_of(c: char) -> Seq<char>;

/// Relies on str::to_lowercase: the Unicode lowercase mapping of a string,
/// a function of its characters alone.
#[verifier::external_body]
pub fn to_lowercase(s: &str) -> (r: String)
    ensures
        r@ == lower_of(s@),
{
    s.to_lowercase()
}

/// Relies on char::to_uppercase: the Unicode uppercase mapping of one
/// character (possibly several characters long), a function of the character
/// alone.
#[verifier::external_body]
pub fn char_to_uppercase(c: char) -> (r: String)
    ensures
        r@ == upper_of(c),
{
    c.to_uppercase().collect()
}

} // verus!
