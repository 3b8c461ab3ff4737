//! Upper and lower case.

use vstd::prelude::*;

verus! {

/// The lower case of a text, by Unicode's rules.
pub uninterp spec fn lowercase(s: Seq<char>) -> Seq<char>;

/// `str::to_lowercase`: the lower-case equivalent of the text, which depends
/// on the text alone.
pub assume_specification[ str::to_lowercase ](s: &str) -> (r: String)
    ensures
        r@ == lowercase(s@),
;

/// The upper case of a character, by Unicode's rules: one or more characters.
pub uninterp spec fn uppercase(c: char) -> Seq<char>;

/// `char::to_uppercase`: the upper-case equivalent of a character, one or more
/// characters. A small ASCII letter becomes its ASCII capital, any other ASCII
/// character stays as it is, and so what comes out of one is its own upper case.
#[verifier::external_body]
pub(crate) fn upper(c: char) -> (r: String)
    ensures
        r@ == uppercase(c),
        r@.len() >= 1,
        'a' <= c <= 'z' ==> r@ == seq![((c as u8) - 32) as u8 as char],
        (c as int) < 128 && !('a' <= c <= 'z') ==> r@ == seq![c],
        (c as int) < 128 ==> uppercase(r@[0]) == r@,
{
    c.to_uppercase().collect()
}

} // verus!
