//! Upper and lower case beyond ASCII, which is Unicode's business.
use vstd::prelude::*;
use vstd::string::*;

verus! {

/// What `char::to_uppercase` makes of a character: one character or more.
pub uninterp spec fn uppercase(c: char) -> Seq<char>;

/// What `str::to_lowercase` makes of a text.
pub uninterp spec fn lowercase(s: Seq<char>) -> Seq<char>;

/// `char::to_uppercase`: the upper case of a character under the name
/// [`uppercase`]. A small letter of ASCII gives its capital, any other character of
/// ASCII gives itself.
#[verifier::external_body]
pub(crate) fn to_upper(c: char) -> (r: String)
    ensures
        r@ == uppercase(c),
        'a' <= c <= 'z' ==> r@ == seq![(c as u8 - 32) as char],
        (c as u32) < 0x80 && !('a' <= c <= 'z') ==> r@ == seq![c],
{
    c.to_uppercase().collect()
}

/// `str::to_lowercase`: the lower case of a text under the name [`lowercase`].
#[verifier::external_body]
pub(crate) fn to_lower_text(s: &str) -> (r: String)
    ensures
        r@ == lowercase(s@),
{
    s.to_lowercase()
}

} // verus!
