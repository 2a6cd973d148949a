//! Classes and case of characters beyond ASCII, as the standard library knows
//! them.  Inside ASCII everything is decided here; outside it the standard
//! library is asked, and its answers are named.

use crate::text::is_alnum;
use crate::text::is_ascii;
use crate::text::is_ascii_alphanumeric;
use crate::text::is_ascii_char;
use vstd::prelude::*;

verus! {

/// What `char::is_alphanumeric` answers for a character outside ASCII.
pub uninterp spec fn unicode_alphanumeric(c: char) -> bool;

/// What `char::to_uppercase` yields for a character outside ASCII.
pub uninterp spec fn unicode_uppercase(c: char) -> Seq<char>;

/// `c` is a letter or a digit: inside ASCII the letters `a` to `z` and `A` to
/// `Z` and the digits, outside ASCII what the standard library classifies as
/// alphanumeric.
pub open spec fn is_alphanumeric_char(c: char) -> bool {
    if is_ascii_char(c) {
        is_alnum(c)
    } else {
        unicode_alphanumeric(c)
    }
}

/// The uppercase form of `c`, which may take more than one character.
pub open spec fn uppercase_of(c: char) -> Seq<char> {
    if 'a' <= c && c <= 'z' {
        seq![((c as u8) - 32) as char]
    } else if is_ascii_char(c) {
        seq![c]
    } else {
        unicode_uppercase(c)
    }
}

/// Calls `char::is_alphanumeric`.  Nothing is claimed beyond the name of the
/// answer: it is a function of the character alone.
#[verifier::external_body]
fn std_is_alphanumeric(c: char) -> (r: bool)
    ensures
        r == unicode_alphanumeric(c),
{
    c.is_alphanumeric()
}

/// Calls `char::to_uppercase`.  Nothing is claimed beyond the name of the
/// result: it is a function of the character alone.
#[verifier::external_body]
fn std_to_uppercase(c: char) -> (r: Vec<char>)
    ensures
        r@ == unicode_uppercase(c),
{
    c.to_uppercase().collect()
}

/// Decides [`is_alphanumeric_char`].
pub fn is_alphanumeric(c: char) -> (r: bool)
    ensures
        r == is_alphanumeric_char(c),
{
    if is_ascii(c) {
        is_ascii_alphanumeric(c)
    } else {
        std_is_alphanumeric(c)
    }
}

/// Computes [`uppercase_of`].
pub fn to_uppercase(c: char) -> (r: Vec<char>)
    ensures
        r@ == uppercase_of(c),
{
    if 'a' <= c && c <= 'z' {
        let mut r: Vec<char> = Vec::new();
        r.push(((c as u8) - 32) as char);
        assert(r@ =~= seq![((c as u8) - 32) as char]);
        r
    } else if is_ascii(c) {
        let mut r: Vec<char> = Vec::new();
        r.push(c);
        assert(r@ =~= seq![c]);
        r
    } else {
        std_to_uppercase(c)
    }
}

} // verus!
