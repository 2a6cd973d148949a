//! The width of text on a terminal, as `unicode-width` measures it.

use crate::text::copy_range;
use unicode_width::UnicodeWidthStr;
use vstd::prelude::*;

verus! {

/// The number of terminal columns that the text `s` takes, as
/// `UnicodeWidthStr::width` computes it.  The width of a text is in general
/// not the sum of the widths of its characters.
pub uninterp spec fn display_width(s: Seq<char>) -> nat;

/// The width of the text that consists of the character `c` alone.
pub open spec fn char_width(c: char) -> nat {
    display_width(seq![c])
}

/// Calls `UnicodeWidthStr::width` on the text made of `chars`.  Nothing is
/// claimed beyond the name of the result: it is a function of the text alone.
#[verifier::external_body]
fn measure(chars: &Vec<char>) -> (w: usize)
    ensures
        w == display_width(chars@),
{
    let s: String = chars.iter().collect();
    UnicodeWidthStr::width(s.as_str())
}

/// The width of `chars`.
pub fn width_of(chars: &Vec<char>) -> (w: usize)
    ensures
        w == display_width(chars@),
{
    measure(chars)
}

/// The width of `chars[from..to]`.
pub fn width_of_range(chars: &Vec<char>, from: usize, to: usize) -> (w: usize)
    requires
        from <= to <= chars.len(),
    ensures
        w == display_width(chars@.subrange(from as int, to as int)),
{
    let part = copy_range(chars, from, to);
    measure(&part)
}

/// The width of the character `c` standing alone.
pub fn width_of_char(c: char) -> (w: usize)
    ensures
        w == char_width(c),
{
    let mut one: Vec<char> = Vec::new();
    one.push(c);
    assert(one@ =~= seq![c]);
    measure(&one)
}

} // verus!
