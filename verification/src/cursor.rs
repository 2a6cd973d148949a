//! A line of text under edit, with a cursor that moves by characters.

use crate::text::chars_of;
use crate::text::string_of;
use crate::width::display_width;
use crate::width::width_of_range;
use vstd::prelude::*;
use vstd::utf8::encode_utf8;

verus! {

/// Text and a cursor.  The cursor stands between characters: position 0 is
/// before the first character, and the cursor never leaves the text.
pub struct CursorBuffer {
    content: String,
    cursor_char_pos: usize,
}

impl CursorBuffer {
    #[verifier::type_invariant]
    spec fn in_bounds(self) -> bool {
        self.cursor_char_pos <= self.content@.len()
    }

    /// The text.
    pub closed spec fn text(self) -> Seq<char> {
        self.content@
    }

    /// The number of characters before the cursor.
    pub closed spec fn cursor(self) -> nat {
        self.cursor_char_pos as nat
    }

    /// The text before the cursor.
    pub open spec fn before_cursor(self) -> Seq<char> {
        self.text().take(self.cursor() as int)
    }

    /// A buffer that holds `content`, with the cursor at its end.
    pub fn new(content: String) -> (r: Self)
        ensures
            r.text() == content@,
            r.cursor() == content@.len(),
    {
        let cursor_char_pos = chars_of(content.as_str()).len();
        Self { content, cursor_char_pos }
    }

    /// A buffer without text.
    pub fn empty() -> (r: Self)
        ensures
            r.text() == Seq::<char>::empty(),
            r.cursor() == 0,
    {
        Self { content: String::new(), cursor_char_pos: 0 }
    }

    /// The number of bytes that the text before the cursor takes in UTF-8.
    pub fn cursor_byte_pos(&self) -> (r: usize)
        ensures
            r == encode_utf8(self.before_cursor()).len() as usize,
    {
        proof {
            use_type_invariant(self);
        }
        let prefix = self.content.as_str().substring_char(0, self.cursor_char_pos);
        assert(prefix@ =~= self.before_cursor());
        prefix.len()
    }

    /// The number of characters before the cursor.
    pub fn cursor_char_pos(&self) -> (r: usize)
        ensures
            r == self.cursor(),
            r <= self.text().len(),
    {
        proof {
            use_type_invariant(self);
        }
        self.cursor_char_pos
    }

    /// The number of terminal columns that the text before the cursor takes.
    pub fn cursor_display_pos(&self) -> (r: usize)
        ensures
            r == display_width(self.before_cursor()),
    {
        proof {
            use_type_invariant(self);
        }
        let chars = chars_of(self.content.as_str());
        let r = width_of_range(&chars, 0, self.cursor_char_pos);
        assert(chars@.subrange(0, self.cursor_char_pos as int) =~= self.before_cursor());
        r
    }

    /// The text.
    pub fn content(&self) -> (r: &str)
        ensures
            r@ == self.text(),
    {
        self.content.as_str()
    }

    /// Puts `c` where the cursor stands and moves the cursor behind it.
    pub fn insert_char(&mut self, c: char)
        ensures
            final(self).text() == old(self).text().insert(old(self).cursor() as int, c),
            final(self).cursor() == old(self).cursor() + 1,
    {
        proof {
            use_type_invariant(&*self);
        }
        let mut chars = chars_of(self.content.as_str());
        chars.insert(self.cursor_char_pos, c);
        let at = self.cursor_char_pos;
        let grown = chars.len();
        assert(at < grown);
        *self = Self { content: string_of(&chars), cursor_char_pos: at + 1 };
    }

    /// Takes out the character before the cursor, if there is one, and says
    /// whether there was.
    pub fn delete_char_before(&mut self) -> (deleted: bool)
        ensures
            deleted == (old(self).cursor() > 0),
            deleted ==> final(self).text() == old(self).text().remove(old(self).cursor() - 1)
                && final(self).cursor() == old(self).cursor() - 1,
            !deleted ==> final(self).text() == old(self).text() && final(self).cursor()
                == old(self).cursor(),
    {
        proof {
            use_type_invariant(&*self);
        }
        if self.cursor_char_pos == 0 {
            return false;
        }
        let mut chars = chars_of(self.content.as_str());
        let at = self.cursor_char_pos - 1;
        chars.remove(at);
        *self = Self { content: string_of(&chars), cursor_char_pos: at };
        true
    }

    /// Moves the cursor one character towards the start, unless it is there.
    pub fn move_left(&mut self)
        ensures
            final(self).text() == old(self).text(),
            final(self).cursor() == if old(self).cursor() > 0 {
                (old(self).cursor() - 1) as nat
            } else {
                0
            },
    {
        proof {
            use_type_invariant(&*self);
        }
        if self.cursor_char_pos > 0 {
            self.cursor_char_pos -= 1;
        }
    }

    /// Moves the cursor one character towards the end, unless it is there.
    pub fn move_right(&mut self)
        ensures
            final(self).text() == old(self).text(),
            final(self).cursor() == if old(self).cursor() < old(self).text().len() {
                old(self).cursor() + 1
            } else {
                old(self).cursor()
            },
    {
        proof {
            use_type_invariant(&*self);
        }
        let char_count = chars_of(self.content.as_str()).len();
        if self.cursor_char_pos < char_count {
            self.cursor_char_pos += 1;
        }
    }

    /// Whether the buffer holds no text.
    pub fn is_empty(&self) -> (r: bool)
        ensures
            r == (self.text().len() == 0),
    {
        self.content.as_str().is_empty()
    }

    /// The text, given away.
    pub fn into_content(self) -> (r: String)
        ensures
            r@ == self.text(),
    {
        self.content
    }

    /// Replaces the text by `content` and puts the cursor at its end.
    pub fn set_content(&mut self, content: &str)
        ensures
            final(self).text() == content@,
            final(self).cursor() == content@.len(),
    {
        let chars = chars_of(content);
        *self = Self { content: string_of(&chars), cursor_char_pos: chars.len() };
    }

    /// Takes all text out.
    pub fn clear(&mut self)
        ensures
            final(self).text() == Seq::<char>::empty(),
            final(self).cursor() == 0,
    {
        *self = Self { content: String::new(), cursor_char_pos: 0 };
    }
}

} // verus!
