//! Fitting text into a number of terminal columns: cutting it short, and
//! breaking it into lines at spaces.
//!
//! Widths are those of [`crate::width`].  A word is measured as a whole; only
//! a word that is wider than a line is broken, and then character by
//! character.

use crate::text::append_chars;
use crate::text::chars_of;
use crate::text::copy_range;
use crate::text::string_of;
use crate::text::texts;
use crate::width::char_width;
use crate::width::display_width;
use crate::width::width_of;
use crate::width::width_of_char;
use vstd::prelude::*;

verus! {

/// The pieces of `s` that each end with a space, and what follows the last
/// space, if anything.  The pieces together are `s`, and none is empty.
pub open spec fn pieces(s: Seq<char>) -> Seq<Seq<char>>
    decreases s.len(),
{
    if s.len() == 0 {
        Seq::<Seq<char>>::empty()
    } else if s.len() >= 2 && s[s.len() - 2] != ' ' {
        let before = pieces(s.drop_last());
        before.drop_last().push(before.last().push(s.last()))
    } else {
        pieces(s.drop_last()).push(seq![s.last()])
    }
}

/// A text that is not empty has pieces, and no piece is empty.
pub proof fn lemma_pieces(s: Seq<char>)
    ensures
        s.len() > 0 ==> pieces(s).len() > 0,
        forall|k: int| 0 <= k < pieces(s).len() ==> (#[trigger] pieces(s)[k]).len() > 0,
    decreases s.len(),
{
    if s.len() > 0 {
        lemma_pieces(s.drop_last());
    }
}

/// Whether something of width `width` fits beside what takes `used` columns
/// of a line of `max_width` columns.
pub fn fits_beside(used: usize, width: usize, max_width: usize) -> (r: bool)
    ensures
        r == (used + width <= max_width),
{
    width <= max_width && used <= max_width - width
}

/// Splits `v` behind every space: computes [`pieces`].
pub fn split_pieces(v: &Vec<char>) -> (parts: Vec<Vec<char>>)
    ensures
        texts(parts@) == pieces(v@),
{
    let mut parts: Vec<Vec<char>> = Vec::new();
    let mut cur: Vec<char> = Vec::new();
    let mut i: usize = 0;
    proof {
        assert(v@.take(0) =~= Seq::<char>::empty());
        assert(texts(parts@) =~= Seq::<Seq<char>>::empty());
    }
    while i < v.len()
        invariant
            i <= v.len(),
            cur@.len() > 0 ==> i > 0 && v@[i - 1] != ' ' && texts(parts@).push(cur@) == pieces(
                v@.take(i as int),
            ),
            cur@.len() == 0 ==> (i == 0 || v@[i - 1] == ' ') && texts(parts@) == pieces(
                v@.take(i as int),
            ),
        decreases v.len() - i,
    {
        let ghost old_parts = parts@;
        let ghost old_cur = cur@;
        let c = v[i];
        proof {
            let s = v@.take(i + 1);
            assert(s.drop_last() =~= v@.take(i as int));
            assert(s.last() == c);
            if i > 0 {
                assert(s[s.len() - 2] == v@[i - 1]);
            }
        }
        cur.push(c);
        proof {
            if old_cur.len() > 0 {
                let before = texts(old_parts).push(old_cur);
                assert(before.drop_last() =~= texts(old_parts));
                assert(texts(parts@).push(cur@) =~= before.drop_last().push(before.last().push(c)));
            } else {
                assert(cur@ =~= seq![c]);
            }
        }
        if c == ' ' {
            let ghost full = cur@;
            parts.push(cur);
            cur = Vec::new();
            assert(texts(parts@) =~= texts(old_parts).push(full));
        }
        i += 1;
    }
    proof {
        assert(v@.take(v.len() as int) =~= v@);
    }
    if cur.len() > 0 {
        let ghost old_parts = parts@;
        let ghost old_cur = cur@;
        parts.push(cur);
        assert(texts(parts@) =~= texts(old_parts).push(old_cur));
    }
    parts
}

// ---------------------------------------------------------------------------
// Cutting text short
// ---------------------------------------------------------------------------

/// How many characters of `s`, taken from its start, fit into `budget`
/// columns when each character is measured alone.
pub open spec fn fitting(s: Seq<char>, budget: int) -> nat
    decreases s.len(),
{
    if s.len() == 0 || char_width(s[0]) > budget {
        0
    } else {
        1 + fitting(s.drop_first(), budget - char_width(s[0]))
    }
}

/// The text cut to `max_width` columns: the text itself where it fits, and
/// otherwise as many of its characters as fit beside an ellipsis, followed by
/// the ellipsis.
pub open spec fn truncated(text: Seq<char>, max_width: nat) -> Seq<char> {
    if display_width(text) <= max_width {
        text
    } else {
        let room = if max_width >= 1 {
            max_width - 1
        } else {
            0
        };
        text.take(fitting(text, room) as int).push('\u{2026}')
    }
}

/// Cuts `text` to `max_width` columns: computes [`truncated`].
pub fn truncate_text(text: &str, max_width: usize) -> (r: String)
    ensures
        r@ == truncated(text@, max_width as nat),
{
    let chars = chars_of(text);
    if width_of(&chars) <= max_width {
        return string_of(&chars);
    }
    let room: usize = if max_width >= 1 {
        max_width - 1
    } else {
        0
    };
    let mut used: usize = 0;
    let mut i: usize = 0;
    proof {
        assert(chars@.skip(0) =~= chars@);
    }
    loop
        invariant
            i <= chars.len(),
            used <= room,
            chars@ == text@,
            display_width(text@) > max_width,
            room == if max_width >= 1 {
                max_width - 1
            } else {
                0
            },
            fitting(chars@, room as int) == i + fitting(chars@.skip(i as int), room - used),
        ensures
            fitting(chars@, room as int) == i,
        decreases chars.len() - i,
    {
        if i >= chars.len() {
            break;
        }
        let w = width_of_char(chars[i]);
        proof {
            assert(chars@.skip(i as int)[0] == chars@[i as int]);
            assert(chars@.skip(i as int).drop_first() =~= chars@.skip(i + 1));
        }
        if !fits_beside(used, w, room) {
            break;
        }
        used += w;
        i += 1;
    }
    let mut out = copy_range(&chars, 0, i);
    assert(chars@.subrange(0, i as int) =~= chars@.take(i as int));
    out.push('\u{2026}');
    string_of(&out)
}

// ---------------------------------------------------------------------------
// Breaking text into lines
// ---------------------------------------------------------------------------

/// The lines that are full, the line that is being filled, and its width so
/// far.
pub struct Wrap {
    pub lines: Seq<Seq<char>>,
    pub line: Seq<char>,
    pub width: nat,
}

/// The state after one character of a word that is broken: the character
/// begins a new line where it does not fit and the line holds something.
pub open spec fn put_char(w: Wrap, c: char, max_width: nat) -> Wrap {
    if w.width + char_width(c) > max_width && w.line.len() > 0 {
        Wrap { lines: w.lines.push(w.line), line: seq![c], width: char_width(c) }
    } else {
        Wrap { lines: w.lines, line: w.line.push(c), width: w.width + char_width(c) }
    }
}

/// The state after the characters of a word that is broken.
pub open spec fn put_chars(w: Wrap, word: Seq<char>, max_width: nat) -> Wrap
    decreases word.len(),
{
    if word.len() == 0 {
        w
    } else {
        put_char(put_chars(w, word.drop_last(), max_width), word.last(), max_width)
    }
}

/// The state after one word: the word goes onto the line where it fits; it is
/// broken where it does not fit and the line is empty; and it begins a new
/// line otherwise.
pub open spec fn put_word(w: Wrap, word: Seq<char>, max_width: nat) -> Wrap {
    if w.width + display_width(word) <= max_width {
        Wrap { lines: w.lines, line: w.line + word, width: w.width + display_width(word) }
    } else if w.line.len() == 0 {
        put_chars(w, word, max_width)
    } else {
        Wrap { lines: w.lines.push(w.line), line: word, width: display_width(word) }
    }
}

/// The state after a sequence of words.
pub open spec fn put_words(words: Seq<Seq<char>>, max_width: nat) -> Wrap
    decreases words.len(),
{
    if words.len() == 0 {
        Wrap { lines: Seq::empty(), line: Seq::empty(), width: 0 }
    } else {
        put_word(put_words(words.drop_last(), max_width), words.last(), max_width)
    }
}

/// The lines of `text` broken to `max_width` columns.  A width of 0 breaks
/// nothing, and there is always at least one line.
pub open spec fn wrapped(text: Seq<char>, max_width: nat) -> Seq<Seq<char>> {
    if max_width == 0 {
        seq![text]
    } else {
        let w = put_words(pieces(text), max_width);
        if w.line.len() > 0 || w.lines.len() == 0 {
            w.lines.push(w.line)
        } else {
            w.lines
        }
    }
}

/// The lines one after another.
pub open spec fn concat(lines: Seq<Seq<char>>) -> Seq<char>
    decreases lines.len(),
{
    if lines.len() == 0 {
        Seq::<char>::empty()
    } else {
        concat(lines.drop_last()) + lines.last()
    }
}

/// The text that a state of wrapping holds: its full lines and the line that
/// is being filled.
pub open spec fn held(w: Wrap) -> Seq<char> {
    concat(w.lines) + w.line
}

/// A character that is put goes behind the text held.
pub proof fn lemma_put_char(w: Wrap, c: char, max_width: nat)
    ensures
        held(put_char(w, c, max_width)) == held(w).push(c),
{
    let after = put_char(w, c, max_width);
    if w.width + char_width(c) > max_width && w.line.len() > 0 {
        assert(after.lines.drop_last() =~= w.lines);
        assert(held(after) =~= held(w).push(c));
    } else {
        assert(held(after) =~= held(w).push(c));
    }
}

/// The characters of a word that is broken go behind the text held.
pub proof fn lemma_put_chars(w: Wrap, word: Seq<char>, max_width: nat)
    ensures
        held(put_chars(w, word, max_width)) == held(w) + word,
    decreases word.len(),
{
    if word.len() == 0 {
        assert(held(w) + word =~= held(w));
    } else {
        lemma_put_chars(w, word.drop_last(), max_width);
        lemma_put_char(put_chars(w, word.drop_last(), max_width), word.last(), max_width);
        assert((held(w) + word.drop_last()).push(word.last()) =~= held(w) + word);
    }
}

/// A word that is put goes behind the text held.
pub proof fn lemma_put_word(w: Wrap, word: Seq<char>, max_width: nat)
    ensures
        held(put_word(w, word, max_width)) == held(w) + word,
{
    let after = put_word(w, word, max_width);
    if w.width + display_width(word) <= max_width {
        assert(held(after) =~= held(w) + word);
    } else if w.line.len() == 0 {
        lemma_put_chars(w, word, max_width);
    } else {
        assert(after.lines.drop_last() =~= w.lines);
        assert(held(after) =~= held(w) + word);
    }
}

/// The words that were put are the text held.
pub proof fn lemma_put_words(words: Seq<Seq<char>>, max_width: nat)
    ensures
        held(put_words(words, max_width)) == concat(words),
    decreases words.len(),
{
    if words.len() == 0 {
        assert(held(put_words(words, max_width)) =~= concat(words));
    } else {
        lemma_put_words(words.drop_last(), max_width);
        lemma_put_word(put_words(words.drop_last(), max_width), words.last(), max_width);
    }
}

/// The pieces of a text, one after another, are the text.
pub proof fn lemma_pieces_concat(s: Seq<char>)
    ensures
        concat(pieces(s)) == s,
    decreases s.len(),
{
    if s.len() == 0 {
        assert(concat(pieces(s)) =~= s);
    } else {
        let init = s.drop_last();
        lemma_pieces_concat(init);
        lemma_pieces(init);
        let before = pieces(init);
        let now = pieces(s);
        if s.len() >= 2 && s[s.len() - 2] != ' ' {
            assert(now.drop_last() =~= before.drop_last());
            assert(concat(now) =~= concat(before).push(s.last()));
        } else {
            assert(now.drop_last() =~= before);
            assert(concat(now) =~= concat(before).push(s.last()));
        }
        assert(init.push(s.last()) =~= s);
    }
}

/// Wrapping loses nothing and adds nothing: the lines of a wrapped text, one
/// after another, are the text; and there is always at least one line.
pub proof fn lemma_wrapped_is_text(text: Seq<char>, max_width: nat)
    ensures
        concat(wrapped(text, max_width)) == text,
        wrapped(text, max_width).len() >= 1,
{
    let nothing = Seq::<char>::empty();
    if max_width == 0 {
        let lines = seq![text];
        assert(lines.drop_last() =~= Seq::<Seq<char>>::empty());
        assert(concat(lines.drop_last()) =~= nothing);
        assert(lines.last() == text);
        assert(concat(lines) =~= text);
    } else {
        let w = put_words(pieces(text), max_width);
        lemma_put_words(pieces(text), max_width);
        lemma_pieces_concat(text);
        if w.line.len() > 0 || w.lines.len() == 0 {
            let lines = w.lines.push(w.line);
            assert(lines.drop_last() =~= w.lines);
        } else {
            assert(held(w) =~= concat(w.lines));
        }
    }
}

/// The texts of a sequence of strings.
pub open spec fn line_strings(lines: Seq<String>) -> Seq<Seq<char>> {
    Seq::new(lines.len(), |i: int| lines[i]@)
}

/// Breaks `text` into lines of `max_width` columns: computes [`wrapped`].
pub fn wrap_text(text: &str, max_width: usize) -> (lines: Vec<String>)
    ensures
        line_strings(lines@) == wrapped(text@, max_width as nat),
{
    let mut lines: Vec<String> = Vec::new();
    if max_width == 0 {
        lines.push(text.to_owned());
        assert(line_strings(lines@) =~= seq![text@]);
        return lines;
    }
    let chars = chars_of(text);
    let words = split_pieces(&chars);
    let ghost all = texts(words@);
    let ghost max = max_width as nat;
    let mut line: Vec<char> = Vec::new();
    let mut width: usize = 0;
    let mut i: usize = 0;
    proof {
        assert(all.take(0) =~= Seq::<Seq<char>>::empty());
        assert(line_strings(lines@) =~= Seq::<Seq<char>>::empty());
        assert(line@ =~= Seq::<char>::empty());
    }
    while i < words.len()
        invariant
            i <= words.len(),
            max == max_width as nat,
            max_width > 0,
            all == texts(words@),
            all == pieces(text@),
            put_words(all.take(i as int), max) == (Wrap {
                lines: line_strings(lines@),
                line: line@,
                width: width as nat,
            }),
            line@.len() == 0 ==> width == 0,
        decreases words.len() - i,
    {
        let word = &words[i];
        let ghost before = put_words(all.take(i as int), max);
        let ghost old_lines = line_strings(lines@);
        proof {
            assert(all.take(i + 1).drop_last() =~= all.take(i as int));
            assert(all.take(i + 1).last() == word@);
            lemma_pieces(text@);
            assert(all[i as int] == word@);
        }
        let word_width = width_of(word);
        if fits_beside(width, word_width, max_width) {
            append_chars(&mut line, word);
            width = width + word_width;
        } else if line.len() == 0 {
            let mut j: usize = 0;
            proof {
                assert(word@.take(0) =~= Seq::<char>::empty());
            }
            while j < word.len()
                invariant
                    j <= word.len(),
                    max == max_width as nat,
                    put_chars(before, word@.take(j as int), max) == (Wrap {
                        lines: line_strings(lines@),
                        line: line@,
                        width: width as nat,
                    }),
                    line@.len() == 0 ==> width == 0,
                decreases word.len() - j,
            {
                let ghost had = line_strings(lines@);
                let ghost had_line = line@;
                let c = word[j];
                let w = width_of_char(c);
                proof {
                    assert(word@.take(j + 1).drop_last() =~= word@.take(j as int));
                    assert(word@.take(j + 1).last() == c);
                }
                if line.len() > 0 && !fits_beside(width, w, max_width) {
                    lines.push(string_of(&line));
                    assert(line_strings(lines@) =~= had.push(had_line));
                    line = Vec::new();
                    line.push(c);
                    assert(line@ =~= seq![c]);
                    width = w;
                } else {
                    line.push(c);
                    width = width + w;
                }
                j += 1;
            }
            proof {
                assert(word@.take(word.len() as int) =~= word@);
            }
        } else {
            let ghost had_line = line@;
            lines.push(string_of(&line));
            assert(line_strings(lines@) =~= old_lines.push(had_line));
            line = copy_range(word, 0, word.len());
            assert(word@.subrange(0, word@.len() as int) =~= word@);
            width = word_width;
        }
        i += 1;
    }
    proof {
        assert(all.take(words.len() as int) =~= all);
        assert(line_strings(lines@).len() == lines.len());
    }
    if line.len() > 0 || lines.len() == 0 {
        let ghost had = line_strings(lines@);
        let ghost had_line = line@;
        lines.push(string_of(&line));
        assert(line_strings(lines@) =~= had.push(had_line));
    }
    lines
}

// ---------------------------------------------------------------------------
// The cursor in broken text
// ---------------------------------------------------------------------------

/// Where the characters of a word that is broken end: how many lines they
/// begin beyond the first, and the column behind the last of them.
pub open spec fn lay_chars(word: Seq<char>, max_width: nat) -> (nat, nat)
    decreases word.len(),
{
    if word.len() == 0 {
        (0, 0)
    } else {
        let before = lay_chars(word.drop_last(), max_width);
        let w = char_width(word.last());
        if before.1 + w > max_width && before.1 > 0 {
            ((before.0 + 1) as nat, w)
        } else {
            (before.0, before.1 + w)
        }
    }
}

/// The widths of the characters of `word`, each measured alone, added up.
pub open spec fn chars_width(word: Seq<char>) -> nat
    decreases word.len(),
{
    if word.len() == 0 {
        0
    } else {
        chars_width(word.drop_last()) + char_width(word.last())
    }
}

/// Where the character of a broken word stands that begins `offset` columns
/// into the word, looking from character `from` on: lines beyond the word's
/// first, and column.  `None` where no character begins there.
pub open spec fn find_in_word(word: Seq<char>, max_width: nat, offset: int, from: int) -> Option<
    (nat, nat),
>
    decreases word.len() - from,
{
    if from < 0 || from >= word.len() {
        None
    } else if chars_width(word.take(from)) == offset {
        Some(lay_chars(word.take(from), max_width))
    } else {
        find_in_word(word, max_width, offset, from + 1)
    }
}

/// The position `found`, which counts its rows from the row `row`, counted
/// from the first row.
pub open spec fn below(row: nat, found: (nat, nat)) -> (nat, nat) {
    (row + found.0, found.1)
}

/// Where the text stands after some of its words: the row, the column behind
/// the last word, and the width of all words so far.
pub struct Layout {
    pub row: nat,
    pub col: nat,
    pub total: nat,
}

/// What placing a word yields: the position of the cursor where it lies in
/// the word, and the layout after the word otherwise.
pub enum Placed {
    Found(nat, nat),
    Next(Layout),
}

/// Places one word.  The word stays on the row where it fits, and begins a new
/// row where it does not fit and the row holds something.  The cursor lies in
/// the word where its column, counted through the whole text, falls among the
/// columns of the word.
pub open spec fn place(at: Layout, word: Seq<char>, max_width: nat, cursor: nat) -> Placed {
    let w = display_width(word);
    let fits = at.col + w <= max_width;
    let word_row = if fits || at.col == 0 {
        at.row
    } else {
        at.row + 1
    };
    let start_col = if fits {
        at.col
    } else {
        0
    };
    let col_after = if fits {
        at.col + w
    } else if at.col == 0 {
        0
    } else {
        w
    };
    let inside = at.total <= cursor < at.total + w;
    if inside && (col_after == 0 || w <= max_width || start_col > 0) {
        Placed::Found(word_row, (start_col + (cursor - at.total)) as nat)
    } else {
        let hit = if inside {
            find_in_word(word, max_width, cursor - at.total, 0)
        } else {
            None
        };
        match hit {
            Some(found) => Placed::Found(word_row + found.0, found.1),
            None => if w > max_width && start_col == 0 {
                Placed::Next(
                    Layout {
                        row: word_row + lay_chars(word, max_width).0,
                        col: lay_chars(word, max_width).1,
                        total: at.total + w,
                    },
                )
            } else {
                Placed::Next(Layout { row: word_row, col: col_after, total: at.total + w })
            },
        }
    }
}

/// The position of the cursor after placing the words from `from` on: where a
/// word holds the cursor, and behind the last word otherwise.
pub open spec fn walk(
    words: Seq<Seq<char>>,
    from: int,
    at: Layout,
    max_width: nat,
    cursor: nat,
) -> (nat, nat)
    decreases words.len() - from,
{
    if from < 0 || from >= words.len() {
        (at.row, at.col)
    } else {
        match place(at, words[from], max_width, cursor) {
            Placed::Found(row, col) => (row, col),
            Placed::Next(next) => walk(words, from + 1, next, max_width, cursor),
        }
    }
}

/// The row and the column of the cursor in `text` broken to `max_width`
/// columns, where the cursor stands `cursor` columns into the unbroken text.
/// A width of 0 breaks nothing.
pub open spec fn cursor_position(text: Seq<char>, cursor: nat, max_width: nat) -> (nat, nat) {
    if max_width == 0 {
        (0, cursor)
    } else {
        walk(pieces(text), 0, Layout { row: 0, col: 0, total: 0 }, max_width, cursor)
    }
}

/// The lengths of `words` added up.
pub open spec fn total_len(words: Seq<Seq<char>>) -> nat
    decreases words.len(),
{
    if words.len() == 0 {
        0
    } else {
        total_len(words.drop_last()) + words.last().len()
    }
}

/// The pieces of a text hold as many characters as the text.
pub proof fn lemma_pieces_total(s: Seq<char>)
    ensures
        total_len(pieces(s)) == s.len(),
    decreases s.len(),
{
    if s.len() > 0 {
        lemma_pieces_total(s.drop_last());
        lemma_pieces(s.drop_last());
        if s.len() >= 2 && s[s.len() - 2] != ' ' {
            let before = pieces(s.drop_last());
            let now = pieces(s);
            assert(now.drop_last() =~= before.drop_last());
        } else {
            let now = pieces(s);
            assert(now.drop_last() =~= pieces(s.drop_last()));
        }
    }
}

/// The first words of a sequence are no longer than all of them.
pub proof fn lemma_total_len_take(words: Seq<Seq<char>>, n: int)
    requires
        0 <= n <= words.len(),
    ensures
        total_len(words.take(n)) <= total_len(words),
    decreases words.len() - n,
{
    if n < words.len() {
        lemma_total_len_take(words, n + 1);
        assert(words.take(n + 1).drop_last() =~= words.take(n));
    } else {
        assert(words.take(n) =~= words);
    }
}

/// The characters of a word begin fewer new lines than the word has
/// characters.
pub proof fn lemma_lay_rows(word: Seq<char>, max_width: nat)
    ensures
        word.len() > 0 ==> lay_chars(word, max_width).0 + 1 <= word.len(),
        word.len() == 0 ==> lay_chars(word, max_width) == (0nat, 0nat),
    decreases word.len(),
{
    if word.len() > 0 {
        lemma_lay_rows(word.drop_last(), max_width);
    }
}

/// One step of [`lay_chars`]: the lines begun and the column after a character
/// of width `w` that follows `rows` lines begun and stands behind column
/// `col`.
pub fn lay_step(rows: usize, col: usize, w: usize, max_width: usize) -> (r: (usize, usize))
    requires
        rows < usize::MAX,
    ensures
        (r.0 as nat, r.1 as nat) == if col + w > max_width && col > 0 {
            ((rows + 1) as nat, w as nat)
        } else {
            (rows as nat, (col + w) as nat)
        },
        col + w > max_width && col > 0 || col + w <= usize::MAX,
{
    if col > 0 && !fits_beside(col, w, max_width) {
        (rows + 1, w)
    } else if col == 0 {
        (rows, w)
    } else {
        (rows, col + w)
    }
}

/// Where a word is placed: its row, the column at which it begins, and the
/// column behind it.
pub struct WordPlace {
    pub row: usize,
    pub start_col: usize,
    pub col_after: usize,
}

/// Places a word of width `width` behind column `col` of row `row`: on the
/// row where it fits; at the start of the row, which it then overruns, where
/// the row is empty; and at the start of the next row otherwise.
pub fn place_word(row: usize, col: usize, width: usize, max_width: usize) -> (r: WordPlace)
    requires
        row < usize::MAX,
    ensures
        r.row == if col + width <= max_width || col == 0 {
            row as int
        } else {
            row + 1
        },
        r.start_col == if col + width <= max_width {
            col
        } else {
            0
        },
        r.col_after == if col + width <= max_width {
            col + width
        } else if col == 0 {
            0
        } else {
            width as int
        },
{
    if fits_beside(col, width, max_width) {
        WordPlace { row, start_col: col, col_after: col + width }
    } else if col == 0 {
        WordPlace { row, start_col: 0, col_after: 0 }
    } else {
        WordPlace { row: row + 1, start_col: 0, col_after: width }
    }
}

/// The row and the column of the cursor in `text` broken to `max_width`
/// columns: computes [`cursor_position`].
pub fn cursor_position_in_wrap(text: &str, cursor_display_pos: usize, max_width: usize) -> (r: (
    usize,
    usize,
))
    ensures
        (r.0 as nat, r.1 as nat) == cursor_position(
            text@,
            cursor_display_pos as nat,
            max_width as nat,
        ),
{
    if max_width == 0 {
        return (0, cursor_display_pos);
    }
    let chars = chars_of(text);
    let words = split_pieces(&chars);
    let ghost all = texts(words@);
    let ghost max = max_width as nat;
    let ghost cursor = cursor_display_pos as nat;
    let ghost start = Layout { row: 0, col: 0, total: 0 };
    let mut row: usize = 0;
    let mut col: usize = 0;
    let mut total: u128 = 0;
    let mut i: usize = 0;
    proof {
        lemma_pieces_total(text@);
        lemma_pieces(text@);
        assert(all.take(0) =~= Seq::<Seq<char>>::empty());
    }
    while i < words.len()
        invariant
            i <= words.len(),
            max == max_width as nat,
            max_width > 0,
            cursor == cursor_display_pos as nat,
            all == texts(words@),
            all == pieces(text@),
            total_len(all) == text@.len(),
            chars@ == text@,
            forall|k: int| 0 <= k < all.len() ==> (#[trigger] all[k]).len() > 0,
            row <= total_len(all.take(i as int)),
            total <= i * 0x1_0000_0000_0000_0000,
            start == (Layout { row: 0, col: 0, total: 0 }),
            walk(all, i as int, Layout { row: row as nat, col: col as nat, total: total as nat }, max, cursor)
                == walk(all, 0, start, max, cursor),
        decreases words.len() - i,
    {
        let word = &words[i];
        let ghost at = Layout { row: row as nat, col: col as nat, total: total as nat };
        proof {
            assert(all[i as int] == word@);
            assert(all.take(i + 1).drop_last() =~= all.take(i as int));
            assert(all.take(i + 1).last() == word@);
            lemma_total_len_take(all, i + 1);
            lemma_lay_rows(word@, max);
            assert(chars@.len() == chars.len());
        }
        let w = width_of(word);
        let placed = place_word(row, col, w, max_width);
        let word_row = placed.row;
        let start_col = placed.start_col;
        let col_after = placed.col_after;
        let inside = total <= cursor_display_pos as u128 && (cursor_display_pos as u128) < total
            + w as u128;
        if inside && (col_after == 0 || w <= max_width || start_col > 0) {
            let into: usize = (cursor_display_pos as u128 - total) as usize;
            proof {
                assert(place(at, all[i as int], max, cursor) == Placed::Found(
                    word_row as nat,
                    (start_col + into) as nat,
                ));
            }
            return (word_row, start_col + into);
        }
        if inside {
            let offset: u128 = cursor_display_pos as u128 - total;
            let mut rows: usize = 0;
            let mut ccol: usize = 0;
            let mut pos: u128 = 0;
            let mut j: usize = 0;
            let ghost goal = walk(all, 0, start, max, cursor);
            proof {
                assert(word@.take(0) =~= Seq::<char>::empty());
                let hit = find_in_word(word@, max, offset as int, 0);
                if hit is Some {
                    let found = hit->0;
                    assert(place(at, all[i as int], max, cursor) == Placed::Found(
                        (word_row + found.0) as nat,
                        found.1,
                    ));
                }
            }
            while j < word.len()
                invariant
                    j <= word.len(),
                    max == max_width as nat,
                    word@.len() + row <= usize::MAX,
                    (rows as nat, ccol as nat) == lay_chars(word@.take(j as int), max),
                    j > 0 ==> rows + 1 <= j,
                    j == 0 ==> rows == 0,
                    goal == cursor_position(text@, cursor_display_pos as nat, max_width as nat),
                    find_in_word(word@, max, offset as int, 0) is Some ==> goal == below(
                        word_row as nat,
                        find_in_word(word@, max, offset as int, 0)->0,
                    ),
                    pos == chars_width(word@.take(j as int)),
                    pos <= j * 0x1_0000_0000_0000_0000,
                    word_row <= row + 1,
                    find_in_word(word@, max, offset as int, j as int) == find_in_word(
                        word@,
                        max,
                        offset as int,
                        0,
                    ),
                decreases word.len() - j,
            {
                if pos == offset {
                    return (word_row + rows, ccol);
                }
                let cw = width_of_char(word[j]);
                proof {
                    assert(word@.take(j + 1).drop_last() =~= word@.take(j as int));
                    assert(word@.take(j + 1).last() == word@[j as int]);
                }
                let next = lay_step(rows, ccol, cw, max_width);
                rows = next.0;
                ccol = next.1;
                pos = pos + cw as u128;
                j += 1;
            }
        }
        if w > max_width && start_col == 0 {
            let mut rows: usize = 0;
            let mut ccol: usize = 0;
            let mut j: usize = 0;
            proof {
                assert(word@.take(0) =~= Seq::<char>::empty());
            }
            while j < word.len()
                invariant
                    j <= word.len(),
                    max == max_width as nat,
                    word@.len() + row <= usize::MAX,
                    (rows as nat, ccol as nat) == lay_chars(word@.take(j as int), max),
                    j > 0 ==> rows + 1 <= j,
                    j == 0 ==> rows == 0,
                decreases word.len() - j,
            {
                let cw = width_of_char(word[j]);
                proof {
                    assert(word@.take(j + 1).drop_last() =~= word@.take(j as int));
                    assert(word@.take(j + 1).last() == word@[j as int]);
                }
                let next = lay_step(rows, ccol, cw, max_width);
                rows = next.0;
                ccol = next.1;
                j += 1;
            }
            proof {
                assert(word@.take(word.len() as int) =~= word@);
            }
            row = word_row + rows;
            col = ccol;
        } else {
            row = word_row;
            col = col_after;
        }
        total = total + w as u128;
        i += 1;
    }
    (row, col)
}

} // verus!
