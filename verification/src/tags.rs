//! Tags: `#name` tokens inside text, and the journal-wide rename and delete.
//!
//! A tag is a `#` followed by a letter and then by letters, digits, `_` and
//! `-` for as long as they last.  Because the name takes every such character
//! that follows, `#work` never matches inside `#workshop`.

use crate::entries::parse_line_spec;
use crate::entries::parse_line_chars;
use crate::entries::Line;
use crate::entries::LineView;
use crate::text::append_chars;
use crate::text::blank;
use crate::text::chars_of;
use crate::text::copy_range;
use crate::text::eq_ignore_ascii_case;
use crate::text::eq_ignore_case;
use crate::text::is_alnum;
use crate::text::is_ascii_alphanumeric;
use crate::text::is_ascii_letter;
use crate::text::is_blank;
use crate::text::is_letter;
use crate::text::join;
use crate::text::join_with;
use crate::text::split;
use crate::text::split_on;
use crate::text::string_of;
use crate::text::string_of_range;
use crate::text::texts;
use vstd::prelude::*;

verus! {

/// `c` may stand in a tag's name.
pub open spec fn is_tag_char(c: char) -> bool {
    is_alnum(c) || c == '_' || c == '-'
}

/// How many characters that may stand in a tag's name follow one another in
/// `s` from position `from` on.
pub open spec fn tag_run_len(s: Seq<char>, from: int) -> nat
    decreases s.len() - from,
{
    if 0 <= from < s.len() && is_tag_char(s[from]) {
        1 + tag_run_len(s, from + 1)
    } else {
        0
    }
}

/// A tag begins at position `at` of `s`.
pub open spec fn tag_starts_at(s: Seq<char>, at: int) -> bool {
    0 <= at && at + 1 < s.len() && s[at] == '#' && is_letter(s[at + 1])
}

/// Where the tag that begins at `at` ends: the position after its name.
pub open spec fn tag_end(s: Seq<char>, at: int) -> int {
    at + 1 + tag_run_len(s, at + 1)
}

/// The name of the tag that begins at `at`.
pub open spec fn tag_name_at(s: Seq<char>, at: int) -> Seq<char> {
    s.subrange(at + 1, tag_end(s, at))
}

/// The tag `tag` occurs at position `at` of `s`; letter case is ignored.
pub open spec fn is_occurrence(s: Seq<char>, at: int, tag: Seq<char>) -> bool {
    tag_starts_at(s, at) && eq_ignore_case(tag_name_at(s, at), tag)
}

/// The tag `tag` occurs in `s`.
pub open spec fn has_tag(s: Seq<char>, tag: Seq<char>) -> bool {
    exists|at: int| is_occurrence(s, at, tag)
}

/// The names of the tags of `s` from position `from` on, in order.
pub open spec fn tags_from(s: Seq<char>, from: int) -> Seq<Seq<char>>
    decreases s.len() - from,
{
    if from < 0 || from >= s.len() {
        Seq::<Seq<char>>::empty()
    } else if tag_starts_at(s, from) {
        seq![tag_name_at(s, from)] + tags_from(s, from + 1)
    } else {
        tags_from(s, from + 1)
    }
}

/// How often `tag` occurs in `s` from position `from` on.
pub open spec fn count_from(s: Seq<char>, from: int, tag: Seq<char>) -> nat
    decreases s.len() - from,
{
    if from < 0 || from >= s.len() {
        0
    } else if is_occurrence(s, from, tag) {
        1 + count_from(s, from + 1, tag)
    } else {
        count_from(s, from + 1, tag)
    }
}

/// `s` from position `from` on, with each occurrence of `tag` replaced by
/// `replacement` and everything else kept.
pub open spec fn rewrite_from(
    s: Seq<char>,
    from: int,
    tag: Seq<char>,
    replacement: Seq<char>,
) -> Seq<char>
    decreases
            (if from <= s.len() {
                s.len() - from
            } else {
                0
            }),
{
    if from < 0 || from >= s.len() {
        Seq::<char>::empty()
    } else if is_occurrence(s, from, tag) {
        replacement + rewrite_from(s, from + 1 + tag_run_len(s, from + 1), tag, replacement)
    } else {
        seq![s[from]] + rewrite_from(s, from + 1, tag, replacement)
    }
}

/// A name that a tag can have: a letter, then letters, digits, `_` and `-`.
pub open spec fn is_valid_tag_name(name: Seq<char>) -> bool {
    name.len() > 0 && is_letter(name[0]) && forall|i: int|
        0 <= i < name.len() ==> is_tag_char(#[trigger] name[i])
}

/// Why a name cannot be a tag's.
#[derive(Clone, Copy, Debug, PartialEq, Eq, Structural)]
pub enum TagNameError {
    /// The name is empty.
    Empty,
    /// The name does not begin with a letter.
    MustStartWithLetter,
    /// The name holds a character other than letters, digits, `_` and `-`.
    InvalidCharacter,
}

impl TagNameError {
    /// The reason in words.
    pub fn message(&self) -> (r: &'static str)
        ensures
            r@ == match *self {
                TagNameError::Empty => "Tag name cannot be empty"@,
                TagNameError::MustStartWithLetter => "Tag must start with a letter"@,
                TagNameError::InvalidCharacter =>
                    "Tag can only contain letters, numbers, underscore, and dash"@,
            },
    {
        match self {
            TagNameError::Empty => "Tag name cannot be empty",
            TagNameError::MustStartWithLetter => "Tag must start with a letter",
            TagNameError::InvalidCharacter =>
                "Tag can only contain letters, numbers, underscore, and dash",
        }
    }
}

/// What [`validate_tag_name`] answers for a name.
pub open spec fn tag_name_verdict(name: Seq<char>) -> Result<(), TagNameError> {
    if name.len() == 0 {
        Err(TagNameError::Empty)
    } else if !is_letter(name[0]) {
        Err(TagNameError::MustStartWithLetter)
    } else if !(forall|i: int| 0 <= i < name.len() ==> is_tag_char(#[trigger] name[i])) {
        Err(TagNameError::InvalidCharacter)
    } else {
        Ok(())
    }
}

/// Decides [`is_tag_char`].
pub fn tag_char(c: char) -> (r: bool)
    ensures
        r == is_tag_char(c),
{
    is_ascii_alphanumeric(c) || c == '_' || c == '-'
}

/// Checks that `name` can be a tag's name, and says why where it cannot.
pub fn validate_tag_name(name: &str) -> (r: Result<(), TagNameError>)
    ensures
        r == tag_name_verdict(name@),
        r is Ok <==> is_valid_tag_name(name@),
{
    let chars = chars_of(name);
    if chars.len() == 0 {
        return Err(TagNameError::Empty);
    }
    if !is_ascii_letter(chars[0]) {
        return Err(TagNameError::MustStartWithLetter);
    }
    let mut i: usize = 0;
    while i < chars.len()
        invariant
            i <= chars.len(),
            chars@ == name@,
            chars@.len() > 0,
            is_letter(chars@[0]),
            forall|j: int| 0 <= j < i ==> is_tag_char(#[trigger] chars@[j]),
        decreases chars.len() - i,
    {
        if !tag_char(chars[i]) {
            assert(!is_tag_char(name@[i as int]));
            return Err(TagNameError::InvalidCharacter);
        }
        i += 1;
    }
    Ok(())
}

/// A run of tag characters that is closed by something else has the length
/// of the run.
pub proof fn lemma_tag_run(s: Seq<char>, from: int, end: int)
    requires
        0 <= from <= end <= s.len(),
        forall|j: int| from <= j < end ==> is_tag_char(#[trigger] s[j]),
        end == s.len() || !is_tag_char(s[end]),
    ensures
        tag_run_len(s, from) == end - from,
    decreases end - from,
{
    if from < end {
        lemma_tag_run(s, from + 1, end);
    }
}

/// The position after the run of tag characters that begins at `from`.
pub fn tag_run_end(v: &Vec<char>, from: usize) -> (end: usize)
    requires
        from <= v.len(),
    ensures
        end == from + tag_run_len(v@, from as int),
        from <= end <= v.len(),
{
    let mut end: usize = from;
    while end < v.len() && tag_char(v[end])
        invariant
            from <= end <= v.len(),
            forall|j: int| from <= j < end ==> is_tag_char(#[trigger] v@[j]),
        decreases v.len() - end,
    {
        end += 1;
    }
    proof {
        lemma_tag_run(v@, from as int, end as int);
    }
    end
}

/// Whether a tag may end at `end_pos`: the text ends there, or the character
/// there cannot stand in a tag's name.
pub fn is_valid_tag_boundary(journal: &Vec<char>, end_pos: usize) -> (r: bool)
    ensures
        r == (end_pos >= journal.len() || !is_tag_char(journal@[end_pos as int])),
{
    end_pos >= journal.len() || !tag_char(journal[end_pos])
}

/// Decides [`tag_starts_at`].
pub fn starts_tag(v: &Vec<char>, at: usize) -> (r: bool)
    ensures
        r == tag_starts_at(v@, at as int),
{
    at < v.len() && v.len() - at > 1 && v[at] == '#' && is_ascii_letter(v[at + 1])
}

/// Where the tag `tag` that occurs at `at` ends, or `None` where it does not
/// occur there.
pub fn occurrence_end(v: &Vec<char>, at: usize, tag: &Vec<char>) -> (r: Option<usize>)
    ensures
        r is Some <==> is_occurrence(v@, at as int, tag@),
        r is Some ==> r->0 == tag_end(v@, at as int) && at < r->0 <= v.len(),
{
    if !starts_tag(v, at) {
        return None;
    }
    assert(tag_starts_at(v@, at as int));
    assert(at + 1 < v.len());
    let end = tag_run_end(v, at + 1);
    let name = copy_range(v, at + 1, end);
    if eq_ignore_ascii_case(&name, tag) {
        Some(end)
    } else {
        None
    }
}

/// Decides [`has_tag`].
pub fn content_has_tag(content: &Vec<char>, tag: &Vec<char>) -> (r: bool)
    ensures
        r == has_tag(content@, tag@),
{
    let mut at: usize = 0;
    while at < content.len()
        invariant
            at <= content.len(),
            forall|k: int| 0 <= k < at ==> !is_occurrence(content@, k, tag@),
        decreases content.len() - at,
    {
        if occurrence_end(content, at, tag).is_some() {
            return true;
        }
        at += 1;
    }
    false
}

/// The names of the tags in `content`, in order, each as often as it occurs.
pub fn extract_tags(content: &str) -> (tags: Vec<String>)
    ensures
        tags@.len() == tags_from(content@, 0).len(),
        forall|k: int| 0 <= k < tags@.len() ==> (#[trigger] tags@[k])@ == tags_from(content@, 0)[k],
{
    let v = chars_of(content);
    let mut tags: Vec<String> = Vec::new();
    let ghost mut found: Seq<Seq<char>> = Seq::empty();
    let mut at: usize = 0;
    while at < v.len()
        invariant
            at <= v.len(),
            v@ == content@,
            found + tags_from(v@, at as int) == tags_from(v@, 0),
            tags@.len() == found.len(),
            forall|k: int| 0 <= k < tags@.len() ==> (#[trigger] tags@[k])@ == found[k],
        decreases v.len() - at,
    {
        if starts_tag(&v, at) {
            let end = tag_run_end(&v, at + 1);
            tags.push(string_of_range(&v, at + 1, end));
            proof {
                let grown = found.push(tag_name_at(v@, at as int));
                assert(grown + tags_from(v@, at + 1) =~= found + tags_from(v@, at as int));
                found = grown;
            }
        }
        at += 1;
    }
    proof {
        assert(found + tags_from(v@, v.len() as int) =~= found);
    }
    tags
}

/// How often the tag `tag` occurs in `journal`.
pub open spec fn tag_count(journal: Seq<char>, tag: Seq<char>) -> nat {
    count_from(journal, 0, tag)
}

/// Counts the occurrences of `tag` in `journal`; letter case is ignored.
pub fn count_tag_occurrences(journal: &str, tag: &str) -> (count: usize)
    ensures
        count == tag_count(journal@, tag@),
{
    let v = chars_of(journal);
    let t = chars_of(tag);
    count_occurrences(&v, &t)
}

/// [`count_tag_occurrences`] on characters.
pub fn count_occurrences(v: &Vec<char>, tag: &Vec<char>) -> (count: usize)
    ensures
        count == tag_count(v@, tag@),
{
    let mut count: usize = 0;
    let mut at: usize = 0;
    while at < v.len()
        invariant
            at <= v.len(),
            count <= at,
            count + count_from(v@, at as int, tag@) == count_from(v@, 0, tag@),
        decreases v.len() - at,
    {
        if occurrence_end(v, at, tag).is_some() {
            count += 1;
        }
        at += 1;
    }
    count
}

/// `journal` with each occurrence of `tag` replaced by `replacement`.
pub open spec fn rewrite_tags(journal: Seq<char>, tag: Seq<char>, replacement: Seq<char>) -> Seq<
    char,
> {
    rewrite_from(journal, 0, tag, replacement)
}

/// Replaces each occurrence of `tag` in `journal` by `replacement`.
pub fn replace_tag_matches(journal: &Vec<char>, tag: &Vec<char>, replacement: &Vec<char>) -> (out:
    Vec<char>)
    ensures
        out@ == rewrite_tags(journal@, tag@, replacement@),
{
    let mut out: Vec<char> = Vec::new();
    let mut at: usize = 0;
    while at < journal.len()
        invariant
            at <= journal.len(),
            out@ + rewrite_from(journal@, at as int, tag@, replacement@) == rewrite_from(
                journal@,
                0,
                tag@,
                replacement@,
            ),
        decreases journal.len() - at,
    {
        let ghost before = out@;
        let ghost rest = rewrite_from(journal@, at as int, tag@, replacement@);
        match occurrence_end(journal, at, tag) {
            Some(end) => {
                append_chars(&mut out, replacement);
                proof {
                    let after = rewrite_from(journal@, end as int, tag@, replacement@);
                    assert(out@ + after =~= before + rest);
                }
                at = end;
            },
            None => {
                out.push(journal[at]);
                proof {
                    let after = rewrite_from(journal@, at + 1, tag@, replacement@);
                    assert(out@ + after =~= before + rest);
                }
                at += 1;
            },
        }
    }
    proof {
        assert(out@ + rewrite_from(journal@, at as int, tag@, replacement@) =~= out@);
    }
    out
}

// ---------------------------------------------------------------------------
// Cleaning up after a rewrite
// ---------------------------------------------------------------------------

/// The text is a checkbox with nothing but white space behind it.
pub open spec fn is_bare_checkbox(content: Seq<char>) -> bool {
    crate::text::trim_end(content) == seq!['[', ' ', ']'] || crate::text::trim_end(content)
        == seq!['[', 'x', ']']
}

/// The line is an entry that holds nothing: nothing but white space stands
/// after its marker, or, for a task whose checkbox ends the line so that it
/// reads as a note, nothing but the checkbox.
pub open spec fn is_empty_entry(line: Seq<char>) -> bool {
    match parse_line_spec(line) {
        LineView::Entry(e) => is_blank(e.content) || (e.entry_type is Note && is_bare_checkbox(
            e.content,
        )),
        LineView::Raw(_) => false,
    }
}

/// The lines that are kept so far, and whether entries were dropped since the
/// last of them.
pub struct Cleaned {
    pub kept: Seq<Seq<char>>,
    pub dropped: bool,
}

/// The lines that stay when the empty entries are dropped.  A blank line that
/// would come to stand directly after another blank line, because the entries
/// between them were dropped, is dropped too.
pub open spec fn clean_lines(lines: Seq<Seq<char>>) -> Cleaned
    decreases lines.len(),
{
    if lines.len() == 0 {
        Cleaned { kept: Seq::<Seq<char>>::empty(), dropped: false }
    } else {
        let before = clean_lines(lines.drop_last());
        let line = lines.last();
        if is_empty_entry(line) {
            Cleaned { kept: before.kept, dropped: true }
        } else if is_blank(line) && before.dropped && before.kept.len() > 0 && is_blank(
            before.kept.last(),
        ) {
            before
        } else {
            Cleaned { kept: before.kept.push(line), dropped: false }
        }
    }
}

/// The journal text without its empty entries.
pub open spec fn clean_text(journal: Seq<char>) -> Seq<char> {
    join(clean_lines(split(journal, '\n')).kept, '\n')
}

/// Decides [`is_empty_entry`].
pub fn empty_entry(line: &Vec<char>) -> (r: bool)
    ensures
        r == is_empty_entry(line@),
{
    match parse_line_chars(line) {
        Line::Entry(e) => {
            let content = chars_of(e.content.as_str());
            if blank(&content) {
                return true;
            }
            match e.entry_type {
                crate::entries::EntryType::Note => bare_checkbox(&content),
                _ => false,
            }
        },
        Line::Raw(_) => false,
    }
}

/// Decides [`is_bare_checkbox`].
pub fn bare_checkbox(content: &Vec<char>) -> (r: bool)
    ensures
        r == is_bare_checkbox(content@),
{
    let end = crate::text::end_without_spaces(content, 0);
    let core = copy_range(content, 0, end);
    assert(content@.skip(0) =~= content@);
    let open = chars_of("[ ]");
    let done = chars_of("[x]");
    proof {
        reveal_strlit("[ ]");
        reveal_strlit("[x]");
        assert(open@ =~= seq!['[', ' ', ']']);
        assert(done@ =~= seq!['[', 'x', ']']);
    }
    crate::text::same_text(&core, &open) || crate::text::same_text(&core, &done)
}

/// Drops the entries that hold nothing: computes [`clean_text`].
pub fn clean_empty_entries(journal: &Vec<char>) -> (out: Vec<char>)
    ensures
        out@ == clean_text(journal@),
{
    let lines = split_on(journal, '\n');
    let mut kept: Vec<Vec<char>> = Vec::new();
    let mut dropped = false;
    let mut i: usize = 0;
    proof {
        assert(texts(lines@).take(0) =~= Seq::<Seq<char>>::empty());
        assert(texts(kept@) =~= Seq::<Seq<char>>::empty());
    }
    while i < lines.len()
        invariant
            i <= lines.len(),
            clean_lines(texts(lines@).take(i as int)) == (Cleaned {
                kept: texts(kept@),
                dropped,
            }),
        decreases lines.len() - i,
    {
        let ghost old_kept = kept@;
        proof {
            let seen = texts(lines@).take(i + 1);
            assert(seen.drop_last() =~= texts(lines@).take(i as int));
            assert(seen.last() == lines@[i as int]@);
            if kept.len() > 0 {
                assert(texts(kept@).last() == kept@[kept.len() - 1]@);
            }
        }
        let line = &lines[i];
        if empty_entry(line) {
            dropped = true;
        } else if dropped && kept.len() > 0 && blank(line) && blank(&kept[kept.len() - 1]) {
        } else {
            kept.push(copy_range(line, 0, line.len()));
            dropped = false;
            proof {
                assert(line@.subrange(0, line@.len() as int) =~= line@);
                assert(texts(kept@) =~= texts(old_kept).push(line@));
            }
        }
        i += 1;
    }
    proof {
        assert(texts(lines@).take(lines.len() as int) =~= texts(lines@));
    }
    join_with(&kept, '\n')
}

// ---------------------------------------------------------------------------
// Rename and delete
// ---------------------------------------------------------------------------

/// A journal after a tag was rewritten in it, and how often the tag occurred.
#[derive(Debug, PartialEq)]
pub struct TagRewrite {
    pub journal: String,
    pub count: usize,
}

/// The journal after every occurrence of `tag` is taken out of it.
pub open spec fn deleted_text(journal: Seq<char>, tag: Seq<char>) -> Seq<char> {
    clean_text(rewrite_tags(journal, tag, Seq::<char>::empty()))
}

/// The journal after every occurrence of `old_tag` is replaced by `#new_tag`.
pub open spec fn renamed_text(journal: Seq<char>, old_tag: Seq<char>, new_tag: Seq<char>) -> Seq<
    char,
> {
    clean_text(rewrite_tags(journal, old_tag, seq!['#'] + new_tag))
}

/// Takes every occurrence of `tag` out of the journal, drops the entries that
/// are left empty, and counts the occurrences.
pub fn delete_all_tag_occurrences(journal: &str, tag: &str) -> (r: TagRewrite)
    ensures
        r.journal@ == deleted_text(journal@, tag@),
        r.count == tag_count(journal@, tag@),
{
    let text = chars_of(journal);
    let t = chars_of(tag);
    let count = count_occurrences(&text, &t);
    let nothing: Vec<char> = Vec::new();
    let rewritten = replace_tag_matches(&text, &t, &nothing);
    assert(nothing@ =~= Seq::<char>::empty());
    let cleaned = clean_empty_entries(&rewritten);
    TagRewrite { journal: string_of(&cleaned), count }
}

/// Renames the tag `old_tag` to `new_tag` throughout the journal and counts
/// its occurrences.  A `new_tag` that cannot be a tag's name is refused, and
/// nothing is rewritten.
pub fn rename_tag_occurrences(journal: &str, old_tag: &str, new_tag: &str) -> (r: Result<
    TagRewrite,
    TagNameError,
>)
    ensures
        r is Ok <==> is_valid_tag_name(new_tag@),
        r is Err ==> Err::<(), TagNameError>(r->Err_0) == tag_name_verdict(new_tag@),
        r is Ok ==> r->Ok_0.journal@ == renamed_text(journal@, old_tag@, new_tag@) && r->Ok_0.count
            == tag_count(journal@, old_tag@),
{
    match validate_tag_name(new_tag) {
        Err(e) => Err(e),
        Ok(_) => {
            let text = chars_of(journal);
            let t = chars_of(old_tag);
            let count = count_occurrences(&text, &t);
            let mut replacement: Vec<char> = Vec::new();
            replacement.push('#');
            let name = chars_of(new_tag);
            append_chars(&mut replacement, &name);
            assert(replacement@ =~= seq!['#'] + new_tag@);
            let rewritten = replace_tag_matches(&text, &t, &replacement);
            let cleaned = clean_empty_entries(&rewritten);
            Ok(TagRewrite { journal: string_of(&cleaned), count })
        },
    }
}

/// An earlier name of `names` equals `name` but for letter case.
pub open spec fn named_before(names: Seq<Seq<char>>, name: Seq<char>) -> bool {
    exists|k: int| 0 <= k < names.len() && eq_ignore_case(#[trigger] names[k], name)
}

/// The names of `names` without repetitions: each where it occurs first, and
/// names that differ in letter case only taken for the same.
pub open spec fn distinct_tags(names: Seq<Seq<char>>) -> Seq<Seq<char>>
    decreases names.len(),
{
    if names.len() == 0 {
        Seq::<Seq<char>>::empty()
    } else if named_before(names.drop_last(), names.last()) {
        distinct_tags(names.drop_last())
    } else {
        distinct_tags(names.drop_last()).push(names.last())
    }
}

/// The tags that occur in `text`, each once, in the order in which they occur
/// first.
pub fn collect_tags(text: &str) -> (tags: Vec<String>)
    ensures
        tags@.len() == distinct_tags(tags_from(text@, 0)).len(),
        forall|k: int|
            0 <= k < tags@.len() ==> (#[trigger] tags@[k])@ == distinct_tags(tags_from(text@, 0))[k],
{
    let all = extract_tags(text);
    let ghost names = tags_from(text@, 0);
    let mut tags: Vec<String> = Vec::new();
    let mut i: usize = 0;
    proof {
        assert(names.take(0) =~= Seq::<Seq<char>>::empty());
    }
    while i < all.len()
        invariant
            i <= all.len(),
            names == tags_from(text@, 0),
            all@.len() == names.len(),
            forall|k: int| 0 <= k < all@.len() ==> (#[trigger] all@[k])@ == names[k],
            tags@.len() == distinct_tags(names.take(i as int)).len(),
            forall|k: int|
                0 <= k < tags@.len() ==> (#[trigger] tags@[k])@ == distinct_tags(
                    names.take(i as int),
                )[k],
        decreases all.len() - i,
    {
        let name = chars_of(all[i].as_str());
        let ghost seen = names.take(i as int);
        proof {
            assert(names.take(i + 1).drop_last() =~= seen);
            assert(names.take(i + 1).last() == name@);
        }
        let mut j: usize = 0;
        let mut known = false;
        while j < i
            invariant
                j <= i <= all.len(),
                seen == names.take(i as int),
                all@.len() == names.len(),
                forall|k: int| 0 <= k < all@.len() ==> (#[trigger] all@[k])@ == names[k],
                !known ==> forall|k: int| 0 <= k < j ==> !eq_ignore_case(#[trigger] seen[k], name@),
                known ==> named_before(seen, name@),
            decreases i - j,
        {
            let other = chars_of(all[j].as_str());
            assert(seen[j as int] == all@[j as int]@);
            if eq_ignore_ascii_case(&other, &name) {
                known = true;
            }
            j += 1;
        }
        if !known {
            tags.push(all[i].clone());
        }
        i += 1;
    }
    proof {
        assert(names.take(all.len() as int) =~= names);
    }
    tags
}

} // verus!
