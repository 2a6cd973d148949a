//! The line model: a journal's text as typed entries and opaque raw lines.

use crate::date::Date;
use crate::text::append_chars;
use crate::text::chars_of;
use crate::text::is_space;
use crate::text::join;
use crate::text::join_with;
use crate::text::leading_spaces;
use crate::text::lemma_join_split;
use crate::text::lemma_leading_spaces_bound;
use crate::text::lemma_split_nonempty;
use crate::text::matches_at;
use crate::text::skip_leading_spaces;
use crate::text::split;
use crate::text::split_on;
use crate::text::string_of;
use crate::text::string_of_range;
use crate::text::texts;
use crate::text::trim_start;
use vstd::prelude::*;

verus! {

/// What kind of entry a line holds.
#[derive(Debug, Clone, Copy, PartialEq, Eq, Structural)]
pub enum EntryType {
    Task { completed: bool },
    Note,
    Event,
}

/// The marker of an open task.
pub open spec fn open_task_marker() -> Seq<char> {
    seq!['-', ' ', '[', ' ', ']', ' ']
}

/// The marker of a completed task.
pub open spec fn done_task_marker() -> Seq<char> {
    seq!['-', ' ', '[', 'x', ']', ' ']
}

/// The marker of an event.
pub open spec fn event_marker() -> Seq<char> {
    seq!['*', ' ']
}

/// The marker of a note.
pub open spec fn note_marker() -> Seq<char> {
    seq!['-', ' ']
}

impl EntryType {
    /// The text that introduces an entry of this type in a journal.
    pub open spec fn marker(self) -> Seq<char> {
        match self {
            EntryType::Task { completed: false } => open_task_marker(),
            EntryType::Task { completed: true } => done_task_marker(),
            EntryType::Note => note_marker(),
            EntryType::Event => event_marker(),
        }
    }

    /// The type that follows this one when a user cycles through the types.
    pub open spec fn next(self) -> EntryType {
        match self {
            EntryType::Task { .. } => EntryType::Note,
            EntryType::Note => EntryType::Event,
            EntryType::Event => EntryType::Task { completed: false },
        }
    }

    /// Whether this is a completed task.
    pub open spec fn is_completed(self) -> bool {
        self == (EntryType::Task { completed: true })
    }

    /// The marker of this type.
    pub fn prefix(&self) -> (r: &'static str)
        ensures
            r@ == self.marker(),
    {
        proof {
            reveal_strlit("- [ ] ");
            reveal_strlit("- [x] ");
            reveal_strlit("- ");
            reveal_strlit("* ");
        }
        match self {
            EntryType::Task { completed: false } => {
                assert("- [ ] "@ =~= open_task_marker());
                "- [ ] "
            },
            EntryType::Task { completed: true } => {
                assert("- [x] "@ =~= done_task_marker());
                "- [x] "
            },
            EntryType::Note => {
                assert("- "@ =~= note_marker());
                "- "
            },
            EntryType::Event => {
                assert("* "@ =~= event_marker());
                "* "
            },
        }
    }

    /// The type that follows this one.
    pub fn cycle(&self) -> (r: Self)
        ensures
            r == self.next(),
    {
        match self {
            EntryType::Task { .. } => EntryType::Note,
            EntryType::Note => EntryType::Event,
            EntryType::Event => EntryType::Task { completed: false },
        }
    }

    /// Decides [`EntryType::is_completed`].
    pub fn completed(&self) -> (r: bool)
        ensures
            r == self.is_completed(),
    {
        match self {
            EntryType::Task { completed } => *completed,
            _ => false,
        }
    }
}

/// One typed unit of journal content.
#[derive(Debug, PartialEq)]
pub struct Entry {
    pub entry_type: EntryType,
    pub content: String,
}

/// What an [`Entry`] holds, as mathematics.
pub struct EntryView {
    pub entry_type: EntryType,
    pub content: Seq<char>,
}

impl View for Entry {
    type V = EntryView;

    open spec fn view(&self) -> EntryView {
        EntryView { entry_type: self.entry_type, content: self.content@ }
    }
}

impl Clone for Entry {
    fn clone(&self) -> (r: Self)
        ensures
            r@ == self@,
    {
        Entry { entry_type: self.entry_type, content: self.content.clone() }
    }
}

impl EntryView {
    /// The entry with a task's completion flipped; notes and events unchanged.
    pub open spec fn toggled(self) -> EntryView {
        match self.entry_type {
            EntryType::Task { completed } => EntryView {
                entry_type: EntryType::Task { completed: !completed },
                content: self.content,
            },
            _ => self,
        }
    }

    /// The line of text that stores the entry.
    pub open spec fn text(self) -> Seq<char> {
        self.entry_type.marker() + self.content
    }
}

impl Entry {
    /// An open task with the text `content`.
    pub fn new_task(content: &str) -> (r: Self)
        ensures
            r@ == (EntryView {
                entry_type: EntryType::Task { completed: false },
                content: content@,
            }),
    {
        Entry { entry_type: EntryType::Task { completed: false }, content: content.to_owned() }
    }

    /// The marker of the entry's type.
    pub fn prefix(&self) -> (r: &'static str)
        ensures
            r@ == self@.entry_type.marker(),
    {
        self.entry_type.prefix()
    }

    /// Flips the completion of a task; a note or an event stays as it is.
    pub fn toggle_complete(&mut self)
        ensures
            final(self)@ == old(self)@.toggled(),
    {
        match self.entry_type {
            EntryType::Task { completed } => {
                self.entry_type = EntryType::Task { completed: !completed };
            },
            _ => {},
        }
    }
}

/// One line of a journal.
#[derive(Debug, PartialEq)]
pub enum Line {
    Entry(Entry),
    Raw(String),
}

/// What a [`Line`] holds, as mathematics.
pub enum LineView {
    Entry(EntryView),
    Raw(Seq<char>),
}

impl View for Line {
    type V = LineView;

    open spec fn view(&self) -> LineView {
        match self {
            Line::Entry(e) => LineView::Entry(e@),
            Line::Raw(s) => LineView::Raw(s@),
        }
    }
}

impl Clone for Line {
    fn clone(&self) -> (r: Self)
        ensures
            r@ == self@,
    {
        match self {
            Line::Entry(e) => Line::Entry(e.clone()),
            Line::Raw(s) => Line::Raw(s.clone()),
        }
    }
}

impl LineView {
    /// The text that stores the line.
    pub open spec fn text(self) -> Seq<char> {
        match self {
            LineView::Entry(e) => e.text(),
            LineView::Raw(s) => s,
        }
    }
}

/// The views of a sequence of lines.
pub open spec fn line_views(lines: Seq<Line>) -> Seq<LineView> {
    Seq::new(lines.len(), |i: int| lines[i]@)
}

/// An entry of one day that is shown in the view of another, or in a filter's
/// results.  `line_index` is a position in the source day's line sequence.
#[derive(Debug, PartialEq)]
pub struct CrossDayEntry {
    pub source_date: Date,
    pub line_index: usize,
    pub content: String,
    pub entry_type: EntryType,
    pub completed: bool,
}

/// What a [`CrossDayEntry`] holds, as mathematics.
pub struct CrossDayEntryView {
    pub source_date: Date,
    pub line_index: int,
    pub content: Seq<char>,
    pub entry_type: EntryType,
    pub completed: bool,
}

impl View for CrossDayEntry {
    type V = CrossDayEntryView;

    open spec fn view(&self) -> CrossDayEntryView {
        CrossDayEntryView {
            source_date: self.source_date,
            line_index: self.line_index as int,
            content: self.content@,
            entry_type: self.entry_type,
            completed: self.completed,
        }
    }
}

impl Clone for CrossDayEntry {
    fn clone(&self) -> (r: Self)
        ensures
            r@ == self@,
    {
        CrossDayEntry {
            source_date: self.source_date,
            line_index: self.line_index,
            content: self.content.clone(),
            entry_type: self.entry_type,
            completed: self.completed,
        }
    }
}

/// An entry in the results of a filter.
pub type FilterEntry = CrossDayEntry;

/// An entry that appears on a day through the date it carries.
pub type LaterEntry = CrossDayEntry;

/// The views of a sequence of cross-day entries.
pub open spec fn cross_day_views(entries: Seq<CrossDayEntry>) -> Seq<CrossDayEntryView> {
    Seq::new(entries.len(), |i: int| entries[i]@)
}

// ---------------------------------------------------------------------------
// Parsing and serializing
// ---------------------------------------------------------------------------

/// What a line of text means.  The markers are tried on the line without its
/// leading white space, the most specific first; a line that begins with none
/// of them is kept as it is.
pub open spec fn parse_line_spec(line: Seq<char>) -> LineView {
    let t = trim_start(line);
    if open_task_marker().is_prefix_of(t) {
        LineView::Entry(
            EntryView { entry_type: EntryType::Task { completed: false }, content: t.skip(6) },
        )
    } else if done_task_marker().is_prefix_of(t) {
        LineView::Entry(
            EntryView { entry_type: EntryType::Task { completed: true }, content: t.skip(6) },
        )
    } else if event_marker().is_prefix_of(t) {
        LineView::Entry(EntryView { entry_type: EntryType::Event, content: t.skip(2) })
    } else if note_marker().is_prefix_of(t) {
        LineView::Entry(EntryView { entry_type: EntryType::Note, content: t.skip(2) })
    } else {
        LineView::Raw(line)
    }
}

/// What a journal text means: its lines, separated by line feeds, each parsed
/// on its own.
pub open spec fn parse_text(text: Seq<char>) -> Seq<LineView> {
    let lines = split(text, '\n');
    Seq::new(lines.len(), |i: int| parse_line_spec(lines[i]))
}

/// The text that stores a sequence of lines: one line feed between each two.
pub open spec fn serialize_text(lines: Seq<LineView>) -> Seq<char> {
    join(Seq::new(lines.len(), |i: int| lines[i].text()), '\n')
}

/// Whether `line[at..]` begins with the marker of `entry_type`.
fn marker_at(line: &Vec<char>, at: usize, entry_type: EntryType) -> (r: bool)
    requires
        at <= line.len(),
    ensures
        r == entry_type.marker().is_prefix_of(line@.skip(at as int)),
{
    let marker = chars_of(entry_type.prefix());
    let r = matches_at(line, at, &marker);
    proof {
        let t = line@.skip(at as int);
        let m = marker@;
        if at + m.len() <= line.len() {
            assert(line@.subrange(at as int, at + m.len()) =~= t.take(m.len() as int));
        }
    }
    r
}

/// Parses the characters of one line.
pub fn parse_line_chars(line: &Vec<char>) -> (r: Line)
    ensures
        r@ == parse_line_spec(line@),
{
    let start = skip_leading_spaces(line);
    let n = line.len();
    proof {
        assert(line@.skip(start as int).len() == n - start);
    }
    if marker_at(line, start, EntryType::Task { completed: false }) {
        assert(line@.subrange(start + 6, n as int) =~= trim_start(line@).skip(6));
        Line::Entry(
            Entry {
                entry_type: EntryType::Task { completed: false },
                content: string_of_range(line, start + 6, n),
            },
        )
    } else if marker_at(line, start, EntryType::Task { completed: true }) {
        assert(line@.subrange(start + 6, n as int) =~= trim_start(line@).skip(6));
        Line::Entry(
            Entry {
                entry_type: EntryType::Task { completed: true },
                content: string_of_range(line, start + 6, n),
            },
        )
    } else if marker_at(line, start, EntryType::Event) {
        assert(line@.subrange(start + 2, n as int) =~= trim_start(line@).skip(2));
        Line::Entry(
            Entry { entry_type: EntryType::Event, content: string_of_range(line, start + 2, n) },
        )
    } else if marker_at(line, start, EntryType::Note) {
        assert(line@.subrange(start + 2, n as int) =~= trim_start(line@).skip(2));
        Line::Entry(
            Entry { entry_type: EntryType::Note, content: string_of_range(line, start + 2, n) },
        )
    } else {
        Line::Raw(string_of(line))
    }
}

/// Parses one line of text.
pub fn parse_line(line: &str) -> (r: Line)
    ensures
        r@ == parse_line_spec(line@),
{
    let chars = chars_of(line);
    parse_line_chars(&chars)
}

/// Parses a journal text into its lines.  Parsing never fails: what is not an
/// entry is kept as a raw line.
pub fn parse_lines(content: &str) -> (lines: Vec<Line>)
    ensures
        line_views(lines@) == parse_text(content@),
{
    let chars = chars_of(content);
    let pieces = split_on(&chars, '\n');
    let mut lines: Vec<Line> = Vec::new();
    let mut i: usize = 0;
    while i < pieces.len()
        invariant
            i <= pieces.len(),
            lines.len() == i,
            texts(pieces@) == split(content@, '\n'),
            forall|j: int| 0 <= j < i ==> (#[trigger] lines@[j])@ == parse_line_spec(pieces@[j]@),
        decreases pieces.len() - i,
    {
        lines.push(parse_line_chars(&pieces[i]));
        i += 1;
    }
    proof {
        let want = parse_text(content@);
        assert(texts(pieces@).len() == pieces.len());
        assert forall|j: int| 0 <= j < lines.len() implies line_views(lines@)[j] == want[j] by {
            assert(texts(pieces@)[j] == pieces@[j]@);
        }
        assert(line_views(lines@) =~= want);
    }
    lines
}

/// The characters that store one line.
pub fn serialize_line_chars(line: &Line) -> (r: Vec<char>)
    ensures
        r@ == line@.text(),
{
    match line {
        Line::Entry(entry) => {
            let mut out = chars_of(entry.prefix());
            let content = chars_of(entry.content.as_str());
            append_chars(&mut out, &content);
            out
        },
        Line::Raw(s) => chars_of(s.as_str()),
    }
}

/// The text that stores one line.
pub fn serialize_line(line: &Line) -> (r: String)
    ensures
        r@ == line@.text(),
{
    string_of(&serialize_line_chars(line))
}

/// The text that stores a sequence of lines.
pub fn serialize_lines(lines: &[Line]) -> (r: String)
    ensures
        r@ == serialize_text(line_views(lines@)),
{
    let mut pieces: Vec<Vec<char>> = Vec::new();
    let mut i: usize = 0;
    while i < lines.len()
        invariant
            i <= lines.len(),
            pieces.len() == i,
            forall|j: int| 0 <= j < i ==> (#[trigger] pieces@[j])@ == lines@[j]@.text(),
        decreases lines.len() - i,
    {
        pieces.push(serialize_line_chars(&lines[i]));
        i += 1;
    }
    let out = join_with(&pieces, '\n');
    proof {
        let views = line_views(lines@);
        assert(texts(pieces@) =~= Seq::new(views.len(), |i: int| views[i].text()));
    }
    string_of(&out)
}

// ---------------------------------------------------------------------------
// Round trip
// ---------------------------------------------------------------------------

/// A line is stored the way it is written back: it is no entry, or its marker
/// stands at its very start.
pub open spec fn is_canonical_line(line: Seq<char>) -> bool {
    parse_line_spec(line) is Raw || leading_spaces(line) == 0
}

/// Every line of the text is canonical.
pub open spec fn is_canonical_text(text: Seq<char>) -> bool {
    forall|i: int|
        0 <= i < split(text, '\n').len() ==> is_canonical_line(#[trigger] split(text, '\n')[i])
}

/// A canonical line is written back exactly as it was read.
pub proof fn lemma_line_round_trip(line: Seq<char>)
    requires
        is_canonical_line(line),
    ensures
        parse_line_spec(line).text() == line,
{
    if !(parse_line_spec(line) is Raw) {
        let t = trim_start(line);
        assert(t =~= line);
        if open_task_marker().is_prefix_of(t) {
            assert(open_task_marker() + t.skip(6) =~= t);
        } else if done_task_marker().is_prefix_of(t) {
            assert(done_task_marker() + t.skip(6) =~= t);
        } else if event_marker().is_prefix_of(t) {
            assert(event_marker() + t.skip(2) =~= t);
        } else {
            assert(note_marker() + t.skip(2) =~= t);
        }
    }
}

/// Round trip: a text whose entries all begin at the start of their lines is
/// reproduced character for character by parsing and then serializing it.
pub proof fn lemma_round_trip(text: Seq<char>)
    requires
        is_canonical_text(text),
    ensures
        serialize_text(parse_text(text)) == text,
{
    let lines = split(text, '\n');
    let parsed = parse_text(text);
    let written = Seq::new(parsed.len(), |i: int| parsed[i].text());
    assert forall|i: int| 0 <= i < lines.len() implies written[i] == lines[i] by {
        lemma_line_round_trip(lines[i]);
    }
    assert(written =~= lines);
    lemma_join_split(text, '\n');
}

/// A line that has been parsed is canonical once it is written back: parsing
/// what was serialized gives the same line again.
pub proof fn lemma_parsed_line_is_stable(line: Seq<char>)
    ensures
        parse_line_spec(parse_line_spec(line).text()) == parse_line_spec(line),
        is_canonical_line(parse_line_spec(line).text()),
{
    let t = trim_start(line);
    let parsed = parse_line_spec(line);
    let w = parsed.text();
    lemma_leading_spaces_bound(line);
    if parsed is Raw {
        assert(w == line);
    } else {
        assert(w.len() > 0);
        assert(w[0] == '-' || w[0] == '*') by {
            if open_task_marker().is_prefix_of(t) {
                assert(w[0] == open_task_marker()[0]);
            } else if done_task_marker().is_prefix_of(t) {
                assert(w[0] == done_task_marker()[0]);
            } else if event_marker().is_prefix_of(t) {
                assert(w[0] == event_marker()[0]);
            } else {
                assert(w[0] == note_marker()[0]);
            }
        }
        assert(!is_space(w[0]));
        assert(leading_spaces(w) == 0);
        assert(trim_start(w) =~= w);
        if open_task_marker().is_prefix_of(t) {
            assert(open_task_marker() + t.skip(6) =~= t);
        } else if done_task_marker().is_prefix_of(t) {
            assert(done_task_marker() + t.skip(6) =~= t);
        } else if event_marker().is_prefix_of(t) {
            assert(event_marker() + t.skip(2) =~= t);
        } else {
            assert(note_marker() + t.skip(2) =~= t);
        }
        assert(w =~= t);
    }
}

/// A line that is written back as it is read: parsing its text gives the line
/// again, and its text holds no line feed.
pub open spec fn is_stable_line(line: LineView) -> bool {
    parse_line_spec(line.text()) == line && crate::text::lacks(line.text(), '\n')
}

/// Parsing is the inverse of serializing on lines that are stable: a sequence
/// of at least one such line is read back as it was written.
pub proof fn lemma_parse_serialized(lines: Seq<LineView>)
    requires
        lines.len() >= 1,
        forall|i: int| 0 <= i < lines.len() ==> is_stable_line(#[trigger] lines[i]),
    ensures
        parse_text(serialize_text(lines)) == lines,
{
    let written = Seq::new(lines.len(), |i: int| lines[i].text());
    assert forall|k: int| 0 <= k < written.len() implies crate::text::lacks(
        #[trigger] written[k],
        '\n',
    ) by {
        assert(is_stable_line(lines[k]));
    }
    crate::text::lemma_split_join(written, '\n');
    assert(parse_text(serialize_text(lines)) =~= lines);
}

/// Every line that parsing yields is stable.
pub proof fn lemma_parsed_lines_are_stable(text: Seq<char>)
    ensures
        parse_text(text).len() >= 1,
        forall|i: int| 0 <= i < parse_text(text).len() ==> is_stable_line(#[trigger] parse_text(text)[i]),
{
    let raw = split(text, '\n');
    lemma_split_nonempty(text, '\n');
    crate::text::lemma_split_pieces_lack_separator(text, '\n');
    assert forall|i: int| 0 <= i < parse_text(text).len() implies is_stable_line(
        #[trigger] parse_text(text)[i],
    ) by {
        let line = raw[i];
        let parsed = parse_line_spec(line);
        lemma_parsed_line_is_stable(line);
        lemma_leading_spaces_bound(line);
        let t = trim_start(line);
        let w = parsed.text();
        assert(crate::text::lacks(line, '\n'));
        assert forall|j: int| 0 <= j < w.len() implies w[j] != '\n' by {
            if parsed is Raw {
            } else {
                // the text of an entry is the line without its indentation
                if open_task_marker().is_prefix_of(t) {
                    assert(open_task_marker() + t.skip(6) =~= t);
                } else if done_task_marker().is_prefix_of(t) {
                    assert(done_task_marker() + t.skip(6) =~= t);
                } else if event_marker().is_prefix_of(t) {
                    assert(event_marker() + t.skip(2) =~= t);
                } else {
                    assert(note_marker() + t.skip(2) =~= t);
                }
                assert(w =~= t);
                assert(t[j] == line[j + leading_spaces(line)]);
            }
        }
    }
}

/// Serializing and parsing again changes nothing more: what was parsed once
/// is read back as it was written.
pub proof fn lemma_serialize_parse_idempotent(text: Seq<char>)
    ensures
        parse_text(serialize_text(parse_text(text))) == parse_text(text),
        serialize_text(parse_text(serialize_text(parse_text(text)))) == serialize_text(
            parse_text(text),
        ),
{
    lemma_parsed_lines_are_stable(text);
    lemma_parse_serialized(parse_text(text));
}

} // verus!
