//! A journal file as a whole: the lines before its first day, and its days.
//!
//! A day begins with a heading line `# YYYY/MM/DD` and holds the lines up to
//! the next heading.  A line that looks like a heading but names no day that
//! exists is a line like any other.

use crate::date::Date;
use crate::dateexpr::date_of;
use crate::dayfile::day_views;
use crate::dayfile::DayFile;
use crate::dayfile::DayFileView;
use crate::entries::is_canonical_line;
use crate::entries::lemma_line_round_trip;
use crate::entries::line_views;
use crate::entries::parse_line_chars;
use crate::entries::parse_line_spec;
use crate::entries::serialize_line_chars;
use crate::entries::Line;
use crate::entries::LineView;
use crate::text::chars_of;
use crate::text::digit_of;
use crate::text::digit_value;
use crate::text::is_ascii_digit;
use crate::text::is_digit;
use crate::text::join;
use crate::text::join_with;
use crate::text::lemma_join_split;
use crate::text::split;
use crate::text::split_on;
use crate::text::string_of;
use crate::text::texts;
use vstd::prelude::*;

verus! {

/// A journal: what stands before its first day, and its days in the order of
/// the file.
#[derive(Debug, PartialEq)]
pub struct Journal {
    pub preamble: Vec<Line>,
    pub days: Vec<DayFile>,
}

/// What a [`Journal`] holds, as mathematics.
pub struct JournalView {
    pub preamble: Seq<LineView>,
    pub days: Seq<DayFileView>,
}

impl View for Journal {
    type V = JournalView;

    open spec fn view(&self) -> JournalView {
        JournalView { preamble: line_views(self.preamble@), days: day_views(self.days@) }
    }
}

/// The character that writes the digit `d`.
pub open spec fn digit_of_value(d: int) -> char
    recommends
        0 <= d < 10,
{
    ((48 + d) as u8) as char
}

/// The heading of the day `date`, for a year from 0 to 9999.
pub open spec fn heading_text(date: Date) -> Seq<char> {
    let y = date.year as int;
    let m = date.month as int;
    let d = date.day as int;
    seq![
        '#',
        ' ',
        digit_of_value(y / 1000),
        digit_of_value(y / 100 % 10),
        digit_of_value(y / 10 % 10),
        digit_of_value(y % 10),
        '/',
        digit_of_value(m / 10),
        digit_of_value(m % 10),
        '/',
        digit_of_value(d / 10),
        digit_of_value(d % 10),
    ]
}

/// The line has the shape of a heading: `# `, four digits, `/`, two digits,
/// `/`, two digits.
pub open spec fn has_heading_shape(line: Seq<char>) -> bool {
    &&& line.len() == 12
    &&& line[0] == '#'
    &&& line[1] == ' '
    &&& is_digit(line[2]) && is_digit(line[3]) && is_digit(line[4]) && is_digit(line[5])
    &&& line[6] == '/'
    &&& is_digit(line[7]) && is_digit(line[8])
    &&& line[9] == '/'
    &&& is_digit(line[10]) && is_digit(line[11])
}

/// The day that a heading line names; `None` for a line that is no heading.
pub open spec fn heading_date(line: Seq<char>) -> Option<Date> {
    if has_heading_shape(line) {
        date_of(
            digit_value(line[2]) * 1000 + digit_value(line[3]) * 100 + digit_value(line[4]) * 10
                + digit_value(line[5]),
            digit_value(line[7]) * 10 + digit_value(line[8]),
            digit_value(line[10]) * 10 + digit_value(line[11]),
        )
    } else {
        None
    }
}

/// A day that a heading can name: it exists, and its year has four digits.
pub open spec fn is_writable(date: Date) -> bool {
    date.valid() && 0 <= date.year <= 9999
}

/// A digit and its character stand for one another.
pub proof fn lemma_digit_chars(d: int, c: char)
    ensures
        0 <= d < 10 ==> is_digit(digit_of_value(d)) && digit_value(digit_of_value(d)) == d,
        is_digit(c) ==> 0 <= digit_value(c) < 10 && digit_of_value(digit_value(c)) == c,
{
}

/// Four digits and the number they write determine one another.
pub proof fn lemma_four_digits(a: int, b: int, c: int, e: int)
    requires
        0 <= a < 10,
        0 <= b < 10,
        0 <= c < 10,
        0 <= e < 10,
    ensures
        (a * 1000 + b * 100 + c * 10 + e) / 1000 == a,
        (a * 1000 + b * 100 + c * 10 + e) / 100 % 10 == b,
        (a * 1000 + b * 100 + c * 10 + e) / 10 % 10 == c,
        (a * 1000 + b * 100 + c * 10 + e) % 10 == e,
        (b * 10 + c) / 10 == b,
        (b * 10 + c) % 10 == c,
{
}

/// The digits of a number below 10000 write it.
pub proof fn lemma_number_digits(y: int)
    requires
        0 <= y <= 9999,
    ensures
        0 <= y / 1000 < 10,
        0 <= y / 100 % 10 < 10,
        0 <= y / 10 % 10 < 10,
        0 <= y % 10 < 10,
        (y / 1000) * 1000 + (y / 100 % 10) * 100 + (y / 10 % 10) * 10 + y % 10 == y,
        y <= 99 ==> y / 10 < 10 && (y / 10) * 10 + y % 10 == y,
{
}

/// A heading line is the heading of the day that it names.
pub proof fn lemma_text_of_heading(line: Seq<char>)
    requires
        heading_date(line) is Some,
    ensures
        heading_text(heading_date(line)->0) == line,
        is_writable(heading_date(line)->0),
{
    let a = digit_value(line[2]);
    let b = digit_value(line[3]);
    let c = digit_value(line[4]);
    let e = digit_value(line[5]);
    let m1 = digit_value(line[7]);
    let m2 = digit_value(line[8]);
    let d1 = digit_value(line[10]);
    let d2 = digit_value(line[11]);
    lemma_digit_chars(0, line[2]);
    lemma_digit_chars(0, line[3]);
    lemma_digit_chars(0, line[4]);
    lemma_digit_chars(0, line[5]);
    lemma_digit_chars(0, line[7]);
    lemma_digit_chars(0, line[8]);
    lemma_digit_chars(0, line[10]);
    lemma_digit_chars(0, line[11]);
    lemma_four_digits(a, b, c, e);
    lemma_four_digits(0, m1, m2, 0);
    lemma_four_digits(0, d1, d2, 0);
    let date = heading_date(line)->0;
    assert(date.year == a * 1000 + b * 100 + c * 10 + e);
    assert(date.month == m1 * 10 + m2);
    assert(date.day == d1 * 10 + d2);
    let h = heading_text(date);
    assert(h[2] == line[2]);
    assert(h[3] == line[3]);
    assert(h[4] == line[4]);
    assert(h[5] == line[5]);
    assert(h[7] == line[7]);
    assert(h[8] == line[8]);
    assert(h[10] == line[10]);
    assert(h[11] == line[11]);
    assert(h =~= line);
}

/// The heading of a day names that day.
pub proof fn lemma_heading_of_text(date: Date)
    requires
        is_writable(date),
    ensures
        heading_date(heading_text(date)) == Some(date),
{
    let y = date.year as int;
    let m = date.month as int;
    let d = date.day as int;
    lemma_number_digits(y);
    lemma_number_digits(m);
    lemma_number_digits(d);
    lemma_digit_chars(y / 1000, '0');
    lemma_digit_chars(y / 100 % 10, '0');
    lemma_digit_chars(y / 10 % 10, '0');
    lemma_digit_chars(y % 10, '0');
    lemma_digit_chars(m / 10, '0');
    lemma_digit_chars(m % 10, '0');
    lemma_digit_chars(d / 10, '0');
    lemma_digit_chars(d % 10, '0');
    let h = heading_text(date);
    assert(has_heading_shape(h));
    assert(digit_value(h[2]) == y / 1000);
    assert(digit_value(h[3]) == y / 100 % 10);
    assert(digit_value(h[4]) == y / 10 % 10);
    assert(digit_value(h[5]) == y % 10);
    assert(digit_value(h[7]) == m / 10);
    assert(digit_value(h[8]) == m % 10);
    assert(digit_value(h[10]) == d / 10);
    assert(digit_value(h[11]) == d % 10);
}

/// The journal that a list of lines of text holds.
pub open spec fn sections(lines: Seq<Seq<char>>) -> JournalView
    decreases lines.len(),
{
    if lines.len() == 0 {
        JournalView { preamble: Seq::empty(), days: Seq::empty() }
    } else {
        let before = sections(lines.drop_last());
        let line = lines.last();
        match heading_date(line) {
            Some(date) => JournalView {
                preamble: before.preamble,
                days: before.days.push(DayFileView { date, lines: Seq::empty() }),
            },
            None => if before.days.len() == 0 {
                JournalView {
                    preamble: before.preamble.push(parse_line_spec(line)),
                    days: before.days,
                }
            } else {
                let day = before.days.last();
                JournalView {
                    preamble: before.preamble,
                    days: before.days.drop_last().push(
                        DayFileView { date: day.date, lines: day.lines.push(parse_line_spec(line)) },
                    ),
                }
            },
        }
    }
}

/// The journal that a text holds.
pub open spec fn parse_journal_spec(text: Seq<char>) -> JournalView {
    sections(split(text, '\n'))
}

/// The texts of a sequence of lines.
pub open spec fn line_texts(lines: Seq<LineView>) -> Seq<Seq<char>> {
    Seq::new(lines.len(), |i: int| lines[i].text())
}

/// The lines of text that store a sequence of days: for each day its heading
/// and then its lines.
pub open spec fn day_texts(days: Seq<DayFileView>) -> Seq<Seq<char>>
    decreases days.len(),
{
    if days.len() == 0 {
        Seq::<Seq<char>>::empty()
    } else {
        day_texts(days.drop_last()).push(heading_text(days.last().date)) + line_texts(
            days.last().lines,
        )
    }
}

/// The text that stores a journal.
pub open spec fn serialize_journal_spec(journal: JournalView) -> Seq<char> {
    join(line_texts(journal.preamble) + day_texts(journal.days), '\n')
}

/// Every day of the journal can be named by a heading.
pub open spec fn days_writable(days: Seq<DayFileView>) -> bool {
    forall|i: int| 0 <= i < days.len() ==> is_writable((#[trigger] days[i]).date)
}

/// The days of a journal that was read can be written.
pub proof fn lemma_sections_writable(lines: Seq<Seq<char>>)
    ensures
        days_writable(sections(lines).days),
    decreases lines.len(),
{
    if lines.len() > 0 {
        lemma_sections_writable(lines.drop_last());
        if heading_date(lines.last()) is Some {
            lemma_text_of_heading(lines.last());
        }
        let before = sections(lines.drop_last());
        let now = sections(lines);
        assert forall|i: int| 0 <= i < now.days.len() implies is_writable(
            (#[trigger] now.days[i]).date,
        ) by {
            if i < before.days.len() {
                assert(now.days[i].date == before.days[i].date);
            }
        }
    }
}

/// The lines of text of a journal that was read are the lines it was read
/// from, where each of them is written back as it was read.
pub proof fn lemma_sections_texts(lines: Seq<Seq<char>>)
    requires
        forall|i: int| 0 <= i < lines.len() ==> is_canonical_line(#[trigger] lines[i]),
    ensures
        line_texts(sections(lines).preamble) + day_texts(sections(lines).days) == lines,
    decreases lines.len(),
{
    let now = sections(lines);
    if lines.len() == 0 {
        assert(line_texts(now.preamble) + day_texts(now.days) =~= lines);
    } else {
        let init = lines.drop_last();
        let line = lines.last();
        let before = sections(init);
        assert forall|i: int| 0 <= i < init.len() implies is_canonical_line(#[trigger] init[i]) by {
            assert(init[i] == lines[i]);
        }
        lemma_sections_texts(init);
        if heading_date(line) is Some {
            lemma_text_of_heading(line);
        }
        assert(is_canonical_line(line));
        lemma_line_round_trip(line);
        let had = line_texts(before.preamble) + day_texts(before.days);
        match heading_date(line) {
            Some(date) => {
                assert(now.days.drop_last() =~= before.days);
                assert(line_texts(now.days.last().lines) =~= Seq::<Seq<char>>::empty());
                assert(day_texts(now.days) =~= day_texts(before.days).push(line));
                assert(line_texts(now.preamble) + day_texts(now.days) =~= had.push(line));
            },
            None => {
                if before.days.len() == 0 {
                    assert(line_texts(now.preamble) =~= line_texts(before.preamble).push(line));
                    assert(day_texts(now.days) =~= Seq::<Seq<char>>::empty());
                    assert(day_texts(before.days) =~= Seq::<Seq<char>>::empty());
                    assert(line_texts(now.preamble) + day_texts(now.days) =~= had.push(line));
                } else {
                    let day = before.days.last();
                    assert(now.days.drop_last() =~= before.days.drop_last());
                    assert(line_texts(now.days.last().lines) =~= line_texts(day.lines).push(line));
                    assert(day_texts(now.days) =~= day_texts(before.days).push(line));
                    assert(line_texts(now.preamble) + day_texts(now.days) =~= had.push(line));
                }
            },
        }
        assert(had.push(line) =~= lines);
    }
}

/// Round trip of a journal: a text whose entries all begin at the start of
/// their lines is reproduced character for character by reading it as a
/// journal and writing the journal.
pub proof fn lemma_journal_round_trip(text: Seq<char>)
    requires
        crate::entries::is_canonical_text(text),
    ensures
        serialize_journal_spec(parse_journal_spec(text)) == text,
{
    lemma_sections_texts(split(text, '\n'));
    lemma_join_split(text, '\n');
}

/// The day that `line` names as a heading: computes [`heading_date`].
pub fn read_heading(line: &Vec<char>) -> (r: Option<Date>)
    ensures
        r == heading_date(line@),
{
    if line.len() != 12 || line[0] != '#' || line[1] != ' ' || line[6] != '/' || line[9] != '/' {
        return None;
    }
    if !(is_ascii_digit(line[2]) && is_ascii_digit(line[3]) && is_ascii_digit(line[4])
        && is_ascii_digit(line[5]) && is_ascii_digit(line[7]) && is_ascii_digit(line[8])
        && is_ascii_digit(line[10]) && is_ascii_digit(line[11])) {
        return None;
    }
    let year: u32 = digit_of(line[2]) * 1000 + digit_of(line[3]) * 100 + digit_of(line[4]) * 10
        + digit_of(line[5]);
    let month: u32 = digit_of(line[7]) * 10 + digit_of(line[8]);
    let day: u32 = digit_of(line[10]) * 10 + digit_of(line[11]);
    Date::from_ymd(year as i32, month, day)
}

/// The character that writes the digit `d`.
fn digit_char_of(d: u32) -> (c: char)
    requires
        d < 10,
    ensures
        c == digit_of_value(d as int),
{
    ((48 + d) as u8) as char
}

/// The heading of the day `date`: computes [`heading_text`].
pub fn write_heading(date: &Date) -> (r: Vec<char>)
    requires
        is_writable(*date),
    ensures
        r@ == heading_text(*date),
{
    let y: u32 = date.year as u32;
    let m: u32 = date.month;
    let d: u32 = date.day;
    let mut r: Vec<char> = Vec::new();
    r.push('#');
    r.push(' ');
    r.push(digit_char_of(y / 1000));
    r.push(digit_char_of(y / 100 % 10));
    r.push(digit_char_of(y / 10 % 10));
    r.push(digit_char_of(y % 10));
    r.push('/');
    r.push(digit_char_of(m / 10));
    r.push(digit_char_of(m % 10));
    r.push('/');
    r.push(digit_char_of(d / 10));
    r.push(digit_char_of(d % 10));
    assert(r@ =~= heading_text(*date));
    r
}

/// Reads a journal from its text.  Reading never fails.
pub fn parse_journal(text: &str) -> (journal: Journal)
    ensures
        journal@ == parse_journal_spec(text@),
        days_writable(journal@.days),
{
    let chars = chars_of(text);
    let raw = split_on(&chars, '\n');
    let ghost lines = texts(raw@);
    let mut preamble: Vec<Line> = Vec::new();
    let mut days: Vec<DayFile> = Vec::new();
    let mut open_date: Option<Date> = None;
    let mut open_lines: Vec<Line> = Vec::new();
    let mut i: usize = 0;
    proof {
        assert(lines.take(0) =~= Seq::<Seq<char>>::empty());
        assert(line_views(preamble@) =~= Seq::<LineView>::empty());
        assert(day_views(days@) =~= Seq::<DayFileView>::empty());
    }
    while i < raw.len()
        invariant
            i <= raw.len(),
            lines == texts(raw@),
            lines == split(text@, '\n'),
            line_views(preamble@) == sections(lines.take(i as int)).preamble,
            match open_date {
                Some(date) => sections(lines.take(i as int)).days == day_views(days@).push(
                    DayFileView { date, lines: line_views(open_lines@) },
                ),
                None => sections(lines.take(i as int)).days.len() == 0 && days@.len() == 0,
            },
        decreases raw.len() - i,
    {
        let ghost before = sections(lines.take(i as int));
        let ghost old_days = day_views(days@);
        let ghost old_open = line_views(open_lines@);
        let ghost old_preamble = line_views(preamble@);
        proof {
            let seen = lines.take(i + 1);
            assert(seen.drop_last() =~= lines.take(i as int));
            assert(seen.last() == raw@[i as int]@);
        }
        match read_heading(&raw[i]) {
            Some(date) => {
                match open_date {
                    Some(open) => {
                        days.push(DayFile { date: open, lines: open_lines });
                        assert(day_views(days@) =~= old_days.push(
                            DayFileView { date: open, lines: old_open },
                        ));
                    },
                    None => {},
                }
                open_date = Some(date);
                open_lines = Vec::new();
                assert(line_views(open_lines@) =~= Seq::<LineView>::empty());
            },
            None => {
                let line = parse_line_chars(&raw[i]);
                match open_date {
                    Some(open) => {
                        open_lines.push(line);
                        assert(line_views(open_lines@) =~= old_open.push(line@));
                        assert(before.days.drop_last() =~= old_days);
                    },
                    None => {
                        preamble.push(line);
                        assert(line_views(preamble@) =~= old_preamble.push(line@));
                    },
                }
            },
        }
        i += 1;
    }
    proof {
        assert(lines.take(raw.len() as int) =~= lines);
        lemma_sections_writable(lines);
    }
    match open_date {
        Some(open) => {
            let ghost old_days = day_views(days@);
            let ghost old_open = line_views(open_lines@);
            days.push(DayFile { date: open, lines: open_lines });
            assert(day_views(days@) =~= old_days.push(DayFileView { date: open, lines: old_open }));
        },
        None => {
            assert(day_views(days@) =~= sections(lines).days);
        },
    }
    Journal { preamble, days }
}

/// Appends the texts of `lines` to `out`.
fn push_line_texts(out: &mut Vec<Vec<char>>, lines: &Vec<Line>)
    ensures
        texts(final(out)@) == texts(old(out)@) + line_texts(line_views(lines@)),
{
    let ghost start = texts(out@);
    let ghost want = line_texts(line_views(lines@));
    let mut i: usize = 0;
    proof {
        assert(start + want.take(0) =~= start);
    }
    while i < lines.len()
        invariant
            i <= lines.len(),
            start == texts(old(out)@),
            want == line_texts(line_views(lines@)),
            texts(out@) == start + want.take(i as int),
        decreases lines.len() - i,
    {
        let ghost had = texts(out@);
        out.push(serialize_line_chars(&lines[i]));
        proof {
            assert(want[i as int] == lines@[i as int]@.text());
            assert(texts(out@) =~= had.push(want[i as int]));
            assert(want.take(i + 1) =~= want.take(i as int).push(want[i as int]));
        }
        i += 1;
    }
    proof {
        assert(want.take(lines.len() as int) =~= want);
    }
}

/// Writes a journal as text.
pub fn serialize_journal(journal: &Journal) -> (text: String)
    requires
        days_writable(journal@.days),
    ensures
        text@ == serialize_journal_spec(journal@),
{
    let mut out: Vec<Vec<char>> = Vec::new();
    proof {
        assert(texts(out@) =~= Seq::<Seq<char>>::empty());
    }
    push_line_texts(&mut out, &journal.preamble);
    let ghost head = line_texts(journal@.preamble);
    let ghost days = journal@.days;
    let mut i: usize = 0;
    proof {
        assert(texts(out@) =~= head);
        assert(days.take(0) =~= Seq::<DayFileView>::empty());
        assert(head + day_texts(days.take(0)) =~= head);
    }
    while i < journal.days.len()
        invariant
            i <= journal.days.len(),
            head == line_texts(journal@.preamble),
            days == journal@.days,
            days_writable(days),
            texts(out@) == head + day_texts(days.take(i as int)),
        decreases journal.days.len() - i,
    {
        let ghost had = texts(out@);
        let day = &journal.days[i];
        proof {
            assert(days[i as int] == day@);
            assert(days.take(i + 1).drop_last() =~= days.take(i as int));
            assert(days.take(i + 1).last() == day@);
        }
        out.push(write_heading(&day.date));
        assert(texts(out@) =~= had.push(heading_text(day.date)));
        push_line_texts(&mut out, &day.lines);
        proof {
            assert(texts(out@) =~= head + day_texts(days.take(i + 1)));
        }
        i += 1;
    }
    proof {
        assert(days.take(journal.days.len() as int) =~= days);
    }
    string_of(&join_with(&out, '\n'))
}

/// The position of the first day of `days` from position `from` on that is
/// stored under `date`.
pub open spec fn first_day_on(days: Seq<DayFileView>, from: int, date: Date) -> Option<int>
    decreases days.len() - from,
{
    if from < 0 || from >= days.len() {
        None
    } else if days[from].date == date {
        Some(from)
    } else {
        first_day_on(days, from + 1, date)
    }
}

/// The lines stored under `date`: those of the first day of that date, and
/// none where there is no such day.
pub open spec fn lines_on(days: Seq<DayFileView>, date: Date) -> Seq<LineView> {
    match first_day_on(days, 0, date) {
        Some(i) => days[i].lines,
        None => Seq::<LineView>::empty(),
    }
}

/// The days after `lines` were stored under `date`: in place of the lines of
/// the first day of that date, or as a new day at the end.
pub open spec fn with_lines_on(days: Seq<DayFileView>, date: Date, lines: Seq<LineView>) -> Seq<
    DayFileView,
> {
    match first_day_on(days, 0, date) {
        Some(i) => days.update(i, DayFileView { date, lines }),
        None => days.push(DayFileView { date, lines }),
    }
}

/// Computes [`first_day_on`].
pub fn find_day(days: &Vec<DayFile>, date: &Date) -> (r: Option<usize>)
    ensures
        match r {
            Some(i) => first_day_on(day_views(days@), 0, *date) == Some(i as int) && i < days.len(),
            None => first_day_on(day_views(days@), 0, *date) is None,
        },
{
    let ghost views = day_views(days@);
    let mut i: usize = 0;
    while i < days.len()
        invariant
            i <= days.len(),
            views == day_views(days@),
            first_day_on(views, i as int, *date) == first_day_on(views, 0, *date),
        decreases days.len() - i,
    {
        assert(views[i as int] == days@[i as int]@);
        if days[i].date.same_day(date) {
            return Some(i);
        }
        i += 1;
    }
    None
}

/// Copies a sequence of lines.
pub fn clone_lines(lines: &Vec<Line>) -> (r: Vec<Line>)
    ensures
        line_views(r@) == line_views(lines@),
{
    let mut r: Vec<Line> = Vec::new();
    let mut i: usize = 0;
    while i < lines.len()
        invariant
            i <= lines.len(),
            r@.len() == i,
            forall|j: int| 0 <= j < i ==> (#[trigger] r@[j])@ == lines@[j]@,
        decreases lines.len() - i,
    {
        r.push(lines[i].clone());
        i += 1;
    }
    assert(line_views(r@) =~= line_views(lines@));
    r
}

/// The lines stored under `date`.
pub fn load_day_lines(journal: &Journal, date: Date) -> (lines: Vec<Line>)
    ensures
        line_views(lines@) == lines_on(journal@.days, date),
{
    match find_day(&journal.days, &date) {
        Some(i) => {
            assert(day_views(journal.days@)[i as int] == journal.days@[i as int]@);
            clone_lines(&journal.days[i].lines)
        },
        None => {
            let lines: Vec<Line> = Vec::new();
            assert(line_views(lines@) =~= Seq::<LineView>::empty());
            lines
        },
    }
}

/// Stores `lines` under `date`, in place of what was stored there.
pub fn save_day_lines(journal: &mut Journal, date: Date, lines: Vec<Line>)
    ensures
        final(journal)@.preamble == old(journal)@.preamble,
        final(journal)@.days == with_lines_on(old(journal)@.days, date, line_views(lines@)),
{
    let ghost before = day_views(journal.days@);
    match find_day(&journal.days, &date) {
        Some(i) => {
            journal.days.set(i, DayFile { date, lines });
            assert(day_views(journal.days@) =~= before.update(
                i as int,
                DayFileView { date, lines: line_views(lines@) },
            ));
        },
        None => {
            journal.days.push(DayFile { date, lines });
            assert(day_views(journal.days@) =~= before.push(
                DayFileView { date, lines: line_views(lines@) },
            ));
        },
    }
}

} // verus!
