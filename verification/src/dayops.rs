//! Changes to the lines of a day, and what they mean for entries that are
//! shown away from their day.
//!
//! Every change is addressed by a position in the day's line sequence.  A
//! position that holds no entry, or lies outside the lines, changes nothing.

use crate::date::Date;
use crate::entries::line_views;
use crate::entries::CrossDayEntry;
use crate::entries::CrossDayEntryView;
use crate::entries::Entry;
use crate::entries::EntryType;
use crate::entries::EntryView;
use crate::entries::Line;
use crate::entries::LineView;
use vstd::prelude::*;

verus! {

/// The entry at position `at` of `lines`, where there is one.
pub open spec fn entry_at(lines: Seq<LineView>, at: int) -> Option<EntryView> {
    if 0 <= at < lines.len() {
        match lines[at] {
            LineView::Entry(e) => Some(e),
            LineView::Raw(_) => None,
        }
    } else {
        None
    }
}

/// The lines with the entry at position `at` replaced by `e`; the lines as
/// they are where no entry stands there.
pub open spec fn with_entry_at(lines: Seq<LineView>, at: int, e: EntryView) -> Seq<LineView> {
    if entry_at(lines, at) is Some {
        lines.update(at, LineView::Entry(e))
    } else {
        lines
    }
}

/// The lines without the entry at position `at`; the lines as they are where
/// no entry stands there.
pub open spec fn without_entry_at(lines: Seq<LineView>, at: int) -> Seq<LineView> {
    if entry_at(lines, at) is Some {
        lines.remove(at)
    } else {
        lines
    }
}

/// A copy of the entry at position `at`: computes [`entry_at`].
pub fn get_entry(lines: &Vec<Line>, line_index: usize) -> (r: Option<Entry>)
    ensures
        r is Some <==> entry_at(line_views(lines@), line_index as int) is Some,
        r is Some ==> r->0@ == entry_at(line_views(lines@), line_index as int)->0,
{
    if line_index >= lines.len() {
        return None;
    }
    assert(line_views(lines@)[line_index as int] == lines@[line_index as int]@);
    match &lines[line_index] {
        Line::Entry(e) => Some(e.clone()),
        Line::Raw(_) => None,
    }
}

/// Takes the entry at position `line_index` out of the lines and returns it.
pub fn delete_entry(lines: &mut Vec<Line>, line_index: usize) -> (r: Option<Entry>)
    ensures
        r is Some <==> entry_at(line_views(old(lines)@), line_index as int) is Some,
        r is Some ==> r->0@ == entry_at(line_views(old(lines)@), line_index as int)->0,
        line_views(final(lines)@) == without_entry_at(line_views(old(lines)@), line_index as int),
{
    let found = get_entry(lines, line_index);
    if found.is_some() {
        let ghost before = line_views(lines@);
        lines.remove(line_index);
        assert(line_views(lines@) =~= before.remove(line_index as int));
    }
    found
}

/// Puts `entry` back at position `line_index`, or at the end where the lines
/// have become shorter than that, and returns the position it stands at.
pub fn restore_entry(lines: &mut Vec<Line>, line_index: usize, entry: Entry) -> (at: usize)
    ensures
        at == if line_index <= old(lines)@.len() {
            line_index as int
        } else {
            old(lines)@.len() as int
        },
        line_views(final(lines)@) == line_views(old(lines)@).insert(
            at as int,
            LineView::Entry(entry@),
        ),
{
    let at = if line_index <= lines.len() {
        line_index
    } else {
        lines.len()
    };
    let ghost before = line_views(lines@);
    let ghost view = entry@;
    lines.insert(at, Line::Entry(entry));
    assert(line_views(lines@) =~= before.insert(at as int, LineView::Entry(view)));
    at
}

/// Replaces the entry at position `line_index` by `entry`, where an entry
/// stands there.
fn replace_entry(lines: &mut Vec<Line>, line_index: usize, entry: Entry)
    requires
        entry_at(line_views(old(lines)@), line_index as int) is Some,
    ensures
        line_views(final(lines)@) == with_entry_at(
            line_views(old(lines)@),
            line_index as int,
            entry@,
        ),
{
    let ghost before = line_views(lines@);
    let ghost view = entry@;
    lines.set(line_index, Line::Entry(entry));
    assert(line_views(lines@) =~= before.update(line_index as int, LineView::Entry(view)));
}

/// Flips the completion of the task at position `line_index`, and says whether
/// an entry stands there.  A note or an event stays as it is.
pub fn toggle_entry_complete(lines: &mut Vec<Line>, line_index: usize) -> (found: bool)
    ensures
        found == (entry_at(line_views(old(lines)@), line_index as int) is Some),
        found ==> line_views(final(lines)@) == with_entry_at(
            line_views(old(lines)@),
            line_index as int,
            entry_at(line_views(old(lines)@), line_index as int)->0.toggled(),
        ),
        !found ==> line_views(final(lines)@) == line_views(old(lines)@),
{
    match get_entry(lines, line_index) {
        Some(entry) => {
            let mut entry = entry;
            entry.toggle_complete();
            replace_entry(lines, line_index, entry);
            true
        },
        None => false,
    }
}

/// Gives the entry at position `line_index` the text `content`, and says
/// whether an entry stands there.
pub fn update_entry_content(lines: &mut Vec<Line>, line_index: usize, content: &str) -> (found:
    bool)
    ensures
        found == (entry_at(line_views(old(lines)@), line_index as int) is Some),
        found ==> line_views(final(lines)@) == with_entry_at(
            line_views(old(lines)@),
            line_index as int,
            EntryView {
                entry_type: entry_at(line_views(old(lines)@), line_index as int)->0.entry_type,
                content: content@,
            },
        ),
        !found ==> line_views(final(lines)@) == line_views(old(lines)@),
{
    match get_entry(lines, line_index) {
        Some(entry) => {
            replace_entry(
                lines,
                line_index,
                Entry { entry_type: entry.entry_type, content: content.to_owned() },
            );
            true
        },
        None => false,
    }
}

/// Gives the entry at position `line_index` the next type, and returns that
/// type; `None` where no entry stands there.
pub fn cycle_entry_type(lines: &mut Vec<Line>, line_index: usize) -> (r: Option<EntryType>)
    ensures
        r is Some <==> entry_at(line_views(old(lines)@), line_index as int) is Some,
        r is Some ==> r->0 == entry_at(
            line_views(old(lines)@),
            line_index as int,
        )->0.entry_type.next() && line_views(final(lines)@) == with_entry_at(
            line_views(old(lines)@),
            line_index as int,
            EntryView {
                entry_type: r->0,
                content: entry_at(line_views(old(lines)@), line_index as int)->0.content,
            },
        ),
        r is None ==> line_views(final(lines)@) == line_views(old(lines)@),
{
    match get_entry(lines, line_index) {
        Some(entry) => {
            let next = entry.entry_type.cycle();
            replace_entry(lines, line_index, Entry { entry_type: next, content: entry.content });
            Some(next)
        },
        None => None,
    }
}

/// Where a line that stood at position `at` of the day `date` stands after the
/// line at position `removed` of the day `source` was taken out: one line
/// earlier where it stood behind that line in the same day, and where it was
/// otherwise.
pub open spec fn position_after_delete(date: Date, at: int, source: Date, removed: int) -> int {
    if date == source && at > removed {
        at - 1
    } else {
        at
    }
}

/// A cross-day entry after the line at position `removed` of the day `source`
/// was taken out.
pub open spec fn after_delete(e: CrossDayEntryView, source: Date, removed: int) -> CrossDayEntryView {
    CrossDayEntryView {
        line_index: position_after_delete(e.source_date, e.line_index, source, removed),
        ..e
    }
}

/// Makes the cross-day entries point at their lines again after the line at
/// position `line_index` of the day `source_date` was taken out.
pub fn shift_after_delete(entries: &mut Vec<CrossDayEntry>, source_date: Date, line_index: usize)
    ensures
        final(entries)@.len() == old(entries)@.len(),
        forall|k: int|
            0 <= k < old(entries)@.len() ==> (#[trigger] final(entries)@[k])@ == after_delete(
                old(entries)@[k]@,
                source_date,
                line_index as int,
            ),
{
    let mut k: usize = 0;
    while k < entries.len()
        invariant
            k <= entries.len(),
            entries@.len() == old(entries)@.len(),
            forall|j: int|
                0 <= j < k ==> (#[trigger] entries@[j])@ == after_delete(
                    old(entries)@[j]@,
                    source_date,
                    line_index as int,
                ),
            forall|j: int| k <= j < entries@.len() ==> entries@[j] == old(entries)@[j],
        decreases entries.len() - k,
    {
        if entries[k].source_date.same_day(&source_date) && entries[k].line_index > line_index {
            let moved = CrossDayEntry {
                source_date: entries[k].source_date,
                line_index: entries[k].line_index - 1,
                content: entries[k].content.clone(),
                entry_type: entries[k].entry_type,
                completed: entries[k].completed,
            };
            entries.set(k, moved);
        }
        k += 1;
    }
}

/// A cross-day entry after its task was toggled: the completion flipped, in
/// the flag and, for a task, in the type.
pub open spec fn after_toggle(e: CrossDayEntryView) -> CrossDayEntryView {
    CrossDayEntryView {
        completed: !e.completed,
        entry_type: match e.entry_type {
            EntryType::Task { .. } => EntryType::Task { completed: !e.completed },
            other => other,
        },
        ..e
    }
}

/// Flips the completion that a cross-day entry shows.
pub fn mark_toggled(entry: &mut CrossDayEntry)
    ensures
        final(entry)@ == after_toggle(old(entry)@),
{
    let completed = !entry.completed;
    entry.completed = completed;
    match entry.entry_type {
        EntryType::Task { .. } => {
            entry.entry_type = EntryType::Task { completed };
        },
        _ => {},
    }
}

} // verus!
