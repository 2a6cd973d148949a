//! What the two views of a journal remember: the daily view of one day, and
//! the filter view of what a query found.

use crate::cursor::CursorBuffer;
use crate::entries::FilterEntry;
use crate::entries::LaterEntry;
use crate::entries::Line;
use vstd::prelude::*;

verus! {

/// The number of lines above the entries of the daily view.
pub const DAILY_HEADER_LINES: usize = 1;

/// The number of lines above the entries of the filter view.
pub const FILTER_HEADER_LINES: usize = 1;

/// What the daily view remembers.
pub struct DailyState {
    pub selected: usize,
    pub scroll_offset: usize,
    pub original_lines: Option<Vec<Line>>,
    pub later_entries: Vec<LaterEntry>,
}

/// What the filter view remembers.
pub struct FilterState {
    pub query: String,
    pub query_buffer: CursorBuffer,
    pub entries: Vec<FilterEntry>,
    pub selected: usize,
    pub scroll_offset: usize,
}

/// The view that is shown, with what it remembers.
pub enum ViewMode {
    Daily(DailyState),
    Filter(FilterState),
}

/// The item that is selected when a day is opened that has `entry_count`
/// entries of its own and `later_count` entries from other days: the first
/// item where entries from other days lead the list, else the last entry.
pub open spec fn opening_selection(entry_count: nat, later_count: nat) -> nat {
    if later_count > 0 || entry_count == 0 {
        0
    } else {
        (entry_count - 1) as nat
    }
}

/// The selection `selected` brought back into a list of `count` items: the
/// last item where it lay behind the list, and as it was otherwise or where
/// the list is empty.
pub open spec fn clamped(selected: nat, count: nat) -> nat {
    if count > 0 && selected >= count {
        (count - 1) as nat
    } else {
        selected
    }
}

/// Computes [`clamped`].
pub fn clamp_selection(selected: usize, count: usize) -> (r: usize)
    ensures
        r == clamped(selected as nat, count as nat),
{
    if count > 0 && selected >= count {
        count - 1
    } else {
        selected
    }
}

impl DailyState {
    /// The daily view as it is when a day is opened.
    pub fn new(entry_count: usize, later_entries: Vec<LaterEntry>) -> (r: Self)
        ensures
            r.selected == opening_selection(entry_count as nat, later_entries@.len()),
            r.scroll_offset == 0,
            r.original_lines is None,
            r.later_entries == later_entries,
    {
        let selected = if later_entries.len() == 0 && entry_count > 0 {
            entry_count - 1
        } else {
            0
        };
        DailyState { selected, scroll_offset: 0, original_lines: None, later_entries }
    }
}

impl FilterState {
    /// The filter view as it is when a query was run: the last entry found is
    /// selected.
    pub fn new(query: String, entries: Vec<FilterEntry>) -> (r: Self)
        ensures
            r.query == query,
            r.entries == entries,
            r.query_buffer.text() == Seq::<char>::empty(),
            r.selected == if entries@.len() > 0 {
                (entries@.len() - 1) as nat
            } else {
                0
            },
            r.scroll_offset == 0,
    {
        let selected = if entries.len() > 0 {
            entries.len() - 1
        } else {
            0
        };
        FilterState { query, query_buffer: CursorBuffer::empty(), entries, selected, scroll_offset: 0 }
    }

    /// The line of the view on which the selected entry stands.  The line lies
    /// inside the view as long as the selection lies among the entries.
    pub fn visual_line(&self) -> (r: usize)
        requires
            self.selected < usize::MAX,
        ensures
            r == self.selected + FILTER_HEADER_LINES,
    {
        self.selected + FILTER_HEADER_LINES
    }

    /// The number of lines of the view.
    pub fn total_lines(&self) -> (r: usize)
        requires
            self.entries@.len() < usize::MAX,
        ensures
            r == self.entries@.len() + FILTER_HEADER_LINES,
    {
        self.entries.len() + FILTER_HEADER_LINES
    }
}

} // verus!
