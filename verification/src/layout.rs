//! Sizes and marks of the list that shows entries: how wide the list is beside
//! the calendar, and the mark that says in which directions it can scroll.

use crate::text::append_chars;
use crate::text::chars_of;
use crate::text::string_of;
use vstd::prelude::*;

verus! {

/// How the scroll mark is written.
#[derive(Debug, Clone, Copy, PartialEq, Eq, Structural)]
pub enum ScrollIndicatorStyle {
    /// The arrows alone.
    Arrows,
    /// The arrows with a label, set off by padding.
    Labeled,
}

/// The texts that a scroll mark is made of.
#[derive(Debug, PartialEq)]
pub struct ScrollGlyphs {
    /// The arrows for a list that scrolls both ways.
    pub both: String,
    /// The arrow for a list that scrolls up only.
    pub up: String,
    /// The arrow for a list that scrolls down only.
    pub down: String,
    /// What stands on both sides of a labeled mark.
    pub padding: String,
    /// What stands behind the arrows of a labeled mark.
    pub label: String,
}

/// What a [`ScrollGlyphs`] holds, as mathematics.
pub struct ScrollGlyphsView {
    pub both: Seq<char>,
    pub up: Seq<char>,
    pub down: Seq<char>,
    pub padding: Seq<char>,
    pub label: Seq<char>,
}

impl View for ScrollGlyphs {
    type V = ScrollGlyphsView;

    open spec fn view(&self) -> ScrollGlyphsView {
        ScrollGlyphsView {
            both: self.both@,
            up: self.up@,
            down: self.down@,
            padding: self.padding@,
            label: self.label@,
        }
    }
}

/// The arrows for a list that can scroll up, down, or both ways; `None` where
/// it can scroll neither way.
pub open spec fn scroll_arrows(up: bool, down: bool, glyphs: ScrollGlyphsView) -> Option<
    Seq<char>,
> {
    if up && down {
        Some(glyphs.both)
    } else if up {
        Some(glyphs.up)
    } else if down {
        Some(glyphs.down)
    } else {
        None
    }
}

/// The scroll mark: nothing for a list that cannot scroll; else the arrows,
/// and in the labeled style the arrows and the label between padding.
pub open spec fn scroll_indicator(
    up: bool,
    down: bool,
    style: ScrollIndicatorStyle,
    glyphs: ScrollGlyphsView,
) -> Option<Seq<char>> {
    match scroll_arrows(up, down, glyphs) {
        Some(arrows) => match style {
            ScrollIndicatorStyle::Arrows => Some(arrows),
            ScrollIndicatorStyle::Labeled => Some(
                glyphs.padding + arrows + glyphs.label + glyphs.padding,
            ),
        },
        None => None,
    }
}

/// Computes [`scroll_indicator`].
pub fn scroll_indicator_text(
    can_scroll_up: bool,
    can_scroll_down: bool,
    style: ScrollIndicatorStyle,
    glyphs: &ScrollGlyphs,
) -> (r: Option<String>)
    ensures
        r is Some <==> scroll_indicator(can_scroll_up, can_scroll_down, style, glyphs@) is Some,
        r is Some ==> r->0@ == scroll_indicator(
            can_scroll_up,
            can_scroll_down,
            style,
            glyphs@,
        )->0,
{
    let arrows = if can_scroll_up && can_scroll_down {
        chars_of(glyphs.both.as_str())
    } else if can_scroll_up {
        chars_of(glyphs.up.as_str())
    } else if can_scroll_down {
        chars_of(glyphs.down.as_str())
    } else {
        return None;
    };
    match style {
        ScrollIndicatorStyle::Arrows => Some(string_of(&arrows)),
        ScrollIndicatorStyle::Labeled => {
            let padding = chars_of(glyphs.padding.as_str());
            let label = chars_of(glyphs.label.as_str());
            let mut out: Vec<char> = Vec::new();
            append_chars(&mut out, &padding);
            append_chars(&mut out, &arrows);
            append_chars(&mut out, &label);
            append_chars(&mut out, &padding);
            assert(out@ =~= glyphs@.padding + arrows@ + glyphs@.label + glyphs@.padding);
            Some(string_of(&out))
        },
    }
}

/// The number of columns that the frame and the padding of the list take.
pub const LIST_FRAME_WIDTH: u16 = 4;

/// The width of the calendar beside the list on a screen of `total_width`
/// columns: the width of its panel, but so that one column is left.
pub open spec fn calendar_width(total_width: int, shown: bool, panel_width: int) -> int {
    let total = if total_width < 1 {
        1
    } else {
        total_width
    };
    if !shown {
        0
    } else if panel_width < total - 1 {
        panel_width
    } else {
        total - 1
    }
}

/// The width of the text of the list of a day on a screen of `total_width`
/// columns: what the calendar leaves, less the frame of the list, and one
/// column less where the calendar is shown; never below 0.
pub open spec fn daily_list_width(total_width: int, shown: bool, panel_width: int) -> int {
    let total = if total_width < 1 {
        1
    } else {
        total_width
    };
    let list = total - calendar_width(total_width, shown, panel_width);
    let taken = if shown {
        LIST_FRAME_WIDTH + 1
    } else {
        LIST_FRAME_WIDTH as int
    };
    if list > taken {
        list - taken
    } else {
        0
    }
}

/// Computes [`daily_list_width`].
pub fn list_content_width_for_daily(
    total_width: u16,
    show_calendar_sidebar: bool,
    calendar_panel_width: u16,
) -> (r: usize)
    ensures
        r == daily_list_width(
            total_width as int,
            show_calendar_sidebar,
            calendar_panel_width as int,
        ),
{
    let total: u16 = if total_width < 1 {
        1
    } else {
        total_width
    };
    let calendar: u16 = if !show_calendar_sidebar {
        0
    } else if calendar_panel_width < total - 1 {
        calendar_panel_width
    } else {
        total - 1
    };
    let list: u16 = total - calendar;
    let taken: u16 = if show_calendar_sidebar {
        LIST_FRAME_WIDTH + 1
    } else {
        LIST_FRAME_WIDTH
    };
    if list > taken {
        (list - taken) as usize
    } else {
        0
    }
}

} // verus!
