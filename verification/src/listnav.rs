//! Moving the selection in a list of which only a window is shown.

use vstd::prelude::*;

verus! {

/// The number of items of a list that are shown at once.
pub const LIST_VISIBLE_HEIGHT: usize = 8;

/// A list of `len` items with one of them selected, shown from item
/// `scroll_offset` on.
#[derive(Debug, Clone, Copy, PartialEq, Eq, Structural)]
pub struct ListState {
    pub len: usize,
    pub selected: usize,
    pub scroll_offset: usize,
}

/// The list after the selection moved one item up: the window follows where
/// the selection would leave it at the top.  At the first item nothing moves.
pub open spec fn moved_up(state: ListState) -> ListState {
    if state.selected > 0 {
        ListState {
            len: state.len,
            selected: (state.selected - 1) as usize,
            scroll_offset: if state.selected - 1 < state.scroll_offset {
                (state.selected - 1) as usize
            } else {
                state.scroll_offset
            },
        }
    } else {
        state
    }
}

/// The list after the selection moved one item down: the window follows
/// where the selection would leave it at the bottom.  At the last item
/// nothing moves.
pub open spec fn moved_down(state: ListState) -> ListState {
    if state.selected + 1 < state.len {
        ListState {
            len: state.len,
            selected: (state.selected + 1) as usize,
            scroll_offset: if state.selected + 1 >= state.scroll_offset + LIST_VISIBLE_HEIGHT {
                (state.selected + 2 - LIST_VISIBLE_HEIGHT) as usize
            } else {
                state.scroll_offset
            },
        }
    } else {
        state
    }
}

/// Moves the selection one item up.
pub fn list_move_up(state: &mut ListState)
    ensures
        *final(state) == moved_up(*old(state)),
{
    if state.selected > 0 {
        state.selected = state.selected - 1;
        if state.selected < state.scroll_offset {
            state.scroll_offset = state.selected;
        }
    }
}

/// Moves the selection one item down.
pub fn list_move_down(state: &mut ListState)
    ensures
        *final(state) == moved_down(*old(state)),
{
    if state.selected < state.len && state.len - state.selected > 1 {
        state.selected = state.selected + 1;
        if state.selected >= LIST_VISIBLE_HEIGHT && state.selected - LIST_VISIBLE_HEIGHT
            >= state.scroll_offset {
            state.scroll_offset = state.selected - LIST_VISIBLE_HEIGHT + 1;
        }
    }
}

} // verus!
