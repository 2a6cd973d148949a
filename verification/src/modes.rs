//! The modes of the interface, as far as the journal's logic speaks of them.

use vstd::prelude::*;

verus! {

/// What the keys act on.
#[derive(Debug, Clone, Copy, PartialEq, Eq, Structural)]
pub enum Mode {
    Daily,
    Edit,
    Command,
    Tasks,
    Order,
}

/// What a confirmation asks about.
#[derive(Debug, Clone, Copy, PartialEq, Eq, Structural)]
pub enum ConfirmContext {
    CreateProjectJournal,
    AddToGitignore,
}

/// Where a new entry goes.
#[derive(Debug, Clone, Copy, PartialEq, Eq, Structural)]
pub enum InsertPosition {
    /// After the last line.
    Bottom,
    /// After the selected entry.
    Below,
    /// Before the selected entry.
    Above,
}

/// The line at which a new entry is inserted into a day of `len` lines, where
/// the selected entry, if there is one, stands at line `selected`.
pub open spec fn insertion_line(position: InsertPosition, selected: Option<int>, len: int) -> int {
    match (position, selected) {
        (InsertPosition::Below, Some(line)) => line + 1,
        (InsertPosition::Above, Some(line)) => line,
        _ => len,
    }
}

impl InsertPosition {
    /// The line at which a new entry is inserted: computes
    /// [`insertion_line`].
    pub fn line(&self, selected: Option<usize>, len: usize) -> (at: usize)
        requires
            selected is Some ==> selected->0 < len,
        ensures
            at == insertion_line(
                *self,
                match selected {
                    Some(line) => Some(line as int),
                    None => None,
                },
                len as int,
            ),
            at <= len,
    {
        match (self, selected) {
            (InsertPosition::Below, Some(line)) => line + 1,
            (InsertPosition::Above, Some(line)) => line,
            _ => len,
        }
    }
}

} // verus!
