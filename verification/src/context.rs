//! The journal context: which journal files there are, and which of them is
//! the active one.  The context is a value that the session owns and hands to
//! whatever needs it.

use vstd::prelude::*;

verus! {

/// The two journals that a session can work on.
#[derive(Debug, Clone, Copy, PartialEq, Eq, Structural)]
pub enum JournalSlot {
    Global,
    Project,
}

/// The journals of a session.
#[derive(Debug, PartialEq)]
pub struct JournalContext {
    pub global_path: String,
    pub project_path: Option<String>,
    pub active: JournalSlot,
}

/// What a [`JournalContext`] holds, as mathematics.
pub struct JournalContextView {
    pub global_path: Seq<char>,
    pub project_path: Option<Seq<char>>,
    pub active: JournalSlot,
}

/// The text of an optional string.
pub open spec fn option_text(s: Option<String>) -> Option<Seq<char>> {
    match s {
        Some(s) => Some(s@),
        None => None,
    }
}

impl View for JournalContext {
    type V = JournalContextView;

    open spec fn view(&self) -> JournalContextView {
        JournalContextView {
            global_path: self.global_path@,
            project_path: option_text(self.project_path),
            active: self.active,
        }
    }
}

/// The view of a context that may not be set.
pub open spec fn context_view(ctx: Option<JournalContext>) -> Option<JournalContextView> {
    match ctx {
        Some(c) => Some(c@),
        None => None,
    }
}

/// The path of the journal that is active in a context: the project journal
/// where the project slot is active and a project journal is known, the
/// global journal otherwise, and `fallback` where no context is set.
pub open spec fn active_path(ctx: Option<JournalContextView>, fallback: Seq<char>) -> Seq<char> {
    match ctx {
        Some(c) => match c.active {
            JournalSlot::Global => c.global_path,
            JournalSlot::Project => match c.project_path {
                Some(p) => p,
                None => c.global_path,
            },
        },
        None => fallback,
    }
}

/// Sets the context.
pub fn set_journal_context(
    ctx: &mut Option<JournalContext>,
    global: String,
    project: Option<String>,
    active: JournalSlot,
)
    ensures
        context_view(*final(ctx)) == Some(
            JournalContextView {
                global_path: global@,
                project_path: option_text(project),
                active,
            },
        ),
{
    *ctx = Some(JournalContext { global_path: global, project_path: project, active });
}

/// The slot that is active; the global one where no context is set.
pub fn get_active_slot(ctx: &Option<JournalContext>) -> (slot: JournalSlot)
    ensures
        slot == match *ctx {
            Some(c) => c.active,
            None => JournalSlot::Global,
        },
{
    match ctx {
        Some(c) => c.active,
        None => JournalSlot::Global,
    }
}

/// Makes `slot` the active one.  Nothing happens where no context is set.
pub fn set_active_slot(ctx: &mut Option<JournalContext>, slot: JournalSlot)
    ensures
        context_view(*final(ctx)) == match context_view(*old(ctx)) {
            Some(c) => Some(JournalContextView { active: slot, ..c }),
            None => None,
        },
{
    match ctx.take() {
        Some(c) => {
            *ctx = Some(
                JournalContext {
                    global_path: c.global_path,
                    project_path: c.project_path,
                    active: slot,
                },
            );
        },
        None => {},
    }
}

/// The path of the project journal, where one is known.
pub fn get_project_path(ctx: &Option<JournalContext>) -> (path: Option<String>)
    ensures
        option_text(path) == match context_view(*ctx) {
            Some(c) => c.project_path,
            None => None,
        },
{
    match ctx {
        Some(c) => match &c.project_path {
            Some(p) => Some(p.clone()),
            None => None,
        },
        None => None,
    }
}

/// Makes `path` the project journal.  Nothing happens where no context is
/// set.
pub fn set_project_path(ctx: &mut Option<JournalContext>, path: String)
    ensures
        context_view(*final(ctx)) == match context_view(*old(ctx)) {
            Some(c) => Some(JournalContextView { project_path: Some(path@), ..c }),
            None => None,
        },
{
    match ctx.take() {
        Some(c) => {
            *ctx = Some(
                JournalContext {
                    global_path: c.global_path,
                    project_path: Some(path),
                    active: c.active,
                },
            );
        },
        None => {},
    }
}

/// Unsets the context.
pub fn reset_journal_context(ctx: &mut Option<JournalContext>)
    ensures
        *final(ctx) is None,
{
    *ctx = None;
}

/// The path of the journal that is active; `fallback` where no context is
/// set.
pub fn get_active_journal_path(ctx: &Option<JournalContext>, fallback: &str) -> (path: String)
    ensures
        path@ == active_path(context_view(*ctx), fallback@),
{
    match ctx {
        Some(c) => match c.active {
            JournalSlot::Global => c.global_path.clone(),
            JournalSlot::Project => match &c.project_path {
                Some(p) => p.clone(),
                None => c.global_path.clone(),
            },
        },
        None => fallback.to_owned(),
    }
}

} // verus!
