//! Dates carried by entries, and the entries that appear on a day through
//! them.
//!
//! An entry carries a date where its content holds `@` followed by a date
//! expression.  The expression is read relative to the day under which the
//! entry is stored; the entry then appears on the day it names as well, and
//! an entry with a recurrence on every day that the recurrence picks.
//! Nothing is copied: what is collected points back at the stored line.

use crate::date::weekday_number;
use crate::date::Date;
use crate::dateexpr::read_date_expr;
use crate::dateexpr::recognize;
use crate::dateexpr::resolve;
use crate::dateexpr::resolve_date_expr;
use crate::dateexpr::DateExpr;
use crate::dateexpr::DateForm;
use crate::dateexpr::ParseContext;
use crate::dayfile::collect_entries;
use crate::dayfile::day_views;
use crate::dayfile::days_valid;
use crate::dayfile::selected;
use crate::dayfile::DayFile;
use crate::dayfile::EntryPredicate;
use crate::entries::cross_day_views;
use crate::entries::Entry;
use crate::entries::EntryView;
use crate::entries::LaterEntry;
use crate::text::chars_of;
use crate::text::copy_range;
use crate::text::is_alnum;
use crate::text::is_ascii_alphanumeric;
use crate::text::lower;
use crate::text::lowercase;
use vstd::prelude::*;

verus! {

/// `c` may stand in a date expression.
pub open spec fn is_date_char(c: char) -> bool {
    is_alnum(c) || c == '/' || c == '-' || c == '+'
}

/// How many characters that may stand in a date expression follow one another
/// in `s` from position `from` on.
pub open spec fn date_run_len(s: Seq<char>, from: int) -> nat
    decreases s.len() - from,
{
    if 0 <= from < s.len() && is_date_char(s[from]) {
        1 + date_run_len(s, from + 1)
    } else {
        0
    }
}

/// The text after the `@` at position `at`, as far as it can belong to a date
/// expression.
pub open spec fn date_token_at(s: Seq<char>, at: int) -> Seq<char> {
    s.subrange(at + 1, at + 1 + date_run_len(s, at + 1))
}

/// The date expression that the `@` at position `at` introduces, if there is
/// an `@` and what follows it is a date expression.
pub open spec fn date_expr_at(s: Seq<char>, at: int) -> Option<DateExpr> {
    if 0 <= at < s.len() && s[at] == '@' {
        recognize(lower(date_token_at(s, at)))
    } else {
        None
    }
}

/// The first date expression of `s` at or after position `from`.
pub open spec fn first_date_from(s: Seq<char>, from: int) -> Option<DateExpr>
    decreases s.len() - from,
{
    if from < 0 || from >= s.len() {
        None
    } else if date_expr_at(s, from) is Some {
        date_expr_at(s, from)
    } else {
        first_date_from(s, from + 1)
    }
}

/// The date expression that an entry's content carries: its first one.
pub open spec fn entry_date(content: Seq<char>) -> Option<DateExpr> {
    first_date_from(content, 0)
}

/// A run of date characters that is closed by something else has the length
/// of the run.
pub proof fn lemma_date_run(s: Seq<char>, from: int, end: int)
    requires
        0 <= from <= end <= s.len(),
        forall|j: int| from <= j < end ==> is_date_char(#[trigger] s[j]),
        end == s.len() || !is_date_char(s[end]),
    ensures
        date_run_len(s, from) == end - from,
    decreases end - from,
{
    if from < end {
        lemma_date_run(s, from + 1, end);
    }
}

/// Decides [`is_date_char`].
pub fn date_char(c: char) -> (r: bool)
    ensures
        r == is_date_char(c),
{
    is_ascii_alphanumeric(c) || c == '/' || c == '-' || c == '+'
}

/// The position behind the run of date characters that begins at `from`.
pub fn date_run_end(v: &Vec<char>, from: usize) -> (end: usize)
    requires
        from <= v.len(),
    ensures
        end == from + date_run_len(v@, from as int),
        from <= end <= v.len(),
{
    let mut end: usize = from;
    while end < v.len() && date_char(v[end])
        invariant
            from <= end <= v.len(),
            forall|j: int| from <= j < end ==> is_date_char(#[trigger] v@[j]),
        decreases v.len() - end,
    {
        end += 1;
    }
    proof {
        lemma_date_run(v@, from as int, end as int);
    }
    end
}

/// Computes [`date_expr_at`].
pub fn date_expr_in(v: &Vec<char>, at: usize) -> (r: Option<DateExpr>)
    ensures
        r == date_expr_at(v@, at as int),
{
    if at >= v.len() || v[at] != '@' {
        return None;
    }
    let from: usize = at + 1;
    let end = date_run_end(v, from);
    let token = copy_range(v, from, end);
    let lowered = lowercase(&token);
    read_date_expr(&lowered)
}

/// The date expression that `content` carries: computes [`entry_date`].
pub fn entry_date_expr(content: &Vec<char>) -> (r: Option<DateExpr>)
    ensures
        r == entry_date(content@),
{
    let mut at: usize = 0;
    while at < content.len()
        invariant
            at <= content.len(),
            first_date_from(content@, at as int) == first_date_from(content@, 0),
        decreases content.len() - at,
    {
        let found = date_expr_in(content, at);
        if found.is_some() {
            return found;
        }
        at += 1;
    }
    None
}

/// An entry stored under `source` with the date expression `expr` is due on
/// `target`: the expression, read on the source day, names the target; or it
/// is a recurrence that picks the target.
pub open spec fn targets(expr: DateExpr, source: Date, target: Date) -> bool {
    match expr.form {
        DateForm::EveryWeekday(w) => weekday_number(target) == w.number(),
        DateForm::EveryDay(n) => target.day == n,
        _ => resolve(expr, ParseContext::Entry, source) == Some(target),
    }
}

/// The entry `e`, stored under `source`, appears on the day `target`, which is
/// another day than the one it is stored under.
pub open spec fn projects_onto(e: EntryView, source: Date, target: Date) -> bool {
    source != target && entry_date(e.content) is Some && targets(
        entry_date(e.content)->0,
        source,
        target,
    )
}

/// Decides [`targets`].
pub fn expr_targets(expr: &DateExpr, source: &Date, target: &Date) -> (r: bool)
    requires
        source.valid(),
        target.valid(),
    ensures
        r == targets(*expr, *source, *target),
{
    match expr.form {
        DateForm::EveryWeekday(w) => target.weekday().index() == w.index(),
        DateForm::EveryDay(n) => target.day == n,
        _ => match resolve_date_expr(expr, ParseContext::Entry, source) {
            Some(date) => date.same_day(target),
            None => false,
        },
    }
}

/// The condition of being due on a given day.
pub struct DueOn {
    pub target: Date,
}

impl EntryPredicate for DueOn {
    open spec fn ready(&self) -> bool {
        self.target.valid()
    }

    open spec fn holds(&self, date: Date, e: EntryView) -> bool {
        projects_onto(e, date, self.target)
    }

    fn test(&self, date: &Date, e: &Entry) -> (r: bool) {
        if date.same_day(&self.target) {
            return false;
        }
        let content = chars_of(e.content.as_str());
        match entry_date_expr(&content) {
            Some(expr) => expr_targets(&expr, date, &self.target),
            None => false,
        }
    }
}

/// The entries of other days that appear on `target`: by source date
/// ascending, and within a day in document order.  Each points at the line
/// where it is stored.
pub fn collect_later_entries_for_date(days: &Vec<DayFile>, target: Date) -> (out: Vec<LaterEntry>)
    requires
        days_valid(day_views(days@)),
        target.valid(),
    ensures
        cross_day_views(out@) == selected(day_views(days@), DueOn { target }),
{
    let due = DueOn { target };
    collect_entries(days, &due)
}

} // verus!
