//! The vocabulary that completion draws on: the commands of the prompt, the
//! syntax of filter queries, and the forms of date values.
//!
//! Each list is given in the order in which its items are offered.

use vstd::prelude::*;

verus! {

/// A command of the prompt.
#[derive(Clone, Copy, Debug, PartialEq)]
pub struct Command {
    pub name: &'static str,
    pub completion_hint: &'static str,
}

/// What a [`Command`] holds, as mathematics.
pub struct CommandView {
    pub name: Seq<char>,
    pub completion_hint: Seq<char>,
}

impl View for Command {
    type V = CommandView;

    open spec fn view(&self) -> CommandView {
        CommandView { name: self.name@, completion_hint: self.completion_hint@ }
    }
}

/// The views of a sequence of commands.
pub open spec fn command_views(list: Seq<Command>) -> Seq<CommandView> {
    Seq::new(list.len(), |i: int| list[i]@)
}

/// The commands, in the order in which they are offered.
pub open spec fn command_list() -> Seq<CommandView> {
    seq![
        CommandView { name: "quit"@, completion_hint: "Save and quit"@ },
        CommandView { name: "goto"@, completion_hint: "Go to a date (MM/DD, MM/DD/YY, tomorrow, fri, d7)"@ },
        CommandView { name: "open"@, completion_hint: "Open a journal file"@ },
        CommandView { name: "config-reload"@, completion_hint: "Reload the configuration"@ },
        CommandView { name: "global"@, completion_hint: "Switch to the global journal"@ },
        CommandView { name: "project"@, completion_hint: "Switch to the project journal"@ },
        CommandView { name: "init-project"@, completion_hint: "Create a project journal"@ },
    ]
}

/// The commands: computes [`command_list`].
pub fn commands() -> (list: Vec<Command>)
    ensures
        command_views(list@) == command_list(),
{
    let mut list: Vec<Command> = Vec::new();
    list.push(Command { name: "quit", completion_hint: "Save and quit" });
    list.push(
        Command {
            name: "goto",
            completion_hint: "Go to a date (MM/DD, MM/DD/YY, tomorrow, fri, d7)",
        },
    );
    list.push(Command { name: "open", completion_hint: "Open a journal file" });
    list.push(Command { name: "config-reload", completion_hint: "Reload the configuration" });
    list.push(Command { name: "global", completion_hint: "Switch to the global journal" });
    list.push(Command { name: "project", completion_hint: "Switch to the project journal" });
    list.push(Command { name: "init-project", completion_hint: "Create a project journal" });
    assert(command_views(list@) =~= command_list());
    list
}

/// The kinds of syntax of a filter query.
#[derive(Clone, Copy, Debug, PartialEq, Eq, Structural)]
pub enum FilterCategory {
    EntryType,
    DateOp,
    Tag,
    Negation,
    SavedFilter,
}

/// One piece of the syntax of filter queries.
#[derive(Clone, Copy, Debug, PartialEq)]
pub struct FilterSyntax {
    pub syntax: &'static str,
    pub category: FilterCategory,
    pub completion_hint: &'static str,
}

/// What a [`FilterSyntax`] holds, as mathematics.
pub struct FilterSyntaxView {
    pub syntax: Seq<char>,
    pub category: FilterCategory,
    pub completion_hint: Seq<char>,
}

impl View for FilterSyntax {
    type V = FilterSyntaxView;

    open spec fn view(&self) -> FilterSyntaxView {
        FilterSyntaxView {
            syntax: self.syntax@,
            category: self.category,
            completion_hint: self.completion_hint@,
        }
    }
}

/// The views of a sequence of filter syntax.
pub open spec fn syntax_views(list: Seq<FilterSyntax>) -> Seq<FilterSyntaxView> {
    Seq::new(list.len(), |i: int| list[i]@)
}

/// The syntax of filter queries, in the order in which it is offered.
pub open spec fn filter_syntax_list() -> Seq<FilterSyntaxView> {
    seq![
        FilterSyntaxView {
            syntax: "!tasks"@,
            category: FilterCategory::EntryType,
            completion_hint: "Incomplete tasks"@,
        },
        FilterSyntaxView {
            syntax: "!tasks/done"@,
            category: FilterCategory::EntryType,
            completion_hint: "Completed tasks"@,
        },
        FilterSyntaxView {
            syntax: "!tasks/all"@,
            category: FilterCategory::EntryType,
            completion_hint: "All tasks"@,
        },
        FilterSyntaxView {
            syntax: "!notes"@,
            category: FilterCategory::EntryType,
            completion_hint: "Notes"@,
        },
        FilterSyntaxView {
            syntax: "!events"@,
            category: FilterCategory::EntryType,
            completion_hint: "Events"@,
        },
        FilterSyntaxView {
            syntax: "@before:"@,
            category: FilterCategory::DateOp,
            completion_hint: "Entries of days up to a date"@,
        },
        FilterSyntaxView {
            syntax: "@after:"@,
            category: FilterCategory::DateOp,
            completion_hint: "Entries of days from a date on"@,
        },
        FilterSyntaxView {
            syntax: "@overdue"@,
            category: FilterCategory::DateOp,
            completion_hint: "Entries with a date that has gone by"@,
        },
        FilterSyntaxView {
            syntax: "#tag"@,
            category: FilterCategory::Tag,
            completion_hint: "Entries with a tag"@,
        },
        FilterSyntaxView {
            syntax: "not:"@,
            category: FilterCategory::Negation,
            completion_hint: "Exclude what follows"@,
        },
        FilterSyntaxView {
            syntax: "$name"@,
            category: FilterCategory::SavedFilter,
            completion_hint: "A saved filter"@,
        },
    ]
}

/// The syntax of filter queries: computes [`filter_syntax_list`].
pub fn filter_syntax() -> (list: Vec<FilterSyntax>)
    ensures
        syntax_views(list@) == filter_syntax_list(),
{
    let mut list: Vec<FilterSyntax> = Vec::new();
    list.push(
        FilterSyntax {
            syntax: "!tasks",
            category: FilterCategory::EntryType,
            completion_hint: "Incomplete tasks",
        },
    );
    list.push(
        FilterSyntax {
            syntax: "!tasks/done",
            category: FilterCategory::EntryType,
            completion_hint: "Completed tasks",
        },
    );
    list.push(
        FilterSyntax {
            syntax: "!tasks/all",
            category: FilterCategory::EntryType,
            completion_hint: "All tasks",
        },
    );
    list.push(
        FilterSyntax {
            syntax: "!notes",
            category: FilterCategory::EntryType,
            completion_hint: "Notes",
        },
    );
    list.push(
        FilterSyntax {
            syntax: "!events",
            category: FilterCategory::EntryType,
            completion_hint: "Events",
        },
    );
    list.push(
        FilterSyntax {
            syntax: "@before:",
            category: FilterCategory::DateOp,
            completion_hint: "Entries of days up to a date",
        },
    );
    list.push(
        FilterSyntax {
            syntax: "@after:",
            category: FilterCategory::DateOp,
            completion_hint: "Entries of days from a date on",
        },
    );
    list.push(
        FilterSyntax {
            syntax: "@overdue",
            category: FilterCategory::DateOp,
            completion_hint: "Entries with a date that has gone by",
        },
    );
    list.push(
        FilterSyntax {
            syntax: "#tag",
            category: FilterCategory::Tag,
            completion_hint: "Entries with a tag",
        },
    );
    list.push(
        FilterSyntax {
            syntax: "not:",
            category: FilterCategory::Negation,
            completion_hint: "Exclude what follows",
        },
    );
    list.push(
        FilterSyntax {
            syntax: "$name",
            category: FilterCategory::SavedFilter,
            completion_hint: "A saved filter",
        },
    );
    assert(syntax_views(list@) =~= filter_syntax_list());
    list
}

/// Where a date value may be written.
#[derive(Clone, Copy, Debug, PartialEq, Eq, Structural)]
pub enum DateScope {
    Entry,
    Filter,
}

/// A set of words that a date value may be.
#[derive(Clone, Copy, Debug, PartialEq, Eq, Structural)]
pub enum ValueSet {
    /// `mon` to `sun`.
    Weekdays,
    /// `every-mon` to `every-sun`.
    EveryWeekday,
}

/// A pattern that a date value may follow.
#[derive(Clone, Copy, Debug, PartialEq, Eq, Structural)]
pub enum DatePattern {
    /// `d` and a number from 1 to 999.
    RelativeDays,
    /// `every-` and a number from 1 to 31.
    EveryDayOfMonth,
}

/// How a date value is recognized.
#[derive(Clone, Copy, Debug, PartialEq, Eq, Structural)]
pub enum DateValueKind {
    /// One of a set of words.
    Values(ValueSet),
    /// What follows a pattern.
    Pattern(DatePattern),
    /// The syntax itself, letter for letter.
    Literal,
}

/// One form of date value.
#[derive(Clone, Copy, Debug, PartialEq)]
pub struct DateValue {
    pub syntax: &'static str,
    pub display: &'static str,
    pub kind: DateValueKind,
    pub in_entries: bool,
    pub in_filters: bool,
    pub completion_hint: &'static str,
}

/// What a [`DateValue`] holds, as mathematics.
pub struct DateValueView {
    pub syntax: Seq<char>,
    pub display: Seq<char>,
    pub kind: DateValueKind,
    pub in_entries: bool,
    pub in_filters: bool,
    pub completion_hint: Seq<char>,
}

impl View for DateValue {
    type V = DateValueView;

    open spec fn view(&self) -> DateValueView {
        DateValueView {
            syntax: self.syntax@,
            display: self.display@,
            kind: self.kind,
            in_entries: self.in_entries,
            in_filters: self.in_filters,
            completion_hint: self.completion_hint@,
        }
    }
}

impl DateValueView {
    /// The date value may be written in `scope`.
    pub open spec fn allowed_in(self, scope: DateScope) -> bool {
        match scope {
            DateScope::Entry => self.in_entries,
            DateScope::Filter => self.in_filters,
        }
    }
}

impl DateValue {
    /// Decides [`DateValueView::allowed_in`].
    pub fn allowed(&self, scope: DateScope) -> (r: bool)
        ensures
            r == self@.allowed_in(scope),
    {
        match scope {
            DateScope::Entry => self.in_entries,
            DateScope::Filter => self.in_filters,
        }
    }
}

/// The views of a sequence of date values.
pub open spec fn date_value_views(list: Seq<DateValue>) -> Seq<DateValueView> {
    Seq::new(list.len(), |i: int| list[i]@)
}

/// The words of a value set, in the order in which they are offered.
pub open spec fn value_words(set: ValueSet) -> Seq<Seq<char>> {
    match set {
        ValueSet::Weekdays => seq!["mon"@, "tue"@, "wed"@, "thu"@, "fri"@, "sat"@, "sun"@],
        ValueSet::EveryWeekday => seq![
            "every-mon"@,
            "every-tue"@,
            "every-wed"@,
            "every-thu"@,
            "every-fri"@,
            "every-sat"@,
            "every-sun"@,
        ],
    }
}

/// The words of a value set: computes [`value_words`].
pub fn words_of(set: ValueSet) -> (list: Vec<&'static str>)
    ensures
        list@.len() == value_words(set).len(),
        forall|k: int| 0 <= k < list@.len() ==> (#[trigger] list@[k])@ == value_words(set)[k],
{
    let mut list: Vec<&'static str> = Vec::new();
    match set {
        ValueSet::Weekdays => {
            list.push("mon");
            list.push("tue");
            list.push("wed");
            list.push("thu");
            list.push("fri");
            list.push("sat");
            list.push("sun");
        },
        ValueSet::EveryWeekday => {
            list.push("every-mon");
            list.push("every-tue");
            list.push("every-wed");
            list.push("every-thu");
            list.push("every-fri");
            list.push("every-sat");
            list.push("every-sun");
        },
    }
    list
}

/// The forms of date value, in the order in which they are offered.
pub open spec fn date_value_list() -> Seq<DateValueView> {
    seq![
        DateValueView {
            syntax: "today"@,
            display: "today"@,
            kind: DateValueKind::Literal,
            in_entries: true,
            in_filters: true,
            completion_hint: "Today"@,
        },
        DateValueView {
            syntax: "tomorrow"@,
            display: "tomorrow"@,
            kind: DateValueKind::Literal,
            in_entries: true,
            in_filters: true,
            completion_hint: "Tomorrow"@,
        },
        DateValueView {
            syntax: "yesterday"@,
            display: "yesterday"@,
            kind: DateValueKind::Literal,
            in_entries: true,
            in_filters: true,
            completion_hint: "Yesterday"@,
        },
        DateValueView {
            syntax: "mon"@,
            display: "[mon-sun]"@,
            kind: DateValueKind::Values(ValueSet::Weekdays),
            in_entries: true,
            in_filters: true,
            completion_hint: "The nearest such weekday"@,
        },
        DateValueView {
            syntax: "d1"@,
            display: "d[1-999]"@,
            kind: DateValueKind::Pattern(DatePattern::RelativeDays),
            in_entries: true,
            in_filters: true,
            completion_hint: "A number of days away"@,
        },
        DateValueView {
            syntax: "MM/DD"@,
            display: "MM/DD"@,
            kind: DateValueKind::Literal,
            in_entries: true,
            in_filters: true,
            completion_hint: "Month and day"@,
        },
        DateValueView {
            syntax: "MM/DD/YY"@,
            display: "MM/DD/YY"@,
            kind: DateValueKind::Literal,
            in_entries: true,
            in_filters: true,
            completion_hint: "Month, day and year"@,
        },
        DateValueView {
            syntax: "every-1"@,
            display: "every-[1-31]"@,
            kind: DateValueKind::Pattern(DatePattern::EveryDayOfMonth),
            in_entries: true,
            in_filters: false,
            completion_hint: "Each month on that day"@,
        },
        DateValueView {
            syntax: "every-mon"@,
            display: "every-[mon-sun]"@,
            kind: DateValueKind::Values(ValueSet::EveryWeekday),
            in_entries: true,
            in_filters: false,
            completion_hint: "Each week on that weekday"@,
        },
    ]
}

/// The forms of date value: computes [`date_value_list`].
pub fn date_values() -> (list: Vec<DateValue>)
    ensures
        date_value_views(list@) == date_value_list(),
{
    let mut list: Vec<DateValue> = Vec::new();
    list.push(
        DateValue {
            syntax: "today",
            display: "today",
            kind: DateValueKind::Literal,
            in_entries: true,
            in_filters: true,
            completion_hint: "Today",
        },
    );
    list.push(
        DateValue {
            syntax: "tomorrow",
            display: "tomorrow",
            kind: DateValueKind::Literal,
            in_entries: true,
            in_filters: true,
            completion_hint: "Tomorrow",
        },
    );
    list.push(
        DateValue {
            syntax: "yesterday",
            display: "yesterday",
            kind: DateValueKind::Literal,
            in_entries: true,
            in_filters: true,
            completion_hint: "Yesterday",
        },
    );
    list.push(
        DateValue {
            syntax: "mon",
            display: "[mon-sun]",
            kind: DateValueKind::Values(ValueSet::Weekdays),
            in_entries: true,
            in_filters: true,
            completion_hint: "The nearest such weekday",
        },
    );
    list.push(
        DateValue {
            syntax: "d1",
            display: "d[1-999]",
            kind: DateValueKind::Pattern(DatePattern::RelativeDays),
            in_entries: true,
            in_filters: true,
            completion_hint: "A number of days away",
        },
    );
    list.push(
        DateValue {
            syntax: "MM/DD",
            display: "MM/DD",
            kind: DateValueKind::Literal,
            in_entries: true,
            in_filters: true,
            completion_hint: "Month and day",
        },
    );
    list.push(
        DateValue {
            syntax: "MM/DD/YY",
            display: "MM/DD/YY",
            kind: DateValueKind::Literal,
            in_entries: true,
            in_filters: true,
            completion_hint: "Month, day and year",
        },
    );
    list.push(
        DateValue {
            syntax: "every-1",
            display: "every-[1-31]",
            kind: DateValueKind::Pattern(DatePattern::EveryDayOfMonth),
            in_entries: true,
            in_filters: false,
            completion_hint: "Each month on that day",
        },
    );
    list.push(
        DateValue {
            syntax: "every-mon",
            display: "every-[mon-sun]",
            kind: DateValueKind::Values(ValueSet::EveryWeekday),
            in_entries: true,
            in_filters: false,
            completion_hint: "Each week on that weekday",
        },
    );
    assert(date_value_views(list@) =~= date_value_list());
    list
}

} // verus!
