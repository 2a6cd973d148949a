use caliber::config::Config;
use caliber::date::Date;
use caliber::dayops::{delete_entry, toggle_entry_complete, update_entry_content};
use caliber::entries::{Entry, Line};
use caliber::filter::{parse_filter_query, SavedFilter};
use caliber::journal::{load_day_lines, parse_journal, save_day_lines, serialize_journal, Journal};
use caliber::matching::collect_filtered_entries;

fn day(y: i32, m: u32, d: u32) -> Date {
    Date::from_ymd(y, m, d).unwrap()
}

/// A journal and the day on which it is looked at.
struct View {
    journal: Journal,
    today: Date,
    config: Config,
}

impl View {
    fn with_journal_content(today: Date, content: &str) -> View {
        View { journal: parse_journal(content), today, config: Config::default() }
    }

    fn filter(&self, query: &str) -> Vec<caliber::entries::FilterEntry> {
        let spec = parse_filter_query(query, &self.config.filters, self.today);
        collect_filtered_entries(&spec, &self.journal.days, self.today)
    }

    fn shows(&self, query: &str, text: &str) -> bool {
        self.filter(query).iter().any(|e| e.content.contains(text))
    }

    fn read_journal(&self) -> String {
        serialize_journal(&self.journal)
    }
}

#[test]
fn test_tag_filter() {
    let date = day(2026, 1, 15);
    let content =
        "# 2026/01/15\n- [ ] Task with #work\n- [ ] Task with #personal\n- Note with #work\n";
    let view = View::with_journal_content(date, content);
    assert!(view.shows("#work", "Task with #work"), "Task with #work should appear");
    assert!(view.shows("#work", "Note with #work"), "Note with #work should appear");
    assert!(!view.shows("#work", "#personal"), "Entry with #personal should not appear");
}

#[test]
fn test_type_filter_tasks() {
    let date = day(2026, 1, 15);
    let content = "# 2026/01/15\n- [ ] A task\n- A note\n* An event\n";
    let view = View::with_journal_content(date, content);
    assert!(view.shows("!tasks", "A task"), "Task should appear");
    assert!(!view.shows("!tasks", "A note"), "Note should not appear");
    assert!(!view.shows("!tasks", "An event"), "Event should not appear");
}

#[test]
fn test_type_filter_notes() {
    let date = day(2026, 1, 15);
    let content = "# 2026/01/15\n- [ ] A task\n- A note\n* An event\n";
    let view = View::with_journal_content(date, content);
    assert!(!view.shows("!notes", "A task"), "Task should not appear");
    assert!(view.shows("!notes", "A note"), "Note should appear");
    assert!(!view.shows("!notes", "An event"), "Event should not appear");
}

#[test]
fn test_completed_task_filter() {
    let date = day(2026, 1, 15);
    let content = "# 2026/01/15\n- [ ] Incomplete task\n- [x] Completed task\n";
    let view = View::with_journal_content(date, content);
    assert!(view.shows("!tasks", "Incomplete task"), "Incomplete should appear");
    assert!(!view.shows("!tasks", "Completed task"), "Completed should not appear with !tasks");
    assert!(
        !view.shows("!completed", "Incomplete task"),
        "Incomplete should not appear with !completed"
    );
    assert!(view.shows("!completed", "Completed task"), "Completed should appear");
}

#[test]
fn test_combined_filters() {
    let date = day(2026, 1, 15);
    let content =
        "# 2026/01/15\n- [ ] Work task #work\n- [ ] Personal task #personal\n- Work note #work\n";
    let view = View::with_journal_content(date, content);
    assert!(view.shows("!tasks #work", "Work task #work"), "Work task should appear");
    assert!(!view.shows("!tasks #work", "Personal task"), "Personal task should not appear");
    assert!(!view.shows("!tasks #work", "Work note"), "Note should not appear (not a task)");
}

#[test]
fn test_edit_from_filter() {
    let date = day(2026, 1, 15);
    let content = "# 2026/01/15\n- [ ] Original task\n";
    let mut view = View::with_journal_content(date, content);
    let found = view.filter("task");
    let entry = found.last().unwrap();
    let mut lines = load_day_lines(&view.journal, entry.source_date);
    assert!(update_entry_content(&mut lines, entry.line_index, &format!("{} modified", entry.content)));
    save_day_lines(&mut view.journal, entry.source_date, lines);
    let daily = load_day_lines(&view.journal, date);
    assert!(
        daily.iter().any(|l| matches!(l, Line::Entry(e) if e.content.contains("Original task modified"))),
        "Modified content should appear in daily view"
    );
    assert!(view.read_journal().contains("Original task modified"), "Change should be persisted");
}

#[test]
fn test_toggle_from_filter() {
    let date = day(2026, 1, 15);
    let content = "# 2026/01/15\n- [ ] My task\n";
    let mut view = View::with_journal_content(date, content);
    let found = view.filter("!tasks");
    let entry = found.last().unwrap();
    let mut lines = load_day_lines(&view.journal, entry.source_date);
    assert!(toggle_entry_complete(&mut lines, entry.line_index));
    save_day_lines(&mut view.journal, entry.source_date, lines);
    assert!(view.read_journal().contains("- [x] My task"), "Task should be marked complete");
}

#[test]
fn test_quick_add_from_filter() {
    let date = day(2026, 1, 15);
    let mut view = View::with_journal_content(date, "");
    assert!(view.filter("!tasks").is_empty());
    let mut lines = load_day_lines(&view.journal, date);
    lines.push(Line::Entry(Entry::new_task("New from filter")));
    save_day_lines(&mut view.journal, date, lines);
    assert!(
        view.shows("!tasks", "New from filter"),
        "Entry should appear in filter results after creation"
    );
    assert!(view.read_journal().contains("New from filter"), "Entry should be saved to journal");
}

#[test]
fn test_delete_from_filter() {
    let date = day(2026, 1, 15);
    let content = "# 2026/01/15\n- [ ] Delete me\n- [ ] Keep me\n";
    let mut view = View::with_journal_content(date, content);
    let found = view.filter("Delete");
    let entry = found.last().unwrap();
    let mut lines = load_day_lines(&view.journal, entry.source_date);
    assert!(delete_entry(&mut lines, entry.line_index).is_some());
    save_day_lines(&mut view.journal, entry.source_date, lines);
    let daily = load_day_lines(&view.journal, date);
    let shown = |text: &str| daily.iter().any(|l| matches!(l, Line::Entry(e) if e.content.contains(text)));
    assert!(!shown("Delete me"), "Deleted entry should be gone");
    assert!(shown("Keep me"), "Other entry should remain");
    assert!(!view.read_journal().contains("Delete me"), "Deleted entry should be removed from file");
}

#[test]
fn test_negation_filter() {
    let date = day(2026, 1, 15);
    let content =
        "# 2026/01/15\n- [ ] Work task #work\n- [ ] Personal task #personal\n- [ ] Untagged task\n";
    let view = View::with_journal_content(date, content);
    assert!(!view.shows("not:#work", "Work task"), "Entry with #work should not appear");
    assert!(view.shows("not:#work", "Personal task"), "Entry with #personal should appear");
    assert!(view.shows("not:#work", "Untagged"), "Untagged entry should appear");
}

#[test]
fn test_date_range_filter_after() {
    let date = day(2026, 1, 15);
    let content = "# 2026/01/15\n- [ ] Today entry\n# 2026/01/14\n- [ ] Yesterday entry\n# 2026/01/10\n- [ ] Old entry\n";
    let view = View::with_journal_content(date, content);
    assert!(view.shows("@after:1/14/26", "Today entry"), "Today entry should appear");
    assert!(view.shows("@after:1/14/26", "Yesterday entry"), "Yesterday entry should appear");
    assert!(!view.shows("@after:1/14/26", "Old entry"), "Old entry should not appear");
}

#[test]
fn test_date_range_filter_before() {
    let date = day(2026, 1, 15);
    let content = "# 2026/01/15\n- [ ] Today entry\n# 2026/01/14\n- [ ] Yesterday entry\n# 2026/01/10\n- [ ] Old entry\n";
    let view = View::with_journal_content(date, content);
    assert!(!view.shows("@before:1/14/26", "Today entry"), "Today entry should not appear");
    assert!(
        view.shows("@before:1/14/26", "Yesterday entry"),
        "Yesterday entry should appear (inclusive)"
    );
    assert!(view.shows("@before:1/14/26", "Old entry"), "Old entry should appear");
}

#[test]
fn test_negation_type_filter() {
    let date = day(2026, 1, 15);
    let content = "# 2026/01/15\n- [ ] A task\n- A note\n* An event\n";
    let view = View::with_journal_content(date, content);
    assert!(!view.shows("not:!tasks", "A task"), "Tasks should not appear with not:!tasks");
    assert!(view.shows("not:!tasks", "A note"), "Notes should appear");
    assert!(view.shows("not:!tasks", "An event"), "Events should appear");
}

#[test]
fn test_filter_refresh() {
    let date = day(2026, 1, 15);
    let content = "# 2026/01/15\n- [ ] Task without tag\n- [ ] Task with #work\n";
    let mut view = View::with_journal_content(date, content);
    assert!(view.shows("#work", "Task with #work"), "#work task should appear");
    assert!(!view.shows("#work", "Task without tag"), "Untagged task should not appear initially");

    let mut lines = load_day_lines(&view.journal, date);
    assert!(update_entry_content(&mut lines, 0, "Task without tag #work"));
    save_day_lines(&mut view.journal, date, lines);

    assert!(
        view.shows("#work", "Task without tag"),
        "Newly tagged task should appear after refresh"
    );
    assert!(view.shows("#work", "Task with #work"), "Original #work task should still appear");
}

#[test]
fn test_favorite_tag_quick_filter() {
    let date = day(2026, 1, 15);
    let content =
        "# 2026/01/15\n- [ ] Task with #work\n- [ ] Task with #personal\n- [ ] Task without tags\n";
    let mut view = View::with_journal_content(date, content);
    view.config.favorite_tags = vec!["work".to_string()];
    let query = format!("#{}", view.config.get_favorite_tag('1').unwrap());
    assert!(view.shows(&query, "Task with #work"), "#work task should appear");
    assert!(!view.shows(&query, "Task with #personal"), "#personal task should not appear");
    assert!(!view.shows(&query, "Task without tags"), "Untagged task should not appear");
}

#[test]
fn test_saved_filter_expansion() {
    let date = day(2026, 1, 15);
    let content =
        "# 2026/01/15\n- [ ] Urgent task #urgent\n- [ ] Normal task #work\n- A note #urgent\n";
    let mut view = View::with_journal_content(date, content);
    view.config.filters = vec![SavedFilter { name: "t".to_string(), query: "!tasks".to_string() }];
    assert!(view.shows("$t #urgent", "Urgent task #urgent"), "Urgent task should appear");
    assert!(!view.shows("$t #urgent", "Normal task"), "Non-urgent task should not appear");
    assert!(
        !view.shows("$t #urgent", "A note"),
        "Note should not appear (even though it has #urgent)"
    );
}
