use caliber::date::Date;
use caliber::dayops::{
    cycle_entry_type, delete_entry, get_entry, mark_toggled, restore_entry, shift_after_delete,
    toggle_entry_complete, update_entry_content,
};
use caliber::entries::{parse_lines, serialize_lines, CrossDayEntry, Entry, EntryType, Line};
use caliber::filter::parse_filter_query;
use caliber::journal::{load_day_lines, parse_journal, save_day_lines, serialize_journal};
use caliber::later::collect_later_entries_for_date;
use caliber::matching::collect_filtered_entries;

fn day(y: i32, m: u32, d: u32) -> Date {
    Date::from_ymd(y, m, d).unwrap()
}

#[test]
fn journal_splits_into_days_at_headings() {
    let text = "# 2026/01/15\n- [ ] a\n# 2026/01/14\n- b\n";
    let journal = parse_journal(text);
    assert!(journal.preamble.is_empty());
    assert_eq!(journal.days.len(), 2);
    assert_eq!(journal.days[0].date, day(2026, 1, 15));
    assert_eq!(journal.days[0].lines, parse_lines("- [ ] a"));
    assert_eq!(journal.days[1].date, day(2026, 1, 14));
    assert_eq!(journal.days[1].lines, parse_lines("- b\n"));
    assert_eq!(serialize_journal(&journal), text);
}

#[test]
fn journal_keeps_what_stands_before_the_first_day() {
    let text = "My journal\n\n# 2026/01/15\n- x\n\n# 2026/01/15\nagain";
    let journal = parse_journal(text);
    assert_eq!(journal.preamble, parse_lines("My journal\n"));
    assert_eq!(journal.days.len(), 2);
    assert_eq!(serialize_journal(&journal), text);
    let empty = parse_journal("");
    assert_eq!(empty.preamble, parse_lines(""));
    assert!(empty.days.is_empty());
    assert_eq!(serialize_journal(&empty), "");
}

#[test]
fn headings_must_name_a_day_that_exists() {
    for line in ["# 2026/13/01", "# 2026/02/30", "# 2026/1/15", "#2026/01/15", "# 2026/01/15 ", " # 2026/01/15", "# 2026-01-15", "## 2026/01/15", "# 20x6/01/15"] {
        let journal = parse_journal(line);
        assert!(journal.days.is_empty(), "{line:?}");
        assert_eq!(serialize_journal(&journal), line);
    }
    assert_eq!(parse_journal("# 0001/01/01").days[0].date, day(1, 1, 1));
    assert_eq!(parse_journal("# 9999/12/31").days[0].date, day(9999, 12, 31));
    assert_eq!(parse_journal("# 2024/02/29").days[0].date, day(2024, 2, 29));
}

#[test]
fn load_and_save_day_lines() {
    let mut journal = parse_journal("# 2026/01/15\n- [ ] a\n# 2026/01/14\n- b");
    assert_eq!(load_day_lines(&journal, day(2026, 1, 14)), parse_lines("- b"));
    assert!(load_day_lines(&journal, day(2026, 1, 13)).is_empty());
    save_day_lines(&mut journal, day(2026, 1, 15), parse_lines("- [x] a\n* new"));
    save_day_lines(&mut journal, day(2026, 1, 16), parse_lines("- later"));
    assert_eq!(
        serialize_journal(&journal),
        "# 2026/01/15\n- [x] a\n* new\n# 2026/01/14\n- b\n# 2026/01/16\n- later"
    );
}

#[test]
fn later_entry_from_a_journal_points_at_its_line() {
    let journal = parse_journal("# 2026/01/10\n- [ ] Call Bob @01/20\n");
    let found = collect_later_entries_for_date(&journal.days, day(2026, 1, 20));
    assert_eq!(found.len(), 1);
    assert_eq!(found[0].source_date, day(2026, 1, 10));
    assert_eq!(found[0].line_index, 0);
    assert!(found[0].content.contains("Call Bob @01/20"));
}

#[test]
fn edits_write_through_to_the_source_day() {
    let mut journal = parse_journal("# 2026/01/10\n- [ ] Later task @01/15\n- [ ] Keep me\n");
    let today = day(2026, 1, 15);
    let found = collect_later_entries_for_date(&journal.days, today);
    let mut lines = load_day_lines(&journal, found[0].source_date);
    assert!(toggle_entry_complete(&mut lines, found[0].line_index));
    save_day_lines(&mut journal, found[0].source_date, lines);
    assert!(serialize_journal(&journal).contains("- [x] Later task @01/15"));
    let again = collect_later_entries_for_date(&journal.days, today);
    assert_eq!(again.len(), 1);
    assert!(again[0].completed);
}

#[test]
fn day_operations_address_lines() {
    let mut lines = parse_lines("# h\n- [ ] one\n- two\n* three");
    assert_eq!(get_entry(&lines, 0), None);
    assert_eq!(get_entry(&lines, 9), None);
    assert_eq!(get_entry(&lines, 1), Some(Entry::new_task("one")));

    assert!(!toggle_entry_complete(&mut lines, 0));
    assert!(toggle_entry_complete(&mut lines, 1));
    assert!(toggle_entry_complete(&mut lines, 2));
    assert_eq!(serialize_lines(&lines), "# h\n- [x] one\n- two\n* three");

    assert!(update_entry_content(&mut lines, 2, "two, edited"));
    assert!(!update_entry_content(&mut lines, 7, "nothing"));
    assert_eq!(cycle_entry_type(&mut lines, 3), Some(EntryType::Task { completed: false }));
    assert_eq!(cycle_entry_type(&mut lines, 1), Some(EntryType::Note));
    assert_eq!(cycle_entry_type(&mut lines, 0), None);
    assert_eq!(serialize_lines(&lines), "# h\n- one\n- two, edited\n- [ ] three");

    let gone = delete_entry(&mut lines, 2).unwrap();
    assert_eq!(gone.content, "two, edited");
    assert_eq!(delete_entry(&mut lines, 0), None);
    assert_eq!(delete_entry(&mut lines, 5), None);
    assert_eq!(serialize_lines(&lines), "# h\n- one\n- [ ] three");
    assert_eq!(restore_entry(&mut lines, 2, gone), 2);
    assert_eq!(serialize_lines(&lines), "# h\n- one\n- two, edited\n- [ ] three");
    assert_eq!(restore_entry(&mut lines, 99, Entry::new_task("end")), 4);
    assert_eq!(lines[4], Line::Entry(Entry::new_task("end")));
}

#[test]
fn positions_shift_after_a_delete() {
    let journal = parse_journal("# 2026/01/10\n- a\n- b\n- c\n# 2026/01/11\n- d\n- e");
    let today = day(2026, 1, 15);
    let spec = parse_filter_query("", &Vec::new(), today);
    let mut found = collect_filtered_entries(&spec, &journal.days, today);
    let removed = found.remove(1);
    assert_eq!(removed.content, "b");
    shift_after_delete(&mut found, removed.source_date, removed.line_index);
    let at: Vec<(Date, usize)> = found.iter().map(|e| (e.source_date, e.line_index)).collect();
    assert_eq!(
        at,
        vec![(day(2026, 1, 10), 0), (day(2026, 1, 10), 1), (day(2026, 1, 11), 0), (day(2026, 1, 11), 1)]
    );
    let mut lines = load_day_lines(&journal, removed.source_date);
    delete_entry(&mut lines, removed.line_index);
    assert_eq!(get_entry(&lines, found[1].line_index).unwrap().content, "c");
}

#[test]
fn toggled_entry_shows_its_new_state() {
    let mut task = CrossDayEntry {
        source_date: day(2026, 1, 10),
        line_index: 3,
        content: "t".to_string(),
        entry_type: EntryType::Task { completed: false },
        completed: false,
    };
    mark_toggled(&mut task);
    assert!(task.completed);
    assert_eq!(task.entry_type, EntryType::Task { completed: true });
    mark_toggled(&mut task);
    assert_eq!(task.entry_type, EntryType::Task { completed: false });
    let copy = task.clone();
    assert_eq!(copy, task);
}
