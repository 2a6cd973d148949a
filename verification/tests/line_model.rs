use caliber::dayfile::compute_entry_indices;
use caliber::entries::{parse_line, parse_lines, serialize_line, serialize_lines, Entry, EntryType, Line};

#[test]
fn round_trip_of_tasks_with_trailing_newline() {
    let text = "- [ ] Buy milk #errand\n- [x] Done task\n";
    let lines = parse_lines(text);
    assert_eq!(serialize_lines(&lines), text);
}

#[test]
fn parse_recognizes_each_marker() {
    assert_eq!(
        parse_line("- [ ] open"),
        Line::Entry(Entry { entry_type: EntryType::Task { completed: false }, content: "open".to_string() })
    );
    assert_eq!(
        parse_line("- [x] done"),
        Line::Entry(Entry { entry_type: EntryType::Task { completed: true }, content: "done".to_string() })
    );
    assert_eq!(
        parse_line("* meeting"),
        Line::Entry(Entry { entry_type: EntryType::Event, content: "meeting".to_string() })
    );
    assert_eq!(
        parse_line("- idea"),
        Line::Entry(Entry { entry_type: EntryType::Note, content: "idea".to_string() })
    );
}

#[test]
fn parse_keeps_other_lines_raw() {
    assert_eq!(parse_line("# 2026/01/15"), Line::Raw("# 2026/01/15".to_string()));
    assert_eq!(parse_line(""), Line::Raw(String::new()));
    assert_eq!(parse_line("  free prose"), Line::Raw("  free prose".to_string()));
    assert_eq!(parse_line("-no space"), Line::Raw("-no space".to_string()));
    assert_eq!(parse_line("- [X] capital"), Line::Entry(Entry { entry_type: EntryType::Note, content: "[X] capital".to_string() }));
}

#[test]
fn parse_strips_indentation_before_marker() {
    let line = parse_line("   - [ ] indented");
    assert_eq!(
        line,
        Line::Entry(Entry { entry_type: EntryType::Task { completed: false }, content: "indented".to_string() })
    );
    assert_eq!(serialize_line(&line), "- [ ] indented");
}

#[test]
fn parse_lines_has_one_line_more_than_line_feeds() {
    assert_eq!(parse_lines("").len(), 1);
    assert_eq!(parse_lines("a\nb").len(), 2);
    assert_eq!(parse_lines("a\nb\n").len(), 3);
}

#[test]
fn serialize_joins_with_line_feed() {
    let lines = vec![
        Line::Raw("# heading".to_string()),
        Line::Entry(Entry::new_task("one")),
        Line::Entry(Entry { entry_type: EntryType::Event, content: "two".to_string() }),
    ];
    assert_eq!(serialize_lines(&lines), "# heading\n- [ ] one\n* two");
    assert_eq!(serialize_lines(&[]), "");
}

#[test]
fn round_trip_of_arbitrary_markdown() {
    let text = "# Title\n\nSome prose with - dashes\n- [ ] task\r\n* event\n\n\n- note\n";
    assert_eq!(serialize_lines(&parse_lines(text)), text);
}

#[test]
fn serialize_then_parse_is_stable() {
    let text = "  - [ ] indented\n\t* event\nraw";
    let once = serialize_lines(&parse_lines(text));
    assert_eq!(once, "- [ ] indented\n* event\nraw");
    let twice = serialize_lines(&parse_lines(&once));
    assert_eq!(once, twice);
}

#[test]
fn entry_type_prefix_and_cycle() {
    assert_eq!(EntryType::Task { completed: false }.prefix(), "- [ ] ");
    assert_eq!(EntryType::Task { completed: true }.prefix(), "- [x] ");
    assert_eq!(EntryType::Note.prefix(), "- ");
    assert_eq!(EntryType::Event.prefix(), "* ");
    assert_eq!(EntryType::Task { completed: true }.cycle(), EntryType::Note);
    assert_eq!(EntryType::Note.cycle(), EntryType::Event);
    assert_eq!(EntryType::Event.cycle(), EntryType::Task { completed: false });
}

#[test]
fn toggle_complete_flips_tasks_only() {
    let mut task = Entry::new_task("x");
    assert_eq!(task.prefix(), "- [ ] ");
    task.toggle_complete();
    assert_eq!(task.entry_type, EntryType::Task { completed: true });
    task.toggle_complete();
    assert_eq!(task.entry_type, EntryType::Task { completed: false });
    let mut note = Entry { entry_type: EntryType::Note, content: "n".to_string() };
    note.toggle_complete();
    assert_eq!(note.entry_type, EntryType::Note);
}

#[test]
fn entry_indices_list_entries_in_order() {
    let lines = parse_lines("# h\n- [ ] a\n\n- b\nprose\n* c");
    assert_eq!(compute_entry_indices(&lines), vec![1, 3, 5]);
    assert_eq!(compute_entry_indices(&lines), compute_entry_indices(&lines));
}

#[test]
fn entry_indices_follow_insert_and_remove() {
    let mut lines = parse_lines("- a\nraw\n- b");
    assert_eq!(compute_entry_indices(&lines), vec![0, 2]);
    lines.insert(1, Line::Entry(Entry::new_task("new")));
    assert_eq!(compute_entry_indices(&lines), vec![0, 1, 3]);
    lines.remove(0);
    assert_eq!(compute_entry_indices(&lines), vec![0, 2]);
    lines.clear();
    assert_eq!(compute_entry_indices(&lines), Vec::<usize>::new());
}

#[test]
fn indentation_of_any_white_space_is_stripped() {
    let indented = "\u{a0}\u{2003}\t- [ ] wide spaces";
    assert_eq!(
        parse_line(indented),
        Line::Entry(Entry { entry_type: EntryType::Task { completed: false }, content: "wide spaces".to_string() })
    );
    assert_eq!(parse_line("\u{200b}- not a space"), Line::Raw("\u{200b}- not a space".to_string()));
}
