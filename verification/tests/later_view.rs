use caliber::date::Date;
use caliber::entries::{Entry, Line};
use caliber::normalize::normalize_natural_dates;
use chrono::Datelike;
use caliber::dayops::{delete_entry, toggle_entry_complete, update_entry_content};
use caliber::filter::parse_filter_query;
use caliber::journal::{load_day_lines, parse_journal, save_day_lines, serialize_journal};
use caliber::later::collect_later_entries_for_date;
use caliber::matching::collect_filtered_entries;

fn day(y: i32, m: u32, d: u32) -> Date {
    Date::from_ymd(y, m, d).unwrap()
}

fn from_clock(date: chrono::NaiveDate) -> Date {
    Date::from_ymd(date.year(), date.month(), date.day()).unwrap()
}

#[test]
fn test_later_entry_appears_on_target_date() {
    let content = "# 2026/01/10\n- [ ] Review doc @01/15\n";
    let journal = parse_journal(content);
    let later = collect_later_entries_for_date(&journal.days, day(2026, 1, 15));
    assert!(
        later.iter().any(|e| e.content.contains("Review doc @01/15")),
        "Later entry should appear on target date"
    );
    assert!(later.iter().all(|e| e.source_date == day(2026, 1, 10)), "Source date indicator should appear");
}

#[test]
fn test_edit_later_entry() {
    let view_date = day(2026, 1, 15);
    let content = "# 2026/01/10\n- [ ] Original @01/15\n";
    let mut journal = parse_journal(content);
    let later = collect_later_entries_for_date(&journal.days, view_date);
    assert!(later.iter().any(|e| e.content.contains("Original @01/15")), "Later entry should be visible");
    let entry = &later[0];
    let mut lines = load_day_lines(&journal, entry.source_date);
    assert!(update_entry_content(&mut lines, entry.line_index, &format!("{} modified", entry.content)));
    save_day_lines(&mut journal, entry.source_date, lines);
    assert!(
        serialize_journal(&journal).contains("Original @01/15 modified"),
        "Later entry edit should be persisted"
    );
}

#[test]
fn test_toggle_later_entry() {
    let view_date = day(2026, 1, 15);
    let content = "# 2026/01/10\n- [ ] Later task @01/15\n";
    let mut journal = parse_journal(content);
    let later = collect_later_entries_for_date(&journal.days, view_date);
    let entry = &later[0];
    let mut lines = load_day_lines(&journal, entry.source_date);
    assert!(toggle_entry_complete(&mut lines, entry.line_index));
    save_day_lines(&mut journal, entry.source_date, lines);
    assert!(
        serialize_journal(&journal).contains("- [x] Later task @01/15"),
        "Later entry should be marked complete"
    );
}

#[test]
fn test_jump_to_source() {
    let view_date = day(2026, 1, 15);
    let content = "# 2026/01/10\n- [ ] Task from past @01/15\n";
    let journal = parse_journal(content);
    let later = collect_later_entries_for_date(&journal.days, view_date);
    assert_eq!(later[0].source_date, day(2026, 1, 10), "Should jump to source date");
    let source = load_day_lines(&journal, later[0].source_date);
    assert!(
        caliber::entries::serialize_lines(&source).contains("Task from past @01/15"),
        "Entry should be visible on source date"
    );
}

#[test]
fn test_delete_later_entry() {
    let view_date = day(2026, 1, 15);
    let content = "# 2026/01/10\n- [ ] Delete me @01/15\n- [ ] Keep me\n";
    let mut journal = parse_journal(content);
    let later = collect_later_entries_for_date(&journal.days, view_date);
    let entry = &later[0];
    let mut lines = load_day_lines(&journal, entry.source_date);
    assert!(delete_entry(&mut lines, entry.line_index).is_some());
    save_day_lines(&mut journal, entry.source_date, lines);
    let text = serialize_journal(&journal);
    assert!(!text.contains("Delete me"), "Deleted later entry should be removed");
    assert!(text.contains("Keep me"), "Other entry should remain");
}

#[test]
fn test_overdue_filter() {
    let now = chrono::Local::now().date_naive();
    let yesterday = now - chrono::Days::new(1);
    let past_date = yesterday.format("@%m/%d").to_string();
    let future_date = (now + chrono::Days::new(5)).format("@%m/%d/%y").to_string();
    let content = format!(
        "# {}\n- [ ] Past due task {}\n- [ ] Future task {}\n- [ ] No date task\n",
        now.format("%Y/%m/%d"),
        past_date,
        future_date
    );
    let today = from_clock(now);
    let journal = parse_journal(&content);
    let spec = parse_filter_query("@overdue", &Vec::new(), today);
    let found: Vec<String> =
        collect_filtered_entries(&spec, &journal.days, today).into_iter().map(|e| e.content).collect();
    assert!(
        found.iter().any(|c| c.contains("Past due task")),
        "Overdue entry should appear in @overdue filter"
    );
    assert!(
        !found.iter().any(|c| c.contains("Future task")),
        "Future entry should not appear in @overdue filter"
    );
    assert!(
        !found.iter().any(|c| c.contains("No date task")),
        "Undated entry should not appear in @overdue filter"
    );
}

#[test]
fn test_natural_date_conversion() {
    let now = chrono::Local::now().date_naive();
    let tomorrow = now + chrono::Days::new(1);
    let expected_date = tomorrow.format("@%m/%d").to_string();
    let today = from_clock(now);
    let mut journal = parse_journal("");
    let mut lines = load_day_lines(&journal, today);
    lines.push(Line::Entry(Entry::new_task(&normalize_natural_dates("Call Bob @tomorrow", today))));
    save_day_lines(&mut journal, today, lines);
    assert!(
        serialize_journal(&journal).contains(&expected_date),
        "Natural date @tomorrow should convert to {}",
        expected_date
    );
}

#[test]
fn relative_dates_are_written_down() {
    let today = day(2026, 1, 15); // a Thursday
    let written = |text: &str| normalize_natural_dates(text, today);
    assert_eq!(written("Call Bob @tomorrow"), "Call Bob @01/16");
    assert_eq!(written("a @today b @yesterday."), "a @01/15 b @01/14/26.");
    assert_eq!(written("@fri and @Mon, then @d7 or @d30"), "@01/16 and @01/19, then @01/22 or @02/14");
    assert_eq!(written("@d400"), "@02/19/27");
    assert_eq!(written("@fri- is past"), "@01/09/26 is past");
    assert_eq!(written("@d365"), "@01/15/27");
    assert_eq!(written("@d364"), "@01/14");
}

#[test]
fn what_is_no_relative_date_stays() {
    let today = day(2026, 1, 15);
    for text in [
        "", "no dates", "mail bob@example.org", "@01/20 and @1/2/27", "@every-mon @every-15", "@tomorrowish",
        "@d0 @d1000", "@", "@@", "#tag @ tomorrow",
    ] {
        assert_eq!(normalize_natural_dates(text, today), text, "{text:?}");
    }
    assert_eq!(normalize_natural_dates("@@tomorrow", today), "@@01/16");
}

#[test]
fn written_dates_name_the_same_day() {
    let today = day(2026, 1, 15);
    for text in ["@today", "@tomorrow", "@yesterday", "@sun", "@d1", "@d200", "@d364", "@d365", "@d999", "@wed-"] {
        let before = collect_on(text, today);
        let after = collect_on(&normalize_natural_dates(text, today), today);
        assert_eq!(before, after, "{text}");
        assert!(before.is_some(), "{text}");
    }
}

fn collect_on(content: &str, today: Date) -> Option<Date> {
    caliber::dateexpr::parse_date(content.trim_start_matches('@'), caliber::dateexpr::ParseContext::Entry, today)
}
