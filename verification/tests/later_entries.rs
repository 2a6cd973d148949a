use caliber::date::Date;
use caliber::dayfile::DayFile;
use caliber::entries::{parse_lines, EntryType};
use caliber::later::collect_later_entries_for_date;

fn day(y: i32, m: u32, d: u32) -> Date {
    Date::from_ymd(y, m, d).unwrap()
}

fn journal(days: &[(Date, &str)]) -> Vec<DayFile> {
    days.iter().map(|(date, text)| DayFile { date: *date, lines: parse_lines(text) }).collect()
}

#[test]
fn dated_entry_appears_on_its_target_day() {
    let days = journal(&[(day(2026, 1, 10), "- [ ] Call Bob @01/20")]);
    let found = collect_later_entries_for_date(&days, day(2026, 1, 20));
    assert_eq!(found.len(), 1);
    assert_eq!(found[0].source_date, day(2026, 1, 10));
    assert_eq!(found[0].line_index, 0);
    assert!(found[0].content.contains("Call Bob @01/20"));
    assert_eq!(found[0].entry_type, EntryType::Task { completed: false });
    assert!(collect_later_entries_for_date(&days, day(2026, 1, 19)).is_empty());
    assert!(collect_later_entries_for_date(&days, day(2027, 1, 20)).is_empty());
}

#[test]
fn entry_does_not_project_onto_its_own_day() {
    let days = journal(&[(day(2026, 1, 10), "- [ ] Today @01/10\n- [ ] Also @today")]);
    assert!(collect_later_entries_for_date(&days, day(2026, 1, 10)).is_empty());
}

#[test]
fn date_without_year_means_the_next_such_day() {
    let days = journal(&[(day(2026, 12, 30), "- New year @01/02\n- Explicit @01/02/28")]);
    let found = collect_later_entries_for_date(&days, day(2027, 1, 2));
    assert_eq!(found.len(), 1);
    assert_eq!(found[0].content, "New year @01/02");
    let found = collect_later_entries_for_date(&days, day(2028, 1, 2));
    assert_eq!(found.len(), 1);
    assert_eq!(found[0].content, "Explicit @01/02/28");
}

#[test]
fn relative_dates_count_from_the_storage_day() {
    let days = journal(&[(
        day(2026, 1, 10),
        "- a @tomorrow\n- b @d7\n- c @Mon\n- d @yesterday\n- e @sat",
    )]);
    // 2026-01-10 is a Saturday.
    let on = |d: Date| -> Vec<String> {
        collect_later_entries_for_date(&days, d).into_iter().map(|e| e.content).collect()
    };
    assert_eq!(on(day(2026, 1, 11)), vec!["a @tomorrow"]);
    assert_eq!(on(day(2026, 1, 17)), vec!["b @d7", "e @sat"]);
    assert_eq!(on(day(2026, 1, 12)), vec!["c @Mon"]);
    assert_eq!(on(day(2026, 1, 9)), vec!["d @yesterday"]);
}

#[test]
fn recurrences_appear_on_every_day_they_pick() {
    let days = journal(&[(day(2026, 1, 10), "* Standup @every-mon\n- Rent @every-15\n- Bad @every-0")]);
    let on = |d: Date| -> Vec<String> {
        collect_later_entries_for_date(&days, d).into_iter().map(|e| e.content).collect()
    };
    assert_eq!(on(day(2026, 1, 12)), vec!["Standup @every-mon"]);
    assert_eq!(on(day(2026, 1, 19)), vec!["Standup @every-mon"]);
    assert_eq!(on(day(2026, 1, 15)), vec!["Rent @every-15"]);
    assert_eq!(on(day(2026, 6, 15)), vec!["Standup @every-mon", "Rent @every-15"]);
    assert!(on(day(2026, 1, 13)).is_empty());
}

#[test]
fn later_entries_come_by_source_day_then_line() {
    let days = journal(&[
        (day(2026, 1, 12), "- third @01/20"),
        (day(2026, 1, 10), "raw\n- first @01/20\n- skip\n- second @1/20"),
    ]);
    let found = collect_later_entries_for_date(&days, day(2026, 1, 20));
    let got: Vec<(Date, usize, String)> =
        found.into_iter().map(|e| (e.source_date, e.line_index, e.content)).collect();
    assert_eq!(
        got,
        vec![
            (day(2026, 1, 10), 1, "first @01/20".to_string()),
            (day(2026, 1, 10), 3, "second @1/20".to_string()),
            (day(2026, 1, 12), 0, "third @01/20".to_string()),
        ]
    );
}

#[test]
fn only_the_first_date_of_an_entry_counts() {
    let days = journal(&[(day(2026, 1, 10), "- move @01/20 not @01/25, mail bob@example")]);
    assert_eq!(collect_later_entries_for_date(&days, day(2026, 1, 20)).len(), 1);
    assert!(collect_later_entries_for_date(&days, day(2026, 1, 25)).is_empty());
}
