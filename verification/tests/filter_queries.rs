use caliber::date::Date;
use caliber::dayfile::DayFile;
use caliber::entries::{parse_lines, EntryType};
use caliber::filter::{parse_filter_query, FilterSpec, SavedFilter, TypeFilter};
use caliber::matching::collect_filtered_entries;

fn day(y: i32, m: u32, d: u32) -> Date {
    Date::from_ymd(y, m, d).unwrap()
}

fn journal(days: &[(Date, &str)]) -> Vec<DayFile> {
    days.iter().map(|(date, text)| DayFile { date: *date, lines: parse_lines(text) }).collect()
}

fn contents(spec: &FilterSpec, days: &Vec<DayFile>, today: Date) -> Vec<String> {
    collect_filtered_entries(spec, days, today).into_iter().map(|e| e.content).collect()
}

fn run(query: &str, days: &Vec<DayFile>) -> Vec<String> {
    let today = day(2026, 1, 15);
    let spec = parse_filter_query(query, &Vec::new(), today);
    assert!(spec.invalid_tokens.is_empty(), "{:?}", spec.invalid_tokens);
    contents(&spec, days, today)
}

#[test]
fn tasks_with_tag_finds_only_the_open_tagged_task() {
    let days = journal(&[(day(2026, 1, 15), "- [ ] Buy milk #errand\n- [x] Done task\n")]);
    let today = day(2026, 1, 15);
    let spec = parse_filter_query("!tasks #errand", &Vec::new(), today);
    let found = collect_filtered_entries(&spec, &days, today);
    assert_eq!(found.len(), 1);
    assert_eq!(found[0].content, "Buy milk #errand");
    assert_eq!(found[0].line_index, 0);
    assert_eq!(found[0].source_date, today);
    assert_eq!(found[0].entry_type, EntryType::Task { completed: false });
    assert!(!found[0].completed);
}

#[test]
fn query_is_read_into_its_parts() {
    let today = day(2026, 1, 15);
    let spec = parse_filter_query(
        "!tasks #Work not:#home not:!n milk not:eggs @before:1/14/26 @after:01/10/26 @overdue",
        &Vec::new(),
        today,
    );
    assert_eq!(spec.entry_type, Some(TypeFilter::OpenTasks));
    assert_eq!(spec.tags, vec!["Work".to_string()]);
    assert_eq!(spec.exclude_tags, vec!["home".to_string()]);
    assert_eq!(spec.exclude_types, vec![TypeFilter::Notes]);
    assert_eq!(spec.search_terms, vec!["milk".to_string()]);
    assert_eq!(spec.exclude_terms, vec!["eggs".to_string()]);
    assert_eq!(spec.before, Some(day(2026, 1, 14)));
    assert_eq!(spec.after, Some(day(2026, 1, 10)));
    assert!(spec.overdue);
    assert!(spec.invalid_tokens.is_empty());
    assert!(!spec.is_empty());
}

#[test]
fn type_names_short_and_long() {
    let today = day(2026, 1, 15);
    let cases = [
        ("!t", TypeFilter::OpenTasks),
        ("!tasks", TypeFilter::OpenTasks),
        ("!tasks/done", TypeFilter::DoneTasks),
        ("!tasks/all", TypeFilter::AllTasks),
        ("!n", TypeFilter::Notes),
        ("!notes", TypeFilter::Notes),
        ("!e", TypeFilter::Events),
        ("!events", TypeFilter::Events),
    ];
    for (query, want) in cases {
        let spec = parse_filter_query(query, &Vec::new(), today);
        assert_eq!(spec.entry_type, Some(want), "{query}");
    }
}

#[test]
fn words_not_understood_are_reported_and_ignored() {
    let today = day(2026, 1, 15);
    let spec = parse_filter_query("!bogus not: # #1x @nope @before:zzz $missing not:@overdue ok", &Vec::new(), today);
    assert_eq!(
        spec.invalid_tokens,
        vec!["!bogus", "not:", "#", "#1x", "@nope", "@before:zzz", "$missing", "not:@overdue"]
            .into_iter()
            .map(String::from)
            .collect::<Vec<_>>()
    );
    assert_eq!(spec.search_terms, vec!["ok".to_string()]);
    assert_eq!(spec.entry_type, None);
}

#[test]
fn empty_query_admits_every_entry() {
    let days = journal(&[(day(2026, 1, 15), "# h\n- [ ] a\n- b\n* c\n- [x] d")]);
    let today = day(2026, 1, 15);
    let spec = parse_filter_query("   ", &Vec::new(), today);
    assert!(spec.is_empty());
    assert_eq!(spec, FilterSpec::new());
    assert_eq!(contents(&spec, &days, today), vec!["a", "b", "c", "d"]);
}

#[test]
fn tag_filter_ignores_case_and_partial_names() {
    let days = journal(&[(
        day(2026, 1, 15),
        "- [ ] Task with #work\n- [ ] Task with #personal\n- Note with #WORK\n- at the #workshop\n- #work-out",
    )]);
    assert_eq!(run("#work", &days), vec!["Task with #work", "Note with #WORK"]);
    assert_eq!(run("#Work", &days), vec!["Task with #work", "Note with #WORK"]);
}

#[test]
fn type_filters_pick_their_types() {
    let days = journal(&[(day(2026, 1, 15), "- [ ] A task\n- A note\n* An event\n- [x] Finished")]);
    assert_eq!(run("!tasks", &days), vec!["A task"]);
    assert_eq!(run("!tasks/done", &days), vec!["Finished"]);
    assert_eq!(run("!tasks/all", &days), vec!["A task", "Finished"]);
    assert_eq!(run("!notes", &days), vec!["A note"]);
    assert_eq!(run("!events", &days), vec!["An event"]);
    assert_eq!(run("not:!tasks", &days), vec!["A note", "An event", "Finished"]);
}

#[test]
fn combined_conditions_all_apply() {
    let days = journal(&[(
        day(2026, 1, 15),
        "- [ ] Work task #work\n- [ ] Personal task #personal\n- Work note #work\n",
    )]);
    assert_eq!(run("!tasks #work", &days), vec!["Work task #work"]);
}

#[test]
fn negated_tag_is_the_complement() {
    let days = journal(&[(
        day(2026, 1, 15),
        "- [ ] Work task #work\n- [ ] Personal task #personal\n- [ ] Untagged task\n",
    )]);
    let with = run("#work", &days);
    let without = run("not:#work", &days);
    assert_eq!(with, vec!["Work task #work"]);
    assert_eq!(without, vec!["Personal task #personal", "Untagged task"]);
    let all = run("", &days);
    assert_eq!(with.len() + without.len(), all.len());
}

#[test]
fn free_text_matches_any_word_without_case() {
    let days = journal(&[(day(2026, 1, 15), "- Buy MILK\n- buy eggs\n- sell bread")]);
    assert_eq!(run("milk", &days), vec!["Buy MILK"]);
    assert_eq!(run("Milk EGGS", &days), vec!["Buy MILK", "buy eggs"]);
    assert_eq!(run("buy not:eggs", &days), vec!["Buy MILK"]);
}

#[test]
fn adding_a_condition_never_finds_more() {
    let days = journal(&[(
        day(2026, 1, 15),
        "- [ ] a #x\n- [ ] b #y\n- c #x\n* d #x #y\n- [x] e",
    )]);
    let base = run("#x", &days);
    for extra in ["!tasks", "#y", "not:#y", "not:!e", "not:d", "@after:1/15/26", "@before:1/15/26", "@overdue", "d"] {
        let narrowed = run(&format!("#x {extra}"), &days);
        assert!(narrowed.iter().all(|c| base.contains(c)), "{extra}");
    }
}

#[test]
fn date_bounds_are_inclusive_and_results_ordered_by_day() {
    let days = journal(&[
        (day(2026, 1, 15), "- [ ] Today entry\n"),
        (day(2026, 1, 14), "- [ ] Yesterday entry\n"),
        (day(2026, 1, 10), "- [ ] Old entry\n"),
    ]);
    assert_eq!(run("@after:1/14/26", &days), vec!["Yesterday entry", "Today entry"]);
    assert_eq!(run("@before:1/14/26", &days), vec!["Old entry", "Yesterday entry"]);
    assert_eq!(run("", &days), vec!["Old entry", "Yesterday entry", "Today entry"]);
    assert_eq!(run("@after:yesterday", &days), vec!["Yesterday entry", "Today entry"]);
    assert_eq!(run("@before:d5", &days), vec!["Old entry"]);
}

#[test]
fn overdue_needs_a_date_that_has_gone_by() {
    let today = day(2026, 1, 15);
    let days = journal(&[(
        today,
        "- [ ] Past due task @01/14\n- [ ] Future task @01/20/26\n- [ ] No date task\n- [ ] Recurring @every-mon",
    )]);
    let spec = parse_filter_query("@overdue", &Vec::new(), today);
    assert_eq!(contents(&spec, &days, today), vec!["Past due task @01/14"]);
}

#[test]
fn saved_filters_expand_once() {
    let saved = vec![
        SavedFilter { name: "t".to_string(), query: "!tasks".to_string() },
        SavedFilter { name: "loop".to_string(), query: "$t #a".to_string() },
    ];
    let today = day(2026, 1, 15);
    let days = journal(&[(
        today,
        "- [ ] Urgent task #urgent\n- [ ] Normal task #work\n- A note #urgent\n",
    )]);
    let spec = parse_filter_query("$t #urgent", &saved, today);
    assert_eq!(spec.entry_type, Some(TypeFilter::OpenTasks));
    assert!(spec.invalid_tokens.is_empty());
    assert_eq!(contents(&spec, &days, today), vec!["Urgent task #urgent"]);

    let nested = parse_filter_query("$loop", &saved, today);
    assert_eq!(nested.invalid_tokens, vec!["$t".to_string()]);
    assert_eq!(nested.tags, vec!["a".to_string()]);
    assert_eq!(nested.entry_type, None);

    let unknown = parse_filter_query("$nope #a", &saved, today);
    assert_eq!(unknown.invalid_tokens, vec!["$nope".to_string()]);
}

#[test]
fn line_index_points_into_the_source_day() {
    let days = journal(&[(day(2026, 1, 15), "# 2026/01/15\n\n- a\nprose\n- [ ] b")]);
    let today = day(2026, 1, 15);
    let found = collect_filtered_entries(&FilterSpec::new(), &days, today);
    let at: Vec<usize> = found.iter().map(|e| e.line_index).collect();
    assert_eq!(at, vec![2, 4]);
}

#[test]
fn free_text_ignores_case_beyond_ascii() {
    let days = journal(&[(day(2026, 1, 15), "- Zur ÉCOLE gehen\n- Über alles\n- plain")]);
    assert_eq!(run("école", &days), vec!["Zur ÉCOLE gehen"]);
    assert_eq!(run("ÜBER", &days), vec!["Über alles"]);
    assert_eq!(run("not:école", &days), vec!["Über alles", "plain"]);
}

#[test]
fn words_are_split_at_any_white_space() {
    let today = day(2026, 1, 15);
    let spec = parse_filter_query("\t#a\u{a0}#b \n !n  ", &Vec::new(), today);
    assert_eq!(spec.tags, vec!["a".to_string(), "b".to_string()]);
    assert_eq!(spec.entry_type, Some(TypeFilter::Notes));
}

#[test]
fn saved_filters_are_written_out_in_the_query() {
    let saved = vec![
        SavedFilter { name: "t".to_string(), query: "!tasks  #a".to_string() },
        SavedFilter { name: "t".to_string(), query: "shadowed".to_string() },
    ];
    let expand = caliber::filter::expand_saved_filters;
    assert_eq!(expand("$t #urgent", &saved), ("!tasks #a #urgent".to_string(), Vec::<String>::new()));
    assert_eq!(expand("  $x   $t $ ", &saved), ("$x !tasks #a $".to_string(), vec!["$x".to_string(), "$".to_string()]));
    assert_eq!(expand("", &saved), (String::new(), Vec::<String>::new()));
}
