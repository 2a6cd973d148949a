use caliber::config::Config;
use caliber::date::Date;
use caliber::filter::{parse_filter_query, SavedFilter};
use caliber::hints::{accept_hint, input_needs_continuation, HintContext, HintMode};
use caliber::journal::parse_journal;
use caliber::matching::collect_filtered_entries;
use caliber::registry::DateScope;
use caliber::tags::collect_tags;

/// What a prompt holds after `typed` was typed and the first hint accepted.
fn accepted(typed: &str, mode: HintMode, journal: &str, config: &Config) -> String {
    let tags = collect_tags(journal);
    let saved: Vec<String> = config.filters.iter().map(|f| f.name.clone()).collect();
    let hint = HintContext::compute(typed, mode, &tags, &saved);
    accept_hint(typed, &hint)
}

fn hint_for(typed: &str, mode: HintMode) -> HintContext {
    HintContext::compute(typed, mode, &[], &[])
}

fn found(journal: &str, query: &str) -> Vec<String> {
    let today = Date::from_ymd(2026, 1, 15).unwrap();
    let journal = parse_journal(journal);
    let spec = parse_filter_query(query, &Vec::new(), today);
    collect_filtered_entries(&spec, &journal.days, today).into_iter().map(|e| e.content).collect()
}

#[test]
fn command_hints_autocomplete_with_tab() {
    assert_eq!(accepted("qu", HintMode::Command, "", &Config::default()), "quit ");
}

#[test]
fn tag_hint_completes_with_tab() {
    let content = "# 2026/01/15\n- [ ] Task with #feature tag\n";
    let text = accepted("New task #fe", HintMode::Entry, content, &Config::default());
    assert!(text.contains("New task #feature"));
    assert_eq!(text, "New task #feature ");
}

#[test]
fn filter_type_hint_completes_with_tab() {
    let content = "# 2026/01/15\n- [ ] Incomplete task\n- [x] Completed task\n- A note\n";
    let query = accepted("!ta", HintMode::Filter, content, &Config::default());
    let shown = found(content, &query);
    assert!(shown.iter().any(|c| c.contains("Incomplete task")));
    assert!(!shown.iter().any(|c| c.contains("A note")));
}

#[test]
fn date_op_hint_completes_with_tab() {
    assert_eq!(accepted("@be", HintMode::Filter, "", &Config::default()), "@before:");
}

#[test]
fn date_op_hint_completes_with_enter_but_does_not_submit() {
    let text = accepted("@be", HintMode::Filter, "", &Config::default());
    assert_eq!(text, "@before:");
    assert!(input_needs_continuation(&text));
}

#[test]
fn negation_hint_completes_with_tab() {
    let content = "# 2026/01/15\n- [ ] Task with #feature tag\n";
    assert_eq!(accepted("not:#fe", HintMode::Filter, content, &Config::default()), "not:#feature ");
}

#[test]
fn tag_hints_complete_in_multiword_context() {
    let content = "# 2026/01/15\n- [ ] Task with #work tag\n";
    let text = accepted("Meeting notes #wo", HintMode::Entry, content, &Config::default());
    assert!(text.contains("Meeting notes #work"));
}

#[test]
fn exact_match_skips_completion() {
    let content = "# 2026/01/15\n- [ ] Task with #bug tag\n";
    let text = accepted("#bug", HintMode::Entry, content, &Config::default());
    assert_eq!(text, "#bug ".to_string(), "Exact match adds space but no completion");
}

#[test]
fn tags_collect_from_journal_for_hints() {
    let content = "# 2026/01/15\n- [ ] #alpha task\n- [ ] #beta task\n- [ ] #alpha again\n";
    assert_eq!(collect_tags(content), vec!["alpha", "beta"]);
    let text = accepted("#a", HintMode::Entry, content, &Config::default());
    assert!(text.contains("#alpha"));
}

#[test]
fn saved_filter_hint_completes_with_tab() {
    let mut config = Config::default();
    config.filters = vec![
        SavedFilter { name: "work".to_string(), query: "#work !tasks".to_string() },
        SavedFilter { name: "weekly".to_string(), query: "@after:d7".to_string() },
    ];
    assert_eq!(accepted("$wo", HintMode::Filter, "", &config), "$work ");
}

#[test]
fn date_value_hints_show_after_colon() {
    let text = accepted("@before:d", HintMode::Filter, "", &Config::default());
    assert!(text.starts_with("@before:d"));
}

#[test]
fn empty_filter_shows_guidance_message() {
    assert!(matches!(hint_for("", HintMode::Filter), HintContext::GuidanceMessage { .. }));
    assert_eq!(accepted("", HintMode::Filter, "", &Config::default()), " ");
}

#[test]
fn command_without_colon_does_not_need_continuation() {
    assert!(!input_needs_continuation("config"));
}

#[test]
fn date_value_hints_recognize_future_suffix() {
    assert!(matches!(hint_for("@before:d7+", HintMode::Filter), HintContext::DateValues { .. }));
}

#[test]
fn relative_days_limit_to_three_digits() {
    assert!(matches!(hint_for("@before:d999", HintMode::Filter), HintContext::DateValues { .. }));
    assert!(matches!(hint_for("@before:d9999", HintMode::Filter), HintContext::Inactive));
}

#[test]
fn entry_date_hints_show_for_at_prefix() {
    assert!(matches!(
        hint_for("Task @t", HintMode::Entry),
        HintContext::DateValues { scope: DateScope::Entry, .. }
    ));
}

#[test]
fn entry_date_hints_autocomplete_with_tab() {
    assert_eq!(accepted("Task @tom", HintMode::Entry, "", &Config::default()), "Task @tomorrow ".to_string());
}

#[test]
fn entry_every_hints_show_for_every_prefix() {
    assert!(matches!(
        hint_for("Task @ev", HintMode::Entry),
        HintContext::DateValues { scope: DateScope::Entry, .. }
    ));
}

#[test]
fn entry_every_hints_persist_while_typing_day() {
    if let HintContext::DateValues { matches, scope, .. } = &hint_for("Task @every-m", HintMode::Entry) {
        assert_eq!(*scope, DateScope::Entry);
        assert!(!matches.is_empty(), "Hints should still show for @every-m");
    } else {
        panic!("Expected DateValues hint state with Entry scope");
    }
}

#[test]
fn entry_every_hints_show_after_hyphen() {
    if let HintContext::DateValues { matches, scope, .. } = &hint_for("Task @every-", HintMode::Entry) {
        assert_eq!(*scope, DateScope::Entry);
        assert!(matches.len() >= 2, "Should show both @every-[1-31] and @every-[day]");
    } else {
        panic!("Expected DateValues hint state with Entry scope");
    }
}

#[test]
fn weekday_group_completes_to_first_matching_day() {
    assert_eq!(accepted("Task @m", HintMode::Entry, "", &Config::default()), "Task @mon ".to_string());
}

#[test]
fn t_prefix_completes_to_today_before_weekday() {
    assert_eq!(accepted("Task @t", HintMode::Entry, "", &Config::default()), "Task @today ".to_string());
}

#[test]
fn weekday_group_tu_completes_to_tue() {
    assert_eq!(accepted("Task @tu", HintMode::Entry, "", &Config::default()), "Task @tue ".to_string());
}

#[test]
fn weekday_group_th_completes_to_thu() {
    assert_eq!(accepted("Task @th", HintMode::Entry, "", &Config::default()), "Task @thu ".to_string());
}

#[test]
fn every_weekday_group_shows_hints_for_partial_day() {
    if let HintContext::DateValues { matches, scope, .. } = &hint_for("Task @every-t", HintMode::Entry) {
        assert_eq!(*scope, DateScope::Entry);
        assert!(!matches.is_empty(), "Should show hints for @every-t");
    } else {
        panic!("Expected DateValues hint state");
    }
}

#[test]
fn every_weekday_group_completes_to_matching_day() {
    assert_eq!(accepted("Task @every-tu", HintMode::Entry, "", &Config::default()), "Task @every-tue ".to_string());
}

#[test]
fn filter_weekday_group_shows_hints() {
    assert!(matches!(
        hint_for("@before:m", HintMode::Filter),
        HintContext::DateValues { scope: DateScope::Filter, .. }
    ));
}

#[test]
fn filter_weekday_group_completes() {
    assert_eq!(accepted("@before:tu", HintMode::Filter, "", &Config::default()), "@before:tue ");
}
