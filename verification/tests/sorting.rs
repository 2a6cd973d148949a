use caliber::config::Config;
use caliber::entries::{parse_lines, serialize_lines};
use caliber::listnav::{list_move_down, list_move_up, ListState, LIST_VISIBLE_HEIGHT};
use caliber::modes::InsertPosition;
use caliber::sorting::{order_by_key, sort_entries};
use caliber::views::{clamp_selection, DailyState, FilterState};

fn sorted(text: &str, order: &[&str]) -> String {
    let config = Config { sort_order: order.iter().map(|s| s.to_string()).collect(), ..Default::default() };
    let mut lines = parse_lines(text);
    sort_entries(&mut lines, &config);
    serialize_lines(&lines)
}

#[test]
fn sort_moves_entries_only_among_entry_lines() {
    let text = "# day\n- [ ] open 1\n- note 1\n\n* event 1\n- [x] done 1\nprose\n- [ ] open 2\n- note 2";
    assert_eq!(
        sorted(text, &["completed", "events", "notes", "uncompleted"]),
        "# day\n- [x] done 1\n* event 1\n\n- note 1\n- note 2\nprose\n- [ ] open 1\n- [ ] open 2"
    );
    assert_eq!(sorted(text, &[]), sorted(text, &["completed", "events", "notes", "uncompleted"]));
}

#[test]
fn sort_keeps_equal_ranks_in_order_and_unranked_types_last() {
    let text = "- n1\n* e1\n- [ ] t1\n- n2\n* e2\n- [x] d1";
    assert_eq!(sorted(text, &["notes"]), "- n1\n- n2\n* e1\n- [ ] t1\n* e2\n- [x] d1");
    assert_eq!(sorted(text, &["uncompleted", "bogus", "events"]), "- [ ] t1\n* e1\n* e2\n- n1\n- n2\n- [x] d1");
    assert_eq!(sorted("raw only\n", &["notes"]), "raw only\n");
    assert_eq!(sorted("", &["notes"]), "");
}

#[test]
fn order_by_key_is_stable() {
    assert_eq!(order_by_key(&vec![2, 0, 1, 0, 2, 1]), vec![1, 3, 2, 5, 0, 4]);
    assert_eq!(order_by_key(&vec![]), Vec::<usize>::new());
    assert_eq!(order_by_key(&vec![5, 5, 5]), vec![0, 1, 2]);
}

#[test]
fn list_selection_moves_with_its_window() {
    let mut state = ListState { len: 20, selected: 0, scroll_offset: 0 };
    list_move_up(&mut state);
    assert_eq!(state, ListState { len: 20, selected: 0, scroll_offset: 0 });
    for _ in 0..LIST_VISIBLE_HEIGHT - 1 {
        list_move_down(&mut state);
    }
    assert_eq!(state, ListState { len: 20, selected: 7, scroll_offset: 0 });
    list_move_down(&mut state);
    assert_eq!(state, ListState { len: 20, selected: 8, scroll_offset: 1 });
    for _ in 0..30 {
        list_move_down(&mut state);
    }
    assert_eq!(state, ListState { len: 20, selected: 19, scroll_offset: 12 });
    list_move_up(&mut state);
    assert_eq!(state, ListState { len: 20, selected: 18, scroll_offset: 12 });
    for _ in 0..7 {
        list_move_up(&mut state);
    }
    assert_eq!(state, ListState { len: 20, selected: 11, scroll_offset: 11 });
    let mut empty = ListState { len: 0, selected: 0, scroll_offset: 0 };
    list_move_down(&mut empty);
    assert_eq!(empty, ListState { len: 0, selected: 0, scroll_offset: 0 });
}

#[test]
fn insert_position_names_a_line() {
    assert_eq!(InsertPosition::Bottom.line(Some(2), 5), 5);
    assert_eq!(InsertPosition::Below.line(Some(2), 5), 3);
    assert_eq!(InsertPosition::Above.line(Some(2), 5), 2);
    assert_eq!(InsertPosition::Below.line(None, 5), 5);
    assert_eq!(InsertPosition::Above.line(None, 0), 0);
}

#[test]
fn views_open_with_a_sensible_selection() {
    let day = DailyState::new(5, Vec::new());
    assert_eq!((day.selected, day.scroll_offset), (4, 0));
    assert!(day.original_lines.is_none());
    assert_eq!(DailyState::new(0, Vec::new()).selected, 0);
    let later = caliber::entries::CrossDayEntry {
        source_date: caliber::date::Date::from_ymd(2026, 1, 10).unwrap(),
        line_index: 0,
        content: "x".to_string(),
        entry_type: caliber::entries::EntryType::Note,
        completed: false,
    };
    assert_eq!(DailyState::new(5, vec![later.clone()]).selected, 0);
    let filter = FilterState::new("#x".to_string(), vec![later.clone(), later]);
    assert_eq!((filter.selected, filter.visual_line(), filter.total_lines()), (1, 2, 3));
    assert_eq!(FilterState::new(String::new(), Vec::new()).selected, 0);
    assert_eq!(clamp_selection(7, 3), 2);
    assert_eq!(clamp_selection(2, 3), 2);
    assert_eq!(clamp_selection(4, 0), 4);
}
