use caliber::layout::{list_content_width_for_daily, scroll_indicator_text, ScrollGlyphs, ScrollIndicatorStyle};
use caliber::wrap::{cursor_position_in_wrap, truncate_text, wrap_text};

#[test]
fn wrap_breaks_at_spaces() {
    assert_eq!(wrap_text("hello world", 20), vec!["hello world"]);
    assert_eq!(wrap_text("a b c", 2), vec!["a ", "b ", "c"]);
    assert_eq!(wrap_text("one two three", 8), vec!["one two ", "three"]);
    assert_eq!(wrap_text("", 5), vec![""]);
    assert_eq!(wrap_text("anything at all", 0), vec!["anything at all"]);
}

#[test]
fn wrap_breaks_long_words_by_character() {
    assert_eq!(wrap_text("abcdefghij", 4), vec!["abcd", "efgh", "ij"]);
    assert_eq!(wrap_text("hello world", 5), vec!["hello", " ", "world"]);
    assert_eq!(wrap_text("日本語", 4), vec!["日本", "語"]);
    assert_eq!(wrap_text("日本語", 1), vec!["日", "本", "語"]);
}

#[test]
fn truncate_leaves_room_for_the_ellipsis() {
    assert_eq!(truncate_text("hi", 5), "hi");
    assert_eq!(truncate_text("hello", 5), "hello");
    assert_eq!(truncate_text("hello world", 8), "hello w…");
    assert_eq!(truncate_text("日本語", 4), "日…");
    assert_eq!(truncate_text("日本語", 5), "日本…");
    assert_eq!(truncate_text("abc", 1), "…");
    assert_eq!(truncate_text("abc", 0), "…");
    assert_eq!(truncate_text("", 0), "");
}

#[test]
fn cursor_in_text_that_fits() {
    assert_eq!(cursor_position_in_wrap("hello world", 0, 20), (0, 0));
    assert_eq!(cursor_position_in_wrap("hello world", 3, 20), (0, 3));
    assert_eq!(cursor_position_in_wrap("hello world", 8, 20), (0, 8));
    assert_eq!(cursor_position_in_wrap("hello world", 11, 20), (0, 11));
    assert_eq!(cursor_position_in_wrap("", 0, 20), (0, 0));
    assert_eq!(cursor_position_in_wrap("hello world", 7, 0), (0, 7));
}

#[test]
fn cursor_follows_words_onto_new_rows() {
    assert_eq!(cursor_position_in_wrap("hello world", 5, 6), (0, 5));
    assert_eq!(cursor_position_in_wrap("hello world", 6, 6), (1, 0));
    assert_eq!(cursor_position_in_wrap("hello world", 8, 6), (1, 2));
    assert_eq!(cursor_position_in_wrap("hello world", 11, 6), (1, 5));
    assert_eq!(cursor_position_in_wrap("a b c", 4, 2), (2, 0));
}

#[test]
fn cursor_in_words_longer_than_a_row() {
    assert_eq!(cursor_position_in_wrap("abcdefghij", 5, 4), (0, 5));
    assert_eq!(cursor_position_in_wrap("abcdefghij", 10, 4), (2, 2));
    assert_eq!(cursor_position_in_wrap("ab abcdefgh", 5, 4), (1, 2));
    assert_eq!(cursor_position_in_wrap("ab abcdefgh", 8, 4), (2, 1));
    assert_eq!(cursor_position_in_wrap("ab abcdefgh", 11, 4), (2, 4));
    assert_eq!(cursor_position_in_wrap("ab 日本語", 4, 2), (4, 2));
    assert_eq!(cursor_position_in_wrap("ab 日本語", 5, 2), (2, 2));
}

#[test]
fn placing_words_and_characters() {
    let fits = caliber::wrap::fits_beside;
    assert!(fits(3, 2, 5));
    assert!(!fits(3, 3, 5));
    assert!(!fits(0, 6, 5));
    assert!(!fits(usize::MAX, usize::MAX, usize::MAX));
    assert!(fits(0, 0, 0));
    let step = caliber::wrap::lay_step;
    assert_eq!(step(0, 0, 2, 1), (0, 2));
    assert_eq!(step(0, 2, 1, 4), (0, 3));
    assert_eq!(step(1, 4, 1, 4), (2, 1));
    let place = caliber::wrap::place_word;
    let on_row = place(2, 3, 2, 5);
    assert_eq!((on_row.row, on_row.start_col, on_row.col_after), (2, 3, 5));
    let overrun = place(2, 0, 9, 5);
    assert_eq!((overrun.row, overrun.start_col, overrun.col_after), (2, 0, 0));
    let next = place(2, 3, 9, 5);
    assert_eq!((next.row, next.start_col, next.col_after), (3, 0, 9));
    let id: String = caliber::project::numbered_id(&"app".chars().collect(), 1234567890).into_iter().collect();
    assert_eq!(id, "app-1234567890");
}

#[test]
fn wrapped_lines_together_are_the_text() {
    for text in ["", " ", "hello world", "a  b   c ", "abcdefghij klm", "日本語 text ünd mehr", "  lead"] {
        for width in 0..8 {
            let lines = wrap_text(text, width);
            assert!(!lines.is_empty());
            assert_eq!(lines.concat(), text, "{text:?} at {width}");
        }
    }
}

#[test]
fn scroll_mark_says_where_the_list_can_go() {
    let glyphs = ScrollGlyphs {
        both: "<>".to_string(),
        up: "<".to_string(),
        down: ">".to_string(),
        padding: " ".to_string(),
        label: " more".to_string(),
    };
    let mark = |up, down, style| scroll_indicator_text(up, down, style, &glyphs);
    assert_eq!(mark(true, true, ScrollIndicatorStyle::Arrows), Some("<>".to_string()));
    assert_eq!(mark(true, false, ScrollIndicatorStyle::Arrows), Some("<".to_string()));
    assert_eq!(mark(false, true, ScrollIndicatorStyle::Arrows), Some(">".to_string()));
    assert_eq!(mark(false, false, ScrollIndicatorStyle::Arrows), None);
    assert_eq!(mark(false, false, ScrollIndicatorStyle::Labeled), None);
    assert_eq!(mark(true, true, ScrollIndicatorStyle::Labeled), Some(" <> more ".to_string()));
    assert_eq!(mark(false, true, ScrollIndicatorStyle::Labeled), Some(" > more ".to_string()));
}

#[test]
fn daily_list_width_beside_the_calendar() {
    assert_eq!(list_content_width_for_daily(80, false, 24), 76);
    assert_eq!(list_content_width_for_daily(80, true, 24), 51);
    assert_eq!(list_content_width_for_daily(20, true, 24), 0);
    assert_eq!(list_content_width_for_daily(30, true, 24), 1);
    assert_eq!(list_content_width_for_daily(4, false, 24), 0);
    assert_eq!(list_content_width_for_daily(5, false, 24), 1);
    assert_eq!(list_content_width_for_daily(0, false, 24), 0);
    assert_eq!(list_content_width_for_daily(0, true, 0), 0);
    assert_eq!(list_content_width_for_daily(u16::MAX, true, u16::MAX), 0);
    assert_eq!(list_content_width_for_daily(u16::MAX, false, 7), 65531);
}
