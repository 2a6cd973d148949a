use caliber::date::{Date, Weekday};
use caliber::dateexpr::{parse_date, ParseContext};

fn day(y: i32, m: u32, d: u32) -> Date {
    Date::from_ymd(y, m, d).unwrap()
}

#[test]
fn from_ymd_accepts_days_that_exist() {
    assert!(Date::from_ymd(2015, 3, 14).is_some());
    assert!(Date::from_ymd(2015, 0, 14).is_none());
    assert!(Date::from_ymd(2015, 13, 1).is_none());
    assert!(Date::from_ymd(2015, 2, 29).is_none());
    assert!(Date::from_ymd(2016, 2, 29).is_some());
    assert!(Date::from_ymd(1900, 2, 29).is_none());
    assert!(Date::from_ymd(2000, 2, 29).is_some());
    assert!(Date::from_ymd(-4, 2, 29).is_some());
    assert!(Date::from_ymd(2023, 4, 31).is_none());
    assert!(Date::from_ymd(2023, 4, 0).is_none());
    assert!(Date::from_ymd(400000, 1, 1).is_none());
    assert!(Date::from_ymd(-400000, 1, 1).is_none());
    assert!(Date::from_ymd(262142, 12, 31).is_some());
    assert!(Date::from_ymd(262143, 1, 1).is_none());
    assert!(Date::from_ymd(-262143, 1, 1).is_some());
}

#[test]
fn from_ymd_agrees_with_the_calendar_library() {
    for y in [-401, -400, -1, 0, 1, 1899, 1900, 1999, 2000, 2023, 2024, 2100] {
        for m in 0..14u32 {
            for d in 0..33u32 {
                assert_eq!(
                    Date::from_ymd(y, m, d).is_some(),
                    chrono::NaiveDate::from_ymd_opt(y, m, d).is_some(),
                    "{y}-{m}-{d}"
                );
            }
        }
    }
}

#[test]
fn order_of_days() {
    assert!(day(2025, 12, 31).is_before(&day(2026, 1, 1)));
    assert!(day(2026, 1, 31).is_before(&day(2026, 2, 1)));
    assert!(day(2026, 2, 1).is_before(&day(2026, 2, 2)));
    assert!(!day(2026, 2, 2).is_before(&day(2026, 2, 2)));
    assert!(!day(2026, 2, 3).is_before(&day(2026, 2, 2)));
    assert!(day(2026, 2, 2).same_day(&day(2026, 2, 2)));
}

#[test]
fn weekday_and_day_arithmetic() {
    assert_eq!(day(2026, 1, 15).weekday(), Weekday::Thu);
    assert_eq!(day(2026, 1, 12).weekday(), Weekday::Mon);
    assert_eq!(day(2024, 2, 29).weekday(), Weekday::Thu);
    assert_eq!(day(2015, 9, 5).plus_days(40), Some(day(2015, 10, 15)));
    assert_eq!(day(2015, 9, 5).plus_days(-40), Some(day(2015, 7, 27)));
    assert_eq!(day(2015, 9, 5).plus_days(0), Some(day(2015, 9, 5)));
    assert_eq!(day(2015, 9, 5).plus_days(1_000_000_000), None);
    assert_eq!(day(262142, 12, 31).plus_days(1), None);
    assert_eq!(Weekday::Sun.index(), 6);
    assert_eq!(Weekday::from_index(2), Weekday::Wed);
}

#[test]
fn keywords_resolve_the_same_everywhere() {
    let today = day(2026, 1, 15);
    for ctx in [ParseContext::Entry, ParseContext::Filter, ParseContext::Interface] {
        assert_eq!(parse_date("today", ctx, today), Some(today));
        assert_eq!(parse_date("Tomorrow", ctx, today), Some(day(2026, 1, 16)));
        assert_eq!(parse_date("YESTERDAY", ctx, today), Some(day(2026, 1, 14)));
        assert_eq!(parse_date("1/14/26", ctx, today), Some(day(2026, 1, 14)));
        assert_eq!(parse_date("12/30/25", ctx, today), Some(day(2025, 12, 30)));
    }
}

#[test]
fn month_day_takes_the_side_the_context_prefers() {
    let today = day(2026, 1, 15);
    assert_eq!(parse_date("01/20", ParseContext::Entry, today), Some(day(2026, 1, 20)));
    assert_eq!(parse_date("01/10", ParseContext::Entry, today), Some(day(2027, 1, 10)));
    assert_eq!(parse_date("01/15", ParseContext::Entry, today), Some(today));
    assert_eq!(parse_date("01/10", ParseContext::Interface, today), Some(day(2027, 1, 10)));
    assert_eq!(parse_date("01/10", ParseContext::Filter, today), Some(day(2026, 1, 10)));
    assert_eq!(parse_date("01/20", ParseContext::Filter, today), Some(day(2025, 1, 20)));
    assert_eq!(parse_date("01/15", ParseContext::Filter, today), Some(today));
    assert_eq!(parse_date("01/20+", ParseContext::Filter, today), Some(day(2026, 1, 20)));
    assert_eq!(parse_date("01/20-", ParseContext::Entry, today), Some(day(2025, 1, 20)));
}

#[test]
fn weekdays_take_the_nearest_day_on_the_preferred_side() {
    let today = day(2026, 1, 15); // a Thursday
    assert_eq!(parse_date("fri", ParseContext::Entry, today), Some(day(2026, 1, 16)));
    assert_eq!(parse_date("thu", ParseContext::Entry, today), Some(day(2026, 1, 22)));
    assert_eq!(parse_date("wed", ParseContext::Entry, today), Some(day(2026, 1, 21)));
    assert_eq!(parse_date("wed", ParseContext::Filter, today), Some(day(2026, 1, 14)));
    assert_eq!(parse_date("thu", ParseContext::Filter, today), Some(day(2026, 1, 8)));
    assert_eq!(parse_date("fri", ParseContext::Filter, today), Some(day(2026, 1, 9)));
    assert_eq!(parse_date("fri+", ParseContext::Filter, today), Some(day(2026, 1, 16)));
    assert_eq!(parse_date("fri-", ParseContext::Entry, today), Some(day(2026, 1, 9)));
    assert_eq!(parse_date("MON", ParseContext::Entry, today), Some(day(2026, 1, 19)));
    assert_eq!(parse_date("sun", ParseContext::Entry, today), Some(day(2026, 1, 18)));
    assert_eq!(parse_date("sat", ParseContext::Filter, today), Some(day(2026, 1, 10)));
}

#[test]
fn relative_days() {
    let today = day(2026, 1, 15);
    assert_eq!(parse_date("d1", ParseContext::Entry, today), Some(day(2026, 1, 16)));
    assert_eq!(parse_date("d7", ParseContext::Filter, today), Some(day(2026, 1, 8)));
    assert_eq!(parse_date("d7+", ParseContext::Filter, today), Some(day(2026, 1, 22)));
    assert_eq!(parse_date("D30", ParseContext::Entry, today), Some(day(2026, 2, 14)));
    assert_eq!(parse_date("d999", ParseContext::Entry, today), today.plus_days(999));
    assert_eq!(parse_date("d0", ParseContext::Entry, today), None);
    assert_eq!(parse_date("d01", ParseContext::Entry, today), None);
    assert_eq!(parse_date("d1000", ParseContext::Entry, today), None);
    assert_eq!(parse_date("d", ParseContext::Entry, today), None);
    assert_eq!(parse_date("d1x", ParseContext::Entry, today), None);
}

#[test]
fn what_is_no_date_is_refused() {
    let today = day(2026, 1, 15);
    for text in [
        "", "+", "-", "tod", "monday", "13/01", "00/10", "1/32", "1/0", "02/30", "1/2/3", "1/2/2026",
        "2025/12/30", "1//2", "/1/2", "a/b", "every-mon", "every-15", "every-", "every-0", "every-32", "t",
    ] {
        assert_eq!(parse_date(text, ParseContext::Entry, today), None, "{text:?}");
    }
    assert_eq!(parse_date("02/29", ParseContext::Entry, today), None);
    assert_eq!(parse_date("02/29", ParseContext::Entry, day(2028, 1, 1)), Some(day(2028, 2, 29)));
    assert_eq!(parse_date("02/29", ParseContext::Filter, day(2029, 1, 1)), Some(day(2028, 2, 29)));
}

#[test]
fn a_weekday_resolves_to_a_day_of_that_weekday_within_a_week() {
    for offset in 0..14 {
        let today = day(2026, 1, 15).plus_days(offset).unwrap();
        for (name, want) in [("mon", Weekday::Mon), ("wed", Weekday::Wed), ("sun", Weekday::Sun)] {
            let ahead = parse_date(name, ParseContext::Entry, today).unwrap();
            assert_eq!(ahead.weekday(), want);
            assert!(today.is_before(&ahead));
            assert!(!today.plus_days(7).unwrap().is_before(&ahead));
            let back = parse_date(name, ParseContext::Filter, today).unwrap();
            assert_eq!(back.weekday(), want);
            assert!(back.is_before(&today));
            assert!(!back.is_before(&today.plus_days(-7).unwrap()));
        }
    }
    assert_eq!(parse_date("mon", ParseContext::Entry, Date::from_ymd(262142, 12, 31).unwrap()), None);
}
