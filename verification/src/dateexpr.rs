//! Date expressions: the small language in which entries and filters name a
//! day (`01/20`, `tomorrow`, `fri`, `d7`) or a recurrence (`every-mon`,
//! `every-15`), and its resolution against a reference day.
//!
//! Expressions are read in lowercase; callers lower the text first.

use crate::date::date_plus_days;
use crate::date::valid_ymd;
use crate::date::weekday_number;
use crate::date::Date;
use crate::date::Weekday;
use crate::text::chars_of;
use crate::text::copy_range;
use crate::text::digit_of;
use crate::text::digit_value;
use crate::text::is_ascii_digit;
use crate::text::is_digit;
use crate::text::lower;
use crate::text::lowercase;
use crate::text::same_text;
use crate::text::split;
use crate::text::split_on;
use crate::text::starts_with;
use crate::text::texts;
use vstd::prelude::*;

verus! {

/// The bias that a trailing `+` or `-` asks for.
#[derive(Clone, Copy, Debug, PartialEq, Eq, Structural)]
pub enum Direction {
    Future,
    Past,
}

/// Where a date expression is read; this decides the bias of an expression
/// that could name a day on either side of the reference day.
#[derive(Clone, Copy, Debug, PartialEq, Eq, Structural)]
pub enum ParseContext {
    /// Inside an entry: the nearest day to come.
    Entry,
    /// Inside a filter query: the nearest day gone by.
    Filter,
    /// In a prompt of the interface: the nearest day to come.
    Interface,
}

/// The recognized shapes of a date expression.
#[derive(Clone, Copy, Debug, PartialEq, Eq, Structural)]
pub enum DateForm {
    Today,
    Tomorrow,
    Yesterday,
    /// A weekday by its three-letter name.
    Weekday(Weekday),
    /// `d<N>`: N days away, N from 1 to 999.
    DaysAway(u32),
    /// `MM/DD`.
    MonthDay(u32, u32),
    /// `MM/DD/YY`, the year counted from 2000.
    MonthDayYear(u32, u32, u32),
    /// `every-<weekday>`.
    EveryWeekday(Weekday),
    /// `every-<N>`: the N-th day of each month, N from 1 to 31.
    EveryDay(u32),
}

/// A date expression: its shape and the bias its suffix asks for, if any.
#[derive(Clone, Copy, Debug, PartialEq, Eq, Structural)]
pub struct DateExpr {
    pub form: DateForm,
    pub direction: Option<Direction>,
}

// ---------------------------------------------------------------------------
// Recognition
// ---------------------------------------------------------------------------

/// The bias that the last character of `s` asks for.
pub open spec fn direction_suffix(s: Seq<char>) -> Option<Direction> {
    if s.len() > 0 && s.last() == '+' {
        Some(Direction::Future)
    } else if s.len() > 0 && s.last() == '-' {
        Some(Direction::Past)
    } else {
        None
    }
}

/// `s` without its direction suffix.
pub open spec fn without_suffix(s: Seq<char>) -> Seq<char> {
    if direction_suffix(s) is Some {
        s.drop_last()
    } else {
        s
    }
}

/// The weekday with the three-letter name `s`.
pub open spec fn weekday_named(s: Seq<char>) -> Option<Weekday> {
    if s == "mon"@ {
        Some(Weekday::Mon)
    } else if s == "tue"@ {
        Some(Weekday::Tue)
    } else if s == "wed"@ {
        Some(Weekday::Wed)
    } else if s == "thu"@ {
        Some(Weekday::Thu)
    } else if s == "fri"@ {
        Some(Weekday::Fri)
    } else if s == "sat"@ {
        Some(Weekday::Sat)
    } else if s == "sun"@ {
        Some(Weekday::Sun)
    } else {
        None
    }
}

/// Every character of `s` is a decimal digit.
pub open spec fn all_digits(s: Seq<char>) -> bool {
    forall|i: int| 0 <= i < s.len() ==> is_digit(#[trigger] s[i])
}

/// The number that the decimal digits `s` write.
pub open spec fn number_value(s: Seq<char>) -> int
    decreases s.len(),
{
    if s.len() == 0 {
        0
    } else {
        number_value(s.drop_last()) * 10 + digit_value(s.last())
    }
}

/// `s` writes a positive number in at most `max_digits` digits, without a
/// leading zero.
pub open spec fn is_count(s: Seq<char>, max_digits: int) -> bool {
    1 <= s.len() <= max_digits && all_digits(s) && s[0] != '0'
}

/// `s` writes a number in one or two digits; a leading zero is allowed.
pub open spec fn is_short_number(s: Seq<char>) -> bool {
    1 <= s.len() <= 2 && all_digits(s)
}

/// The shape of `MM/DD` or `MM/DD/YY`: month from 1 to 12, day from 1 to 31,
/// year in exactly two digits.
pub open spec fn recognize_month_day(base: Seq<char>) -> Option<DateForm> {
    let parts = split(base, '/');
    if parts.len() == 2 || parts.len() == 3 {
        let m = number_value(parts[0]);
        let d = number_value(parts[1]);
        if is_short_number(parts[0]) && is_short_number(parts[1]) && 1 <= m <= 12 && 1 <= d
            <= 31 {
            if parts.len() == 2 {
                Some(DateForm::MonthDay(m as u32, d as u32))
            } else if parts[2].len() == 2 && all_digits(parts[2]) {
                Some(DateForm::MonthDayYear(m as u32, d as u32, number_value(parts[2]) as u32))
            } else {
                None
            }
        } else {
            None
        }
    } else {
        None
    }
}

/// The shape of what follows `every-`.
pub open spec fn recognize_recurrence(rest: Seq<char>) -> Option<DateForm> {
    if weekday_named(rest) is Some {
        Some(DateForm::EveryWeekday(weekday_named(rest)->0))
    } else if is_count(rest, 2) && number_value(rest) <= 31 {
        Some(DateForm::EveryDay(number_value(rest) as u32))
    } else {
        None
    }
}

/// The shape of an expression without its direction suffix.
pub open spec fn recognize_form(base: Seq<char>) -> Option<DateForm> {
    if base == "today"@ {
        Some(DateForm::Today)
    } else if base == "tomorrow"@ {
        Some(DateForm::Tomorrow)
    } else if base == "yesterday"@ {
        Some(DateForm::Yesterday)
    } else if weekday_named(base) is Some {
        Some(DateForm::Weekday(weekday_named(base)->0))
    } else if base.len() > 0 && base[0] == 'd' && is_count(base.skip(1), 3) {
        Some(DateForm::DaysAway(number_value(base.skip(1)) as u32))
    } else if "every-"@.is_prefix_of(base) {
        recognize_recurrence(base.skip(6))
    } else {
        recognize_month_day(base)
    }
}

/// The date expression that the lowercase text `s` writes, if it writes one.
pub open spec fn recognize(s: Seq<char>) -> Option<DateExpr> {
    match recognize_form(without_suffix(s)) {
        Some(form) => Some(DateExpr { form, direction: direction_suffix(s) }),
        None => None,
    }
}

/// Digits write a number below the power of ten of their count.
pub proof fn lemma_number_value_bound(s: Seq<char>)
    requires
        all_digits(s),
    ensures
        0 <= number_value(s),
        s.len() <= 1 ==> number_value(s) <= 9,
        s.len() <= 2 ==> number_value(s) <= 99,
        s.len() <= 3 ==> number_value(s) <= 999,
        s.len() > 0 && s[0] != '0' ==> number_value(s) >= 1,
    decreases s.len(),
{
    if s.len() > 0 {
        let init = s.drop_last();
        assert(is_digit(s.last()));
        assert forall|i: int| 0 <= i < init.len() implies is_digit(#[trigger] init[i]) by {
            assert(init[i] == s[i]);
        }
        lemma_number_value_bound(init);
        if init.len() > 0 {
            assert(init[0] == s[0]);
        }
    }
}

/// Whether the characters of `v` are those of `word`.
pub fn is_word(v: &Vec<char>, word: &str) -> (r: bool)
    ensures
        r == (v@ == word@),
{
    let w = chars_of(word);
    same_text(v, &w)
}

/// Computes [`weekday_named`].
pub fn weekday_by_name(v: &Vec<char>) -> (r: Option<Weekday>)
    ensures
        r == weekday_named(v@),
{
    if is_word(v, "mon") {
        Some(Weekday::Mon)
    } else if is_word(v, "tue") {
        Some(Weekday::Tue)
    } else if is_word(v, "wed") {
        Some(Weekday::Wed)
    } else if is_word(v, "thu") {
        Some(Weekday::Thu)
    } else if is_word(v, "fri") {
        Some(Weekday::Fri)
    } else if is_word(v, "sat") {
        Some(Weekday::Sat)
    } else if is_word(v, "sun") {
        Some(Weekday::Sun)
    } else {
        None
    }
}

/// Decides [`all_digits`].
pub fn only_digits(v: &Vec<char>) -> (r: bool)
    ensures
        r == all_digits(v@),
{
    let mut i: usize = 0;
    while i < v.len()
        invariant
            i <= v.len(),
            forall|j: int| 0 <= j < i ==> is_digit(#[trigger] v@[j]),
        decreases v.len() - i,
    {
        if !is_ascii_digit(v[i]) {
            return false;
        }
        i += 1;
    }
    true
}

/// The number written by at most three digits.
pub fn read_number(v: &Vec<char>) -> (n: u32)
    requires
        all_digits(v@),
        v.len() <= 3,
    ensures
        n == number_value(v@),
        n <= 999,
{
    let mut n: u32 = 0;
    let mut i: usize = 0;
    while i < v.len()
        invariant
            i <= v.len() <= 3,
            all_digits(v@),
            n == number_value(v@.take(i as int)),
            all_digits(v@.take(i as int)),
        decreases v.len() - i,
    {
        proof {
            lemma_number_value_bound(v@.take(i as int));
            assert(v@.take(i + 1).drop_last() =~= v@.take(i as int));
            assert(v@.take(i + 1).last() == v@[i as int]);
            assert(is_digit(v@[i as int]));
        }
        n = n * 10 + digit_of(v[i]);
        i += 1;
    }
    proof {
        assert(v@.take(v.len() as int) =~= v@);
        lemma_number_value_bound(v@);
    }
    n
}

/// Decides [`is_count`] and reads the number.
pub fn read_count(v: &Vec<char>, max_digits: usize) -> (r: Option<u32>)
    requires
        max_digits <= 3,
    ensures
        r is Some <==> is_count(v@, max_digits as int),
        r is Some ==> r->0 == number_value(v@) && 1 <= r->0 <= 999,
{
    if v.len() < 1 || v.len() > max_digits || !only_digits(v) || v[0] == '0' {
        return None;
    }
    proof {
        lemma_number_value_bound(v@);
    }
    Some(read_number(v))
}

/// Computes [`recognize_month_day`].
pub fn read_month_day(base: &Vec<char>) -> (r: Option<DateForm>)
    ensures
        r == recognize_month_day(base@),
{
    let parts = split_on(base, '/');
    proof {
        assert(texts(parts@).len() == parts.len());
        if parts.len() >= 2 {
            assert(texts(parts@)[0] == parts@[0]@);
            assert(texts(parts@)[1] == parts@[1]@);
        }
        if parts.len() >= 3 {
            assert(texts(parts@)[2] == parts@[2]@);
        }
    }
    if parts.len() != 2 && parts.len() != 3 {
        return None;
    }
    let month = &parts[0];
    let day = &parts[1];
    if month.len() < 1 || month.len() > 2 || !only_digits(month) {
        return None;
    }
    if day.len() < 1 || day.len() > 2 || !only_digits(day) {
        return None;
    }
    let m = read_number(month);
    let d = read_number(day);
    if m < 1 || m > 12 || d < 1 || d > 31 {
        return None;
    }
    if parts.len() == 2 {
        return Some(DateForm::MonthDay(m, d));
    }
    let year = &parts[2];
    if year.len() != 2 || !only_digits(year) {
        return None;
    }
    Some(DateForm::MonthDayYear(m, d, read_number(year)))
}

/// Computes [`recognize_recurrence`].
pub fn read_recurrence(rest: &Vec<char>) -> (r: Option<DateForm>)
    ensures
        r == recognize_recurrence(rest@),
{
    match weekday_by_name(rest) {
        Some(w) => Some(DateForm::EveryWeekday(w)),
        None => match read_count(rest, 2) {
            Some(n) => if n <= 31 {
                Some(DateForm::EveryDay(n))
            } else {
                None
            },
            None => None,
        },
    }
}

/// Computes [`recognize_form`].
pub fn read_form(base: &Vec<char>) -> (r: Option<DateForm>)
    ensures
        r == recognize_form(base@),
{
    if is_word(base, "today") {
        return Some(DateForm::Today);
    }
    if is_word(base, "tomorrow") {
        return Some(DateForm::Tomorrow);
    }
    if is_word(base, "yesterday") {
        return Some(DateForm::Yesterday);
    }
    match weekday_by_name(base) {
        Some(w) => {
            return Some(DateForm::Weekday(w));
        },
        None => {},
    }
    if base.len() > 0 && base[0] == 'd' {
        let digits = copy_range(base, 1, base.len());
        assert(digits@ =~= base@.skip(1));
        match read_count(&digits, 3) {
            Some(n) => {
                return Some(DateForm::DaysAway(n));
            },
            None => {},
        }
    }
    let every = chars_of("every-");
    if starts_with(base, &every) {
        proof {
            reveal_strlit("every-");
        }
        let rest = copy_range(base, 6, base.len());
        assert(rest@ =~= base@.skip(6));
        return read_recurrence(&rest);
    }
    read_month_day(base)
}

/// Reads a date expression from lowercase text: computes [`recognize`].
pub fn read_date_expr(s: &Vec<char>) -> (r: Option<DateExpr>)
    ensures
        r == recognize(s@),
{
    let n = s.len();
    let direction = if n > 0 && s[n - 1] == '+' {
        Some(Direction::Future)
    } else if n > 0 && s[n - 1] == '-' {
        Some(Direction::Past)
    } else {
        None
    };
    let form = match direction {
        Some(_) => {
            let base = copy_range(s, 0, n - 1);
            assert(base@ =~= s@.drop_last());
            read_form(&base)
        },
        None => read_form(s),
    };
    match form {
        Some(form) => Some(DateExpr { form, direction }),
        None => None,
    }
}

// ---------------------------------------------------------------------------
// Resolution
// ---------------------------------------------------------------------------

/// Whether an expression read in `ctx` with the given suffix looks ahead.
pub open spec fn prefers_future(ctx: ParseContext, direction: Option<Direction>) -> bool {
    match direction {
        Some(Direction::Future) => true,
        Some(Direction::Past) => false,
        None => ctx != ParseContext::Filter,
    }
}

/// The date of year, month and day, where that day exists.
pub open spec fn date_of(y: int, m: int, d: int) -> Option<Date> {
    if valid_ymd(y, m, d) {
        Some(Date { year: y as i32, month: m as u32, day: d as u32 })
    } else {
        None
    }
}

/// The day `k` days after `today`, or before it where `ahead` is false.
pub open spec fn day_at(today: Date, ahead: bool, k: int) -> Option<Date> {
    if ahead {
        date_plus_days(today, k)
    } else {
        date_plus_days(today, -k)
    }
}

/// The day `k` days from `today` exists and falls on the weekday `w`.
pub open spec fn falls_on(today: Date, w: Weekday, ahead: bool, k: int) -> bool {
    day_at(today, ahead, k) is Some && weekday_number(day_at(today, ahead, k)->0) == w.number()
}

/// The nearest day that falls on the weekday `w` among the days from `k` days
/// to a week after `today` (before it where `ahead` is false).  `today`
/// itself is never the answer.
pub open spec fn nearest_weekday(today: Date, w: Weekday, ahead: bool, k: int) -> Option<Date>
    decreases 8 - k,
{
    if k < 1 || k > 7 {
        None
    } else if falls_on(today, w, ahead, k) {
        day_at(today, ahead, k)
    } else {
        nearest_weekday(today, w, ahead, k + 1)
    }
}

/// The day that a weekday resolves to falls on that weekday, lies from one
/// day to a week away from `today` on the side asked for, and no day nearer
/// to `today` on that side falls on the weekday.
pub proof fn lemma_nearest_weekday(today: Date, w: Weekday, ahead: bool, k: int)
    requires
        1 <= k,
        nearest_weekday(today, w, ahead, k) is Some,
    ensures
        weekday_number(nearest_weekday(today, w, ahead, k)->0) == w.number(),
        exists|n: int|
            k <= n <= 7 && #[trigger] day_at(today, ahead, n) == nearest_weekday(today, w, ahead, k)
                && forall|j: int| k <= j < n ==> !#[trigger] falls_on(today, w, ahead, j),
    decreases 8 - k,
{
    if falls_on(today, w, ahead, k) {
        assert(day_at(today, ahead, k) == nearest_weekday(today, w, ahead, k));
    } else {
        lemma_nearest_weekday(today, w, ahead, k + 1);
        let found = nearest_weekday(today, w, ahead, k);
        let n = choose|n: int|
            k + 1 <= n <= 7 && #[trigger] day_at(today, ahead, n) == nearest_weekday(
                today,
                w,
                ahead,
                k + 1,
            ) && forall|j: int| k + 1 <= j < n ==> !#[trigger] falls_on(today, w, ahead, j);
        assert(day_at(today, ahead, n) == found);
        assert forall|j: int| k <= j < n implies !#[trigger] falls_on(today, w, ahead, j) by {}
    }
}

/// The day that month and day name when no year is written: the one in the
/// year of `today`, unless it does not exist or lies on the wrong side of
/// `today`; then the one in the next year (looking ahead) or the year before
/// (looking back).
pub open spec fn resolve_month_day(m: int, d: int, future: bool, today: Date) -> Option<Date> {
    let this_year = date_of(today.year as int, m, d);
    if future {
        if this_year is Some && !this_year->0.precedes(today) {
            this_year
        } else {
            date_of(today.year + 1, m, d)
        }
    } else {
        if this_year is Some && !today.precedes(this_year->0) {
            this_year
        } else {
            date_of(today.year - 1, m, d)
        }
    }
}

/// The day that a date expression names, seen from `today`.  A recurrence
/// names no single day.
pub open spec fn resolve(expr: DateExpr, ctx: ParseContext, today: Date) -> Option<Date> {
    let future = prefers_future(ctx, expr.direction);
    match expr.form {
        DateForm::Today => Some(today),
        DateForm::Tomorrow => date_plus_days(today, 1),
        DateForm::Yesterday => date_plus_days(today, -1),
        DateForm::Weekday(w) => nearest_weekday(today, w, future, 1),
        DateForm::DaysAway(n) => if future {
            date_plus_days(today, n as int)
        } else {
            date_plus_days(today, -(n as int))
        },
        DateForm::MonthDay(m, d) => resolve_month_day(m as int, d as int, future, today),
        DateForm::MonthDayYear(m, d, y) => date_of(2000 + y, m as int, d as int),
        DateForm::EveryWeekday(_) => None,
        DateForm::EveryDay(_) => None,
    }
}

/// Decides [`prefers_future`].
pub fn looks_ahead(ctx: ParseContext, direction: Option<Direction>) -> (r: bool)
    ensures
        r == prefers_future(ctx, direction),
{
    match direction {
        Some(Direction::Future) => true,
        Some(Direction::Past) => false,
        None => match ctx {
            ParseContext::Filter => false,
            _ => true,
        },
    }
}

/// Computes [`nearest_weekday`] from one day away on.
pub fn find_weekday(today: &Date, w: Weekday, ahead: bool) -> (r: Option<Date>)
    requires
        today.valid(),
    ensures
        r == nearest_weekday(*today, w, ahead, 1),
        r is Some ==> r->0.valid(),
{
    let mut k: i64 = 1;
    while k <= 7
        invariant
            1 <= k <= 8,
            today.valid(),
            nearest_weekday(*today, w, ahead, k as int) == nearest_weekday(*today, w, ahead, 1),
        decreases 8 - k,
    {
        let day = if ahead {
            today.plus_days(k)
        } else {
            today.plus_days(-k)
        };
        match day {
            Some(d) => {
                if d.weekday().index() == w.index() {
                    return day;
                }
            },
            None => {},
        }
        k += 1;
    }
    None
}

/// Computes [`date_of`] for a year next to a valid one.
fn make_date(year: i64, month: u32, day: u32) -> (r: Option<Date>)
    ensures
        r == date_of(year as int, month as int, day as int),
{
    if year < -262143 || year > 262142 {
        return None;
    }
    Date::from_ymd(year as i32, month, day)
}

/// Computes [`resolve_month_day`].
fn month_day_near(month: u32, day: u32, future: bool, today: &Date) -> (r: Option<Date>)
    requires
        today.valid(),
    ensures
        r == resolve_month_day(month as int, day as int, future, *today),
{
    let this_year = make_date(today.year as i64, month, day);
    if future {
        match this_year {
            Some(date) => if !date.is_before(today) {
                return this_year;
            },
            None => {},
        }
        make_date(today.year as i64 + 1, month, day)
    } else {
        match this_year {
            Some(date) => if !today.is_before(&date) {
                return this_year;
            },
            None => {},
        }
        make_date(today.year as i64 - 1, month, day)
    }
}

/// The day that `expr` names, seen from `today`: computes [`resolve`].
pub fn resolve_date_expr(expr: &DateExpr, ctx: ParseContext, today: &Date) -> (r: Option<Date>)
    requires
        today.valid(),
    ensures
        r == resolve(*expr, ctx, *today),
        r is Some ==> r->0.valid(),
{
    let future = looks_ahead(ctx, expr.direction);
    match expr.form {
        DateForm::Today => Some(*today),
        DateForm::Tomorrow => today.plus_days(1),
        DateForm::Yesterday => today.plus_days(-1),
        DateForm::Weekday(w) => find_weekday(today, w, future),
        DateForm::DaysAway(n) => if future {
            today.plus_days(n as i64)
        } else {
            today.plus_days(-(n as i64))
        },
        DateForm::MonthDay(m, d) => month_day_near(m, d, future, today),
        DateForm::MonthDayYear(m, d, y) => make_date(2000 + y as i64, m, d),
        DateForm::EveryWeekday(_) => None,
        DateForm::EveryDay(_) => None,
    }
}

/// The day that a date expression written in `input` names, seen from `today`;
/// `None` where `input` writes no date expression, writes a recurrence, or
/// names a day that does not exist.  Letter case is ignored.
pub open spec fn parse_date_spec(input: Seq<char>, ctx: ParseContext, today: Date) -> Option<
    Date,
> {
    match recognize(lower(input)) {
        Some(expr) => resolve(expr, ctx, today),
        None => None,
    }
}

/// Resolves the date expression written in `input` against `today`.
pub fn parse_date(input: &str, ctx: ParseContext, today: Date) -> (r: Option<Date>)
    requires
        today.valid(),
    ensures
        r == parse_date_spec(input@, ctx, today),
        r is Some ==> r->0.valid(),
{
    let chars = chars_of(input);
    parse_date_chars(&chars, ctx, &today)
}

/// [`parse_date`] on characters.
pub fn parse_date_chars(input: &Vec<char>, ctx: ParseContext, today: &Date) -> (r: Option<Date>)
    requires
        today.valid(),
    ensures
        r == parse_date_spec(input@, ctx, *today),
        r is Some ==> r->0.valid(),
{
    let lowered = lowercase(input);
    match read_date_expr(&lowered) {
        Some(expr) => resolve_date_expr(&expr, ctx, today),
        None => None,
    }
}

} // verus!
