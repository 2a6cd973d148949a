//! Writing the dates of an entry down: a date that is named relative to the
//! day of writing (`@tomorrow`, `@fri`, `@d7`) is replaced by the day it
//! names, so that the entry means the same on every later day.

use crate::date::Date;
use crate::dateexpr::all_digits;
use crate::dateexpr::date_of;
use crate::dateexpr::direction_suffix;
use crate::dateexpr::is_short_number;
use crate::dateexpr::number_value;
use crate::dateexpr::parse_date_spec;
use crate::dateexpr::recognize_form;
use crate::dateexpr::recognize_month_day;
use crate::dateexpr::resolve;
use crate::dateexpr::resolve_date_expr;
use crate::dateexpr::resolve_month_day;
use crate::dateexpr::DateExpr;
use crate::dateexpr::DateForm;
use crate::dateexpr::ParseContext;
use crate::journal::digit_of_value;
use crate::journal::lemma_digit_chars;
use crate::journal::lemma_number_digits;
use crate::later::date_expr_at;
use crate::later::date_expr_in;
use crate::later::date_run_end;
use crate::later::date_run_len;
use crate::text::append_chars;
use crate::text::chars_of;
use crate::text::is_digit;
use crate::text::join;
use crate::text::lacks;
use crate::text::lemma_split_join;
use crate::text::lower;
use crate::text::split;
use crate::text::string_of;
use vstd::prelude::*;

verus! {

/// The date expression names its day relative to the day on which it is
/// read.
pub open spec fn is_relative(form: DateForm) -> bool {
    form is Today || form is Tomorrow || form is Yesterday || form is Weekday || form is DaysAway
}

/// The number `n` in two digits, for `n` below 100.
pub open spec fn two_digits(n: int) -> Seq<char> {
    seq![digit_of_value(n / 10), digit_of_value(n % 10)]
}

/// How the day `date` is written into an entry on the day `today`: as
/// `MM/DD` where that names `date` when it is read on `today`; else as
/// `MM/DD/YY` where the year allows it; and not at all otherwise.
pub open spec fn written_date(date: Date, today: Date) -> Option<Seq<char>> {
    let month_day = two_digits(date.month as int) + seq!['/'] + two_digits(date.day as int);
    if resolve_month_day(date.month as int, date.day as int, true, today) == Some(date) {
        Some(month_day)
    } else if 2000 <= date.year <= 2099 {
        Some(month_day + seq!['/'] + two_digits(date.year - 2000))
    } else {
        None
    }
}

/// What is written in place of the date expression behind the `@` at
/// position `at`: the day that a relative expression names on `today`; `None`
/// where no expression stands there, or one that needs no rewriting.
pub open spec fn replacement_at(s: Seq<char>, at: int, today: Date) -> Option<Seq<char>> {
    match date_expr_at(s, at) {
        Some(expr) => if is_relative(expr.form) {
            match resolve(expr, ParseContext::Entry, today) {
                Some(date) => written_date(date, today),
                None => None,
            }
        } else {
            None
        },
        None => None,
    }
}

/// `s` from position `from` on, with each relative date replaced by the day
/// it names on `today`.
pub open spec fn normalized_from(s: Seq<char>, from: int, today: Date) -> Seq<char>
    decreases
            (if from <= s.len() {
                s.len() - from
            } else {
                0
            }),
{
    if from < 0 || from >= s.len() {
        Seq::<char>::empty()
    } else if replacement_at(s, from, today) is Some {
        seq!['@'] + replacement_at(s, from, today)->0 + normalized_from(
            s,
            from + 1 + date_run_len(s, from + 1),
            today,
        )
    } else {
        seq![s[from]] + normalized_from(s, from + 1, today)
    }
}

/// Decides [`is_relative`].
fn relative(form: &DateForm) -> (r: bool)
    ensures
        r == is_relative(*form),
{
    match form {
        DateForm::Today => true,
        DateForm::Tomorrow => true,
        DateForm::Yesterday => true,
        DateForm::Weekday(_) => true,
        DateForm::DaysAway(_) => true,
        _ => false,
    }
}

/// Appends `n` in two digits to `out`.
fn push_two_digits(out: &mut Vec<char>, n: u32)
    requires
        n < 100,
    ensures
        final(out)@ == old(out)@ + two_digits(n as int),
{
    out.push(((48 + n / 10) as u8) as char);
    out.push(((48 + n % 10) as u8) as char);
    assert(out@ =~= old(out)@ + two_digits(n as int));
}

/// Computes [`written_date`].
pub fn write_date(date: &Date, today: &Date) -> (r: Option<Vec<char>>)
    requires
        date.valid(),
        today.valid(),
    ensures
        r is Some <==> written_date(*date, *today) is Some,
        r is Some ==> r->0@ == written_date(*date, *today)->0,
{
    let mut out: Vec<char> = Vec::new();
    push_two_digits(&mut out, date.month);
    out.push('/');
    push_two_digits(&mut out, date.day);
    let ghost month_day = two_digits(date.month as int) + seq!['/'] + two_digits(date.day as int);
    assert(out@ =~= month_day);
    let month_day_form = DateExpr { form: DateForm::MonthDay(date.month, date.day), direction: None };
    let read_back = resolve_date_expr(&month_day_form, ParseContext::Entry, today);
    let same = match read_back {
        Some(d) => d.same_day(date),
        None => false,
    };
    if same {
        return Some(out);
    }
    if date.year >= 2000 && date.year <= 2099 {
        out.push('/');
        push_two_digits(&mut out, (date.year - 2000) as u32);
        assert(out@ =~= month_day + seq!['/'] + two_digits(date.year - 2000));
        return Some(out);
    }
    None
}

/// Computes [`replacement_at`].
fn replacement(v: &Vec<char>, at: usize, today: &Date) -> (r: Option<Vec<char>>)
    requires
        today.valid(),
    ensures
        r is Some <==> replacement_at(v@, at as int, *today) is Some,
        r is Some ==> r->0@ == replacement_at(v@, at as int, *today)->0,
        r is Some ==> at < v.len() && v@[at as int] == '@',
{
    match date_expr_in(v, at) {
        Some(expr) => {
            if !relative(&expr.form) {
                return None;
            }
            match resolve_date_expr(&expr, ParseContext::Entry, today) {
                Some(date) => write_date(&date, today),
                None => None,
            }
        },
        None => None,
    }
}

/// The text `content` with each relative date replaced by the day it names on
/// `today`.  Dates that are written out, recurrences, and whatever is no date
/// stay as they are.
pub fn normalize_natural_dates(content: &str, today: Date) -> (r: String)
    requires
        today.valid(),
    ensures
        r@ == normalized_from(content@, 0, today),
{
    let v = chars_of(content);
    let mut out: Vec<char> = Vec::new();
    let mut at: usize = 0;
    while at < v.len()
        invariant
            at <= v.len(),
            today.valid(),
            v@ == content@,
            out@ + normalized_from(v@, at as int, today) == normalized_from(v@, 0, today),
        decreases v.len() - at,
    {
        let ghost before = out@;
        let ghost rest = normalized_from(v@, at as int, today);
        match replacement(&v, at, &today) {
            Some(written) => {
                let end = date_run_end(&v, at + 1);
                out.push('@');
                append_chars(&mut out, &written);
                proof {
                    let after = normalized_from(v@, end as int, today);
                    assert(out@ + after =~= before + rest);
                }
                at = end;
            },
            None => {
                out.push(v[at]);
                proof {
                    let after = normalized_from(v@, at + 1, today);
                    assert(out@ + after =~= before + rest);
                }
                at += 1;
            },
        }
    }
    proof {
        assert(out@ + normalized_from(v@, at as int, today) =~= out@);
    }
    string_of(&out)
}

/// Two digits write the number they were made from, and hold nothing but
/// digits.
pub proof fn lemma_two_digits(n: int)
    requires
        0 <= n <= 99,
    ensures
        two_digits(n).len() == 2,
        all_digits(two_digits(n)),
        number_value(two_digits(n)) == n,
        lacks(two_digits(n), '/'),
{
    lemma_number_digits(n);
    lemma_digit_chars(n / 10, '0');
    lemma_digit_chars(n % 10, '0');
    let t = two_digits(n);
    let one = t.drop_last();
    assert(one =~= seq![digit_of_value(n / 10)]);
    assert(one.drop_last() =~= Seq::<char>::empty());
    assert(number_value(one.drop_last()) == 0);
    assert(one.last() == digit_of_value(n / 10));
    assert(number_value(one) == n / 10);
    assert(t.last() == digit_of_value(n % 10));
    assert forall|i: int| 0 <= i < t.len() implies is_digit(#[trigger] t[i]) by {}
    assert forall|j: int| 0 <= j < t.len() implies t[j] != '/' by {
        assert(is_digit(t[j]));
    }
}

/// A date that is written down names the same day when it is read again on
/// the day on which it was written.
pub proof fn lemma_written_date_reads_back(date: Date, today: Date)
    requires
        date.valid(),
        today.valid(),
        written_date(date, today) is Some,
    ensures
        parse_date_spec(written_date(date, today)->0, ParseContext::Entry, today) == Some(date),
{
    let m = date.month as int;
    let d = date.day as int;
    let w = written_date(date, today)->0;
    let mm = two_digits(m);
    let dd = two_digits(d);
    lemma_two_digits(m);
    lemma_two_digits(d);
    let short = resolve_month_day(m, d, true, today) == Some(date);
    let yy = two_digits(date.year - 2000);
    if !short {
        lemma_two_digits(date.year - 2000);
    }
    let parts = if short {
        seq![mm, dd]
    } else {
        seq![mm, dd, yy]
    };
    assert(join(parts, '/') =~= w) by {
        assert(parts.drop_last().len() >= 1);
        if short {
            assert(parts.drop_last() =~= seq![mm]);
            assert(join(parts.drop_last(), '/') == mm);
        } else {
            assert(parts.drop_last() =~= seq![mm, dd]);
            assert(parts.drop_last().drop_last() =~= seq![mm]);
            assert(join(parts.drop_last().drop_last(), '/') == mm);
            assert(join(parts.drop_last(), '/') =~= mm.push('/') + dd);
        }
    }
    assert forall|k: int| 0 <= k < parts.len() implies lacks(#[trigger] parts[k], '/') by {}
    lemma_split_join(parts, '/');
    assert(split(w, '/') == parts);
    // the text is ASCII, carries no suffix and is no word of the language
    assert(w.len() >= 5);
    assert(is_digit(w[0])) by {
        assert(w[0] == mm[0]);
    }
    assert(is_digit(w.last())) by {
        if short {
            assert(w.last() == dd[1]);
        } else {
            assert(w.last() == yy[1]);
        }
    }
    assert forall|i: int| 0 <= i < w.len() implies crate::text::is_ascii_char(#[trigger] w[i])
        && crate::text::ascii_lower(w[i]) == w[i] by {
        if i < 2 {
            assert(w[i] == mm[i]);
        } else if i == 2 {
        } else if i < 5 {
            assert(w[i] == dd[i - 3]);
        } else if i == 5 {
        } else {
            assert(w[i] == yy[i - 6]);
        }
    }
    assert(lower(w) =~= w);
    assert(direction_suffix(w) is None);
    reveal_strlit("today");
    reveal_strlit("tomorrow");
    reveal_strlit("yesterday");
    reveal_strlit("mon");
    reveal_strlit("tue");
    reveal_strlit("wed");
    reveal_strlit("thu");
    reveal_strlit("fri");
    reveal_strlit("sat");
    reveal_strlit("sun");
    reveal_strlit("every-");
    assert("today"@[0] == 't' && "tomorrow"@[0] == 't' && "yesterday"@[0] == 'y');
    assert("mon"@.len() == 3 && "tue"@.len() == 3 && "wed"@.len() == 3 && "thu"@.len() == 3);
    assert("fri"@.len() == 3 && "sat"@.len() == 3 && "sun"@.len() == 3);
    assert(!"every-"@.is_prefix_of(w)) by {
        assert("every-"@[0] == 'e');
        if "every-"@.is_prefix_of(w) {
            assert(w[0] == "every-"@[0]);
        }
    }
    assert(w != "today"@ && w != "tomorrow"@ && w != "yesterday"@);
    assert(crate::dateexpr::weekday_named(w) is None);
    assert(w[0] != 'd');
    assert(recognize_form(w) == recognize_month_day(w));
    assert(is_short_number(parts[0]) && is_short_number(parts[1]));
    if short {
        assert(recognize_month_day(w) == Some(DateForm::MonthDay(date.month, date.day)));
    } else {
        assert(recognize_month_day(w) == Some(
            DateForm::MonthDayYear(date.month, date.day, (date.year - 2000) as u32),
        ));
        assert(date_of(2000 + (date.year - 2000), m, d) == Some(date));
    }
}

} // verus!
