//! Matching what a user has typed so far against the forms of date value:
//! whether the text is a form in full, and whether it can still become one.
//!
//! All text here is lowercase; callers lower what was typed first.

use crate::dateexpr::direction_suffix;
use crate::dateexpr::is_count;
use crate::dateexpr::number_value;
use crate::dateexpr::read_count;
use crate::dateexpr::without_suffix;
use crate::registry::value_words;
use crate::registry::words_of;
use crate::registry::DatePattern;
use crate::registry::DateValue;
use crate::registry::DateValueKind;
use crate::registry::DateValueView;
use crate::registry::ValueSet;
use crate::text::chars_of;
use crate::text::copy_range;
use crate::text::is_digit;
use crate::text::lower;
use crate::text::lowercase;
use crate::text::same_text;
use crate::text::starts_with;
use crate::text::string_of_range;
use vstd::prelude::*;

verus! {

/// The text `b`, which carries no direction suffix, is the date value `dv`
/// written out in full.
pub open spec fn is_full_base(b: Seq<char>, dv: DateValueView) -> bool {
    match dv.kind {
        DateValueKind::Values(set) => value_words(set).contains(b),
        DateValueKind::Pattern(DatePattern::RelativeDays) => b.len() > 0 && b[0] == 'd' && is_count(
            b.skip(1),
            3,
        ),
        DateValueKind::Pattern(DatePattern::EveryDayOfMonth) => "every-"@.is_prefix_of(b)
            && is_count(b.skip(6), 2) && number_value(b.skip(6)) <= 31,
        DateValueKind::Literal => b == lower(dv.syntax),
    }
}

/// The text `s` is the date value `dv` written out in full, with or without a
/// direction suffix.
pub open spec fn fully_matches(s: Seq<char>, dv: DateValueView) -> bool {
    is_full_base(without_suffix(s), dv)
}

/// The text `p` is the beginning of the date value `dv` written out in full.
pub open spec fn is_base_prefix(p: Seq<char>, dv: DateValueView) -> bool {
    match dv.kind {
        DateValueKind::Values(set) => exists|k: int|
            0 <= k < value_words(set).len() && p.is_prefix_of(#[trigger] value_words(set)[k]),
        DateValueKind::Pattern(DatePattern::RelativeDays) => p.len() == 0 || (p[0] == 'd' && (
        p.len() == 1 || is_count(p.skip(1), 3))),
        DateValueKind::Pattern(DatePattern::EveryDayOfMonth) => p.is_prefix_of("every-"@) || (
        "every-"@.is_prefix_of(p) && is_count(p.skip(6), 2) && number_value(p.skip(6)) <= 31),
        DateValueKind::Literal => p.is_prefix_of(lower(dv.syntax)),
    }
}

/// The text `p` can still become the date value `dv`: it is the beginning of
/// `dv` written out, or it is `dv` in full followed by a direction suffix.
pub open spec fn prefix_matches(p: Seq<char>, dv: DateValueView) -> bool {
    is_base_prefix(p, dv) || (direction_suffix(p) is Some && is_full_base(p.drop_last(), dv))
}

/// The syntax of a literal date value does not end in a direction suffix, so
/// that it can be told from the same value with a suffix.
pub open spec fn well_formed(dv: DateValueView) -> bool {
    dv.kind is Literal ==> direction_suffix(lower(dv.syntax)) is None
}

/// The words of a value set carry no direction suffix.
pub proof fn lemma_value_words_plain(set: ValueSet)
    ensures
        forall|k: int|
            0 <= k < value_words(set).len() ==> direction_suffix(#[trigger] value_words(set)[k])
                is None,
{
    reveal_strlit("mon");
    reveal_strlit("tue");
    reveal_strlit("wed");
    reveal_strlit("thu");
    reveal_strlit("fri");
    reveal_strlit("sat");
    reveal_strlit("sun");
    reveal_strlit("every-mon");
    reveal_strlit("every-tue");
    reveal_strlit("every-wed");
    reveal_strlit("every-thu");
    reveal_strlit("every-fri");
    reveal_strlit("every-sat");
    reveal_strlit("every-sun");
}

/// Date prefix consistency: a text that can still become a date value has a
/// completion that is the date value in full.
pub proof fn lemma_prefix_has_completion(p: Seq<char>, dv: DateValueView)
    requires
        well_formed(dv),
        prefix_matches(p, dv),
    ensures
        exists|s: Seq<char>| fully_matches(p + s, dv),
{
    let nothing = Seq::<char>::empty();
    if is_base_prefix(p, dv) {
        match dv.kind {
            DateValueKind::Values(set) => {
                let k = choose|k: int|
                    0 <= k < value_words(set).len() && p.is_prefix_of(
                        #[trigger] value_words(set)[k],
                    );
                let w = value_words(set)[k];
                let s = w.skip(p.len() as int);
                lemma_value_words_plain(set);
                assert(p + s =~= w);
                assert(fully_matches(p + s, dv));
            },
            DateValueKind::Pattern(DatePattern::RelativeDays) => {
                if p.len() == 0 {
                    let s = seq!['d', '1'];
                    assert(p + s =~= s);
                    assert(s.skip(1) =~= seq!['1']);
                    assert(is_digit(s.skip(1)[0]));
                    assert(fully_matches(p + s, dv));
                } else if p.len() == 1 {
                    let s = seq!['1'];
                    let t = p + s;
                    assert(t.skip(1) =~= seq!['1']);
                    assert(is_digit(t.skip(1)[0]));
                    assert(t.last() == '1');
                    assert(fully_matches(t, dv));
                } else {
                    assert(p + nothing =~= p);
                    assert(is_digit(p.skip(1)[p.len() - 2]));
                    assert(p.last() == p.skip(1)[p.len() - 2]);
                    assert(fully_matches(p + nothing, dv));
                }
            },
            DateValueKind::Pattern(DatePattern::EveryDayOfMonth) => {
                reveal_strlit("every-");
                if p.is_prefix_of("every-"@) {
                    let s = "every-"@.skip(p.len() as int).push('1');
                    let t = p + s;
                    assert(t =~= "every-"@.push('1'));
                    assert(t.skip(6) =~= seq!['1']);
                    assert(is_digit(t.skip(6)[0]));
                    assert(number_value(seq!['1'].drop_last()) == 0);
                    assert(number_value(t.skip(6)) == 1);
                    assert(fully_matches(t, dv));
                } else {
                    assert(p + nothing =~= p);
                    let rest = p.skip(6);
                    assert(is_digit(rest[rest.len() - 1]));
                    assert(p.last() == rest[rest.len() - 1]);
                    assert(fully_matches(p + nothing, dv));
                }
            },
            DateValueKind::Literal => {
                let w = lower(dv.syntax);
                let s = w.skip(p.len() as int);
                assert(p + s =~= w);
                assert(fully_matches(p + s, dv));
            },
        }
    } else {
        assert(p + nothing =~= p);
        assert(fully_matches(p + nothing, dv));
    }
}

/// Whether `p` begins one of `words`.
fn begins_one_of(p: &Vec<char>, set: ValueSet) -> (r: bool)
    ensures
        r == (exists|k: int|
            0 <= k < value_words(set).len() && p@.is_prefix_of(#[trigger] value_words(set)[k])),
{
    let words = words_of(set);
    let mut k: usize = 0;
    while k < words.len()
        invariant
            k <= words.len(),
            words@.len() == value_words(set).len(),
            forall|j: int| 0 <= j < words@.len() ==> (#[trigger] words@[j])@ == value_words(set)[j],
            forall|j: int| 0 <= j < k ==> !p@.is_prefix_of(#[trigger] value_words(set)[j]),
        decreases words.len() - k,
    {
        let w = chars_of(words[k]);
        assert(words@[k as int]@ == value_words(set)[k as int]);
        if starts_with(&w, p) {
            return true;
        }
        k += 1;
    }
    false
}

/// Whether `b` is one of `words`.
fn is_one_of(b: &Vec<char>, set: ValueSet) -> (r: bool)
    ensures
        r == value_words(set).contains(b@),
{
    let words = words_of(set);
    let mut k: usize = 0;
    while k < words.len()
        invariant
            k <= words.len(),
            words@.len() == value_words(set).len(),
            forall|j: int| 0 <= j < words@.len() ==> (#[trigger] words@[j])@ == value_words(set)[j],
            forall|j: int| 0 <= j < k ==> value_words(set)[j] != b@,
        decreases words.len() - k,
    {
        let w = chars_of(words[k]);
        assert(words@[k as int]@ == value_words(set)[k as int]);
        if same_text(&w, b) {
            return true;
        }
        k += 1;
    }
    false
}

/// Whether `rest` writes a day of the month: a number from 1 to 31 without a
/// leading zero.
fn is_day_of_month(rest: &Vec<char>) -> (r: bool)
    ensures
        r == (is_count(rest@, 2) && number_value(rest@) <= 31),
{
    match read_count(rest, 2) {
        Some(n) => n <= 31,
        None => false,
    }
}

/// Decides [`is_full_base`].
pub fn full_base(b: &Vec<char>, dv: &DateValue) -> (r: bool)
    ensures
        r == is_full_base(b@, dv@),
{
    match dv.kind {
        DateValueKind::Values(set) => is_one_of(b, set),
        DateValueKind::Pattern(DatePattern::RelativeDays) => {
            if b.len() == 0 || b[0] != 'd' {
                return false;
            }
            let digits = copy_range(b, 1, b.len());
            assert(digits@ =~= b@.skip(1));
            read_count(&digits, 3).is_some()
        },
        DateValueKind::Pattern(DatePattern::EveryDayOfMonth) => {
            let every = chars_of("every-");
            proof {
                reveal_strlit("every-");
            }
            if !starts_with(b, &every) {
                return false;
            }
            let rest = copy_range(b, 6, b.len());
            assert(rest@ =~= b@.skip(6));
            is_day_of_month(&rest)
        },
        DateValueKind::Literal => {
            let syntax = lowercase(&chars_of(dv.syntax));
            same_text(b, &syntax)
        },
    }
}

/// Decides [`is_base_prefix`].
pub fn base_prefix(p: &Vec<char>, dv: &DateValue) -> (r: bool)
    ensures
        r == is_base_prefix(p@, dv@),
{
    match dv.kind {
        DateValueKind::Values(set) => begins_one_of(p, set),
        DateValueKind::Pattern(DatePattern::RelativeDays) => {
            if p.len() == 0 {
                return true;
            }
            if p[0] != 'd' {
                return false;
            }
            if p.len() == 1 {
                return true;
            }
            let digits = copy_range(p, 1, p.len());
            assert(digits@ =~= p@.skip(1));
            read_count(&digits, 3).is_some()
        },
        DateValueKind::Pattern(DatePattern::EveryDayOfMonth) => {
            let every = chars_of("every-");
            proof {
                reveal_strlit("every-");
            }
            if starts_with(&every, p) {
                return true;
            }
            if !starts_with(p, &every) {
                return false;
            }
            let rest = copy_range(p, 6, p.len());
            assert(rest@ =~= p@.skip(6));
            is_day_of_month(&rest)
        },
        DateValueKind::Literal => {
            let syntax = lowercase(&chars_of(dv.syntax));
            starts_with(&syntax, p)
        },
    }
}

/// Whether the last character of `s` is a direction suffix.
pub fn has_direction_suffix(s: &Vec<char>) -> (r: bool)
    ensures
        r == (direction_suffix(s@) is Some),
{
    s.len() > 0 && (s[s.len() - 1] == '+' || s[s.len() - 1] == '-')
}

/// Decides [`prefix_matches`] for lowercase text.
pub fn matches_lowered(p: &Vec<char>, dv: &DateValue) -> (r: bool)
    ensures
        r == prefix_matches(p@, dv@),
{
    if base_prefix(p, dv) {
        return true;
    }
    if !has_direction_suffix(p) {
        return false;
    }
    let base = copy_range(p, 0, p.len() - 1);
    assert(base@ =~= p@.drop_last());
    full_base(&base, dv)
}

/// Whether what was typed, `input`, can still become the date value `dv`.
/// Letter case is ignored.
pub fn matches_date_value(input: &str, dv: &DateValue) -> (r: bool)
    ensures
        r == prefix_matches(lower(input@), dv@),
{
    let typed = lowercase(&chars_of(input));
    matches_lowered(&typed, dv)
}

/// The first word of `words` from position `from` on that begins with `p`,
/// without that beginning.
pub open spec fn first_remainder(words: Seq<Seq<char>>, from: int, p: Seq<char>) -> Option<
    Seq<char>,
>
    decreases words.len() - from,
{
    if from < 0 || from >= words.len() {
        None
    } else if p.is_prefix_of(words[from]) {
        Some(words[from].skip(p.len() as int))
    } else {
        first_remainder(words, from + 1, p)
    }
}

/// What has to be typed after `input` to reach the date value `dv`: nothing
/// after a direction suffix or for a pattern; the rest of the first word that
/// begins with the input for a set of words; the rest of the syntax for a
/// literal.  `None` where the input leads to no word or not to the syntax.
pub open spec fn date_completion(input: Seq<char>, dv: DateValueView) -> Option<Seq<char>> {
    let typed = lower(input);
    if direction_suffix(typed) is Some {
        Some(Seq::<char>::empty())
    } else {
        match dv.kind {
            DateValueKind::Values(set) => first_remainder(value_words(set), 0, typed),
            DateValueKind::Pattern(_) => Some(Seq::<char>::empty()),
            DateValueKind::Literal => if typed.is_prefix_of(lower(dv.syntax)) && typed.len()
                <= dv.syntax.len() {
                Some(dv.syntax.skip(typed.len() as int))
            } else {
                None
            },
        }
    }
}

/// Computes [`date_completion`].
pub fn compute_date_completion(input: &str, dv: &DateValue) -> (r: Option<String>)
    ensures
        r is Some <==> date_completion(input@, dv@) is Some,
        r is Some ==> r->0@ == date_completion(input@, dv@)->0,
{
    let typed = lowercase(&chars_of(input));
    if has_direction_suffix(&typed) {
        return Some(String::new());
    }
    match dv.kind {
        DateValueKind::Values(set) => {
            let words = words_of(set);
            let mut k: usize = 0;
            while k < words.len()
                invariant
                    k <= words.len(),
                    words@.len() == value_words(set).len(),
                    forall|j: int|
                        0 <= j < words@.len() ==> (#[trigger] words@[j])@ == value_words(set)[j],
                    typed@ == lower(input@),
                    direction_suffix(typed@) is None,
                    dv@.kind == DateValueKind::Values(set),
                    first_remainder(value_words(set), k as int, typed@) == first_remainder(
                        value_words(set),
                        0,
                        typed@,
                    ),
                decreases words.len() - k,
            {
                let w = chars_of(words[k]);
                assert(words@[k as int]@ == value_words(set)[k as int]);
                if starts_with(&w, &typed) {
                    let rest = string_of_range(&w, typed.len(), w.len());
                    assert(w@.subrange(typed.len() as int, w.len() as int) =~= w@.skip(
                        typed.len() as int,
                    ));
                    return Some(rest);
                }
                k += 1;
            }
            None
        },
        DateValueKind::Pattern(_) => Some(String::new()),
        DateValueKind::Literal => {
            let syntax = chars_of(dv.syntax);
            let lowered = lowercase(&syntax);
            if starts_with(&lowered, &typed) && typed.len() <= syntax.len() {
                let rest = string_of_range(&syntax, typed.len(), syntax.len());
                assert(syntax@.subrange(typed.len() as int, syntax.len() as int) =~= syntax@.skip(
                    typed.len() as int,
                ));
                Some(rest)
            } else {
                None
            }
        },
    }
}

/// Whether what was typed, `input`, is the date value `dv` in full, with or
/// without a direction suffix.  Letter case is ignored.
pub fn matches_in_full(input: &str, dv: &DateValue) -> (r: bool)
    ensures
        r == fully_matches(lower(input@), dv@),
{
    let typed = lowercase(&chars_of(input));
    if has_direction_suffix(&typed) {
        let base = copy_range(&typed, 0, typed.len() - 1);
        assert(base@ =~= typed@.drop_last());
        full_base(&base, dv)
    } else {
        full_base(&typed, dv)
    }
}

} // verus!
