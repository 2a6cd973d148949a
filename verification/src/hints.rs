//! Completion hints: what can be offered for the text typed so far.
//!
//! Hints are computed afresh from the whole input each time it changes.

use crate::dateexpr::without_suffix;
use crate::datevalue::compute_date_completion;
use crate::datevalue::date_completion;
use crate::datevalue::matches_lowered;
use crate::datevalue::prefix_matches;
use crate::filter::string_views;
use crate::registry::command_list;
use crate::registry::command_views;
use crate::registry::commands;
use crate::registry::date_value_list;
use crate::registry::date_value_views;
use crate::registry::date_values;
use crate::registry::filter_syntax;
use crate::registry::filter_syntax_list;
use crate::registry::syntax_views;
use crate::registry::Command;
use crate::registry::CommandView;
use crate::registry::DateScope;
use crate::registry::DateValue;
use crate::registry::DateValueKind;
use crate::registry::DateValueView;
use crate::registry::FilterCategory;
use crate::registry::FilterSyntax;
use crate::registry::FilterSyntaxView;
use crate::text::append_chars;
use crate::text::chars_of;
use crate::text::copy_range;
use crate::text::eq_ignore_ascii_case;
use crate::text::eq_ignore_case;
use crate::text::last_word;
use crate::text::lower;
use crate::text::lowercase;
use crate::text::same_text;
use crate::text::split_words;
use crate::text::starts_with;
use crate::text::string_of;
use crate::text::texts;
use crate::text::trim;
use crate::text::trimmed;
use vstd::prelude::*;

verus! {

/// What kind of hints to display.
#[derive(Debug, PartialEq)]
#[allow(inconsistent_fields)]
pub enum HintContext {
    /// Nothing to offer.
    Inactive,
    /// A line of guidance, with nothing to complete.
    GuidanceMessage { message: &'static str },
    /// Tags of the journal.
    Tags { prefix: String, matches: Vec<String> },
    /// Commands of the prompt.
    Commands { prefix: String, matches: Vec<Command> },
    /// Types of entry that a filter can ask for.
    FilterTypes { prefix: String, matches: Vec<FilterSyntax> },
    /// Date operators of a filter.
    DateOps { prefix: String, matches: Vec<FilterSyntax> },
    /// Date values, in an entry or in a filter.
    DateValues { prefix: String, scope: DateScope, matches: Vec<DateValue> },
    /// Names of saved filters.
    SavedFilters { prefix: String, matches: Vec<String> },
    /// Hints for what follows `not:`.
    Negation { inner: Box<HintContext> },
}

/// Which input the hints are computed for.
#[derive(Clone, Copy, Debug, PartialEq, Eq, Structural)]
pub enum HintMode {
    /// The command prompt.
    Command,
    /// A filter query.
    Filter,
    /// The text of an entry.
    Entry,
}

/// What a [`HintContext`] holds, as mathematics.
#[allow(inconsistent_fields)]
pub enum HintView {
    Inactive,
    GuidanceMessage { message: Seq<char> },
    Tags { prefix: Seq<char>, matches: Seq<Seq<char>> },
    Commands { prefix: Seq<char>, matches: Seq<CommandView> },
    FilterTypes { prefix: Seq<char>, matches: Seq<FilterSyntaxView> },
    DateOps { prefix: Seq<char>, matches: Seq<FilterSyntaxView> },
    DateValues { prefix: Seq<char>, scope: DateScope, matches: Seq<DateValueView> },
    SavedFilters { prefix: Seq<char>, matches: Seq<Seq<char>> },
    Negation { inner: Box<HintView> },
}

impl View for HintContext {
    type V = HintView;

    open spec fn view(&self) -> HintView
        decreases self,
    {
        match self {
            HintContext::Inactive => HintView::Inactive,
            HintContext::GuidanceMessage { message } => HintView::GuidanceMessage {
                message: message@,
            },
            HintContext::Tags { prefix, matches } => HintView::Tags {
                prefix: prefix@,
                matches: string_views(matches@),
            },
            HintContext::Commands { prefix, matches } => HintView::Commands {
                prefix: prefix@,
                matches: command_views(matches@),
            },
            HintContext::FilterTypes { prefix, matches } => HintView::FilterTypes {
                prefix: prefix@,
                matches: syntax_views(matches@),
            },
            HintContext::DateOps { prefix, matches } => HintView::DateOps {
                prefix: prefix@,
                matches: syntax_views(matches@),
            },
            HintContext::DateValues { prefix, scope, matches } => HintView::DateValues {
                prefix: prefix@,
                scope: *scope,
                matches: date_value_views(matches@),
            },
            HintContext::SavedFilters { prefix, matches } => HintView::SavedFilters {
                prefix: prefix@,
                matches: string_views(matches@),
            },
            HintContext::Negation { inner } => HintView::Negation {
                inner: Box::new((**inner).view()),
            },
        }
    }
}

// ---------------------------------------------------------------------------
// What is offered
// ---------------------------------------------------------------------------

/// The elements of `s` of which `pred` holds, in order.
pub open spec fn keep<T>(s: Seq<T>, pred: spec_fn(T) -> bool) -> Seq<T>
    decreases s.len(),
{
    if s.len() == 0 {
        Seq::<T>::empty()
    } else if pred(s.last()) {
        keep(s.drop_last(), pred).push(s.last())
    } else {
        keep(s.drop_last(), pred)
    }
}

/// The guidance shown for an empty filter query.
pub open spec fn filter_guidance() -> Seq<char> {
    "Type to search, or use ! @ # $ not: for filters"@
}

/// The guidance shown after a bare `not:`.
pub open spec fn negation_guidance() -> Seq<char> {
    "! @ # or text to negate"@
}

/// The note shown with the date values of a filter before any is typed.
pub open spec fn filter_date_note() -> Seq<char> {
    "Dates default to past. Append + for future."@
}

/// The input ends in a space.
pub open spec fn ends_in_space(input: Seq<char>) -> bool {
    input.len() > 0 && input.last() == ' '
}

/// The command's name begins with `prefix`; letter case is ignored.
pub open spec fn command_begins(prefix: Seq<char>) -> spec_fn(CommandView) -> bool {
    |c: CommandView| lower(prefix).is_prefix_of(lower(c.name))
}

/// The hints for the command prompt: the commands whose names begin with the
/// input, as long as no argument is being typed, and unless the only such
/// command is typed in full.
pub open spec fn command_hints(input: Seq<char>) -> HintView {
    let prefix = trim(input);
    let matches = keep(command_list(), command_begins(prefix));
    if prefix.contains(' ') || matches.len() == 0 || (matches.len() == 1 && eq_ignore_case(
        matches[0].name,
        prefix,
    )) {
        HintView::Inactive
    } else {
        HintView::Commands { prefix, matches }
    }
}

/// The name begins with `prefix`; letter case is ignored.
pub open spec fn name_begins(prefix: Seq<char>) -> spec_fn(Seq<char>) -> bool {
    |name: Seq<char>| lower(prefix).is_prefix_of(lower(name))
}

/// The names among `names` that begin with `prefix`, unless there is none, or
/// the only one is the prefix itself.
pub open spec fn names_to_offer(prefix: Seq<char>, names: Seq<Seq<char>>) -> Option<
    Seq<Seq<char>>,
> {
    let matches = keep(names, name_begins(prefix));
    if matches.len() == 0 || (matches.len() == 1 && eq_ignore_case(matches[0], prefix)) {
        None
    } else {
        Some(matches)
    }
}

/// The hints for a tag that is being typed at the end of the input.
pub open spec fn tag_hints(input: Seq<char>, tags: Seq<Seq<char>>) -> HintView {
    let token = last_word(input);
    if !ends_in_space(input) && token.len() > 0 && token[0] == '#' && names_to_offer(
        token.skip(1),
        tags,
    ) is Some {
        HintView::Tags { prefix: token.skip(1), matches: names_to_offer(token.skip(1), tags)->0 }
    } else {
        HintView::Inactive
    }
}

/// The date value may be written in `scope`.
pub open spec fn in_scope(scope: DateScope) -> spec_fn(DateValueView) -> bool {
    |dv: DateValueView| dv.allowed_in(scope)
}

/// The date value may be written in `scope`, and what was typed, `typed`, can
/// still become it.
pub open spec fn in_scope_and_begun(scope: DateScope, typed: Seq<char>) -> spec_fn(
    DateValueView,
) -> bool {
    |dv: DateValueView| dv.allowed_in(scope) && prefix_matches(lower(typed), dv)
}

/// The date values to offer in `scope` for what was typed: all of the scope
/// where nothing was typed yet, else those that the text can still become.
pub open spec fn date_values_to_offer(scope: DateScope, typed: Seq<char>) -> Seq<DateValueView> {
    if typed.len() == 0 {
        keep(date_value_list(), in_scope(scope))
    } else {
        keep(date_value_list(), in_scope_and_begun(scope, typed))
    }
}

/// The one date value that is offered is a literal that was typed in full.
pub open spec fn typed_in_full(typed: Seq<char>, matches: Seq<DateValueView>) -> bool {
    matches.len() == 1 && matches[0].kind is Literal && eq_ignore_case(
        matches[0].syntax,
        without_suffix(lower(typed)),
    )
}

/// The hints for a date that is being typed at the end of an entry; `None`
/// where no date is being typed or nothing is left to offer.
pub open spec fn entry_date_hints(input: Seq<char>) -> Option<HintView> {
    let token = last_word(input);
    if ends_in_space(input) || token.len() == 0 || token[0] != '@' {
        None
    } else {
        let typed = token.skip(1);
        let matches = date_values_to_offer(DateScope::Entry, typed);
        if typed.len() > 0 && (matches.len() == 0 || typed_in_full(typed, matches)) {
            None
        } else {
            Some(HintView::DateValues { prefix: typed, scope: DateScope::Entry, matches })
        }
    }
}

/// The hints for the text of an entry: for a date where one is being typed,
/// else for a tag.
pub open spec fn entry_hints(input: Seq<char>, tags: Seq<Seq<char>>) -> HintView {
    match entry_date_hints(input) {
        Some(hint) => hint,
        None => tag_hints(input, tags),
    }
}

/// The hints for the value of a date operator in a filter.
pub open spec fn date_value_hints(typed: Seq<char>) -> HintView {
    let matches = date_values_to_offer(DateScope::Filter, typed);
    if typed.len() > 0 && (matches.len() == 0 || typed_in_full(typed, matches)) {
        HintView::Inactive
    } else {
        HintView::DateValues { prefix: typed, scope: DateScope::Filter, matches }
    }
}

/// The syntax is of `category`, and what follows its sigil begins with
/// `prefix`; letter case is ignored.
pub open spec fn syntax_begins(category: FilterCategory, prefix: Seq<char>) -> spec_fn(
    FilterSyntaxView,
) -> bool {
    |f: FilterSyntaxView|
        f.category == category && f.syntax.len() >= 1 && lower(prefix).is_prefix_of(
            lower(f.syntax.skip(1)),
        )
}

/// The one piece of syntax that is offered is typed in full.
pub open spec fn syntax_in_full(prefix: Seq<char>, matches: Seq<FilterSyntaxView>) -> bool {
    matches.len() == 1 && matches[0].syntax.len() >= 1 && eq_ignore_case(
        matches[0].syntax.skip(1),
        prefix,
    )
}

/// The syntax is a date operator that takes a value, and `typed` begins with
/// it.
pub open spec fn is_operator_of(f: FilterSyntaxView, typed: Seq<char>) -> bool {
    f.category == FilterCategory::DateOp && f.syntax.len() >= 1 && f.syntax.last() == ':'
        && f.syntax[0] == '@' && f.syntax.skip(1).is_prefix_of(typed)
}

/// What follows the first date operator of `list`, from position `from` on,
/// that `typed` begins with.
pub open spec fn operator_value(list: Seq<FilterSyntaxView>, from: int, typed: Seq<char>) -> Option<
    Seq<char>,
>
    decreases list.len() - from,
{
    if from < 0 || from >= list.len() {
        None
    } else if is_operator_of(list[from], typed) {
        Some(typed.skip(list[from].syntax.len() - 1))
    } else {
        operator_value(list, from + 1, typed)
    }
}

/// The hints for one word of a filter query, without a leading `not:`.
pub open spec fn filter_token_hints(
    token: Seq<char>,
    tags: Seq<Seq<char>>,
    saved: Seq<Seq<char>>,
) -> HintView {
    if token.len() > 0 && token[0] == '#' && names_to_offer(token.skip(1), tags) is Some {
        HintView::Tags { prefix: token.skip(1), matches: names_to_offer(token.skip(1), tags)->0 }
    } else if token.len() > 0 && token[0] == '!' {
        let matches = keep(
            filter_syntax_list(),
            syntax_begins(FilterCategory::EntryType, token.skip(1)),
        );
        if matches.len() == 0 || syntax_in_full(token.skip(1), matches) {
            HintView::Inactive
        } else {
            HintView::FilterTypes { prefix: token.skip(1), matches }
        }
    } else if token.len() > 0 && token[0] == '@' {
        match operator_value(filter_syntax_list(), 0, token.skip(1)) {
            Some(value) => date_value_hints(value),
            None => {
                let matches = keep(
                    filter_syntax_list(),
                    syntax_begins(FilterCategory::DateOp, token.skip(1)),
                );
                if matches.len() == 0 || syntax_in_full(token.skip(1), matches) {
                    HintView::Inactive
                } else {
                    HintView::DateOps { prefix: token.skip(1), matches }
                }
            },
        }
    } else if token.len() > 0 && token[0] == '$' {
        match names_to_offer(token.skip(1), saved) {
            Some(matches) => HintView::SavedFilters { prefix: token.skip(1), matches },
            None => HintView::Inactive,
        }
    } else {
        HintView::Inactive
    }
}

/// The hints for a filter query: guidance for an empty query, nothing after a
/// space, else the hints for its last word; those for what follows `not:` are
/// wrapped.
pub open spec fn filter_hints(input: Seq<char>, tags: Seq<Seq<char>>, saved: Seq<Seq<char>>) -> HintView {
    let token = last_word(input);
    if input.len() == 0 {
        HintView::GuidanceMessage { message: filter_guidance() }
    } else if ends_in_space(input) {
        HintView::Inactive
    } else if "not:"@.is_prefix_of(token) {
        let inner = filter_token_hints(token.skip(4), tags, saved);
        if inner is Inactive {
            if token.len() == 4 {
                HintView::Negation {
                    inner: Box::new(HintView::GuidanceMessage { message: negation_guidance() }),
                }
            } else {
                HintView::Inactive
            }
        } else {
            HintView::Negation { inner: Box::new(inner) }
        }
    } else {
        filter_token_hints(token, tags, saved)
    }
}

/// The hints for `input` in `mode`, with the tags of the journal and the
/// names of the saved filters.
pub open spec fn hints(
    input: Seq<char>,
    mode: HintMode,
    tags: Seq<Seq<char>>,
    saved: Seq<Seq<char>>,
) -> HintView {
    match mode {
        HintMode::Command => command_hints(input),
        HintMode::Filter => filter_hints(input, tags, saved),
        HintMode::Entry => entry_hints(input, tags),
    }
}

// ---------------------------------------------------------------------------
// Accepting and showing hints
// ---------------------------------------------------------------------------

/// `s` from position `n` on; nothing where `s` is shorter than `n`.
pub open spec fn suffix_after(s: Seq<char>, n: int) -> Seq<char> {
    if 0 <= n <= s.len() {
        s.skip(n)
    } else {
        Seq::<char>::empty()
    }
}

/// What accepting the first hint adds to the input: the rest of the first
/// item offered, after what was typed of it.
pub open spec fn first_completion_of(h: HintView) -> Option<Seq<char>>
    decreases h,
{
    match h {
        HintView::Inactive => None,
        HintView::GuidanceMessage { .. } => None,
        HintView::Tags { prefix, matches } => if matches.len() > 0 {
            Some(suffix_after(matches[0], prefix.len() as int))
        } else {
            None
        },
        HintView::Commands { prefix, matches } => if matches.len() > 0 {
            Some(suffix_after(matches[0].name, prefix.len() as int))
        } else {
            None
        },
        HintView::FilterTypes { prefix, matches } => if matches.len() > 0 {
            Some(suffix_after(matches[0].syntax, (prefix.len() + 1) as int))
        } else {
            None
        },
        HintView::DateOps { prefix, matches } => if matches.len() > 0 {
            Some(suffix_after(matches[0].syntax, (prefix.len() + 1) as int))
        } else {
            None
        },
        HintView::DateValues { prefix, matches, .. } => if matches.len() > 0 {
            date_completion(prefix, matches[0])
        } else {
            None
        },
        HintView::SavedFilters { prefix, matches } => if matches.len() > 0 {
            Some(suffix_after(matches[0], prefix.len() as int))
        } else {
            None
        },
        HintView::Negation { inner } => first_completion_of(*inner),
    }
}

/// The hints that are shown: those inside a negation, else the hints
/// themselves.
pub open spec fn effective(h: HintView) -> HintView {
    match h {
        HintView::Negation { inner } => *inner,
        _ => h,
    }
}

/// The description shown with the hints: that of the first item offered once
/// something was typed of it, and a note on the date values of a filter before
/// that.
pub open spec fn description_of(h: HintView) -> Option<Seq<char>> {
    match effective(h) {
        HintView::Commands { prefix, matches } => if prefix.len() > 0 && matches.len() > 0 {
            Some(matches[0].completion_hint)
        } else {
            None
        },
        HintView::FilterTypes { prefix, matches } => if prefix.len() > 0 && matches.len() > 0 {
            Some(matches[0].completion_hint)
        } else {
            None
        },
        HintView::DateOps { prefix, matches } => if prefix.len() > 0 && matches.len() > 0 {
            Some(matches[0].completion_hint)
        } else {
            None
        },
        HintView::DateValues { prefix, scope, matches } => if prefix.len() > 0 {
            if matches.len() > 0 {
                Some(matches[0].completion_hint)
            } else {
                None
            }
        } else if scope == DateScope::Filter {
            Some(filter_date_note())
        } else {
            None
        },
        _ => None,
    }
}

/// How a date value is shown in `scope`: in an entry with a leading `@`.
pub open spec fn date_item(dv: DateValueView, scope: DateScope) -> Seq<char> {
    match scope {
        DateScope::Entry => if dv.display.len() > 0 && dv.display[0] == '@' {
            dv.display
        } else {
            seq!['@'] + dv.display
        },
        DateScope::Filter => dv.display,
    }
}

/// The items of `items` without repetitions: each where it occurs first.
pub open spec fn distinct(items: Seq<Seq<char>>) -> Seq<Seq<char>>
    decreases items.len(),
{
    if items.len() == 0 {
        Seq::<Seq<char>>::empty()
    } else if items.drop_last().contains(items.last()) {
        distinct(items.drop_last())
    } else {
        distinct(items.drop_last()).push(items.last())
    }
}

/// The lines that show the hints, one for each item offered; inside a
/// negation each line begins with `negation_prefix`.  Date values that are
/// shown alike are shown once.
pub open spec fn display_of(h: HintView, negation_prefix: Seq<char>) -> Seq<Seq<char>> {
    match effective(h) {
        HintView::Tags { matches, .. } => Seq::new(
            matches.len(),
            |i: int| negation_prefix + seq!['#'] + matches[i],
        ),
        HintView::Commands { matches, .. } => Seq::new(
            matches.len(),
            |i: int| seq![':'] + matches[i].name,
        ),
        HintView::FilterTypes { matches, .. } => Seq::new(
            matches.len(),
            |i: int| negation_prefix + matches[i].syntax,
        ),
        HintView::DateOps { matches, .. } => Seq::new(
            matches.len(),
            |i: int| negation_prefix + matches[i].syntax,
        ),
        HintView::DateValues { matches, scope, .. } => distinct(
            Seq::new(matches.len(), |i: int| date_item(matches[i], scope)),
        ),
        HintView::SavedFilters { matches, .. } => Seq::new(
            matches.len(),
            |i: int| negation_prefix + seq!['$'] + matches[i],
        ),
        _ => Seq::<Seq<char>>::empty(),
    }
}

/// One step of [`keep`].
pub proof fn lemma_keep_step<T>(s: Seq<T>, i: int, pred: spec_fn(T) -> bool)
    requires
        0 <= i < s.len(),
    ensures
        keep(s.take(i + 1), pred) == if pred(s[i]) {
            keep(s.take(i), pred).push(s[i])
        } else {
            keep(s.take(i), pred)
        },
        keep(s.take(0), pred) == Seq::<T>::empty(),
{
    assert(s.take(i + 1).drop_last() =~= s.take(i));
}

/// The last word of `input`: computes [`last_word`].
fn last_token(input: &Vec<char>) -> (token: Vec<char>)
    ensures
        token@ == last_word(input@),
{
    let ws = split_words(input);
    assert(texts(ws@).len() == ws.len());
    if ws.len() == 0 {
        Vec::new()
    } else {
        let last = &ws[ws.len() - 1];
        assert(texts(ws@).last() == last@);
        let token = copy_range(last, 0, last.len());
        assert(last@.subrange(0, last@.len() as int) =~= last@);
        token
    }
}

/// Decides [`ends_in_space`].
fn ends_with_blank(input: &Vec<char>) -> (r: bool)
    ensures
        r == ends_in_space(input@),
{
    input.len() > 0 && input[input.len() - 1] == ' '
}

/// Whether `c` occurs in `v`.
fn has_char(v: &Vec<char>, c: char) -> (r: bool)
    ensures
        r == v@.contains(c),
{
    let mut i: usize = 0;
    while i < v.len()
        invariant
            i <= v.len(),
            forall|j: int| 0 <= j < i ==> v@[j] != c,
        decreases v.len() - i,
    {
        if v[i] == c {
            return true;
        }
        i += 1;
    }
    false
}

/// The part of `v` from position `from` on, as far as there is one.
fn tail_from(v: &Vec<char>, from: usize) -> (r: Vec<char>)
    ensures
        r@ == suffix_after(v@, from as int),
{
    if from <= v.len() {
        let r = copy_range(v, from, v.len());
        assert(v@.subrange(from as int, v.len() as int) =~= v@.skip(from as int));
        r
    } else {
        Vec::new()
    }
}

/// The names among `names` to offer for `prefix`: computes
/// [`names_to_offer`].
fn match_names(prefix: &Vec<char>, names: &[String]) -> (r: Option<Vec<String>>)
    ensures
        r is Some <==> names_to_offer(prefix@, string_views(names@)) is Some,
        r is Some ==> string_views(r->0@) == names_to_offer(prefix@, string_views(names@))->0,
{
    let ghost all = string_views(names@);
    let ghost pred = name_begins(prefix@);
    let wanted = lowercase(prefix);
    let mut matches: Vec<String> = Vec::new();
    let mut i: usize = 0;
    proof {
        assert(all.take(0) =~= Seq::<Seq<char>>::empty());
        assert(string_views(matches@) =~= Seq::<Seq<char>>::empty());
    }
    while i < names.len()
        invariant
            i <= names.len(),
            all == string_views(names@),
            pred == name_begins(prefix@),
            wanted@ == lower(prefix@),
            string_views(matches@) == keep(all.take(i as int), pred),
        decreases names.len() - i,
    {
        let ghost before = string_views(matches@);
        let name = lowercase(&chars_of(names[i].as_str()));
        proof {
            lemma_keep_step(all, i as int, pred);
            assert(all[i as int] == names@[i as int]@);
        }
        if starts_with(&name, &wanted) {
            matches.push(names[i].clone());
            assert(string_views(matches@) =~= before.push(names@[i as int]@));
        }
        i += 1;
    }
    proof {
        assert(all.take(names.len() as int) =~= all);
    }
    if matches.len() == 0 {
        return None;
    }
    if matches.len() == 1 {
        let only = chars_of(matches[0].as_str());
        assert(string_views(matches@)[0] == matches@[0]@);
        if eq_ignore_ascii_case(&only, prefix) {
            return None;
        }
    }
    Some(matches)
}

/// The commands whose names begin with `prefix`.
fn offer_commands(prefix: &Vec<char>) -> (matches: Vec<Command>)
    ensures
        command_views(matches@) == keep(command_list(), command_begins(prefix@)),
{
    let list = commands();
    let ghost all = command_views(list@);
    let ghost pred = command_begins(prefix@);
    let wanted = lowercase(prefix);
    let mut matches: Vec<Command> = Vec::new();
    let mut i: usize = 0;
    proof {
        lemma_keep_step(all, 0, pred);
        assert(command_views(matches@) =~= Seq::<CommandView>::empty());
    }
    while i < list.len()
        invariant
            i <= list.len(),
            all == command_views(list@),
            all == command_list(),
            pred == command_begins(prefix@),
            wanted@ == lower(prefix@),
            command_views(matches@) == keep(all.take(i as int), pred),
        decreases list.len() - i,
    {
        let ghost before = command_views(matches@);
        let name = lowercase(&chars_of(list[i].name));
        proof {
            lemma_keep_step(all, i as int, pred);
            assert(all[i as int] == list@[i as int]@);
        }
        if starts_with(&name, &wanted) {
            matches.push(list[i]);
            assert(command_views(matches@) =~= before.push(list@[i as int]@));
        }
        i += 1;
    }
    proof {
        assert(all.take(list.len() as int) =~= all);
    }
    matches
}

/// The filter syntax of `category` that begins, after its sigil, with
/// `prefix`.
fn offer_syntax(category: FilterCategory, prefix: &Vec<char>) -> (matches: Vec<FilterSyntax>)
    ensures
        syntax_views(matches@) == keep(filter_syntax_list(), syntax_begins(category, prefix@)),
{
    let list = filter_syntax();
    let ghost all = syntax_views(list@);
    let ghost pred = syntax_begins(category, prefix@);
    let wanted = lowercase(prefix);
    let mut matches: Vec<FilterSyntax> = Vec::new();
    let mut i: usize = 0;
    proof {
        lemma_keep_step(all, 0, pred);
        assert(syntax_views(matches@) =~= Seq::<FilterSyntaxView>::empty());
    }
    while i < list.len()
        invariant
            i <= list.len(),
            all == syntax_views(list@),
            all == filter_syntax_list(),
            pred == syntax_begins(category, prefix@),
            wanted@ == lower(prefix@),
            syntax_views(matches@) == keep(all.take(i as int), pred),
        decreases list.len() - i,
    {
        let ghost before = syntax_views(matches@);
        let syntax = chars_of(list[i].syntax);
        proof {
            lemma_keep_step(all, i as int, pred);
            assert(all[i as int] == list@[i as int]@);
        }
        let fits = match (list[i].category, category) {
            (FilterCategory::EntryType, FilterCategory::EntryType) => true,
            (FilterCategory::DateOp, FilterCategory::DateOp) => true,
            (FilterCategory::Tag, FilterCategory::Tag) => true,
            (FilterCategory::Negation, FilterCategory::Negation) => true,
            (FilterCategory::SavedFilter, FilterCategory::SavedFilter) => true,
            _ => false,
        };
        if fits && syntax.len() >= 1 {
            let rest = copy_range(&syntax, 1, syntax.len());
            assert(rest@ =~= syntax@.skip(1));
            let rest = lowercase(&rest);
            if starts_with(&rest, &wanted) {
                matches.push(list[i]);
                assert(syntax_views(matches@) =~= before.push(list@[i as int]@));
            }
        }
        i += 1;
    }
    proof {
        assert(all.take(list.len() as int) =~= all);
    }
    matches
}

/// The date values to offer in `scope` for what was typed: computes
/// [`date_values_to_offer`].
fn offer_date_values(scope: DateScope, typed: &Vec<char>) -> (matches: Vec<DateValue>)
    ensures
        date_value_views(matches@) == date_values_to_offer(scope, typed@),
{
    let list = date_values();
    let ghost all = date_value_views(list@);
    let ghost pred = if typed@.len() == 0 {
        in_scope(scope)
    } else {
        in_scope_and_begun(scope, typed@)
    };
    let lowered = lowercase(typed);
    let mut matches: Vec<DateValue> = Vec::new();
    let mut i: usize = 0;
    proof {
        lemma_keep_step(all, 0, pred);
        assert(date_value_views(matches@) =~= Seq::<DateValueView>::empty());
    }
    while i < list.len()
        invariant
            i <= list.len(),
            all == date_value_views(list@),
            all == date_value_list(),
            lowered@ == lower(typed@),
            pred == if typed@.len() == 0 {
                in_scope(scope)
            } else {
                in_scope_and_begun(scope, typed@)
            },
            date_value_views(matches@) == keep(all.take(i as int), pred),
        decreases list.len() - i,
    {
        let ghost before = date_value_views(matches@);
        proof {
            lemma_keep_step(all, i as int, pred);
            assert(all[i as int] == list@[i as int]@);
        }
        if list[i].allowed(scope) && (typed.len() == 0 || matches_lowered(&lowered, &list[i])) {
            matches.push(list[i]);
            assert(date_value_views(matches@) =~= before.push(list@[i as int]@));
        }
        i += 1;
    }
    proof {
        assert(all.take(list.len() as int) =~= all);
    }
    matches
}

/// What follows the date operator that `typed` begins with: computes
/// [`operator_value`].
fn find_operator_value(typed: &Vec<char>) -> (r: Option<Vec<char>>)
    ensures
        r is Some <==> operator_value(filter_syntax_list(), 0, typed@) is Some,
        r is Some ==> r->0@ == operator_value(filter_syntax_list(), 0, typed@)->0,
{
    let list = filter_syntax();
    let ghost all = syntax_views(list@);
    let mut i: usize = 0;
    while i < list.len()
        invariant
            i <= list.len(),
            all == syntax_views(list@),
            all == filter_syntax_list(),
            operator_value(all, i as int, typed@) == operator_value(all, 0, typed@),
        decreases list.len() - i,
    {
        let syntax = chars_of(list[i].syntax);
        assert(all[i as int] == list@[i as int]@);
        let is_date_op = match list[i].category {
            FilterCategory::DateOp => true,
            _ => false,
        };
        if is_date_op && syntax.len() >= 1 && syntax[syntax.len() - 1] == ':' && syntax[0] == '@' {
            let name = copy_range(&syntax, 1, syntax.len());
            assert(name@ =~= syntax@.skip(1));
            if starts_with(typed, &name) {
                let value = copy_range(typed, name.len(), typed.len());
                assert(value@ =~= typed@.skip(syntax@.len() - 1));
                return Some(value);
            }
        }
        i += 1;
    }
    None
}

/// Decides [`syntax_in_full`].
fn only_syntax_in_full(prefix: &Vec<char>, matches: &Vec<FilterSyntax>) -> (r: bool)
    ensures
        r == syntax_in_full(prefix@, syntax_views(matches@)),
{
    assert(syntax_views(matches@).len() == matches.len());
    if matches.len() != 1 {
        return false;
    }
    assert(syntax_views(matches@)[0] == matches@[0]@);
    let syntax = chars_of(matches[0].syntax);
    if syntax.len() < 1 {
        return false;
    }
    let rest = copy_range(&syntax, 1, syntax.len());
    assert(rest@ =~= syntax@.skip(1));
    eq_ignore_ascii_case(&rest, prefix)
}

/// Decides [`typed_in_full`].
fn literal_in_full(typed: &Vec<char>, matches: &Vec<DateValue>) -> (r: bool)
    ensures
        r == typed_in_full(typed@, date_value_views(matches@)),
{
    assert(date_value_views(matches@).len() == matches.len());
    if matches.len() != 1 {
        return false;
    }
    assert(date_value_views(matches@)[0] == matches@[0]@);
    let is_literal = match matches[0].kind {
        DateValueKind::Literal => true,
        _ => false,
    };
    if !is_literal {
        return false;
    }
    let lowered = lowercase(typed);
    let n = lowered.len();
    let base = if n > 0 && (lowered[n - 1] == '+' || lowered[n - 1] == '-') {
        let b = copy_range(&lowered, 0, n - 1);
        assert(b@ =~= lowered@.drop_last());
        b
    } else {
        lowered
    };
    let syntax = chars_of(matches[0].syntax);
    eq_ignore_ascii_case(&syntax, &base)
}

/// Whether `item` is one of `seen`.
fn seen_before(seen: &Vec<Vec<char>>, item: &Vec<char>) -> (r: bool)
    ensures
        r == texts(seen@).contains(item@),
{
    let mut i: usize = 0;
    while i < seen.len()
        invariant
            i <= seen.len(),
            forall|j: int| 0 <= j < i ==> texts(seen@)[j] != item@,
        decreases seen.len() - i,
    {
        assert(texts(seen@)[i as int] == seen@[i as int]@);
        if same_text(&seen[i], item) {
            return true;
        }
        i += 1;
    }
    false
}

/// The line `lead` + `sigil` + `name`.
fn item_line(lead: &Vec<char>, sigil: Option<char>, name: &str) -> (line: String)
    ensures
        line@ == match sigil {
            Some(c) => lead@ + seq![c] + name@,
            None => lead@ + name@,
        },
{
    let mut out: Vec<char> = Vec::new();
    append_chars(&mut out, lead);
    match sigil {
        Some(c) => {
            out.push(c);
        },
        None => {},
    }
    let chars = chars_of(name);
    append_chars(&mut out, &chars);
    proof {
        match sigil {
            Some(c) => {
                assert(out@ =~= lead@ + seq![c] + name@);
            },
            None => {
                assert(out@ =~= lead@ + name@);
            },
        }
    }
    string_of(&out)
}

impl HintContext {
    /// The hints for `input` in `mode`, with the tags of the journal and the
    /// names of the saved filters.
    pub fn compute(input: &str, mode: HintMode, journal_tags: &[String], saved_filters: &[String]) -> (r:
        Self)
        ensures
            r@ == hints(input@, mode, string_views(journal_tags@), string_views(saved_filters@)),
    {
        let chars = chars_of(input);
        match mode {
            HintMode::Command => Self::compute_command_hints(&chars),
            HintMode::Filter => Self::compute_filter_hints(&chars, journal_tags, saved_filters),
            HintMode::Entry => Self::compute_entry_hints(&chars, journal_tags),
        }
    }

    fn compute_command_hints(input: &Vec<char>) -> (r: Self)
        ensures
            r@ == command_hints(input@),
    {
        let prefix = trimmed(input);
        if has_char(&prefix, ' ') {
            return HintContext::Inactive;
        }
        let matches = offer_commands(&prefix);
        assert(command_views(matches@).len() == matches.len());
        if matches.len() == 0 {
            return HintContext::Inactive;
        }
        if matches.len() == 1 {
            assert(command_views(matches@)[0] == matches@[0]@);
            let only = chars_of(matches[0].name);
            if eq_ignore_ascii_case(&only, &prefix) {
                return HintContext::Inactive;
            }
        }
        HintContext::Commands { prefix: string_of(&prefix), matches }
    }

    fn compute_tag_hints(input: &Vec<char>, journal_tags: &[String]) -> (r: Self)
        ensures
            r@ == tag_hints(input@, string_views(journal_tags@)),
    {
        if ends_with_blank(input) {
            return HintContext::Inactive;
        }
        let token = last_token(input);
        if token.len() > 0 && token[0] == '#' {
            let prefix = copy_range(&token, 1, token.len());
            assert(prefix@ =~= token@.skip(1));
            match match_names(&prefix, journal_tags) {
                Some(matches) => {
                    return HintContext::Tags { prefix: string_of(&prefix), matches };
                },
                None => {},
            }
        }
        HintContext::Inactive
    }

    fn compute_entry_hints(input: &Vec<char>, journal_tags: &[String]) -> (r: Self)
        ensures
            r@ == entry_hints(input@, string_views(journal_tags@)),
    {
        match Self::compute_entry_date_hints(input) {
            Some(hint) => hint,
            None => Self::compute_tag_hints(input, journal_tags),
        }
    }

    fn compute_entry_date_hints(input: &Vec<char>) -> (r: Option<Self>)
        ensures
            r is Some <==> entry_date_hints(input@) is Some,
            r is Some ==> r->0@ == entry_date_hints(input@)->0,
    {
        if ends_with_blank(input) {
            return None;
        }
        let token = last_token(input);
        if token.len() == 0 || token[0] != '@' {
            return None;
        }
        let typed = copy_range(&token, 1, token.len());
        assert(typed@ =~= token@.skip(1));
        let matches = offer_date_values(DateScope::Entry, &typed);
        assert(date_value_views(matches@).len() == matches.len());
        if typed.len() > 0 && (matches.len() == 0 || literal_in_full(&typed, &matches)) {
            return None;
        }
        Some(
            HintContext::DateValues {
                prefix: string_of(&typed),
                scope: DateScope::Entry,
                matches,
            },
        )
    }

    fn compute_filter_hints(input: &Vec<char>, journal_tags: &[String], saved_filters: &[String]) -> (r:
        Self)
        ensures
            r@ == filter_hints(input@, string_views(journal_tags@), string_views(saved_filters@)),
    {
        if input.len() == 0 {
            return HintContext::GuidanceMessage {
                message: "Type to search, or use ! @ # $ not: for filters",
            };
        }
        if ends_with_blank(input) {
            return HintContext::Inactive;
        }
        let token = last_token(input);
        let not = chars_of("not:");
        proof {
            reveal_strlit("not:");
        }
        if starts_with(&token, &not) {
            let rest = copy_range(&token, 4, token.len());
            assert(rest@ =~= token@.skip(4));
            let inner = Self::compute_filter_token(&rest, journal_tags, saved_filters);
            let inactive = match inner {
                HintContext::Inactive => true,
                _ => false,
            };
            if inactive {
                if rest.len() == 0 {
                    let guidance = HintContext::GuidanceMessage {
                        message: "! @ # or text to negate",
                    };
                    assert(guidance@ == HintView::GuidanceMessage {
                        message: negation_guidance(),
                    });
                    return HintContext::Negation { inner: Box::new(guidance) };
                }
                return HintContext::Inactive;
            }
            return HintContext::Negation { inner: Box::new(inner) };
        }
        Self::compute_filter_token(&token, journal_tags, saved_filters)
    }

    fn compute_filter_token(token: &Vec<char>, journal_tags: &[String], saved_filters: &[String]) -> (r:
        Self)
        ensures
            r@ == filter_token_hints(
                token@,
                string_views(journal_tags@),
                string_views(saved_filters@),
            ),
    {
        if token.len() == 0 {
            return HintContext::Inactive;
        }
        let rest = copy_range(token, 1, token.len());
        assert(rest@ =~= token@.skip(1));
        if token[0] == '#' {
            match match_names(&rest, journal_tags) {
                Some(matches) => {
                    return HintContext::Tags { prefix: string_of(&rest), matches };
                },
                None => {},
            }
        }
        if token[0] == '!' {
            let matches = offer_syntax(FilterCategory::EntryType, &rest);
            assert(syntax_views(matches@).len() == matches.len());
            if matches.len() == 0 || only_syntax_in_full(&rest, &matches) {
                return HintContext::Inactive;
            }
            return HintContext::FilterTypes { prefix: string_of(&rest), matches };
        }
        if token[0] == '@' {
            match find_operator_value(&rest) {
                Some(value) => {
                    return Self::compute_date_value_hints(&value);
                },
                None => {},
            }
            let matches = offer_syntax(FilterCategory::DateOp, &rest);
            assert(syntax_views(matches@).len() == matches.len());
            if matches.len() == 0 || only_syntax_in_full(&rest, &matches) {
                return HintContext::Inactive;
            }
            return HintContext::DateOps { prefix: string_of(&rest), matches };
        }
        if token[0] == '$' {
            return match match_names(&rest, saved_filters) {
                Some(matches) => HintContext::SavedFilters { prefix: string_of(&rest), matches },
                None => HintContext::Inactive,
            };
        }
        HintContext::Inactive
    }

    fn compute_date_value_hints(typed: &Vec<char>) -> (r: Self)
        ensures
            r@ == date_value_hints(typed@),
    {
        let matches = offer_date_values(DateScope::Filter, typed);
        assert(date_value_views(matches@).len() == matches.len());
        if typed.len() > 0 && (matches.len() == 0 || literal_in_full(typed, &matches)) {
            return HintContext::Inactive;
        }
        HintContext::DateValues { prefix: string_of(typed), scope: DateScope::Filter, matches }
    }

    fn suffix_after(s: &str, prefix_len: usize) -> (r: String)
        ensures
            r@ == suffix_after(s@, prefix_len as int),
    {
        let chars = chars_of(s);
        string_of(&tail_from(&chars, prefix_len))
    }

    /// What accepting the first hint adds to the input.
    pub fn first_completion(&self) -> (r: Option<String>)
        ensures
            r is Some <==> first_completion_of(self@) is Some,
            r is Some ==> r->0@ == first_completion_of(self@)->0,
        decreases self,
    {
        match self {
            HintContext::Inactive => None,
            HintContext::GuidanceMessage { .. } => None,
            HintContext::Tags { prefix, matches } => {
                if matches.len() == 0 {
                    return None;
                }
                assert(string_views(matches@)[0] == matches@[0]@);
                let typed = chars_of(prefix.as_str()).len();
                Some(Self::suffix_after(matches[0].as_str(), typed))
            },
            HintContext::Commands { prefix, matches } => {
                if matches.len() == 0 {
                    return None;
                }
                assert(command_views(matches@)[0] == matches@[0]@);
                let typed = chars_of(prefix.as_str()).len();
                Some(Self::suffix_after(matches[0].name, typed))
            },
            HintContext::FilterTypes { prefix, matches } => {
                if matches.len() == 0 {
                    return None;
                }
                assert(syntax_views(matches@)[0] == matches@[0]@);
                let chars = chars_of(matches[0].syntax);
                let typed = chars_of(prefix.as_str()).len();
                if typed < chars.len() {
                    Some(string_of(&tail_from(&chars, typed + 1)))
                } else {
                    Some(String::new())
                }
            },
            HintContext::DateOps { prefix, matches } => {
                if matches.len() == 0 {
                    return None;
                }
                assert(syntax_views(matches@)[0] == matches@[0]@);
                let chars = chars_of(matches[0].syntax);
                let typed = chars_of(prefix.as_str()).len();
                if typed < chars.len() {
                    Some(string_of(&tail_from(&chars, typed + 1)))
                } else {
                    Some(String::new())
                }
            },
            HintContext::DateValues { prefix, matches, .. } => {
                if matches.len() == 0 {
                    return None;
                }
                assert(date_value_views(matches@)[0] == matches@[0]@);
                compute_date_completion(prefix.as_str(), &matches[0])
            },
            HintContext::SavedFilters { prefix, matches } => {
                if matches.len() == 0 {
                    return None;
                }
                assert(string_views(matches@)[0] == matches@[0]@);
                let typed = chars_of(prefix.as_str()).len();
                Some(Self::suffix_after(matches[0].as_str(), typed))
            },
            HintContext::Negation { inner } => inner.first_completion(),
        }
    }

    /// Whether there is anything to show.
    pub fn is_active(&self) -> (r: bool)
        ensures
            r == !(self@ is Inactive),
    {
        match self {
            HintContext::Inactive => false,
            _ => true,
        }
    }

    /// The description to show with the hints.
    pub fn description(&self) -> (r: Option<&str>)
        ensures
            r is Some <==> description_of(self@) is Some,
            r is Some ==> r->0@ == description_of(self@)->0,
    {
        let shown: &HintContext = match self {
            HintContext::Negation { inner } => &**inner,
            other => other,
        };
        assert(shown@ == effective(self@));
        match shown {
            HintContext::Commands { prefix, matches } => {
                if prefix.as_str().is_empty() || matches.len() == 0 {
                    return None;
                }
                assert(command_views(matches@)[0] == matches@[0]@);
                Some(matches[0].completion_hint)
            },
            HintContext::FilterTypes { prefix, matches } => {
                if prefix.as_str().is_empty() || matches.len() == 0 {
                    return None;
                }
                assert(syntax_views(matches@)[0] == matches@[0]@);
                Some(matches[0].completion_hint)
            },
            HintContext::DateOps { prefix, matches } => {
                if prefix.as_str().is_empty() || matches.len() == 0 {
                    return None;
                }
                assert(syntax_views(matches@)[0] == matches@[0]@);
                Some(matches[0].completion_hint)
            },
            HintContext::DateValues { prefix, scope, matches } => {
                if !prefix.as_str().is_empty() {
                    if matches.len() == 0 {
                        return None;
                    }
                    assert(date_value_views(matches@)[0] == matches@[0]@);
                    return Some(matches[0].completion_hint);
                }
                match scope {
                    DateScope::Filter => Some("Dates default to past. Append + for future."),
                    DateScope::Entry => None,
                }
            },
            _ => None,
        }
    }

    /// The lines that show the hints.
    pub fn display_items(&self, negation_prefix: &str) -> (items: Vec<String>)
        ensures
            string_views(items@) == display_of(self@, negation_prefix@),
    {
        let shown: &HintContext = match self {
            HintContext::Negation { inner } => &**inner,
            other => other,
        };
        assert(shown@ == effective(self@));
        let lead = chars_of(negation_prefix);
        let nothing: Vec<char> = Vec::new();
        let mut items: Vec<String> = Vec::new();
        let ghost want = display_of(self@, negation_prefix@);
        match shown {
            HintContext::Tags { matches, .. } => {
                let mut i: usize = 0;
                while i < matches.len()
                    invariant
                        i <= matches.len(),
                        lead@ == negation_prefix@,
                        items@.len() == i,
                        forall|j: int|
                            0 <= j < i ==> (#[trigger] items@[j])@ == negation_prefix@ + seq!['#']
                                + matches@[j]@,
                    decreases matches.len() - i,
                {
                    items.push(item_line(&lead, Some('#'), matches[i].as_str()));
                    i += 1;
                }
                assert(string_views(items@) =~= want);
            },
            HintContext::Commands { matches, .. } => {
                let mut i: usize = 0;
                while i < matches.len()
                    invariant
                        i <= matches.len(),
                        nothing@.len() == 0,
                        items@.len() == i,
                        forall|j: int|
                            0 <= j < i ==> (#[trigger] items@[j])@ == seq![':'] + matches@[j]@.name,
                    decreases matches.len() - i,
                {
                    let line = item_line(&nothing, Some(':'), matches[i].name);
                    assert(nothing@ + seq![':'] + matches@[i as int]@.name =~= seq![':']
                        + matches@[i as int]@.name);
                    items.push(line);
                    i += 1;
                }
                assert(string_views(items@) =~= want);
            },
            HintContext::FilterTypes { matches, .. } => {
                let mut i: usize = 0;
                while i < matches.len()
                    invariant
                        i <= matches.len(),
                        lead@ == negation_prefix@,
                        items@.len() == i,
                        forall|j: int|
                            0 <= j < i ==> (#[trigger] items@[j])@ == negation_prefix@
                                + matches@[j]@.syntax,
                    decreases matches.len() - i,
                {
                    items.push(item_line(&lead, None, matches[i].syntax));
                    i += 1;
                }
                assert(string_views(items@) =~= want);
            },
            HintContext::DateOps { matches, .. } => {
                let mut i: usize = 0;
                while i < matches.len()
                    invariant
                        i <= matches.len(),
                        lead@ == negation_prefix@,
                        items@.len() == i,
                        forall|j: int|
                            0 <= j < i ==> (#[trigger] items@[j])@ == negation_prefix@
                                + matches@[j]@.syntax,
                    decreases matches.len() - i,
                {
                    items.push(item_line(&lead, None, matches[i].syntax));
                    i += 1;
                }
                assert(string_views(items@) =~= want);
            },
            HintContext::DateValues { matches, scope, .. } => {
                let ghost all = Seq::new(
                    matches@.len(),
                    |i: int| date_item(date_value_views(matches@)[i], *scope),
                );
                let mut seen: Vec<Vec<char>> = Vec::new();
                let mut i: usize = 0;
                proof {
                    assert(all.take(0) =~= Seq::<Seq<char>>::empty());
                    assert(string_views(items@) =~= Seq::<Seq<char>>::empty());
                    assert(texts(seen@) =~= all.take(0));
                }
                while i < matches.len()
                    invariant
                        i <= matches.len(),
                        all == Seq::new(
                            matches@.len(),
                            |i: int| date_item(date_value_views(matches@)[i], *scope),
                        ),
                        texts(seen@) == all.take(i as int),
                        string_views(items@) == distinct(all.take(i as int)),
                    decreases matches.len() - i,
                {
                    let ghost before = string_views(items@);
                    let display = chars_of(matches[i].display);
                    let mut item: Vec<char> = Vec::new();
                    let plain = match scope {
                        DateScope::Filter => true,
                        DateScope::Entry => display.len() > 0 && display[0] == '@',
                    };
                    if !plain {
                        item.push('@');
                    }
                    append_chars(&mut item, &display);
                    proof {
                        assert(date_value_views(matches@)[i as int] == matches@[i as int]@);
                        assert(item@ =~= all[i as int]);
                        assert(all.take(i + 1).drop_last() =~= all.take(i as int));
                        assert(all.take(i + 1).last() == all[i as int]);
                    }
                    if !seen_before(&seen, &item) {
                        items.push(string_of(&item));
                        assert(string_views(items@) =~= before.push(item@));
                    }
                    let ghost old_seen = texts(seen@);
                    seen.push(item);
                    assert(texts(seen@) =~= old_seen.push(all[i as int]));
                    assert(texts(seen@) =~= all.take(i + 1));
                    i += 1;
                }
                assert(all.take(matches.len() as int) =~= all);
                assert(all =~= Seq::new(
                    date_value_views(matches@).len(),
                    |i: int| date_item(date_value_views(matches@)[i], *scope),
                ));
            },
            HintContext::SavedFilters { matches, .. } => {
                let mut i: usize = 0;
                while i < matches.len()
                    invariant
                        i <= matches.len(),
                        lead@ == negation_prefix@,
                        items@.len() == i,
                        forall|j: int|
                            0 <= j < i ==> (#[trigger] items@[j])@ == negation_prefix@ + seq!['$']
                                + matches@[j]@,
                    decreases matches.len() - i,
                {
                    items.push(item_line(&lead, Some('$'), matches[i].as_str()));
                    i += 1;
                }
                assert(string_views(items@) =~= want);
            },
            _ => {
                assert(string_views(items@) =~= want);
            },
        }
        items
    }
}

/// Copies a list of strings.
fn clone_strings(list: &Vec<String>) -> (r: Vec<String>)
    ensures
        string_views(r@) == string_views(list@),
{
    let mut r: Vec<String> = Vec::new();
    let mut i: usize = 0;
    while i < list.len()
        invariant
            i <= list.len(),
            r@.len() == i,
            forall|j: int| 0 <= j < i ==> (#[trigger] r@[j])@ == list@[j]@,
        decreases list.len() - i,
    {
        r.push(list[i].clone());
        i += 1;
    }
    assert(string_views(r@) =~= string_views(list@));
    r
}

/// Copies a list of commands.
fn clone_commands(list: &Vec<Command>) -> (r: Vec<Command>)
    ensures
        r@ == list@,
{
    let mut r: Vec<Command> = Vec::new();
    let mut i: usize = 0;
    while i < list.len()
        invariant
            i <= list.len(),
            r@ == list@.take(i as int),
        decreases list.len() - i,
    {
        r.push(list[i]);
        i += 1;
        assert(list@.take(i as int) =~= list@.take(i - 1).push(list@[i - 1]));
    }
    assert(list@.take(list.len() as int) =~= list@);
    r
}

/// Copies a list of filter syntax.
fn clone_syntax(list: &Vec<FilterSyntax>) -> (r: Vec<FilterSyntax>)
    ensures
        r@ == list@,
{
    let mut r: Vec<FilterSyntax> = Vec::new();
    let mut i: usize = 0;
    while i < list.len()
        invariant
            i <= list.len(),
            r@ == list@.take(i as int),
        decreases list.len() - i,
    {
        r.push(list[i]);
        i += 1;
        assert(list@.take(i as int) =~= list@.take(i - 1).push(list@[i - 1]));
    }
    assert(list@.take(list.len() as int) =~= list@);
    r
}

/// Copies a list of date values.
fn clone_date_values(list: &Vec<DateValue>) -> (r: Vec<DateValue>)
    ensures
        r@ == list@,
{
    let mut r: Vec<DateValue> = Vec::new();
    let mut i: usize = 0;
    while i < list.len()
        invariant
            i <= list.len(),
            r@ == list@.take(i as int),
        decreases list.len() - i,
    {
        r.push(list[i]);
        i += 1;
        assert(list@.take(i as int) =~= list@.take(i - 1).push(list@[i - 1]));
    }
    assert(list@.take(list.len() as int) =~= list@);
    r
}

impl Clone for HintContext {
    fn clone(&self) -> (r: Self)
        ensures
            r@ == self@,
        decreases self,
    {
        match self {
            HintContext::Inactive => HintContext::Inactive,
            HintContext::GuidanceMessage { message } => HintContext::GuidanceMessage {
                message: *message,
            },
            HintContext::Tags { prefix, matches } => HintContext::Tags {
                prefix: prefix.clone(),
                matches: clone_strings(matches),
            },
            HintContext::Commands { prefix, matches } => HintContext::Commands {
                prefix: prefix.clone(),
                matches: clone_commands(matches),
            },
            HintContext::FilterTypes { prefix, matches } => HintContext::FilterTypes {
                prefix: prefix.clone(),
                matches: clone_syntax(matches),
            },
            HintContext::DateOps { prefix, matches } => HintContext::DateOps {
                prefix: prefix.clone(),
                matches: clone_syntax(matches),
            },
            HintContext::DateValues { prefix, scope, matches } => HintContext::DateValues {
                prefix: prefix.clone(),
                scope: *scope,
                matches: clone_date_values(matches),
            },
            HintContext::SavedFilters { prefix, matches } => HintContext::SavedFilters {
                prefix: prefix.clone(),
                matches: clone_strings(matches),
            },
            HintContext::Negation { inner } => {
                let copy = (**inner).clone();
                HintContext::Negation { inner: Box::new(copy) }
            },
        }
    }
}

/// The input asks for more before anything else can follow: it ends in the
/// colon of an operator that takes a value.
pub open spec fn needs_continuation(input: Seq<char>) -> bool {
    input.len() > 0 && input.last() == ':'
}

/// The input after the first hint was accepted: the completion is added, and
/// then a space, unless the input now asks for a value.
pub open spec fn accepted(input: Seq<char>, completion: Option<Seq<char>>) -> Seq<char> {
    let text = match completion {
        Some(rest) => input + rest,
        None => input,
    };
    if needs_continuation(text) {
        text
    } else {
        text.push(' ')
    }
}

/// Decides [`needs_continuation`].
pub fn input_needs_continuation(input: &str) -> (r: bool)
    ensures
        r == needs_continuation(input@),
{
    let chars = chars_of(input);
    chars.len() > 0 && chars[chars.len() - 1] == ':'
}

/// The input after the first hint of `hint` was accepted: computes
/// [`accepted`] of [`first_completion_of`].
pub fn accept_hint(input: &str, hint: &HintContext) -> (r: String)
    ensures
        r@ == accepted(input@, first_completion_of(hint@)),
{
    let mut text = chars_of(input);
    match hint.first_completion() {
        Some(rest) => {
            let tail = chars_of(rest.as_str());
            append_chars(&mut text, &tail);
        },
        None => {},
    }
    if !(text.len() > 0 && text[text.len() - 1] == ':') {
        text.push(' ');
    }
    string_of(&text)
}

} // verus!
