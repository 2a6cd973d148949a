//! Which entries a filter admits, and the laws of narrowing and negation.

use crate::date::Date;
use crate::dateexpr::resolve;
use crate::dateexpr::resolve_date_expr;
use crate::dateexpr::ParseContext;
use crate::dayfile::collect_entries;
use crate::dayfile::day_views;
use crate::dayfile::days_valid;
use crate::dayfile::selected;
use crate::dayfile::DayFile;
use crate::dayfile::EntryPredicate;
use crate::entries::cross_day_views;
use crate::entries::Entry;
use crate::entries::EntryType;
use crate::entries::EntryView;
use crate::entries::FilterEntry;
use crate::filter::string_views;
use crate::filter::FilterSpec;
use crate::filter::FilterSpecView;
use crate::filter::Token;
use crate::filter::TypeFilter;
use crate::filter::classify;
use crate::later::entry_date;
use crate::later::entry_date_expr;
use crate::tags::content_has_tag;
use crate::tags::has_tag;
use crate::text::chars_of;
use crate::text::contains;
use crate::text::contains_text;
use crate::text::lower;
use crate::text::lowercase;
use vstd::prelude::*;

verus! {

/// The text `content` holds the word `term`; letter case is ignored.
pub open spec fn mentions(content: Seq<char>, term: Seq<char>) -> bool {
    contains_text(lower(content), lower(term))
}

/// The entry carries a date that, seen from `today` as a filter sees dates,
/// lies before `today`.
pub open spec fn is_overdue(content: Seq<char>, today: Date) -> bool {
    match entry_date(content) {
        Some(expr) => match resolve(expr, ParseContext::Filter, today) {
            Some(due) => due.precedes(today),
            None => false,
        },
        None => false,
    }
}

/// The content carries every tag of `tags`.
pub open spec fn has_all_tags(content: Seq<char>, tags: Seq<Seq<char>>) -> bool {
    forall|k: int| 0 <= k < tags.len() ==> has_tag(content, #[trigger] tags[k])
}

/// The content carries no tag of `tags`.
pub open spec fn has_no_tag(content: Seq<char>, tags: Seq<Seq<char>>) -> bool {
    forall|k: int| 0 <= k < tags.len() ==> !has_tag(content, #[trigger] tags[k])
}

/// No filter of `types` admits the type `t`.
pub open spec fn admitted_by_none(t: EntryType, types: Seq<TypeFilter>) -> bool {
    forall|k: int| 0 <= k < types.len() ==> !(#[trigger] types[k]).admits(t)
}

/// The content holds at least one word of `terms`.
pub open spec fn mentions_any(content: Seq<char>, terms: Seq<Seq<char>>) -> bool {
    exists|k: int| 0 <= k < terms.len() && mentions(content, #[trigger] terms[k])
}

/// The content holds no word of `terms`.
pub open spec fn mentions_none(content: Seq<char>, terms: Seq<Seq<char>>) -> bool {
    forall|k: int| 0 <= k < terms.len() ==> !mentions(content, #[trigger] terms[k])
}

/// The filter admits the entry `e`, stored under the day `day`, on the day
/// `today`: every kind of condition that the filter holds is met.  Of the
/// words to search for one is enough; of every other kind all must be met.
pub open spec fn matches(spec: FilterSpecView, day: Date, e: EntryView, today: Date) -> bool {
    &&& spec.entry_type is Some ==> spec.entry_type->0.admits(e.entry_type)
    &&& has_all_tags(e.content, spec.tags)
    &&& has_no_tag(e.content, spec.exclude_tags)
    &&& admitted_by_none(e.entry_type, spec.exclude_types)
    &&& spec.search_terms.len() > 0 ==> mentions_any(e.content, spec.search_terms)
    &&& mentions_none(e.content, spec.exclude_terms)
    &&& spec.before is Some ==> !spec.before->0.precedes(day)
    &&& spec.after is Some ==> !day.precedes(spec.after->0)
    &&& spec.overdue ==> is_overdue(e.content, today)
}

/// Decides [`is_overdue`].
pub fn overdue(content: &Vec<char>, today: &Date) -> (r: bool)
    requires
        today.valid(),
    ensures
        r == is_overdue(content@, *today),
{
    match entry_date_expr(content) {
        Some(expr) => match resolve_date_expr(&expr, ParseContext::Filter, today) {
            Some(due) => due.is_before(today),
            None => false,
        },
        None => false,
    }
}

/// Whether `content` carries each tag of `tags` (`want` true), or none of them
/// (`want` false).
fn tags_all(content: &Vec<char>, tags: &Vec<String>, want: bool) -> (r: bool)
    ensures
        want ==> r == has_all_tags(content@, string_views(tags@)),
        !want ==> r == has_no_tag(content@, string_views(tags@)),
{
    let mut k: usize = 0;
    while k < tags.len()
        invariant
            k <= tags.len(),
            forall|j: int|
                0 <= j < k ==> has_tag(content@, #[trigger] string_views(tags@)[j]) == want,
        decreases tags.len() - k,
    {
        let tag = chars_of(tags[k].as_str());
        assert(string_views(tags@)[k as int] == tags@[k as int]@);
        if content_has_tag(content, &tag) != want {
            return false;
        }
        k += 1;
    }
    true
}

/// Whether `lowered`, the lowercase form of `content`, holds one of `terms`.
fn mentions_one(lowered: &Vec<char>, content: Ghost<Seq<char>>, terms: &Vec<String>) -> (r: bool)
    requires
        lowered@ == lower(content@),
    ensures
        r == mentions_any(content@, string_views(terms@)),
{
    let mut k: usize = 0;
    while k < terms.len()
        invariant
            k <= terms.len(),
            lowered@ == lower(content@),
            forall|j: int| 0 <= j < k ==> !mentions(content@, #[trigger] string_views(terms@)[j]),
        decreases terms.len() - k,
    {
        let term = chars_of(terms[k].as_str());
        let term = lowercase(&term);
        assert(string_views(terms@)[k as int] == terms@[k as int]@);
        if contains(lowered, &term) {
            return true;
        }
        k += 1;
    }
    false
}

/// Decides [`admitted_by_none`].
fn no_type_admits(t: EntryType, types: &Vec<TypeFilter>) -> (r: bool)
    ensures
        r == admitted_by_none(t, types@),
{
    let mut k: usize = 0;
    while k < types.len()
        invariant
            k <= types.len(),
            forall|j: int| 0 <= j < k ==> !(#[trigger] types@[j]).admits(t),
        decreases types.len() - k,
    {
        if types[k].accepts(t) {
            return false;
        }
        k += 1;
    }
    true
}

/// Decides [`matches`].
pub fn entry_matches(spec: &FilterSpec, day: &Date, e: &Entry, today: &Date) -> (r: bool)
    requires
        today.valid(),
    ensures
        r == matches(spec@, *day, e@, *today),
{
    match spec.entry_type {
        Some(t) => if !t.accepts(e.entry_type) {
            return false;
        },
        None => {},
    }
    if !no_type_admits(e.entry_type, &spec.exclude_types) {
        return false;
    }
    match spec.before {
        Some(last) => if last.is_before(day) {
            return false;
        },
        None => {},
    }
    match spec.after {
        Some(first) => if day.is_before(&first) {
            return false;
        },
        None => {},
    }
    let content = chars_of(e.content.as_str());
    if !tags_all(&content, &spec.tags, true) {
        return false;
    }
    if !tags_all(&content, &spec.exclude_tags, false) {
        return false;
    }
    if spec.overdue && !overdue(&content, today) {
        return false;
    }
    if spec.search_terms.len() > 0 || spec.exclude_terms.len() > 0 {
        let lowered = lowercase(&content);
        if spec.search_terms.len() > 0 && !mentions_one(
            &lowered,
            Ghost(content@),
            &spec.search_terms,
        ) {
            return false;
        }
        if mentions_one(&lowered, Ghost(content@), &spec.exclude_terms) {
            return false;
        }
    }
    true
}

/// A filter together with the day on which it is asked.
pub struct FilterQuery<'a> {
    pub spec: &'a FilterSpec,
    pub today: Date,
}

impl<'a> EntryPredicate for FilterQuery<'a> {
    open spec fn ready(&self) -> bool {
        self.today.valid()
    }

    open spec fn holds(&self, date: Date, e: EntryView) -> bool {
        matches(self.spec@, date, e, self.today)
    }

    fn test(&self, date: &Date, e: &Entry) -> (r: bool) {
        entry_matches(self.spec, date, e, &self.today)
    }
}

/// The entries of the journal that the filter admits: by source date
/// ascending, and within a day in document order.  A filter without
/// conditions admits every entry.
pub fn collect_filtered_entries(spec: &FilterSpec, days: &Vec<DayFile>, today: Date) -> (out: Vec<
    FilterEntry,
>)
    requires
        days_valid(day_views(days@)),
        today.valid(),
    ensures
        cross_day_views(out@) == selected(day_views(days@), FilterQuery { spec, today }),
{
    let query = FilterQuery { spec, today };
    collect_entries(days, &query)
}

// ---------------------------------------------------------------------------
// Laws
// ---------------------------------------------------------------------------

/// Every element of `small` is an element of `large`.
pub open spec fn included<T>(small: Seq<T>, large: Seq<T>) -> bool {
    forall|k: int| 0 <= k < small.len() ==> large.contains(#[trigger] small[k])
}

/// The filter `b` holds every condition that the filter `a` holds, and
/// possibly more.  For the words to search for, of which one is enough, more
/// conditions means fewer words to choose from.
pub open spec fn narrows(b: FilterSpecView, a: FilterSpecView) -> bool {
    &&& a.entry_type is Some ==> b.entry_type == a.entry_type
    &&& included(a.tags, b.tags)
    &&& included(a.exclude_tags, b.exclude_tags)
    &&& included(a.exclude_types, b.exclude_types)
    &&& a.search_terms.len() > 0 ==> b.search_terms.len() > 0 && included(
        b.search_terms,
        a.search_terms,
    )
    &&& included(a.exclude_terms, b.exclude_terms)
    &&& a.before is Some ==> b.before is Some && !a.before->0.precedes(b.before->0)
    &&& a.after is Some ==> b.after is Some && !b.after->0.precedes(a.after->0)
    &&& a.overdue ==> b.overdue
}

/// Filter conjunction: a filter with more conditions admits no entry that the
/// filter with fewer conditions refuses.
pub proof fn lemma_more_conditions_admit_less(
    a: FilterSpecView,
    b: FilterSpecView,
    day: Date,
    e: EntryView,
    today: Date,
)
    requires
        narrows(b, a),
        matches(b, day, e, today),
    ensures
        matches(a, day, e, today),
{
    assert forall|k: int| 0 <= k < a.tags.len() implies has_tag(e.content, #[trigger] a.tags[k]) by {
        assert(b.tags.contains(a.tags[k]));
        let j = choose|j: int| 0 <= j < b.tags.len() && b.tags[j] == a.tags[k];
        assert(has_tag(e.content, b.tags[j]));
    }
    assert forall|k: int| 0 <= k < a.exclude_tags.len() implies !has_tag(
        e.content,
        #[trigger] a.exclude_tags[k],
    ) by {
        assert(b.exclude_tags.contains(a.exclude_tags[k]));
        let j = choose|j: int| 0 <= j < b.exclude_tags.len() && b.exclude_tags[j] == a.exclude_tags[k];
        assert(!has_tag(e.content, b.exclude_tags[j]));
    }
    assert forall|k: int| 0 <= k < a.exclude_types.len() implies !(#[trigger] a.exclude_types[k]).admits(
        e.entry_type,
    ) by {
        assert(b.exclude_types.contains(a.exclude_types[k]));
        let j = choose|j: int|
            0 <= j < b.exclude_types.len() && b.exclude_types[j] == a.exclude_types[k];
        assert(!b.exclude_types[j].admits(e.entry_type));
    }
    assert forall|k: int| 0 <= k < a.exclude_terms.len() implies !mentions(
        e.content,
        #[trigger] a.exclude_terms[k],
    ) by {
        assert(b.exclude_terms.contains(a.exclude_terms[k]));
        let j = choose|j: int|
            0 <= j < b.exclude_terms.len() && b.exclude_terms[j] == a.exclude_terms[k];
        assert(!mentions(e.content, b.exclude_terms[j]));
    }
    if a.search_terms.len() > 0 {
        let j = choose|j: int|
            0 <= j < b.search_terms.len() && mentions(e.content, #[trigger] b.search_terms[j]);
        assert(a.search_terms.contains(b.search_terms[j]));
        let k = choose|k: int| 0 <= k < a.search_terms.len() && a.search_terms[k] == b.search_terms[j];
        assert(mentions(e.content, a.search_terms[k]));
    }
    if a.before is Some {
        crate::date::lemma_precedes_total(a.before->0, b.before->0);
        if a.before->0.precedes(day) {
            if b.before->0 != a.before->0 {
                crate::date::lemma_precedes_transitive(b.before->0, a.before->0, day);
            }
        }
    }
    if a.after is Some {
        crate::date::lemma_precedes_total(a.after->0, b.after->0);
        if day.precedes(a.after->0) {
            if b.after->0 != a.after->0 {
                crate::date::lemma_precedes_transitive(day, a.after->0, b.after->0);
            }
        }
    }
}

/// One more word in a query adds a condition to the filter, and never takes
/// one away, unless the word replaces a condition of which a filter holds
/// only one (a type, a date bound) or is one more word to search for.
pub open spec fn word_adds_condition(spec: FilterSpecView, word: Seq<char>, today: Date) -> bool {
    match classify(word, today) {
        Token::Type(_) => spec.entry_type is None,
        Token::Text(_) => spec.search_terms.len() == 0,
        Token::Before(_) => spec.before is None,
        Token::After(_) => spec.after is None,
        _ => true,
    }
}

/// Monotonic narrowing of queries: a query with one more word admits no entry
/// that the query without it refuses, provided that the word adds a condition.
pub proof fn lemma_word_narrows(
    spec: FilterSpecView,
    word: Seq<char>,
    day: Date,
    e: EntryView,
    today: Date,
)
    requires
        word_adds_condition(spec, word, today),
        matches(spec.with_word(word, today), day, e, today),
    ensures
        matches(spec, day, e, today),
{
    let more = spec.with_word(word, today);
    lemma_push_includes(spec.tags, more.tags);
    lemma_push_includes(spec.exclude_tags, more.exclude_tags);
    lemma_push_includes(spec.exclude_types, more.exclude_types);
    lemma_push_includes(spec.exclude_terms, more.exclude_terms);
    if spec.search_terms.len() > 0 {
        lemma_push_includes(more.search_terms, spec.search_terms);
    }
    if spec.before is Some {
        crate::date::lemma_precedes_total(spec.before->0, more.before->0);
    }
    if spec.after is Some {
        crate::date::lemma_precedes_total(spec.after->0, more.after->0);
    }
    lemma_more_conditions_admit_less(spec, more, day, e, today);
}

/// A sequence is included in itself and in itself with one more element.
pub proof fn lemma_push_includes<T>(small: Seq<T>, large: Seq<T>)
    requires
        large == small || exists|x: T| large == small.push(x),
    ensures
        included(small, large),
{
    assert forall|k: int| 0 <= k < small.len() implies large.contains(#[trigger] small[k]) by {
        assert(large[k] == small[k]);
    }
}

/// The filter that asks for the tag `tag` and nothing else.
pub open spec fn with_tag(tag: Seq<char>) -> FilterSpecView {
    FilterSpecView { tags: seq![tag], ..FilterSpecView::empty() }
}

/// The filter that excludes the tag `tag` and nothing else.
pub open spec fn without_tag(tag: Seq<char>) -> FilterSpecView {
    FilterSpecView { exclude_tags: seq![tag], ..FilterSpecView::empty() }
}

/// Negation complement: of the filter that asks for a tag and the filter that
/// excludes it, every entry is admitted by exactly one.
pub proof fn lemma_negation_complement(tag: Seq<char>, day: Date, e: EntryView, today: Date)
    ensures
        matches(with_tag(tag), day, e, today) != matches(without_tag(tag), day, e, today),
        matches(with_tag(tag), day, e, today) == has_tag(e.content, tag),
{
    let pos = with_tag(tag);
    let neg = without_tag(tag);
    assert(pos.tags[0] == tag);
    assert(neg.exclude_tags[0] == tag);
    if has_tag(e.content, tag) {
        assert(has_all_tags(e.content, pos.tags));
        assert(!has_no_tag(e.content, neg.exclude_tags));
    } else {
        assert(has_no_tag(e.content, neg.exclude_tags));
        assert(!has_all_tags(e.content, pos.tags));
    }
}

/// A filter without conditions admits every entry.
pub proof fn lemma_empty_filter_admits_all(day: Date, e: EntryView, today: Date)
    ensures
        matches(FilterSpecView::empty(), day, e, today),
{
}

} // verus!
