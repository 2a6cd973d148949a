//! The filter query language: reading a query into a [`FilterSpec`], and
//! deciding which entries a [`FilterSpec`] admits.
//!
//! A query is a list of words.  `!name` asks for a type of entry, `#tag` for
//! a tag, `@before:`, `@after:` and `@overdue` for dates, `$name` stands for
//! a saved query, `not:` in front of a type, a tag or a word excludes it, and
//! any other word must occur in the entry's text.

use crate::date::Date;
use crate::dateexpr::parse_date_chars;
use crate::dateexpr::parse_date_spec;
use crate::dateexpr::is_word;
use crate::dateexpr::ParseContext;
use crate::entries::EntryType;
use crate::tags::is_tag_char;
use crate::tags::is_valid_tag_name;
use crate::tags::tag_char;
use crate::text::chars_of;
use crate::text::copy_range;
use crate::text::is_ascii_letter;
use crate::text::same_text;
use crate::text::split_words;
use crate::text::starts_with;
use crate::text::texts;
use crate::text::words;
use vstd::prelude::*;

verus! {

/// The types of entry that a query can ask for.
#[derive(Clone, Copy, Debug, PartialEq, Eq, Structural)]
pub enum TypeFilter {
    /// Tasks that are not completed.
    OpenTasks,
    /// Tasks that are completed.
    DoneTasks,
    /// Tasks, completed or not.
    AllTasks,
    Notes,
    Events,
}

impl TypeFilter {
    /// An entry of type `t` is of the kind this filter asks for.
    pub open spec fn admits(self, t: EntryType) -> bool {
        match self {
            TypeFilter::OpenTasks => t == (EntryType::Task { completed: false }),
            TypeFilter::DoneTasks => t == (EntryType::Task { completed: true }),
            TypeFilter::AllTasks => t is Task,
            TypeFilter::Notes => t is Note,
            TypeFilter::Events => t is Event,
        }
    }

    /// Decides [`TypeFilter::admits`].
    pub fn accepts(&self, t: EntryType) -> (r: bool)
        ensures
            r == self.admits(t),
    {
        match (self, t) {
            (TypeFilter::OpenTasks, EntryType::Task { completed }) => !completed,
            (TypeFilter::DoneTasks, EntryType::Task { completed }) => completed,
            (TypeFilter::AllTasks, EntryType::Task { .. }) => true,
            (TypeFilter::Notes, EntryType::Note) => true,
            (TypeFilter::Events, EntryType::Event) => true,
            _ => false,
        }
    }
}

/// The type filter that the word after `!` names.
pub open spec fn type_filter_named(name: Seq<char>) -> Option<TypeFilter> {
    if name == "t"@ || name == "tasks"@ {
        Some(TypeFilter::OpenTasks)
    } else if name == "tasks/done"@ || name == "completed"@ {
        Some(TypeFilter::DoneTasks)
    } else if name == "tasks/all"@ {
        Some(TypeFilter::AllTasks)
    } else if name == "n"@ || name == "notes"@ {
        Some(TypeFilter::Notes)
    } else if name == "e"@ || name == "events"@ {
        Some(TypeFilter::Events)
    } else {
        None
    }
}

/// Computes [`type_filter_named`].
pub fn type_filter_by_name(name: &Vec<char>) -> (r: Option<TypeFilter>)
    ensures
        r == type_filter_named(name@),
{
    if is_word(name, "t") || is_word(name, "tasks") {
        Some(TypeFilter::OpenTasks)
    } else if is_word(name, "tasks/done") || is_word(name, "completed") {
        Some(TypeFilter::DoneTasks)
    } else if is_word(name, "tasks/all") {
        Some(TypeFilter::AllTasks)
    } else if is_word(name, "n") || is_word(name, "notes") {
        Some(TypeFilter::Notes)
    } else if is_word(name, "e") || is_word(name, "events") {
        Some(TypeFilter::Events)
    } else {
        None
    }
}

// ---------------------------------------------------------------------------
// Words of a query
// ---------------------------------------------------------------------------

/// What one word of a query asks for.
pub enum Token {
    Type(TypeFilter),
    Tag(Seq<char>),
    Text(Seq<char>),
    NotType(TypeFilter),
    NotTag(Seq<char>),
    NotText(Seq<char>),
    Before(Date),
    After(Date),
    Overdue,
    /// The word fits no shape of the language.
    Invalid,
}

/// What the word after `@` asks for.
pub open spec fn classify_date_op(op: Seq<char>, today: Date) -> Token {
    if op == "overdue"@ {
        Token::Overdue
    } else if "before:"@.is_prefix_of(op) {
        match parse_date_spec(op.skip(7), ParseContext::Filter, today) {
            Some(d) => Token::Before(d),
            None => Token::Invalid,
        }
    } else if "after:"@.is_prefix_of(op) {
        match parse_date_spec(op.skip(6), ParseContext::Filter, today) {
            Some(d) => Token::After(d),
            None => Token::Invalid,
        }
    } else {
        Token::Invalid
    }
}

/// What the word after `not:` excludes.
pub open spec fn classify_negated(rest: Seq<char>) -> Token {
    if rest.len() == 0 {
        Token::Invalid
    } else if rest[0] == '!' {
        match type_filter_named(rest.skip(1)) {
            Some(t) => Token::NotType(t),
            None => Token::Invalid,
        }
    } else if rest[0] == '#' {
        if is_valid_tag_name(rest.skip(1)) {
            Token::NotTag(rest.skip(1))
        } else {
            Token::Invalid
        }
    } else if rest[0] == '@' || rest[0] == '$' {
        Token::Invalid
    } else {
        Token::NotText(rest)
    }
}

/// What a word of a query asks for.  Dates are read as seen from `today`.
pub open spec fn classify(word: Seq<char>, today: Date) -> Token {
    if word.len() == 0 {
        Token::Invalid
    } else if "not:"@.is_prefix_of(word) {
        classify_negated(word.skip(4))
    } else if word[0] == '!' {
        match type_filter_named(word.skip(1)) {
            Some(t) => Token::Type(t),
            None => Token::Invalid,
        }
    } else if word[0] == '#' {
        if is_valid_tag_name(word.skip(1)) {
            Token::Tag(word.skip(1))
        } else {
            Token::Invalid
        }
    } else if word[0] == '@' {
        classify_date_op(word.skip(1), today)
    } else if word[0] == '$' {
        Token::Invalid
    } else {
        Token::Text(word)
    }
}

// ---------------------------------------------------------------------------
// The filter
// ---------------------------------------------------------------------------

/// A query, read: the conditions that an entry has to meet, and the words of
/// the query that could not be read.
#[derive(Debug, PartialEq)]
pub struct FilterSpec {
    /// The type of entry asked for.
    pub entry_type: Option<TypeFilter>,
    /// Tags that the entry must carry, all of them.
    pub tags: Vec<String>,
    /// Tags that the entry must not carry.
    pub exclude_tags: Vec<String>,
    /// Types that the entry must not be of.
    pub exclude_types: Vec<TypeFilter>,
    /// Words of which the entry's text must hold at least one.
    pub search_terms: Vec<String>,
    /// Words that the entry's text must not hold.
    pub exclude_terms: Vec<String>,
    /// The last day under which the entry may be stored.
    pub before: Option<Date>,
    /// The first day under which the entry may be stored.
    pub after: Option<Date>,
    /// The entry must carry a date that has gone by.
    pub overdue: bool,
    /// The words of the query that were not understood.
    pub invalid_tokens: Vec<String>,
}

/// What a [`FilterSpec`] holds, as mathematics.
pub struct FilterSpecView {
    pub entry_type: Option<TypeFilter>,
    pub tags: Seq<Seq<char>>,
    pub exclude_tags: Seq<Seq<char>>,
    pub exclude_types: Seq<TypeFilter>,
    pub search_terms: Seq<Seq<char>>,
    pub exclude_terms: Seq<Seq<char>>,
    pub before: Option<Date>,
    pub after: Option<Date>,
    pub overdue: bool,
    pub invalid_tokens: Seq<Seq<char>>,
}

/// The texts of a sequence of strings.
pub open spec fn string_views(strings: Seq<String>) -> Seq<Seq<char>> {
    Seq::new(strings.len(), |i: int| strings[i]@)
}

impl View for FilterSpec {
    type V = FilterSpecView;

    open spec fn view(&self) -> FilterSpecView {
        FilterSpecView {
            entry_type: self.entry_type,
            tags: string_views(self.tags@),
            exclude_tags: string_views(self.exclude_tags@),
            exclude_types: self.exclude_types@,
            search_terms: string_views(self.search_terms@),
            exclude_terms: string_views(self.exclude_terms@),
            before: self.before,
            after: self.after,
            overdue: self.overdue,
            invalid_tokens: string_views(self.invalid_tokens@),
        }
    }
}

impl FilterSpecView {
    /// The filter without conditions, which admits every entry.
    pub open spec fn empty() -> FilterSpecView {
        FilterSpecView {
            entry_type: None,
            tags: Seq::empty(),
            exclude_tags: Seq::empty(),
            exclude_types: Seq::empty(),
            search_terms: Seq::empty(),
            exclude_terms: Seq::empty(),
            before: None,
            after: None,
            overdue: false,
            invalid_tokens: Seq::empty(),
        }
    }

    /// The filter after one more word of the query was read.  A later type
    /// or date bound replaces an earlier one of its kind; everything else
    /// adds up.
    pub open spec fn with_word(self, word: Seq<char>, today: Date) -> FilterSpecView {
        match classify(word, today) {
            Token::Type(t) => FilterSpecView { entry_type: Some(t), ..self },
            Token::Tag(tag) => FilterSpecView { tags: self.tags.push(tag), ..self },
            Token::Text(term) => FilterSpecView {
                search_terms: self.search_terms.push(term),
                ..self
            },
            Token::NotType(t) => FilterSpecView {
                exclude_types: self.exclude_types.push(t),
                ..self
            },
            Token::NotTag(tag) => FilterSpecView {
                exclude_tags: self.exclude_tags.push(tag),
                ..self
            },
            Token::NotText(term) => FilterSpecView {
                exclude_terms: self.exclude_terms.push(term),
                ..self
            },
            Token::Before(d) => FilterSpecView { before: Some(d), ..self },
            Token::After(d) => FilterSpecView { after: Some(d), ..self },
            Token::Overdue => FilterSpecView { overdue: true, ..self },
            Token::Invalid => FilterSpecView {
                invalid_tokens: self.invalid_tokens.push(word),
                ..self
            },
        }
    }
}

/// A named query that `$name` stands for.
#[derive(Debug, PartialEq)]
pub struct SavedFilter {
    pub name: String,
    pub query: String,
}

/// What a [`SavedFilter`] holds, as mathematics.
pub struct SavedFilterView {
    pub name: Seq<char>,
    pub query: Seq<char>,
}

impl View for SavedFilter {
    type V = SavedFilterView;

    open spec fn view(&self) -> SavedFilterView {
        SavedFilterView { name: self.name@, query: self.query@ }
    }
}

/// The views of a table of saved filters.
pub open spec fn saved_views(table: Seq<SavedFilter>) -> Seq<SavedFilterView> {
    Seq::new(table.len(), |i: int| table[i]@)
}

/// The query saved under `name` in `table` from position `from` on: that of
/// the first filter of this name.
pub open spec fn lookup_from(table: Seq<SavedFilterView>, from: int, name: Seq<char>) -> Option<
    Seq<char>,
>
    decreases table.len() - from,
{
    if from < 0 || from >= table.len() {
        None
    } else if table[from].name == name {
        Some(table[from].query)
    } else {
        lookup_from(table, from + 1, name)
    }
}

/// The words that one word of a query stands for: those of the saved query
/// where the word is `$name` and `name` is known, else the word itself.
pub open spec fn expansion_of(word: Seq<char>, table: Seq<SavedFilterView>) -> Seq<Seq<char>> {
    if word.len() > 0 && word[0] == '$' {
        match lookup_from(table, 0, word.skip(1)) {
            Some(query) => words(query),
            None => seq![word],
        }
    } else {
        seq![word]
    }
}

/// The words of a query with each saved filter replaced by its words.  What a
/// saved filter stands for is not expanded again.
pub open spec fn expand_words(ws: Seq<Seq<char>>, table: Seq<SavedFilterView>) -> Seq<Seq<char>>
    decreases ws.len(),
{
    if ws.len() == 0 {
        Seq::<Seq<char>>::empty()
    } else {
        expand_words(ws.drop_last(), table) + expansion_of(ws.last(), table)
    }
}

/// The filter that a list of words asks for.
pub open spec fn read_words(ws: Seq<Seq<char>>, today: Date) -> FilterSpecView
    decreases ws.len(),
{
    if ws.len() == 0 {
        FilterSpecView::empty()
    } else {
        read_words(ws.drop_last(), today).with_word(ws.last(), today)
    }
}

/// The filter that a query asks for, with the saved filters of `table`, read
/// on the day `today`.
pub open spec fn parse_query(query: Seq<char>, table: Seq<SavedFilterView>, today: Date) -> FilterSpecView {
    read_words(expand_words(words(query), table), today)
}

/// The word after `@`, classified; `None` stands for a word that is not
/// understood.
enum DateOp {
    Before(Date),
    After(Date),
    Overdue,
}

/// Reads the word after `@`.
fn read_date_op(op: &Vec<char>, today: &Date) -> (r: Option<DateOp>)
    requires
        today.valid(),
    ensures
        match classify_date_op(op@, *today) {
            Token::Overdue => r == Some(DateOp::Overdue),
            Token::Before(d) => r == Some(DateOp::Before(d)),
            Token::After(d) => r == Some(DateOp::After(d)),
            _ => r is None,
        },
{
    if is_word(op, "overdue") {
        return Some(DateOp::Overdue);
    }
    let before = chars_of("before:");
    let after = chars_of("after:");
    proof {
        reveal_strlit("before:");
        reveal_strlit("after:");
    }
    if starts_with(op, &before) {
        let value = copy_range(op, 7, op.len());
        assert(value@ =~= op@.skip(7));
        match parse_date_chars(&value, ParseContext::Filter, today) {
            Some(d) => Some(DateOp::Before(d)),
            None => None,
        }
    } else if starts_with(op, &after) {
        let value = copy_range(op, 6, op.len());
        assert(value@ =~= op@.skip(6));
        match parse_date_chars(&value, ParseContext::Filter, today) {
            Some(d) => Some(DateOp::After(d)),
            None => None,
        }
    } else {
        None
    }
}

/// Decides [`is_valid_tag_name`].
pub fn valid_tag_name(name: &Vec<char>) -> (r: bool)
    ensures
        r == is_valid_tag_name(name@),
{
    if name.len() == 0 || !is_ascii_letter(name[0]) {
        return false;
    }
    let mut i: usize = 0;
    while i < name.len()
        invariant
            i <= name.len(),
            forall|j: int| 0 <= j < i ==> is_tag_char(#[trigger] name@[j]),
        decreases name.len() - i,
    {
        if !tag_char(name[i]) {
            return false;
        }
        i += 1;
    }
    true
}

impl FilterSpec {
    /// The filter without conditions.
    pub fn new() -> (r: FilterSpec)
        ensures
            r@ == FilterSpecView::empty(),
    {
        let r = FilterSpec {
            entry_type: None,
            tags: Vec::new(),
            exclude_tags: Vec::new(),
            exclude_types: Vec::new(),
            search_terms: Vec::new(),
            exclude_terms: Vec::new(),
            before: None,
            after: None,
            overdue: false,
            invalid_tokens: Vec::new(),
        };
        proof {
            assert(r@.tags =~= Seq::<Seq<char>>::empty());
            assert(r@.exclude_tags =~= Seq::<Seq<char>>::empty());
            assert(r@.search_terms =~= Seq::<Seq<char>>::empty());
            assert(r@.exclude_terms =~= Seq::<Seq<char>>::empty());
            assert(r@.invalid_tokens =~= Seq::<Seq<char>>::empty());
        }
        r
    }

    /// Whether the filter holds no condition, so that it admits every entry.
    pub fn is_empty(&self) -> (r: bool)
        ensures
            r == (self@ == FilterSpecView { invalid_tokens: self@.invalid_tokens, ..FilterSpecView::empty() }),
    {
        let r = self.entry_type.is_none() && self.tags.len() == 0 && self.exclude_tags.len() == 0
            && self.exclude_types.len() == 0 && self.search_terms.len() == 0
            && self.exclude_terms.len() == 0 && self.before.is_none() && self.after.is_none()
            && !self.overdue;
        proof {
            let e = FilterSpecView { invalid_tokens: self@.invalid_tokens, ..FilterSpecView::empty() };
            if r {
                assert(self@.tags =~= e.tags);
                assert(self@.exclude_tags =~= e.exclude_tags);
                assert(self@.exclude_types =~= e.exclude_types);
                assert(self@.search_terms =~= e.search_terms);
                assert(self@.exclude_terms =~= e.exclude_terms);
            } else {
                assert(self@.tags.len() == self.tags.len());
                assert(self@.exclude_tags.len() == self.exclude_tags.len());
                assert(self@.search_terms.len() == self.search_terms.len());
                assert(self@.exclude_terms.len() == self.exclude_terms.len());
            }
        }
        r
    }
}

/// Appends the text `chars[from..]` to a list of strings.
fn push_text(list: &mut Vec<String>, chars: &Vec<char>, from: usize)
    requires
        from <= chars.len(),
    ensures
        string_views(final(list)@) == string_views(old(list)@).push(chars@.skip(from as int)),
{
    let s = crate::text::string_of_range(chars, from, chars.len());
    list.push(s);
    assert(string_views(list@) =~= string_views(old(list)@).push(chars@.skip(from as int)));
}

/// Reads one more word of a query into `spec`.
pub fn read_word(spec: FilterSpec, word: &Vec<char>, today: &Date) -> (r: FilterSpec)
    requires
        today.valid(),
    ensures
        r@ == spec@.with_word(word@, *today),
{
    let mut spec = spec;
    let ghost before = spec@;
    let n = word.len();
    let not = chars_of("not:");
    proof {
        reveal_strlit("not:");
    }
    if n == 0 {
        push_text(&mut spec.invalid_tokens, word, 0);
        assert(word@.skip(0) =~= word@);
        return spec;
    }
    if starts_with(word, &not) {
        let rest = copy_range(word, 4, n);
        assert(rest@ =~= word@.skip(4));
        if rest.len() > 0 && rest[0] == '!' {
            let name = copy_range(&rest, 1, rest.len());
            assert(name@ =~= rest@.skip(1));
            match type_filter_by_name(&name) {
                Some(t) => {
                    spec.exclude_types.push(t);
                    return spec;
                },
                None => {},
            }
        } else if rest.len() > 0 && rest[0] == '#' {
            let name = copy_range(&rest, 1, rest.len());
            assert(name@ =~= rest@.skip(1));
            if valid_tag_name(&name) {
                push_text(&mut spec.exclude_tags, &rest, 1);
                return spec;
            }
        } else if rest.len() > 0 && rest[0] != '@' && rest[0] != '$' {
            push_text(&mut spec.exclude_terms, &rest, 0);
            assert(rest@.skip(0) =~= rest@);
            return spec;
        }
    } else if word[0] == '!' {
        let name = copy_range(word, 1, n);
        assert(name@ =~= word@.skip(1));
        match type_filter_by_name(&name) {
            Some(t) => {
                spec.entry_type = Some(t);
                return spec;
            },
            None => {},
        }
    } else if word[0] == '#' {
        let name = copy_range(word, 1, n);
        assert(name@ =~= word@.skip(1));
        if valid_tag_name(&name) {
            push_text(&mut spec.tags, word, 1);
            return spec;
        }
    } else if word[0] == '@' {
        let op = copy_range(word, 1, n);
        assert(op@ =~= word@.skip(1));
        match read_date_op(&op, today) {
            Some(DateOp::Before(d)) => {
                spec.before = Some(d);
                return spec;
            },
            Some(DateOp::After(d)) => {
                spec.after = Some(d);
                return spec;
            },
            Some(DateOp::Overdue) => {
                spec.overdue = true;
                return spec;
            },
            None => {},
        }
    } else if word[0] != '$' {
        push_text(&mut spec.search_terms, word, 0);
        assert(word@.skip(0) =~= word@);
        return spec;
    }
    push_text(&mut spec.invalid_tokens, word, 0);
    assert(word@.skip(0) =~= word@);
    spec
}

/// Looks a saved filter up by its name: computes [`lookup_from`].
pub fn lookup_saved<'a>(table: &'a Vec<SavedFilter>, name: &Vec<char>) -> (r: Option<&'a SavedFilter>)
    ensures
        r is Some <==> lookup_from(saved_views(table@), 0, name@) is Some,
        r is Some ==> Some(r->0@.query) == lookup_from(saved_views(table@), 0, name@),
{
    let mut i: usize = 0;
    while i < table.len()
        invariant
            i <= table.len(),
            lookup_from(saved_views(table@), i as int, name@) == lookup_from(
                saved_views(table@),
                0,
                name@,
            ),
        decreases table.len() - i,
    {
        let candidate = chars_of(table[i].name.as_str());
        assert(saved_views(table@)[i as int] == table@[i as int]@);
        if same_text(&candidate, name) {
            return Some(&table[i]);
        }
        i += 1;
    }
    None
}

/// The words of `query` with the saved filters of `table` written out:
/// computes [`expand_words`] of [`words`].
pub fn expanded_words(query: &Vec<char>, table: &Vec<SavedFilter>) -> (out: Vec<Vec<char>>)
    ensures
        texts(out@) == expand_words(words(query@), saved_views(table@)),
{
    let ws = split_words(query);
    let mut out: Vec<Vec<char>> = Vec::new();
    let mut i: usize = 0;
    proof {
        assert(texts(ws@).take(0) =~= Seq::<Seq<char>>::empty());
        assert(texts(out@) =~= Seq::<Seq<char>>::empty());
    }
    while i < ws.len()
        invariant
            i <= ws.len(),
            texts(ws@) == words(query@),
            texts(out@) == expand_words(texts(ws@).take(i as int), saved_views(table@)),
        decreases ws.len() - i,
    {
        let word = &ws[i];
        let ghost done = texts(out@);
        proof {
            let seen = texts(ws@).take(i + 1);
            assert(seen.drop_last() =~= texts(ws@).take(i as int));
            assert(seen.last() == word@);
        }
        let mut written = false;
        if word.len() > 0 && word[0] == '$' {
            let name = copy_range(word, 1, word.len());
            assert(name@ =~= word@.skip(1));
            match lookup_saved(table, &name) {
                Some(saved) => {
                    let stored = chars_of(saved.query.as_str());
                    let mut inner = split_words(&stored);
                    let ghost added = texts(inner@);
                    out.append(&mut inner);
                    assert(texts(out@) =~= done + added);
                    written = true;
                },
                None => {},
            }
        }
        if !written {
            out.push(copy_range(word, 0, word.len()));
            assert(word@.subrange(0, word@.len() as int) =~= word@);
            assert(texts(out@) =~= done + seq![word@]);
        }
        i += 1;
    }
    proof {
        assert(texts(ws@).take(ws.len() as int) =~= texts(ws@));
    }
    out
}

/// Reads a query.  Reading never fails: a word that is not understood is
/// listed in `invalid_tokens` and holds no condition.
pub fn parse_filter_query(query: &str, saved_filters: &Vec<SavedFilter>, today: Date) -> (spec:
    FilterSpec)
    requires
        today.valid(),
    ensures
        spec@ == parse_query(query@, saved_views(saved_filters@), today),
{
    let chars = chars_of(query);
    let ws = expanded_words(&chars, saved_filters);
    let mut spec = FilterSpec::new();
    let mut i: usize = 0;
    proof {
        assert(texts(ws@).take(0) =~= Seq::<Seq<char>>::empty());
    }
    while i < ws.len()
        invariant
            i <= ws.len(),
            today.valid(),
            spec@ == read_words(texts(ws@).take(i as int), today),
        decreases ws.len() - i,
    {
        proof {
            let seen = texts(ws@).take(i + 1);
            assert(seen.drop_last() =~= texts(ws@).take(i as int));
            assert(seen.last() == ws@[i as int]@);
        }
        spec = read_word(spec, &ws[i], &today);
        i += 1;
    }
    proof {
        assert(texts(ws@).take(ws.len() as int) =~= texts(ws@));
    }
    spec
}

/// The words of `ws` that name a saved filter that `table` does not hold.
pub open spec fn unknown_filters(ws: Seq<Seq<char>>, table: Seq<SavedFilterView>) -> Seq<Seq<char>>
    decreases ws.len(),
{
    if ws.len() == 0 {
        Seq::<Seq<char>>::empty()
    } else if ws.last().len() > 0 && ws.last()[0] == '$' && lookup_from(
        table,
        0,
        ws.last().skip(1),
    ) is None {
        unknown_filters(ws.drop_last(), table).push(ws.last())
    } else {
        unknown_filters(ws.drop_last(), table)
    }
}

/// The query with its saved filters written out, its words one space apart,
/// and the words that name a saved filter that is not known.  Those words
/// stay in the query as they are.
pub fn expand_saved_filters(query: &str, table: &Vec<SavedFilter>) -> (r: (String, Vec<String>))
    ensures
        r.0@ == crate::text::join(expand_words(words(query@), saved_views(table@)), ' '),
        string_views(r.1@) == unknown_filters(words(query@), saved_views(table@)),
{
    let chars = chars_of(query);
    let expanded = expanded_words(&chars, table);
    let text = crate::text::string_of(&crate::text::join_with(&expanded, ' '));
    let ws = split_words(&chars);
    let ghost all = texts(ws@);
    let mut unknown: Vec<String> = Vec::new();
    let mut i: usize = 0;
    proof {
        assert(all.take(0) =~= Seq::<Seq<char>>::empty());
        assert(string_views(unknown@) =~= Seq::<Seq<char>>::empty());
    }
    while i < ws.len()
        invariant
            i <= ws.len(),
            all == texts(ws@),
            string_views(unknown@) == unknown_filters(all.take(i as int), saved_views(table@)),
        decreases ws.len() - i,
    {
        let word = &ws[i];
        let ghost before = string_views(unknown@);
        proof {
            assert(all.take(i + 1).drop_last() =~= all.take(i as int));
            assert(all.take(i + 1).last() == word@);
        }
        if word.len() > 0 && word[0] == '$' {
            let name = copy_range(word, 1, word.len());
            assert(name@ =~= word@.skip(1));
            if lookup_saved(table, &name).is_none() {
                unknown.push(crate::text::string_of(word));
                assert(string_views(unknown@) =~= before.push(word@));
            }
        }
        i += 1;
    }
    proof {
        assert(all.take(ws.len() as int) =~= all);
    }
    (text, unknown)
}

} // verus!
