//! The settings that the journal reads: favorite tags, saved filters and the
//! order in which entries are sorted.

use crate::dateexpr::is_word;
use crate::filter::string_views;
use crate::filter::SavedFilter;
use crate::text::append_chars;
use crate::text::chars_of;
use crate::text::string_of;
use vstd::prelude::*;

verus! {

/// The settings of the journal.
#[derive(Debug)]
pub struct Config {
    /// The journal file to open, where it is not the default one.
    pub default_file: Option<String>,
    /// The types of entry in the order in which sorting puts them.
    pub sort_order: Vec<String>,
    /// The tags that the number keys stand for: key 1 for the first, and key
    /// 0 for the tenth.
    pub favorite_tags: Vec<String>,
    /// The filters that `$name` stands for.
    pub filters: Vec<SavedFilter>,
}

impl Default for Config {
    fn default() -> (r: Self)
        ensures
            r.default_file is None,
            r.sort_order@.len() == 0,
            r.favorite_tags@.len() == 0,
            r.filters@.len() == 0,
    {
        Config {
            default_file: None,
            sort_order: Vec::new(),
            favorite_tags: Vec::new(),
            filters: Vec::new(),
        }
    }
}

/// `name` names a type of entry that can be sorted by.
pub open spec fn is_sort_type(name: Seq<char>) -> bool {
    name == "completed"@ || name == "uncompleted"@ || name == "notes"@ || name == "events"@
}

/// The names of `order` that name a sort type, each where it occurs first.
pub open spec fn sort_types_once(order: Seq<Seq<char>>) -> Seq<Seq<char>>
    decreases order.len(),
{
    if order.len() == 0 {
        Seq::<Seq<char>>::empty()
    } else if is_sort_type(order.last()) && !order.drop_last().contains(order.last()) {
        sort_types_once(order.drop_last()).push(order.last())
    } else {
        sort_types_once(order.drop_last())
    }
}

/// The order of sorting where none is set: completed tasks, events, notes,
/// open tasks.
pub open spec fn default_order() -> Seq<Seq<char>> {
    seq!["completed"@, "events"@, "notes"@, "uncompleted"@]
}

/// The order of sorting that is in force: what is set, without names that are
/// unknown or repeated; the default where nothing is left.
pub open spec fn effective_order(order: Seq<Seq<char>>) -> Seq<Seq<char>> {
    if sort_types_once(order).len() == 0 {
        default_order()
    } else {
        sort_types_once(order)
    }
}

/// The index of the favorite tag that the key `key` stands for.
pub open spec fn favorite_index(key: char) -> Option<int> {
    if '1' <= key && key <= '9' {
        Some((key as u32) as int - 49)
    } else if key == '0' {
        Some(9)
    } else {
        None
    }
}

/// The favorite tag that the key `key` stands for, where one is set.
pub open spec fn favorite_tag(tags: Seq<Seq<char>>, key: char) -> Option<Seq<char>> {
    match favorite_index(key) {
        Some(i) => if i < tags.len() && tags[i].len() > 0 {
            Some(tags[i])
        } else {
            None
        },
        None => None,
    }
}

/// The order of sorting where none is set.
pub fn default_sort_order() -> (r: Vec<String>)
    ensures
        string_views(r@) == default_order(),
{
    let mut r: Vec<String> = Vec::new();
    r.push("completed".to_owned());
    r.push("events".to_owned());
    r.push("notes".to_owned());
    r.push("uncompleted".to_owned());
    assert(string_views(r@) =~= default_order());
    r
}

/// The favorite tags where none are set.
pub fn default_favorite_tags() -> (r: Vec<String>)
    ensures
        string_views(r@) == seq!["feature"@, "bug"@, "idea"@],
{
    let mut r: Vec<String> = Vec::new();
    r.push("feature".to_owned());
    r.push("bug".to_owned());
    r.push("idea".to_owned());
    assert(string_views(r@) =~= seq!["feature"@, "bug"@, "idea"@]);
    r
}

/// The saved filters where none are set: `t`, `n` and `e` for tasks, notes
/// and events.
pub fn default_filters() -> (r: Vec<SavedFilter>)
    ensures
        r@.len() == 3,
        r@[0]@.name == "t"@ && r@[0]@.query == "!tasks"@,
        r@[1]@.name == "n"@ && r@[1]@.query == "!notes"@,
        r@[2]@.name == "e"@ && r@[2]@.query == "!events"@,
{
    let mut r: Vec<SavedFilter> = Vec::new();
    r.push(SavedFilter { name: "t".to_owned(), query: "!tasks".to_owned() });
    r.push(SavedFilter { name: "n".to_owned(), query: "!notes".to_owned() });
    r.push(SavedFilter { name: "e".to_owned(), query: "!events".to_owned() });
    r
}

/// Decides [`is_sort_type`].
fn sort_type(name: &Vec<char>) -> (r: bool)
    ensures
        r == is_sort_type(name@),
{
    is_word(name, "completed") || is_word(name, "uncompleted") || is_word(name, "notes") || is_word(
        name,
        "events",
    )
}

/// Whether one of the first `upto` names of `order` is `name`.
fn occurs_before(order: &Vec<String>, upto: usize, name: &Vec<char>) -> (r: bool)
    requires
        upto <= order.len(),
    ensures
        r == string_views(order@).take(upto as int).contains(name@),
{
    let ghost seen = string_views(order@).take(upto as int);
    let mut i: usize = 0;
    while i < upto
        invariant
            i <= upto <= order.len(),
            seen == string_views(order@).take(upto as int),
            forall|j: int| 0 <= j < i ==> seen[j] != name@,
        decreases upto - i,
    {
        let other = chars_of(order[i].as_str());
        assert(seen[i as int] == order@[i as int]@);
        if crate::text::same_text(&other, name) {
            return true;
        }
        i += 1;
    }
    false
}

impl Config {
    /// The order of sorting that is in force.
    pub fn validated_sort_order(&self) -> (r: Vec<String>)
        ensures
            string_views(r@) == effective_order(string_views(self.sort_order@)),
    {
        let ghost all = string_views(self.sort_order@);
        let mut result: Vec<String> = Vec::new();
        let mut i: usize = 0;
        proof {
            assert(all.take(0) =~= Seq::<Seq<char>>::empty());
            assert(string_views(result@) =~= Seq::<Seq<char>>::empty());
        }
        while i < self.sort_order.len()
            invariant
                i <= self.sort_order.len(),
                all == string_views(self.sort_order@),
                string_views(result@) == sort_types_once(all.take(i as int)),
            decreases self.sort_order.len() - i,
        {
            let ghost before = string_views(result@);
            let name = chars_of(self.sort_order[i].as_str());
            proof {
                assert(all.take(i + 1).drop_last() =~= all.take(i as int));
                assert(all.take(i + 1).last() == name@);
            }
            if sort_type(&name) && !occurs_before(&self.sort_order, i, &name) {
                result.push(self.sort_order[i].clone());
                assert(string_views(result@) =~= before.push(name@));
            }
            i += 1;
        }
        proof {
            assert(all.take(self.sort_order.len() as int) =~= all);
            assert(string_views(result@).len() == result.len());
        }
        if result.len() == 0 {
            default_sort_order()
        } else {
            result
        }
    }

    /// The favorite tag that a number key stands for: keys 1 to 9 for the
    /// first nine tags, key 0 for the tenth.
    pub fn get_favorite_tag(&self, key: char) -> (r: Option<&str>)
        ensures
            r is Some <==> favorite_tag(string_views(self.favorite_tags@), key) is Some,
            r is Some ==> r->0@ == favorite_tag(string_views(self.favorite_tags@), key)->0,
    {
        let index: usize = if '1' <= key && key <= '9' {
            ((key as u32) - 49) as usize
        } else if key == '0' {
            9
        } else {
            return None;
        };
        if index >= self.favorite_tags.len() {
            return None;
        }
        let tag = self.favorite_tags[index].as_str();
        assert(string_views(self.favorite_tags@)[index as int] == tag@);
        if tag.is_empty() {
            None
        } else {
            Some(tag)
        }
    }
}

/// The directory of the settings below the home directory `home`; below the
/// current directory where no home directory is known.
pub open spec fn config_dir_of(home: Option<Seq<char>>) -> Seq<char> {
    match home {
        Some(dir) => dir + "/.config/caliber"@,
        None => "./.config/caliber"@,
    }
}

/// The directory of the settings.
pub fn get_config_dir(home: Option<&str>) -> (r: String)
    ensures
        r@ == config_dir_of(
            match home {
                Some(dir) => Some(dir@),
                None => None,
            },
        ),
{
    match home {
        Some(dir) => {
            let mut out = chars_of(dir);
            let tail = chars_of("/.config/caliber");
            append_chars(&mut out, &tail);
            string_of(&out)
        },
        None => "./.config/caliber".to_owned(),
    }
}

/// `dir` followed by `/` and `name`.
pub fn path_in(dir: &str, name: &str) -> (r: String)
    ensures
        r@ == dir@ + seq!['/'] + name@,
{
    let mut out = chars_of(dir);
    out.push('/');
    let tail = chars_of(name);
    append_chars(&mut out, &tail);
    assert(out@ =~= dir@ + seq!['/'] + name@);
    string_of(&out)
}

/// The file of the settings.
pub fn get_config_path(home: Option<&str>) -> (r: String)
    ensures
        r@ == config_dir_of(
            match home {
                Some(dir) => Some(dir@),
                None => None,
            },
        ) + seq!['/'] + "config.toml"@,
{
    let dir = get_config_dir(home);
    path_in(dir.as_str(), "config.toml")
}

/// The journal file that is opened where none is set.
pub fn get_default_journal_path(home: Option<&str>) -> (r: String)
    ensures
        r@ == config_dir_of(
            match home {
                Some(dir) => Some(dir@),
                None => None,
            },
        ) + seq!['/'] + "journals"@ + seq!['/'] + "journal.md"@,
{
    let dir = get_config_dir(home);
    let journals = path_in(dir.as_str(), "journals");
    path_in(journals.as_str(), "journal.md")
}

} // verus!
