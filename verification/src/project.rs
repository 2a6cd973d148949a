//! The registry of project journals: names and identifiers of projects, and
//! looking them up.  Paths are texts with `/` between their components.

use crate::config::config_dir_of;
use crate::config::get_config_dir;
use crate::config::path_in;
use crate::hints::keep;
use crate::hints::lemma_keep_step;
use crate::text::append_chars;
use crate::text::chars_of;
use crate::text::copy_range;
use crate::text::eq_ignore_ascii_case;
use crate::text::eq_ignore_case;
use crate::text::lower;
use crate::text::lowercase;
use crate::text::same_text;
use crate::text::string_of;
use crate::unicode::is_alphanumeric;
use crate::unicode::is_alphanumeric_char;
use crate::unicode::to_uppercase;
use crate::unicode::uppercase_of;
use vstd::prelude::*;

verus! {

// ---------------------------------------------------------------------------
// Identifiers and names
// ---------------------------------------------------------------------------

/// `s` with every character that is no letter and no digit replaced by `-`.
pub open spec fn hyphenated(s: Seq<char>) -> Seq<char> {
    Seq::new(
        s.len(),
        |i: int|
            if is_alphanumeric_char(s[i]) {
                s[i]
            } else {
                '-'
            },
    )
}

/// `s` without hyphens at its start and with each run of hyphens reduced to
/// one.
pub open spec fn squeezed(s: Seq<char>) -> Seq<char>
    decreases s.len(),
{
    if s.len() == 0 {
        Seq::<char>::empty()
    } else if s.last() != '-' {
        squeezed(s.drop_last()).push(s.last())
    } else if s.len() == 1 || s[s.len() - 2] == '-' {
        squeezed(s.drop_last())
    } else {
        squeezed(s.drop_last()).push('-')
    }
}

/// `s` without a hyphen at its end.
pub open spec fn without_final_hyphen(s: Seq<char>) -> Seq<char> {
    if s.len() > 0 && s.last() == '-' {
        s.drop_last()
    } else {
        s
    }
}

/// The identifier made from `s`: lowercase, letters and digits kept, whatever
/// else stands between them replaced by single hyphens; `project` where
/// nothing is left.
pub open spec fn sanitized(s: Seq<char>) -> Seq<char> {
    let id = without_final_hyphen(squeezed(hyphenated(lower(s))));
    if id.len() == 0 {
        "project"@
    } else {
        id
    }
}

/// The name made from `s`: its first letter in uppercase; `Project` where `s`
/// is empty.
pub open spec fn capitalized(s: Seq<char>) -> Seq<char> {
    if s.len() == 0 {
        "Project"@
    } else {
        uppercase_of(s[0]) + s.skip(1)
    }
}

/// Computes [`capitalized`].
pub fn capitalize_first(s: &str) -> (r: String)
    ensures
        r@ == capitalized(s@),
{
    let chars = chars_of(s);
    if chars.len() == 0 {
        return "Project".to_owned();
    }
    let mut out = to_uppercase(chars[0]);
    let rest = copy_range(&chars, 1, chars.len());
    assert(rest@ =~= s@.skip(1));
    append_chars(&mut out, &rest);
    string_of(&out)
}

/// Computes [`sanitized`].
pub fn sanitize_id(s: &str) -> (r: String)
    ensures
        r@ == sanitized(s@),
{
    let id = lowercase(&chars_of(s));
    let ghost marked = hyphenated(id@);
    let mut result: Vec<char> = Vec::new();
    let mut prev_hyphen = true;
    let mut i: usize = 0;
    proof {
        assert(marked.take(0) =~= Seq::<char>::empty());
    }
    while i < id.len()
        invariant
            i <= id.len(),
            marked == hyphenated(id@),
            result@ == squeezed(marked.take(i as int)),
            prev_hyphen == (i == 0 || marked[i - 1] == '-'),
        decreases id.len() - i,
    {
        let c = if is_alphanumeric(id[i]) {
            id[i]
        } else {
            '-'
        };
        proof {
            let seen = marked.take(i + 1);
            assert(seen.drop_last() =~= marked.take(i as int));
            assert(seen.last() == c);
            if i > 0 {
                assert(seen[seen.len() - 2] == marked[i - 1]);
            }
        }
        if c == '-' {
            if !prev_hyphen {
                result.push(c);
            }
            prev_hyphen = true;
        } else {
            result.push(c);
            prev_hyphen = false;
        }
        i += 1;
    }
    proof {
        assert(marked.take(id.len() as int) =~= marked);
    }
    if result.len() > 0 && result[result.len() - 1] == '-' {
        result.pop();
    }
    if result.len() == 0 {
        "project".to_owned()
    } else {
        string_of(&result)
    }
}

// ---------------------------------------------------------------------------
// Paths
// ---------------------------------------------------------------------------

/// The position of the last `/` of `path`, or -1 where it has none.
pub open spec fn last_slash(path: Seq<char>) -> int
    decreases path.len(),
{
    if path.len() == 0 {
        -1
    } else if path.last() == '/' {
        path.len() - 1
    } else {
        last_slash(path.drop_last())
    }
}

/// `path` without the separators at its end; a path that is nothing but
/// separators keeps one.
pub open spec fn trimmed_path(path: Seq<char>) -> Seq<char>
    decreases path.len(),
{
    if path.len() > 1 && path.last() == '/' {
        trimmed_path(path.drop_last())
    } else {
        path
    }
}

/// The last component of `path`: what stands between its last `/` and its
/// end, separators at the end left aside.  The root has none.
pub open spec fn file_name_of(path: Seq<char>) -> Seq<char> {
    trimmed_path(path).skip(last_slash(trimmed_path(path)) + 1)
}

/// The path without its last component.  The empty path and the root have no
/// parent; a single component has the empty path for its parent.
pub open spec fn parent_of(path: Seq<char>) -> Option<Seq<char>> {
    let p = trimmed_path(path);
    if p.len() == 0 || p == seq!['/'] {
        None
    } else if last_slash(p) < 0 {
        Some(Seq::<char>::empty())
    } else {
        Some(trimmed_path(p.take(last_slash(p) + 1)))
    }
}

/// The directory of a project journal: the parent of `path` where that is a
/// `.caliber` directory, and `path` itself, without separators at its end,
/// otherwise.  This takes both the directory and the journal file inside it to
/// the directory.
pub open spec fn caliber_dir_of(path: Seq<char>) -> Seq<char> {
    match parent_of(path) {
        Some(parent) => if file_name_of(parent) == ".caliber"@ {
            parent
        } else {
            trimmed_path(path)
        },
        None => trimmed_path(path),
    }
}

/// A path without separators at its end is left as it is when they are taken
/// off again.
pub proof fn lemma_trimmed_path(path: Seq<char>)
    ensures
        trimmed_path(trimmed_path(path)) == trimmed_path(path),
        trimmed_path(path).len() <= path.len(),
        path.len() > 0 ==> trimmed_path(path).len() > 0,
    decreases path.len(),
{
    if path.len() > 1 && path.last() == '/' {
        lemma_trimmed_path(path.drop_last());
    }
}

/// The last `/` lies inside the path, and nothing after it is a `/`.
pub proof fn lemma_last_slash(path: Seq<char>)
    ensures
        -1 <= last_slash(path) < path.len(),
        last_slash(path) >= 0 ==> path[last_slash(path)] == '/',
        forall|j: int| last_slash(path) < j < path.len() ==> path[j] != '/',
    decreases path.len(),
{
    if path.len() > 0 && path.last() != '/' {
        let init = path.drop_last();
        lemma_last_slash(init);
        assert forall|j: int| last_slash(path) < j < path.len() implies path[j] != '/' by {
            if j < path.len() - 1 {
                assert(path[j] == init[j]);
            }
        }
        if last_slash(path) >= 0 {
            assert(path[last_slash(path)] == init[last_slash(init)]);
        }
    }
}

/// Computes [`last_slash`]: the position of the last `/`, if there is one.
pub fn find_last_slash(path: &Vec<char>) -> (r: Option<usize>)
    ensures
        match r {
            Some(at) => at == last_slash(path@) && at < path.len(),
            None => last_slash(path@) == -1,
        },
{
    let mut n: usize = path.len();
    proof {
        assert(path@.take(n as int) =~= path@);
    }
    while n > 0
        invariant
            n <= path.len(),
            last_slash(path@) == last_slash(path@.take(n as int)),
        decreases n,
    {
        proof {
            let cut = path@.take(n as int);
            assert(cut.last() == path@[n - 1]);
            assert(cut.drop_last() =~= path@.take(n - 1));
        }
        if path[n - 1] == '/' {
            return Some(n - 1);
        }
        n -= 1;
    }
    None
}

/// Computes [`trimmed_path`].
pub fn trim_path(path: &Vec<char>) -> (r: Vec<char>)
    ensures
        r@ == trimmed_path(path@),
{
    let mut n: usize = path.len();
    proof {
        assert(path@.take(n as int) =~= path@);
    }
    while n > 1 && path[n - 1] == '/'
        invariant
            n <= path.len(),
            trimmed_path(path@) == trimmed_path(path@.take(n as int)),
        decreases n,
    {
        proof {
            let cut = path@.take(n as int);
            assert(cut.last() == path@[n - 1]);
            assert(cut.drop_last() =~= path@.take(n - 1));
        }
        n -= 1;
    }
    proof {
        let cut = path@.take(n as int);
        if n > 1 {
            assert(cut.last() == path@[n - 1]);
        }
        assert(path@.subrange(0, n as int) =~= cut);
    }
    copy_range(path, 0, n)
}

/// Computes [`file_name_of`].
pub fn file_name(path: &Vec<char>) -> (r: Vec<char>)
    ensures
        r@ == file_name_of(path@),
{
    let p = trim_path(path);
    proof {
        lemma_last_slash(p@);
    }
    let from: usize = match find_last_slash(&p) {
        Some(at) => at + 1,
        None => 0,
    };
    let r = copy_range(&p, from, p.len());
    assert(p@.subrange(from as int, p.len() as int) =~= p@.skip(from as int));
    r
}

/// Computes [`parent_of`].
pub fn parent(path: &Vec<char>) -> (r: Option<Vec<char>>)
    ensures
        r is Some <==> parent_of(path@) is Some,
        r is Some ==> r->0@ == parent_of(path@)->0,
{
    let p = trim_path(path);
    if p.len() == 0 || (p.len() == 1 && p[0] == '/') {
        assert(p.len() == 1 && p@[0] == '/' ==> p@ =~= seq!['/']);
        return None;
    }
    assert(p@ != seq!['/']) by {
        if p@ == seq!['/'] {
            assert(p@.len() == 1 && p@[0] == '/');
        }
    }
    match find_last_slash(&p) {
        Some(at) => {
            let head = copy_range(&p, 0, at + 1);
            assert(head@ =~= p@.take(at + 1));
            Some(trim_path(&head))
        },
        None => Some(Vec::new()),
    }
}

/// Computes [`caliber_dir_of`].
pub fn normalize_to_caliber_dir(path: &str) -> (r: String)
    ensures
        r@ == caliber_dir_of(path@),
{
    let chars = chars_of(path);
    match parent(&chars) {
        Some(dir) => {
            let name = file_name(&dir);
            let wanted = chars_of(".caliber");
            if same_text(&name, &wanted) {
                string_of(&dir)
            } else {
                string_of(&trim_path(&chars))
            }
        },
        None => string_of(&trim_path(&chars)),
    }
}

// ---------------------------------------------------------------------------
// Projects
// ---------------------------------------------------------------------------

/// A project as the registry file lists it: by its path.
#[derive(Debug, PartialEq)]
pub struct RegisteredProject {
    pub path: String,
}

/// What the registry file holds.
#[derive(Debug, PartialEq)]
pub struct ProjectRegistryFile {
    pub project: Vec<RegisteredProject>,
}

/// A project with what is known of it.
#[derive(Debug, PartialEq)]
pub struct ProjectInfo {
    /// The path of the `.caliber` directory.
    pub path: String,
    /// The directory that holds the `.caliber` directory.
    pub root: String,
    /// The name shown for the project.
    pub name: String,
    /// The identifier of the project, unique in the registry.
    pub id: String,
    /// Whether the journal file exists.
    pub available: bool,
    /// Whether the project is hidden from the picker.
    pub hidden: bool,
}

/// What a [`ProjectInfo`] holds, as mathematics.
pub struct ProjectInfoView {
    pub path: Seq<char>,
    pub root: Seq<char>,
    pub name: Seq<char>,
    pub id: Seq<char>,
    pub available: bool,
    pub hidden: bool,
}

impl View for ProjectInfo {
    type V = ProjectInfoView;

    open spec fn view(&self) -> ProjectInfoView {
        ProjectInfoView {
            path: self.path@,
            root: self.root@,
            name: self.name@,
            id: self.id@,
            available: self.available,
            hidden: self.hidden,
        }
    }
}

impl Clone for ProjectInfo {
    fn clone(&self) -> (r: Self)
        ensures
            r@ == self@,
    {
        ProjectInfo {
            path: self.path.clone(),
            root: self.root.clone(),
            name: self.name.clone(),
            id: self.id.clone(),
            available: self.available,
            hidden: self.hidden,
        }
    }
}

impl ProjectInfo {
    /// The journal file of the project.
    pub fn journal_path(&self) -> (r: String)
        ensures
            r@ == self@.path + seq!['/'] + "journal.md"@,
    {
        path_in(self.path.as_str(), "journal.md")
    }
}

/// The views of a sequence of projects.
pub open spec fn project_views(projects: Seq<ProjectInfo>) -> Seq<ProjectInfoView> {
    Seq::new(projects.len(), |i: int| projects[i]@)
}

/// The name and the identifier that a project has from the directory `root`
/// that holds it: both made from the last component of `root`, or from
/// `project` where that is empty.
pub open spec fn derived_identity(root: Seq<char>) -> (Seq<char>, Seq<char>) {
    let folder = if file_name_of(root).len() == 0 {
        "project"@
    } else {
        file_name_of(root)
    };
    (capitalized(folder), sanitized(folder))
}

/// Computes [`derived_identity`].
pub fn derive_identity(root: &str) -> (r: (String, String))
    ensures
        (r.0@, r.1@) == derived_identity(root@),
{
    let name = file_name(&chars_of(root));
    if name.len() == 0 {
        (capitalize_first("project"), sanitize_id("project"))
    } else {
        let folder = string_of(&name);
        (capitalize_first(folder.as_str()), sanitize_id(folder.as_str()))
    }
}

/// What a project's own settings say of its identity.
#[derive(Debug, PartialEq)]
pub struct ProjectIdentity {
    pub name: Option<String>,
    pub id: Option<String>,
    pub hidden: bool,
}

/// What is known of the project whose `.caliber` directory is
/// `caliber_path`: nothing where the last component of the path is not
/// `.caliber`; else the identity from the project's settings where they give
/// one, and from the directory otherwise.
pub fn resolve_project_info(
    caliber_path: &str,
    journal_exists: bool,
    identity: Option<ProjectIdentity>,
) -> (r: Option<ProjectInfo>)
    ensures
        r is Some <==> file_name_of(caliber_path@) == ".caliber"@,
        r is Some ==> {
            let info = r->0@;
            let root = parent_of(caliber_path@)->0;
            let derived = derived_identity(root);
            &&& parent_of(caliber_path@) is Some
            &&& info.path == trimmed_path(caliber_path@)
            &&& info.root == root
            &&& info.available == journal_exists
            &&& info.name == match identity {
                Some(ProjectIdentity { name: Some(n), .. }) => n@,
                _ => derived.0,
            }
            &&& info.id == match identity {
                Some(ProjectIdentity { id: Some(i), .. }) => sanitized(i@),
                _ => derived.1,
            }
            &&& info.hidden == match identity {
                Some(given) => given.hidden,
                None => false,
            }
        },
{
    let chars = chars_of(caliber_path);
    let name = file_name(&chars);
    let wanted = chars_of(".caliber");
    if !same_text(&name, &wanted) {
        return None;
    }
    proof {
        reveal_strlit(".caliber");
        lemma_trimmed_path(caliber_path@);
        let p = trimmed_path(caliber_path@);
        if p.len() == 0 || p == seq!['/'] {
            lemma_last_slash(p);
            assert(file_name_of(caliber_path@).len() == 0);
        }
    }
    let root_chars = match parent(&chars) {
        Some(dir) => dir,
        None => {
            return None;
        },
    };
    let root = string_of(&root_chars);
    let derived = derive_identity(root.as_str());
    let (name, id, hidden) = match identity {
        Some(given) => {
            let name = match given.name {
                Some(n) => n,
                None => derived.0,
            };
            let id = match given.id {
                Some(i) => sanitize_id(i.as_str()),
                None => derived.1,
            };
            (name, id, given.hidden)
        },
        None => (derived.0, derived.1, false),
    };
    Some(
        ProjectInfo {
            path: string_of(&trim_path(&chars)),
            root,
            name,
            id,
            available: journal_exists,
            hidden,
        },
    )
}

/// The file that lists the projects.
pub fn get_registry_path(home: Option<&str>) -> (r: String)
    ensures
        r@ == config_dir_of(
            match home {
                Some(dir) => Some(dir@),
                None => None,
            },
        ) + seq!['/'] + "projects.toml"@,
{
    let dir = get_config_dir(home);
    path_in(dir.as_str(), "projects.toml")
}

// ---------------------------------------------------------------------------
// The registry
// ---------------------------------------------------------------------------

/// The projects that are known.
#[derive(Debug, PartialEq)]
pub struct ProjectRegistry {
    pub projects: Vec<ProjectInfo>,
}

impl Default for ProjectRegistry {
    fn default() -> (r: Self)
        ensures
            r.projects@.len() == 0,
    {
        ProjectRegistry { projects: Vec::new() }
    }
}

/// Why a project cannot be registered.
#[derive(Clone, Copy, Debug, PartialEq, Eq, Structural)]
pub enum RegistryError {
    /// A project with this path is registered already.
    AlreadyRegistered,
    /// The path is not that of a `.caliber` directory.
    InvalidPath,
}

impl RegistryError {
    /// The reason in words.
    pub fn message(&self) -> (r: &'static str)
        ensures
            r@ == match *self {
                RegistryError::AlreadyRegistered => "Project already registered"@,
                RegistryError::InvalidPath =>
                    "Invalid project path - must be a .caliber/ directory"@,
            },
    {
        match self {
            RegistryError::AlreadyRegistered => "Project already registered",
            RegistryError::InvalidPath => "Invalid project path - must be a .caliber/ directory",
        }
    }
}

/// The character that writes the digit `d`.
pub open spec fn digit_char(d: nat) -> char
    recommends
        d < 10,
{
    ((48 + d) as u8) as char
}

/// The number `n` in decimal digits.
pub open spec fn decimal(n: nat) -> Seq<char>
    decreases n,
{
    if n < 10 {
        seq![digit_char(n)]
    } else {
        decimal(n / 10).push(digit_char(n % 10))
    }
}

/// The identifier `base` with the number `n` behind it.
pub open spec fn candidate(base: Seq<char>, n: nat) -> Seq<char> {
    base + seq!['-'] + decimal(n)
}

/// A project of `projects` has the identifier `id`; letter case is ignored.
pub open spec fn id_taken(projects: Seq<ProjectInfoView>, id: Seq<char>) -> bool {
    exists|k: int| 0 <= k < projects.len() && eq_ignore_case((#[trigger] projects[k]).id, id)
}

/// The position of the first project from position `from` on that has the
/// identifier `id`.
pub open spec fn first_with_id(projects: Seq<ProjectInfoView>, from: int, id: Seq<char>) -> Option<
    int,
>
    decreases projects.len() - from,
{
    if from < 0 || from >= projects.len() {
        None
    } else if eq_ignore_case(projects[from].id, id) {
        Some(from)
    } else {
        first_with_id(projects, from + 1, id)
    }
}

/// The position of the first project from position `from` on that has the
/// path `path`, separators at the end of its own path left aside.
pub open spec fn first_with_path(
    projects: Seq<ProjectInfoView>,
    from: int,
    path: Seq<char>,
) -> Option<int>
    decreases projects.len() - from,
{
    if from < 0 || from >= projects.len() {
        None
    } else if trimmed_path(projects[from].path) == path {
        Some(from)
    } else {
        first_with_path(projects, from + 1, path)
    }
}

/// The first number from `from` up to 99 with which `base` is an identifier
/// that no project has.
pub open spec fn first_free(projects: Seq<ProjectInfoView>, base: Seq<char>, from: nat) -> Option<
    nat,
>
    decreases 100 - from,
{
    if from > 99 {
        None
    } else if !id_taken(projects, candidate(base, from)) {
        Some(from)
    } else {
        first_free(projects, base, from + 1)
    }
}

/// `id` is the identifier that is made for a new project from `base`: `base`
/// itself, sanitized, where no project has it; else with the first number from
/// 2 to 99 that makes it free; and with some number where none of them does.
pub open spec fn is_generated_id(projects: Seq<ProjectInfoView>, base: Seq<char>, id: Seq<char>) -> bool {
    let clean = sanitized(base);
    if !id_taken(projects, clean) {
        id == clean
    } else {
        match first_free(projects, clean, 2) {
            Some(n) => id == candidate(clean, n),
            None => exists|t: nat| id == candidate(clean, t),
        }
    }
}

/// The first number from `from` up to `limit` with which `base` is an
/// identifier that no project has.
pub open spec fn first_free_upto(
    projects: Seq<ProjectInfoView>,
    base: Seq<char>,
    from: nat,
    limit: nat,
) -> Option<nat>
    decreases limit + 1 - from,
{
    if from > limit {
        None
    } else if !id_taken(projects, candidate(base, from)) {
        Some(from)
    } else {
        first_free_upto(projects, base, from + 1, limit)
    }
}

/// The identifier that tells a project with the identifier `base` apart from
/// `projects`: `base` itself where no project has it, else `base` with the
/// first number from 2 on that makes it free.  Among as many numbers as there
/// are projects, and one more, one is free; the number after them stands in
/// where none is.
pub open spec fn told_apart(projects: Seq<ProjectInfoView>, base: Seq<char>) -> Seq<char> {
    if !id_taken(projects, base) {
        base
    } else {
        match first_free_upto(projects, base, 2, projects.len() + 2) {
            Some(n) => candidate(base, n),
            None => candidate(base, projects.len() + 3),
        }
    }
}

/// The registry of the projects `resolved`, in their order: each project
/// keeps its identifier unless a project before it has it, and is told apart
/// by a number where one has.
pub open spec fn loaded(resolved: Seq<ProjectInfoView>) -> Seq<ProjectInfoView>
    decreases resolved.len(),
{
    if resolved.len() == 0 {
        Seq::<ProjectInfoView>::empty()
    } else {
        let before = loaded(resolved.drop_last());
        before.push(
            ProjectInfoView { id: told_apart(before, resolved.last().id), ..resolved.last() },
        )
    }
}

/// The project does not have the identifier `id`.
pub open spec fn has_other_id(id: Seq<char>) -> spec_fn(ProjectInfoView) -> bool {
    |p: ProjectInfoView| !eq_ignore_case(p.id, id)
}

/// Appends the decimal digits of `n` to `out`.
pub fn push_decimal(out: &mut Vec<char>, n: u128)
    ensures
        final(out)@ == old(out)@ + decimal(n as nat),
    decreases n,
{
    if n >= 10 {
        push_decimal(out, n / 10);
    }
    let d: u8 = (n % 10) as u8;
    out.push((48 + d) as char);
    assert(out@ =~= old(out)@ + decimal(n as nat));
}

/// Calls `SystemTime::now` and `SystemTime::duration_since` the Unix epoch,
/// and gives the whole seconds; 0 where the clock stands before the epoch.
/// Nothing is claimed of the result, which differs from call to call.
#[verifier::external_body]
fn seconds_since_epoch() -> (secs: u64) {
    match std::time::SystemTime::now().duration_since(std::time::UNIX_EPOCH) {
        Ok(elapsed) => elapsed.as_secs(),
        Err(_) => 0,
    }
}

/// The identifier `base` with the number `n` behind it: computes
/// [`candidate`].
pub fn numbered_id(base: &Vec<char>, n: u128) -> (r: Vec<char>)
    ensures
        r@ == candidate(base@, n as nat),
{
    let mut r = copy_range(base, 0, base.len());
    assert(base@.subrange(0, base@.len() as int) =~= base@);
    r.push('-');
    push_decimal(&mut r, n);
    assert(r@ =~= candidate(base@, n as nat));
    r
}

impl ProjectRegistry {
    /// Decides [`id_taken`].
    pub fn id_exists(&self, id: &str) -> (r: bool)
        ensures
            r == id_taken(project_views(self.projects@), id@),
    {
        let wanted = chars_of(id);
        self.id_in_use(&wanted)
    }

    fn id_in_use(&self, wanted: &Vec<char>) -> (r: bool)
        ensures
            r == id_taken(project_views(self.projects@), wanted@),
    {
        let ghost views = project_views(self.projects@);
        let mut i: usize = 0;
        while i < self.projects.len()
            invariant
                i <= self.projects.len(),
                views == project_views(self.projects@),
                forall|k: int| 0 <= k < i ==> !eq_ignore_case((#[trigger] views[k]).id, wanted@),
            decreases self.projects.len() - i,
        {
            let have = chars_of(self.projects[i].id.as_str());
            assert(views[i as int] == self.projects@[i as int]@);
            if eq_ignore_ascii_case(&have, wanted) {
                return true;
            }
            i += 1;
        }
        false
    }

    /// The project with the identifier `id`; letter case is ignored.
    pub fn find_by_id(&self, id: &str) -> (r: Option<&ProjectInfo>)
        ensures
            r is Some <==> first_with_id(project_views(self.projects@), 0, id@) is Some,
            r is Some ==> r->0@ == project_views(self.projects@)[first_with_id(
                project_views(self.projects@),
                0,
                id@,
            )->0],
    {
        let wanted = chars_of(id);
        let ghost views = project_views(self.projects@);
        let mut i: usize = 0;
        while i < self.projects.len()
            invariant
                i <= self.projects.len(),
                wanted@ == id@,
                views == project_views(self.projects@),
                first_with_id(views, i as int, id@) == first_with_id(views, 0, id@),
            decreases self.projects.len() - i,
        {
            let have = chars_of(self.projects[i].id.as_str());
            assert(views[i as int] == self.projects@[i as int]@);
            if eq_ignore_ascii_case(&have, &wanted) {
                return Some(&self.projects[i]);
            }
            i += 1;
        }
        None
    }

    /// The project with the path `path`, which may be that of the `.caliber`
    /// directory or that of the journal file inside it.
    pub fn find_by_path(&self, path: &str) -> (r: Option<&ProjectInfo>)
        ensures
            r is Some <==> first_with_path(
                project_views(self.projects@),
                0,
                caliber_dir_of(path@),
            ) is Some,
            r is Some ==> r->0@ == project_views(self.projects@)[first_with_path(
                project_views(self.projects@),
                0,
                caliber_dir_of(path@),
            )->0],
    {
        let wanted = chars_of(normalize_to_caliber_dir(path).as_str());
        let ghost views = project_views(self.projects@);
        let mut i: usize = 0;
        while i < self.projects.len()
            invariant
                i <= self.projects.len(),
                wanted@ == caliber_dir_of(path@),
                views == project_views(self.projects@),
                first_with_path(views, i as int, wanted@) == first_with_path(views, 0, wanted@),
            decreases self.projects.len() - i,
        {
            let have = trim_path(&chars_of(self.projects[i].path.as_str()));
            assert(views[i as int] == self.projects@[i as int]@);
            if same_text(&have, &wanted) {
                return Some(&self.projects[i]);
            }
            i += 1;
        }
        None
    }

    /// Takes every project with the identifier `id` out of the registry, and
    /// says whether there was one.
    pub fn remove(&mut self, id: &str) -> (removed: bool)
        ensures
            project_views(final(self).projects@) == keep(
                project_views(old(self).projects@),
                has_other_id(id@),
            ),
            removed == (final(self).projects@.len() < old(self).projects@.len()),
    {
        let wanted = chars_of(id);
        let ghost all = project_views(self.projects@);
        let ghost pred = has_other_id(id@);
        let len_before = self.projects.len();
        let mut kept: Vec<ProjectInfo> = Vec::new();
        let mut i: usize = 0;
        proof {
            assert(all.take(0) =~= Seq::<ProjectInfoView>::empty());
            assert(project_views(kept@) =~= Seq::<ProjectInfoView>::empty());
        }
        while i < self.projects.len()
            invariant
                i <= self.projects.len(),
                self.projects@ == old(self).projects@,
                len_before == self.projects.len(),
                wanted@ == id@,
                all == project_views(self.projects@),
                pred == has_other_id(id@),
                project_views(kept@) == keep(all.take(i as int), pred),
                kept.len() <= i,
            decreases self.projects.len() - i,
        {
            let ghost before = project_views(kept@);
            let have = chars_of(self.projects[i].id.as_str());
            proof {
                lemma_keep_step(all, i as int, pred);
                assert(all[i as int] == self.projects@[i as int]@);
            }
            if !eq_ignore_ascii_case(&have, &wanted) {
                kept.push(self.projects[i].clone());
                assert(project_views(kept@) =~= before.push(self.projects@[i as int]@));
            }
            i += 1;
        }
        proof {
            assert(all.take(self.projects.len() as int) =~= all);
        }
        let len_after = kept.len();
        self.projects = kept;
        len_after < len_before
    }

    /// The registry of the projects `resolved`, which were read from the list
    /// of projects and looked up one by one.
    pub fn load(resolved: Vec<ProjectInfo>) -> (r: Self)
        ensures
            project_views(r.projects@) == loaded(project_views(resolved@)),
    {
        let ghost all = project_views(resolved@);
        let mut registry = ProjectRegistry { projects: Vec::new() };
        let mut i: usize = 0;
        proof {
            assert(all.take(0) =~= Seq::<ProjectInfoView>::empty());
            assert(project_views(registry.projects@) =~= Seq::<ProjectInfoView>::empty());
        }
        while i < resolved.len()
            invariant
                i <= resolved.len(),
                all == project_views(resolved@),
                project_views(registry.projects@) == loaded(all.take(i as int)),
            decreases resolved.len() - i,
        {
            let ghost before = project_views(registry.projects@);
            let found = &resolved[i];
            proof {
                assert(all.take(i + 1).drop_last() =~= all.take(i as int));
                assert(all.take(i + 1).last() == found@);
            }
            let id = registry.tell_apart(found.id.as_str());
            let info = ProjectInfo {
                path: found.path.clone(),
                root: found.root.clone(),
                name: found.name.clone(),
                id,
                available: found.available,
                hidden: found.hidden,
            };
            let ghost view = info@;
            registry.projects.push(info);
            assert(project_views(registry.projects@) =~= before.push(view));
            i += 1;
        }
        proof {
            assert(all.take(resolved.len() as int) =~= all);
        }
        registry
    }

    /// The identifier that tells a project with the identifier `base` apart
    /// from the projects of the registry: computes [`told_apart`].
    pub fn tell_apart(&self, base: &str) -> (id: String)
        ensures
            id@ == told_apart(project_views(self.projects@), base@),
    {
        let start = chars_of(base);
        if !self.id_in_use(&start) {
            return string_of(&start);
        }
        let ghost views = project_views(self.projects@);
        assert(views.len() == self.projects.len());
        let limit: u128 = self.projects.len() as u128 + 2;
        let mut n: u128 = 2;
        while n <= limit
            invariant
                2 <= n <= limit + 1,
                limit == self.projects@.len() + 2,
                limit <= usize::MAX + 2,
                start@ == base@,
                views == project_views(self.projects@),
                id_taken(views, start@),
                first_free_upto(views, start@, n as nat, limit as nat) == first_free_upto(
                    views,
                    start@,
                    2,
                    limit as nat,
                ),
            decreases limit + 1 - n,
        {
            let next = numbered_id(&start, n);
            if !self.id_in_use(&next) {
                return string_of(&next);
            }
            n += 1;
        }
        string_of(&numbered_id(&start, limit + 1))
    }

    /// An identifier for a new project, made from `base`, that no project of
    /// the registry has.
    pub fn generate_unique_id(&self, base: &str) -> (id: String)
        ensures
            is_generated_id(project_views(self.projects@), base@, id@),
    {
        let clean = chars_of(sanitize_id(base).as_str());
        if !self.id_in_use(&clean) {
            return string_of(&clean);
        }
        let ghost views = project_views(self.projects@);
        let mut n: u64 = 2;
        while n <= 99
            invariant
                2 <= n <= 100,
                clean@ == sanitized(base@),
                views == project_views(self.projects@),
                id_taken(views, clean@),
                first_free(views, clean@, n as nat) == first_free(views, clean@, 2),
            decreases 100 - n,
        {
            let next = numbered_id(&clean, n as u128);
            if !self.id_in_use(&next) {
                return string_of(&next);
            }
            n += 1;
        }
        let stamp = seconds_since_epoch();
        let last = numbered_id(&clean, stamp as u128);
        string_of(&last)
    }

    /// Registers the project at `path`, which `resolved` describes if the
    /// path is that of a project.  The project gets an identifier that no
    /// other has.  A project that is registered already, and a path that is
    /// not a project's, are refused, and the registry stays as it is.
    pub fn register(&mut self, path: &str, resolved: Option<ProjectInfo>) -> (r: Result<
        ProjectInfo,
        RegistryError,
    >)
        ensures
            r == Err::<ProjectInfo, RegistryError>(RegistryError::AlreadyRegistered)
                <==> first_with_path(
                project_views(old(self).projects@),
                0,
                caliber_dir_of(path@),
            ) is Some,
            r == Err::<ProjectInfo, RegistryError>(RegistryError::InvalidPath) <==> first_with_path(
                project_views(old(self).projects@),
                0,
                caliber_dir_of(path@),
            ) is None && resolved is None,
            r is Err ==> final(self).projects@ == old(self).projects@,
            r is Ok ==> {
                let info = r->Ok_0@;
                &&& project_views(final(self).projects@) == project_views(
                    old(self).projects@,
                ).push(info)
                &&& info == ProjectInfoView { id: info.id, ..resolved->0@ }
                &&& is_generated_id(project_views(old(self).projects@), resolved->0@.id, info.id)
            },
    {
        if self.find_by_path(path).is_some() {
            return Err(RegistryError::AlreadyRegistered);
        }
        let found = match resolved {
            Some(found) => found,
            None => {
                return Err(RegistryError::InvalidPath);
            },
        };
        let id = self.generate_unique_id(found.id.as_str());
        let info = ProjectInfo {
            path: found.path,
            root: found.root,
            name: found.name,
            id,
            available: found.available,
            hidden: found.hidden,
        };
        let ghost before = project_views(self.projects@);
        self.projects.push(info.clone());
        assert(project_views(self.projects@) =~= before.push(info@));
        Ok(info)
    }
}

// ---------------------------------------------------------------------------
// Keeping the project journal out of version control
// ---------------------------------------------------------------------------

/// The line that keeps the `.caliber` directory out of version control.
pub open spec fn ignore_entry() -> Seq<char> {
    ".caliber/"@
}

/// One of `lines` is, without the white space around it, the ignore entry.
pub open spec fn lists_caliber(lines: Seq<Seq<char>>) -> bool {
    exists|k: int| 0 <= k < lines.len() && crate::text::trim(#[trigger] lines[k]) == ignore_entry()
}

/// What an ignore file that holds `content` has to hold so that it lists the
/// `.caliber` directory: `None` where it lists it already; else the content,
/// closed by a line feed where it is not empty and lacks one, and then the
/// entry on a line of its own.
pub open spec fn ignoring_caliber(content: Seq<char>) -> Option<Seq<char>> {
    if lists_caliber(crate::text::split(content, '\n')) {
        None
    } else if content.len() > 0 && content.last() != '\n' {
        Some(content.push('\n') + ignore_entry().push('\n'))
    } else {
        Some(content + ignore_entry().push('\n'))
    }
}

/// Computes [`ignoring_caliber`].
pub fn with_caliber_ignored(content: &str) -> (r: Option<String>)
    ensures
        r is Some <==> ignoring_caliber(content@) is Some,
        r is Some ==> r->0@ == ignoring_caliber(content@)->0,
{
    let chars = chars_of(content);
    let lines = crate::text::split_on(&chars, '\n');
    let entry = chars_of(".caliber/");
    let ghost all = crate::text::texts(lines@);
    let mut k: usize = 0;
    while k < lines.len()
        invariant
            k <= lines.len(),
            all == crate::text::texts(lines@),
            all == crate::text::split(content@, '\n'),
            entry@ == ignore_entry(),
            forall|j: int| 0 <= j < k ==> crate::text::trim(#[trigger] all[j]) != ignore_entry(),
        decreases lines.len() - k,
    {
        let line = crate::text::trimmed(&lines[k]);
        assert(all[k as int] == lines@[k as int]@);
        if same_text(&line, &entry) {
            assert(crate::text::trim(all[k as int]) == ignore_entry());
            return None;
        }
        k += 1;
    }
    let mut out = chars;
    if out.len() > 0 && out[out.len() - 1] != '\n' {
        out.push('\n');
    }
    append_chars(&mut out, &entry);
    out.push('\n');
    proof {
        if content@.len() > 0 && content@.last() != '\n' {
            assert(out@ =~= content@.push('\n') + ignore_entry().push('\n'));
        } else {
            assert(out@ =~= content@ + ignore_entry().push('\n'));
        }
    }
    Some(string_of(&out))
}

} // verus!
