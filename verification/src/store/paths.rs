//! Names of files and directories. Paths are texts with slashes between their parts.

use vstd::prelude::*;
use vstd::slice::slice_subrange;

use crate::model::project;
use crate::model::project::Project;
use crate::number;
use crate::number::{integer_text, number_text};
use crate::sort;
use crate::sort::{reverse_key_of, stable_order};
use crate::text;
use crate::text::{
    blank, chars_of, digit, drop_leading, drop_trailing, list_has, lowercase, same_string,
    string_of, trim_string,
};

verus! {

// ----------------------------------------------------------------------- paths

/// The path of a part below a base. A part that begins with a slash stands for itself.
pub open spec fn joined_path(base: Seq<char>, part: Seq<char>) -> Seq<char> {
    if part.len() > 0 && part[0] == '/' {
        part
    } else if base.len() == 0 || base.last() == '/' {
        base + part
    } else {
        base.push('/') + part
    }
}

/// The path of a part below a base.
pub fn join_path(base: &str, part: &str) -> (r: String)
    ensures
        r@ == joined_path(base@, part@),
{
    let b: Vec<char> = chars_of(base);
    let p: Vec<char> = chars_of(part);
    let mut out = String::new();
    if p.len() > 0 && p[0] == '/' {
        out.append(part);
        assert(out@ == part@);
        return out;
    }
    out.append(base);
    assert(out@ == base@);
    if b.len() > 0 && b[b.len() - 1] != '/' {
        out.push('/');
    }
    out.append(part);
    out
}

/// The position behind the last slash.
pub open spec fn last_part_at(s: Seq<char>) -> int
    decreases s.len(),
{
    if s.len() == 0 || s.last() == '/' {
        s.len() as int
    } else {
        last_part_at(s.drop_last())
    }
}

/// A path without slashes, and parts that are single dots, at its end.
pub open spec fn without_end(s: Seq<char>) -> Seq<char>
    decreases s.len(),
{
    if s.len() > 0 && s.last() == '/' {
        without_end(s.drop_last())
    } else if s.len() >= 2 && s.last() == '.' && s[s.len() - 2] == '/' {
        without_end(s.drop_last())
    } else {
        s
    }
}

/// The last part of a path, if it names a file or directory.
pub open spec fn file_name(path: Seq<char>) -> Option<Seq<char>> {
    let s = without_end(path);
    let name = s.skip(last_part_at(s));
    if name.len() == 0 || name == seq!['.', '.'] || name == seq!['.'] {
        None
    } else {
        Some(name)
    }
}

/// The position of the last dot, or -1.
pub open spec fn last_dot(s: Seq<char>) -> int
    decreases s.len(),
{
    if s.len() == 0 {
        -1
    } else if s.last() == '.' {
        s.len() - 1
    } else {
        last_dot(s.drop_last())
    }
}

/// A file's name without its extension. A dot at the beginning starts no extension.
pub open spec fn stem(name: Seq<char>) -> Seq<char> {
    if last_dot(name) <= 0 {
        name
    } else {
        name.take(last_dot(name))
    }
}

/// The last part of a path, if it names a file or directory.
pub fn last_name(path: &str) -> (r: Option<String>)
    ensures
        match r {
            Some(n) => file_name(path@) == Some(n@),
            None => file_name(path@) is None,
        },
{
    let v: Vec<char> = chars_of(path);
    let mut end: usize = v.len();
    assert(v@.take(end as int) == v@);
    while end > 0 && (v[end - 1] == '/' || (end >= 2 && v[end - 1] == '.' && v[end - 2] == '/'))
        invariant
            end <= v.len(),
            without_end(v@) == without_end(v@.take(end as int)),
        decreases end,
    {
        assert(v@.take(end as int).drop_last() == v@.take(end - 1));
        end -= 1;
    }
    let ghost s = v@.take(end as int);
    assert(without_end(s) == s);
    let mut start: usize = end;
    assert(s.take(start as int) == s);
    while start > 0 && v[start - 1] != '/'
        invariant
            start <= end <= v.len(),
            s == v@.take(end as int),
            last_part_at(s) == last_part_at(s.take(start as int)),
        decreases start,
    {
        assert(s.take(start as int).drop_last() == s.take(start - 1));
        start -= 1;
    }
    assert(start > 0 ==> s.take(start as int).last() == '/');
    let name = slice_subrange(v.as_slice(), start, end);
    assert(name@ == s.skip(start as int));
    if name.len() == 0 {
        return None;
    }
    if name.len() == 1 && name[0] == '.' {
        assert(name@ == seq!['.']);
        return None;
    }
    if name.len() == 2 && name[0] == '.' && name[1] == '.' {
        assert(name@ == seq!['.', '.']);
        return None;
    }
    assert(name@ != seq!['.']) by {
        if name@ == seq!['.'] {
            assert(name@[0] == '.');
        }
    }
    assert(name@ != seq!['.', '.']) by {
        if name@ == seq!['.', '.'] {
            assert(name@[0] == '.' && name@[1] == '.');
        }
    }
    Some(string_of(name))
}

/// A file's name without its extension.
pub fn name_stem(name: &str) -> (r: String)
    ensures
        r@ == stem(name@),
{
    let v: Vec<char> = chars_of(name);
    let mut k: usize = v.len();
    assert(v@.take(k as int) == v@);
    while k > 0 && v[k - 1] != '.'
        invariant
            k <= v.len(),
            last_dot(v@) == last_dot(v@.take(k as int)),
        decreases k,
    {
        assert(v@.take(k as int).drop_last() == v@.take(k - 1));
        k -= 1;
    }
    if k <= 1 {
        name.to_owned()
    } else {
        let part = slice_subrange(v.as_slice(), 0, k - 1);
        assert(part@ == v@.take(k - 1));
        string_of(part)
    }
}

// ----------------------------------------------------------------------- dates

/// Whether a text is four, two and two digits with hyphens between them.
pub open spec fn is_date_text(s: Seq<char>) -> bool {
    s.len() == 10 && forall|i: int|
        0 <= i < 10 ==> if i == 4 || i == 7 {
            #[trigger] s[i] == '-'
        } else {
            text::is_digit(s[i])
        }
}

/// Whether a text is four, two and two digits with hyphens between them.
pub fn is_date(s: &str) -> (r: bool)
    ensures
        r == is_date_text(s@),
{
    let v: Vec<char> = chars_of(s);
    if v.len() != 10 {
        return false;
    }
    let mut i: usize = 0;
    while i < 10
        invariant
            i <= 10,
            v@.len() == 10,
            v@ == s@,
            forall|k: int|
                0 <= k < i ==> if k == 4 || k == 7 {
                    #[trigger] v@[k] == '-'
                } else {
                    text::is_digit(v@[k])
                },
        decreases 10 - i,
    {
        if i == 4 || i == 7 {
            if v[i] != '-' {
                assert(s@[i as int] != '-');
                return false;
            }
        } else if !digit(v[i]) {
            assert(!text::is_digit(s@[i as int]));
            return false;
        }
        i += 1;
    }
    true
}

/// Whether a name is that of a daily note: a date with the extension `md`.
pub open spec fn is_note_name(name: Seq<char>) -> bool {
    name.len() == 13 && name.skip(10) == ".md"@ && is_date_text(name.take(10))
}

/// Whether a name is that of a daily note.
pub fn is_date_file(name: &str) -> (r: bool)
    ensures
        r == is_note_name(name@),
{
    let v: Vec<char> = chars_of(name);
    proof {
        reveal_strlit(".md");
        assert(".md"@ == seq!['.', 'm', 'd']);
    }
    if v.len() != 13 {
        return false;
    }
    if v[10] != '.' || v[11] != 'm' || v[12] != 'd' {
        assert(v@.skip(10)[0] == v@[10] && v@.skip(10)[1] == v@[11] && v@.skip(10)[2] == v@[12]);
        return false;
    }
    assert(v@.skip(10) == ".md"@);
    let part = slice_subrange(v.as_slice(), 0, 10);
    assert(part@ == v@.take(10));
    is_date(string_of(part).as_str())
}

/// The date that a path names.
pub open spec fn date_in_path(path: Seq<char>) -> Option<Seq<char>> {
    match file_name(path) {
        Some(name) => if is_date_text(stem(name)) {
            Some(stem(name))
        } else {
            None
        },
        None => None,
    }
}

/// The date that the path of a daily note names.
pub fn date_from_path(path: &str) -> (r: Option<String>)
    ensures
        match r {
            Some(d) => date_in_path(path@) == Some(d@),
            None => date_in_path(path@) is None,
        },
{
    match last_name(path) {
        Some(name) => {
            let s: String = name_stem(name.as_str());
            if is_date(s.as_str()) {
                Some(s)
            } else {
                None
            }
        },
        None => None,
    }
}

/// The path of the note of a day below a data directory.
pub open spec fn note_path_of(dir: Seq<char>, date: Seq<char>) -> Option<Seq<char>> {
    if is_date_text(date) {
        Some(
            joined_path(
                joined_path(
                    joined_path(
                        joined_path(joined_path(dir, "posts"@), date.subrange(0, 4)),
                        date.subrange(5, 7),
                    ),
                    date.subrange(8, 10),
                ),
                date + ".md"@,
            ),
        )
    } else {
        None
    }
}

/// A data directory.
#[derive(Debug)]
pub struct Store {
    pub data_dir: String,
}

impl Store {
    /// The store in a data directory.
    pub fn new(data_dir: String) -> (r: Store)
        ensures
            r.data_dir@ == data_dir@,
    {
        Store { data_dir }
    }

    /// The path of the note of a day.
    pub fn note_path(&self, date: &str) -> (r: Option<String>)
        ensures
            match r {
                Some(p) => note_path_of(self.data_dir@, date@) == Some(p@),
                None => note_path_of(self.data_dir@, date@) is None,
            },
    {
        if !is_date(date) {
            return None;
        }
        let v: Vec<char> = chars_of(date);
        let year: String = string_of(slice_subrange(v.as_slice(), 0, 4));
        let month: String = string_of(slice_subrange(v.as_slice(), 5, 7));
        let day: String = string_of(slice_subrange(v.as_slice(), 8, 10));
        let mut name: String = date.to_owned();
        name.append(".md");
        assert(name@ == date@ + ".md"@);
        let posts: String = join_path(self.data_dir.as_str(), "posts");
        let of_year: String = join_path(posts.as_str(), year.as_str());
        let of_month: String = join_path(of_year.as_str(), month.as_str());
        let of_day: String = join_path(of_month.as_str(), day.as_str());
        Some(join_path(of_day.as_str(), name.as_str()))
    }

    /// The directory of daily notes.
    pub fn posts_dir(&self) -> (r: String)
        ensures
            r@ == joined_path(self.data_dir@, "posts"@),
    {
        join_path(self.data_dir.as_str(), "posts")
    }

    /// The directory of projects.
    pub fn projects_dir(&self) -> (r: String)
        ensures
            r@ == joined_path(self.data_dir@, "projects"@),
    {
        join_path(self.data_dir.as_str(), "projects")
    }

    /// The directory for the state of the screen.
    pub fn state_dir(&self) -> (r: String)
        ensures
            r@ == joined_path(self.data_dir@, ".nota"@),
    {
        join_path(self.data_dir.as_str(), ".nota")
    }

    /// The file with the order of projects.
    pub fn order_path(&self) -> (r: String)
        ensures
            r@ == joined_path(joined_path(self.data_dir@, ".nota"@), "project-order.json"@),
    {
        join_path(self.state_dir().as_str(), "project-order.json")
    }
}

/// The file of a project in its directory.
pub fn project_path(source_dir: &str) -> (r: String)
    ensures
        r@ == joined_path(source_dir@, "project.json"@),
{
    join_path(source_dir, "project.json")
}

/// The knowledge file of a project in its directory.
pub fn knowledge_path(source_dir: &str) -> (r: String)
    ensures
        r@ == joined_path(source_dir@, "knowledge.md"@),
{
    join_path(source_dir, "knowledge.md")
}

// --------------------------------------------------------------------- walking

/// What to do with an entry of a directory of notes.
#[derive(Debug, Clone, Copy, PartialEq, Eq, Structural)]
pub enum Visit {
    /// It is a directory to look into.
    Enter,
    /// It is a daily note.
    Take,
    /// It is left alone.
    Skip,
}

/// Whether a directory is left alone.
pub open spec fn is_ignored_dir(name: Seq<char>) -> bool {
    name == ".git"@ || name == "node_modules"@ || name == "dist"@ || name == "release"@ || name
        == "wiki"@ || name == "images"@
}

/// Decides what to do with an entry of a directory of notes.
pub fn visit(name: &str, is_dir: bool) -> (r: Visit)
    ensures
        r == if is_dir {
            if is_ignored_dir(name@) {
                Visit::Skip
            } else {
                Visit::Enter
            }
        } else if is_note_name(name@) {
            Visit::Take
        } else {
            Visit::Skip
        },
{
    if is_dir {
        if same_string(name, ".git") || same_string(name, "node_modules") || same_string(
            name,
            "dist",
        ) || same_string(name, "release") || same_string(name, "wiki") || same_string(
            name,
            "images",
        ) {
            Visit::Skip
        } else {
            Visit::Enter
        }
    } else if is_date_file(name) {
        Visit::Take
    } else {
        Visit::Skip
    }
}

/// The key by which notes are sorted: the name of the file, backwards.
pub open spec fn note_key(path: Seq<char>) -> Seq<u64> {
    match file_name(path) {
        Some(name) => sort::reverse_text_key(name),
        None => Seq::empty(),
    }
}

/// The paths of notes with the newest first; paths with the same name keep their order.
pub open spec fn newest_first(paths: Seq<Seq<char>>) -> Seq<Seq<char>> {
    sort::picked(paths, sort::order_of(paths.map_values(|p: Seq<char>| note_key(p))))
}

/// Sorts the paths of notes, the newest first.
pub fn sort_note_paths(paths: &Vec<String>) -> (r: Vec<String>)
    ensures
        text::texts(r@) == newest_first(text::texts(paths@)),
{
    let ghost all = text::texts(paths@);
    let ghost wanted = all.map_values(|p: Seq<char>| note_key(p));
    let mut keys: Vec<Vec<u64>> = Vec::new();
    let mut i: usize = 0;
    while i < paths.len()
        invariant
            i <= paths.len(),
            all == text::texts(paths@),
            wanted == all.map_values(|p: Seq<char>| note_key(p)),
            sort::key_views(keys@) == wanted.take(i as int),
        decreases paths.len() - i,
    {
        let ghost done = keys@;
        let key: Vec<u64> = match last_name(paths[i].as_str()) {
            Some(name) => reverse_key_of(name.as_str()),
            None => Vec::new(),
        };
        assert(all[i as int] == paths[i as int]@);
        assert(key@ == wanted[i as int]);
        keys.push(key);
        assert(sort::key_views(keys@) =~= sort::key_views(done).push(key@));
        assert(wanted.take(i + 1) =~= wanted.take(i as int).push(wanted[i as int]));
        i += 1;
    }
    assert(wanted.take(i as int) == wanted);
    assert(keys@.len() == sort::key_views(keys@).len());
    let order: Vec<usize> = stable_order(&keys);
    let ghost places = sort::positions(order@);
    let mut out: Vec<String> = Vec::new();
    let mut k: usize = 0;
    while k < order.len()
        invariant
            k <= order.len(),
            all == text::texts(paths@),
            order@.len() == paths@.len(),
            places == sort::positions(order@),
            forall|p: int| 0 <= p < order@.len() ==> #[trigger] order@[p] < paths@.len(),
            text::texts(out@) == sort::picked(all, places.take(k as int)),
        decreases order.len() - k,
    {
        let ghost done = out@;
        let s: String = paths[order[k]].clone();
        out.push(s);
        assert(text::texts(out@) =~= text::texts(done).push(s@));
        assert(places.take(k + 1) =~= places.take(k as int).push(places[k as int]));
        assert(all[places[k as int]] == s@);
        assert(sort::picked(all, places.take(k + 1)) =~= sort::picked(
            all,
            places.take(k as int),
        ).push(s@));
        k += 1;
    }
    assert(places.take(k as int) == places);
    out
}

// -------------------------------------------------------------------- projects

/// The position of a name in the order, or the number of names.
pub open spec fn place_in(order: Seq<Seq<char>>, name: Seq<char>, i: int) -> int
    decreases order.len() - i,
{
    if i >= order.len() || order[i] == name {
        i
    } else {
        place_in(order, name, i + 1)
    }
}

/// The key by which projects are sorted: those in the order come first, in that order; the
/// others follow, the one that was changed last first.
pub open spec fn project_key(
    order: Seq<Seq<char>>,
    dir_name: Seq<char>,
    updated_at_ms: i64,
) -> Seq<u64> {
    let at = place_in(order, dir_name, 0);
    let later = (i64::MAX - updated_at_ms) as u64;
    if at < order.len() {
        seq![0u64, at as u64, later]
    } else {
        seq![1u64, 0u64, later]
    }
}

/// The projects in the order in which they are listed.
pub open spec fn in_order(
    projects: Seq<project::ProjectView>,
    order: Seq<Seq<char>>,
) -> Seq<project::ProjectView> {
    sort::picked(
        projects,
        sort::order_of(
            projects.map_values(
                |p: project::ProjectView| project_key(order, p.dir_name, p.updated_at_ms),
            ),
        ),
    )
}

/// The key of one project.
fn key_of_project(order: &Vec<String>, p: &Project) -> (r: Vec<u64>)
    ensures
        r@ == project_key(text::texts(order@), p.dir_name@, p.updated_at_ms),
{
    let ghost all = text::texts(order@);
    let mut at: usize = 0;
    while at < order.len() && !same_string(order[at].as_str(), p.dir_name.as_str())
        invariant
            at <= order.len(),
            all == text::texts(order@),
            place_in(all, p.dir_name@, 0) == place_in(all, p.dir_name@, at as int),
        decreases order.len() - at,
    {
        assert(all[at as int] == order[at as int]@);
        at += 1;
    }
    if at < order.len() {
        assert(all[at as int] == order[at as int]@);
    }
    let wide: i128 = i64::MAX as i128 - p.updated_at_ms as i128;
    let later: u64 = wide as u64;
    let mut key: Vec<u64> = Vec::new();
    if at < order.len() {
        key.push(0);
        key.push(at as u64);
    } else {
        key.push(1);
        key.push(0);
    }
    key.push(later);
    assert(key@ =~= project_key(all, p.dir_name@, p.updated_at_ms));
    key
}

/// Sorts projects: those in the order first, the others by when they were changed.
pub fn sort_projects(projects: &Vec<Project>, order: &Vec<String>) -> (r: Vec<Project>)
    ensures
        project::project_views(r@) == in_order(
            project::project_views(projects@),
            text::texts(order@),
        ),
{
    let ghost all = project::project_views(projects@);
    let ghost names = text::texts(order@);
    let ghost wanted = all.map_values(
        |p: project::ProjectView| project_key(names, p.dir_name, p.updated_at_ms),
    );
    let mut keys: Vec<Vec<u64>> = Vec::new();
    let mut i: usize = 0;
    while i < projects.len()
        invariant
            i <= projects.len(),
            all == project::project_views(projects@),
            names == text::texts(order@),
            wanted == all.map_values(
                |p: project::ProjectView| project_key(names, p.dir_name, p.updated_at_ms),
            ),
            sort::key_views(keys@) == wanted.take(i as int),
        decreases projects.len() - i,
    {
        let ghost done = keys@;
        let key: Vec<u64> = key_of_project(order, &projects[i]);
        assert(all[i as int] == projects[i as int]@);
        assert(key@ == wanted[i as int]);
        keys.push(key);
        assert(sort::key_views(keys@) =~= sort::key_views(done).push(key@));
        assert(wanted.take(i + 1) =~= wanted.take(i as int).push(wanted[i as int]));
        i += 1;
    }
    assert(wanted.take(i as int) == wanted);
    assert(keys@.len() == sort::key_views(keys@).len());
    let at: Vec<usize> = stable_order(&keys);
    let ghost places = sort::positions(at@);
    let mut out: Vec<Project> = Vec::new();
    let mut k: usize = 0;
    while k < at.len()
        invariant
            k <= at.len(),
            all == project::project_views(projects@),
            at@.len() == projects@.len(),
            places == sort::positions(at@),
            forall|p: int| 0 <= p < at@.len() ==> #[trigger] at@[p] < projects@.len(),
            project::project_views(out@) == sort::picked(all, places.take(k as int)),
        decreases at.len() - k,
    {
        let ghost done = out@;
        let p: Project = projects[at[k]].clone();
        out.push(p);
        assert(project::project_views(out@) =~= project::project_views(done).push(p@));
        assert(places.take(k + 1) =~= places.take(k as int).push(places[k as int]));
        assert(all[places[k as int]] == p@);
        assert(sort::picked(all, places.take(k + 1)) =~= sort::picked(
            all,
            places.take(k as int),
        ).push(p@));
        k += 1;
    }
    assert(places.take(k as int) == places);
    out
}

/// A project as it was read, with what its directory tells of it.
pub open spec fn placed(
    p: project::ProjectView,
    entry_name: Seq<char>,
    knowledge: Seq<char>,
    source_dir: Seq<char>,
) -> project::ProjectView {
    project::ProjectView {
        name: if p.name.len() == 0 {
            entry_name
        } else {
            p.name
        },
        knowledge,
        source_dir,
        ..p
    }
}

/// Completes a project with what its directory tells of it: a project without a name is
/// called after its directory.
pub fn place_project(
    p: Project,
    entry_name: String,
    knowledge: String,
    source_dir: String,
) -> (r: Project)
    ensures
        r@ == placed(p@, entry_name@, knowledge@, source_dir@),
{
    let mut p: Project = p;
    if p.name.as_str().is_empty() {
        p.name = entry_name;
    }
    p.knowledge = knowledge;
    p.source_dir = source_dir;
    p
}

// ----------------------------------------------------------------------- slugs

/// Whether a character stays in the name of a directory.
pub open spec fn is_slug_char(c: char) -> bool {
    text::is_alphanumeric(c) || c == '_'
}

/// The characters that stay; each run of others becomes a hyphen.
pub open spec fn hyphened(s: Seq<char>) -> Seq<char>
    decreases s.len(),
{
    if s.len() == 0 {
        Seq::empty()
    } else {
        let before = hyphened(s.drop_last());
        if is_slug_char(s.last()) {
            before.push(s.last())
        } else if before.len() > 0 && before.last() == '-' {
            before
        } else {
            before.push('-')
        }
    }
}

/// The name of a directory for a project. A name of which nothing stays is made of the time.
pub open spec fn slug(name: Seq<char>, now_ms: i64) -> Seq<char> {
    slug_of(text::lowercased(text::trimmed(name)), now_ms)
}

/// The name of a directory for a project whose name is already in small letters.
pub open spec fn slug_of(low: Seq<char>, now_ms: i64) -> Seq<char> {
    let s = text::without_trailing(text::without_leading(hyphened(low), '-', '-'), '-');
    if s.len() == 0 {
        "project-"@ + number::signed_decimal(now_ms as int)
    } else {
        s
    }
}

/// Whether a text holds none of the letters from `A` to `Z`.
pub open spec fn no_capitals(s: Seq<char>) -> bool {
    forall|i: int| 0 <= i < s.len() ==> !('A' <= #[trigger] s[i] <= 'Z')
}

/// A name that is made of the time holds no capitals.
proof fn lemma_time_name(now_ms: i64)
    ensures
        no_capitals("project-"@ + number::signed_decimal(now_ms as int)),
{
    reveal_strlit("project-");
    let p = "project-"@;
    assert(p.len() == 8);
    assert(p[0] == 'p' && p[1] == 'r' && p[2] == 'o' && p[3] == 'j' && p[4] == 'e' && p[5] == 'c'
        && p[6] == 't' && p[7] == '-');
    let m: nat = if now_ms < 0 {
        (-now_ms) as nat
    } else {
        now_ms as nat
    };
    number::lemma_decimal(m);
    let d = number::signed_decimal(now_ms as int);
    let s = p + d;
    assert forall|i: int| 0 <= i < s.len() implies !('A' <= #[trigger] s[i] <= 'Z') by {
        if i >= 8 {
            assert(s[i] == d[i - 8]);
            if now_ms < 0 {
                if i > 8 {
                    assert(d[i - 8] == number::decimal(m)[i - 9]);
                }
            } else {
                assert(d[i - 8] == number::decimal(m)[i - 8]);
            }
        }
    }
}

/// Makes the name of a directory for a project. It holds small letters alone.
pub fn slugify(name: &str, now_ms: i64) -> (r: String)
    ensures
        r@ == slug(name@, now_ms),
        no_capitals(r@),
        text::all_plain(text::trimmed(name@)) ==> r@ == slug_of(
            text::small(text::trimmed(name@)),
            now_ms,
        ),
{
    let lower: String = lowercase(trim_string(name).as_str());
    let v: Vec<char> = chars_of(lower.as_str());
    let mut out: Vec<char> = Vec::new();
    let mut i: usize = 0;
    while i < v.len()
        invariant
            i <= v.len(),
            out@ == hyphened(v@.take(i as int)),
        decreases v.len() - i,
    {
        assert(v@.take(i + 1).drop_last() == v@.take(i as int));
        let c: char = v[i];
        if crate::text::alphanumeric(c) || c == '_' {
            out.push(c);
        } else if out.len() > 0 && out[out.len() - 1] == '-' {
        } else {
            out.push('-');
        }
        i += 1;
    }
    assert(v@.take(i as int) == v@);
    let kept = drop_trailing(drop_leading(out.as_slice(), '-', '-'), '-');
    proof {
        law_slug_is_plain(name@, now_ms);
    }
    if kept.len() == 0 {
        let mut s: String = "project-".to_owned();
        s.append(integer_text(now_ms).as_str());
        assert(s@ == "project-"@ + number::signed_decimal(now_ms as int));
        s
    } else {
        string_of(kept)
    }
}

/// The name that is tried at an attempt, counted from 1.
pub open spec fn candidate(slug: Seq<char>, attempt: nat) -> Seq<char> {
    if attempt <= 1 {
        slug
    } else {
        slug + seq!['-'] + number::decimal(attempt)
    }
}

/// The name that is tried at an attempt.
fn candidate_name(slug: &str, attempt: u64) -> (r: String)
    ensures
        r@ == candidate(slug@, attempt as nat),
{
    let mut out: String = slug.to_owned();
    if attempt > 1 {
        out.push('-');
        out.append(number_text(attempt).as_str());
        assert(out@ == slug@ + seq!['-'] + number::decimal(attempt as nat));
    }
    out
}

/// The first attempt from `i` on whose name is not taken, up to `bound`.
pub open spec fn free_attempt(slug: Seq<char>, taken: Seq<Seq<char>>, i: nat, bound: nat) -> nat
    decreases bound - i,
{
    if i >= bound || !taken.contains(candidate(slug, i)) {
        i
    } else {
        free_attempt(slug, taken, i + 1, bound)
    }
}

/// A name for the directory of a new project that is not taken: the plain one, or the first
/// with a number behind it, counted from 2.
pub open spec fn free_name(taken: Seq<Seq<char>>, name: Seq<char>, now_ms: i64) -> Seq<char> {
    let s = slug(name, now_ms);
    candidate(s, free_attempt(s, taken, 1, taken.len() + 1))
}

/// The name that a new project gets: without white space around it, and none where there
/// is nothing else.
pub fn project_name(name: &str) -> (r: Option<String>)
    ensures
        match r {
            Some(s) => !text::is_blank(name@) && s@ == text::trimmed(name@),
            None => text::is_blank(name@),
        },
{
    if blank(name) {
        None
    } else {
        Some(trim_string(name))
    }
}

/// Finds a name for the directory of a new project that is not taken.
pub fn unique_dir_name(taken: &[String], name: &str, now_ms: i64) -> (r: String)
    requires
        taken@.len() < u64::MAX,
    ensures
        r@ == free_name(text::texts(taken@), name@, now_ms),
        no_capitals(r@),
{
    let slug_name: String = slugify(name, now_ms);
    let ghost all = text::texts(taken@);
    let ghost s = slug_name@;
    let bound: u64 = taken.len() as u64 + 1;
    let mut i: u64 = 1;
    let mut out: String = candidate_name(slug_name.as_str(), i);
    while i < bound && list_has(taken, out.as_str())
        invariant
            1 <= i <= bound,
            bound == taken@.len() + 1,
            all == text::texts(taken@),
            s == slug_name@,
            no_capitals(s),
            out@ == candidate(s, i as nat),
            free_attempt(s, all, 1, bound as nat) == free_attempt(s, all, i as nat, bound as nat),
        decreases bound - i,
    {
        i += 1;
        out = candidate_name(slug_name.as_str(), i);
    }
    proof {
        lemma_candidate_small(s, i as nat);
    }
    out
}

/// A number behind a name brings no capitals.
proof fn lemma_candidate_small(slug: Seq<char>, attempt: nat)
    requires
        no_capitals(slug),
    ensures
        no_capitals(candidate(slug, attempt)),
{
    let c = candidate(slug, attempt);
    number::lemma_decimal(attempt);
    assert forall|i: int| 0 <= i < c.len() implies !('A' <= #[trigger] c[i] <= 'Z') by {
        if i < slug.len() {
            assert(c[i] == slug[i]);
        } else if i > slug.len() {
            assert(c[i] == number::decimal(attempt)[i - slug.len() - 1]);
        }
    }
}

// ------------------------------------------------------------------------ laws

proof fn lemma_stem(date: Seq<char>)
    requires
        is_date_text(date),
    ensures
        stem(date + ".md"@) == date,
{
    reveal_strlit(".md");
    let n = date + ".md"@;
    assert(n.len() == 13);
    assert(n[10] == '.' && n[11] == 'm' && n[12] == 'd');
    assert(n.drop_last().last() == 'm');
    assert(n.drop_last().drop_last().last() == '.');
    assert(last_dot(n.drop_last().drop_last()) == 10);
    assert(last_dot(n.drop_last()) == 10);
    assert(last_dot(n) == 10);
    assert(n.take(10) == date);
}

proof fn lemma_last_part_of(base: Seq<char>, name: Seq<char>)
    requires
        !name.contains('/'),
        base.len() == 0 || base.last() == '/',
    ensures
        last_part_at(base + name) == base.len(),
    decreases name.len(),
{
    let s = base + name;
    if name.len() > 0 {
        assert(s.drop_last() == base + name.drop_last());
        assert(s.last() == name.last());
        assert(name.contains(name.last()));
        assert(!name.drop_last().contains('/')) by {
            if name.drop_last().contains('/') {
                let k = choose|k: int|
                    0 <= k < name.drop_last().len() && name.drop_last()[k] == '/';
                assert(name[k] == '/');
            }
        }
        lemma_last_part_of(base, name.drop_last());
    } else {
        assert(s == base);
    }
}

/// The path of the note of a day names that day.
pub proof fn law_note_path_names_date(dir: Seq<char>, date: Seq<char>)
    requires
        is_date_text(date),
    ensures
        note_path_of(dir, date) is Some,
        date_in_path(note_path_of(dir, date)->0) == Some(date),
{
    reveal_strlit(".md");
    let name = date + ".md"@;
    let path = note_path_of(dir, date)->0;
    assert(name[0] == date[0]);
    assert(text::is_digit(date[0]));
    let base = path.take(path.len() - name.len());
    assert(path == base + name);
    assert(!name.contains('/')) by {
        if name.contains('/') {
            let k = choose|k: int| 0 <= k < name.len() && name[k] == '/';
            if k < 10 {
                assert(name[k] == date[k]);
            }
        }
    }
    assert(base.len() == 0 || base.last() == '/');
    lemma_last_part_of(base, name);
    assert(path.last() == name.last());
    assert(name.last() == 'd');
    assert(without_end(path) == path);
    assert(path.skip(base.len() as int) == name);
    assert(name.len() == 13);
    lemma_stem(date);
}

proof fn lemma_hyphened(s: Seq<char>)
    ensures
        forall|i: int|
            0 <= i < hyphened(s).len() ==> is_slug_char(#[trigger] hyphened(s)[i]) || hyphened(s)[i]
                == '-',
        forall|i: int|
            0 < i < hyphened(s).len() ==> !(#[trigger] hyphened(s)[i] == '-' && hyphened(s)[i - 1]
                == '-'),
    decreases s.len(),
{
    if s.len() > 0 {
        lemma_hyphened(s.drop_last());
        let before = hyphened(s.drop_last());
        let h = hyphened(s);
        assert forall|i: int| 0 <= i < h.len() implies is_slug_char(#[trigger] h[i]) || h[i]
            == '-' by {
            if i < before.len() {
                assert(h[i] == before[i]);
            }
        }
        assert forall|i: int| 0 < i < h.len() implies !(#[trigger] h[i] == '-' && h[i - 1]
            == '-') by {
            if i < before.len() {
                assert(h[i] == before[i] && h[i - 1] == before[i - 1]);
            } else {
                assert(h[i - 1] == before[i - 1]);
            }
        }
    }
}

proof fn lemma_hyphened_small(s: Seq<char>)
    requires
        no_capitals(s),
    ensures
        no_capitals(hyphened(s)),
    decreases s.len(),
{
    if s.len() > 0 {
        let front = s.drop_last();
        assert forall|i: int| 0 <= i < front.len() implies !('A' <= #[trigger] front[i] <= 'Z') by {
            assert(front[i] == s[i]);
        }
        lemma_hyphened_small(front);
        let before = hyphened(front);
        let h = hyphened(s);
        assert(!('A' <= s[s.len() - 1] <= 'Z'));
        assert forall|i: int| 0 <= i < h.len() implies !('A' <= #[trigger] h[i] <= 'Z') by {
            if i < before.len() {
                assert(h[i] == before[i]);
            }
        }
    }
}

proof fn lemma_stripped(s: Seq<char>)
    ensures
        ({
            let a = text::without_leading(s, '-', '-');
            let b = text::without_trailing(a, '-');
            &&& a.len() <= s.len() && a == s.skip(s.len() - a.len())
            &&& a.len() > 0 ==> a[0] != '-'
            &&& b.len() <= a.len() && b == a.take(b.len() as int)
            &&& b.len() > 0 ==> b.last() != '-'
        }),
{
    lemma_leading(s);
    lemma_trailing(text::without_leading(s, '-', '-'));
}

proof fn lemma_leading(s: Seq<char>)
    ensures
        ({
            let a = text::without_leading(s, '-', '-');
            &&& a.len() <= s.len() && a == s.skip(s.len() - a.len())
            &&& a.len() > 0 ==> a[0] != '-'
        }),
    decreases s.len(),
{
    if s.len() > 0 && s[0] == '-' {
        lemma_leading(s.skip(1));
        let a = text::without_leading(s, '-', '-');
        assert(s.skip(1).skip(s.len() - 1 - a.len()) == s.skip(s.len() - a.len()));
    } else {
        assert(s.skip(0) == s);
    }
}

proof fn lemma_trailing(a: Seq<char>)
    ensures
        ({
            let b = text::without_trailing(a, '-');
            &&& b.len() <= a.len() && b == a.take(b.len() as int)
            &&& b.len() > 0 ==> b.last() != '-'
        }),
    decreases a.len(),
{
    if a.len() > 0 && a.last() == '-' {
        lemma_trailing(a.drop_last());
        let b = text::without_trailing(a, '-');
        assert(a.drop_last().take(b.len() as int) == a.take(b.len() as int));
    } else {
        assert(a.take(a.len() as int) == a);
    }
}

/// The name of a directory is not empty and is made of ASCII letters, digits, underscores
/// and hyphens, of which no two stand together, and none at either end unless the time that
/// it is made of is negative. It holds no capital letters, as none are in what the name is in
/// small letters.
pub proof fn law_slug_is_plain(name: Seq<char>, now_ms: i64)
    ensures
        slug(name, now_ms).len() > 0,
        no_capitals(text::lowercased(text::trimmed(name))) ==> no_capitals(slug(name, now_ms)),
        forall|i: int|
            0 <= i < slug(name, now_ms).len() ==> is_slug_char(#[trigger] slug(name, now_ms)[i])
                || slug(name, now_ms)[i] == '-',
        now_ms >= 0 ==> slug(name, now_ms)[0] != '-' && slug(name, now_ms).last() != '-'
            && forall|i: int|
            0 < i < slug(name, now_ms).len() ==> !(#[trigger] slug(name, now_ms)[i] == '-' && slug(
                name,
                now_ms,
            )[i - 1] == '-'),
{
    let h = hyphened(text::lowercased(text::trimmed(name)));
    let a = text::without_leading(h, '-', '-');
    let b = text::without_trailing(a, '-');
    lemma_hyphened(text::lowercased(text::trimmed(name)));
    lemma_stripped(h);
    let s = slug(name, now_ms);
    if no_capitals(text::lowercased(text::trimmed(name))) {
        lemma_hyphened_small(text::lowercased(text::trimmed(name)));
        lemma_time_name(now_ms);
        assert forall|i: int| 0 <= i < b.len() implies !('A' <= #[trigger] b[i] <= 'Z') by {
            assert(b[i] == a[i] && a[i] == h[h.len() - a.len() + i]);
        }
    }
    if b.len() > 0 {
        let k = h.len() - a.len();
        assert forall|i: int| 0 <= i < b.len() implies #[trigger] b[i] == h[k + i] by {
            assert(b[i] == a[i]);
        }
        assert(b[0] == a[0]);
    } else {
        reveal_strlit("project-");
        let d = number::signed_decimal(now_ms as int);
        let p = "project-"@;
        assert(p.len() == 8);
        assert(p[0] == 'p' && p[1] == 'r' && p[2] == 'o' && p[3] == 'j' && p[4] == 'e' && p[5]
            == 'c' && p[6] == 't' && p[7] == '-');
        let m: nat = if now_ms < 0 {
            (-now_ms) as nat
        } else {
            now_ms as nat
        };
        number::lemma_decimal(m);
        assert forall|i: int| 0 <= i < s.len() implies is_slug_char(#[trigger] s[i]) || s[i]
            == '-' by {
            if i >= 8 {
                assert(s[i] == d[i - 8]);
                if now_ms < 0 {
                    if i > 8 {
                        assert(d[i - 8] == number::decimal(m)[i - 9]);
                    }
                } else {
                    assert(d[i - 8] == number::decimal(m)[i - 8]);
                }
            } else {
                assert(s[i] == p[i]);
            }
        }
        if now_ms >= 0 {
            assert(s[0] == 'p');
            assert(s.last() == d.last());
            assert forall|i: int| 0 < i < s.len() implies !(#[trigger] s[i] == '-' && s[i - 1]
                == '-') by {
                if i >= 8 {
                    assert(s[i] == number::decimal(m)[i - 8]);
                } else {
                    assert(s[i - 1] == p[i - 1]);
                }
            }
        }
    }
}

proof fn lemma_candidates_differ(s: Seq<char>, i: nat, j: nat)
    requires
        1 <= i < j,
    ensures
        candidate(s, i) != candidate(s, j),
{
    number::lemma_decimal(i);
    number::lemma_decimal(j);
    let b = s + seq!['-'] + number::decimal(j);
    if i <= 1 {
        assert(b.len() > s.len());
    } else {
        let a = s + seq!['-'] + number::decimal(i);
        assert(a.skip(s.len() as int + 1) == number::decimal(i));
        assert(b.skip(s.len() as int + 1) == number::decimal(j));
    }
}

pub proof fn lemma_free_attempt(s: Seq<char>, taken: Seq<Seq<char>>, i: nat, bound: nat)
    requires
        i <= bound,
    ensures
        i <= free_attempt(s, taken, i, bound) <= bound,
        free_attempt(s, taken, i, bound) < bound ==> !taken.contains(
            candidate(s, free_attempt(s, taken, i, bound)),
        ),
        forall|k: nat|
            i <= k < free_attempt(s, taken, i, bound) ==> taken.contains(#[trigger] candidate(s, k)),
    decreases bound - i,
{
    if i < bound && taken.contains(candidate(s, i)) {
        lemma_free_attempt(s, taken, i + 1, bound);
    }
}

/// The name for the directory of a new project is not among those that are taken.
pub proof fn law_free_name_is_free(taken: Seq<Seq<char>>, name: Seq<char>, now_ms: i64)
    ensures
        !taken.contains(free_name(taken, name, now_ms)),
{
    let s = slug(name, now_ms);
    let bound = taken.len() + 1;
    let at = free_attempt(s, taken, 1, bound);
    lemma_free_attempt(s, taken, 1, bound);
    if at == bound && taken.contains(candidate(s, at)) {
        // There would be one name more than there is room for.
        let tried = Seq::new(bound, |k: int| candidate(s, (k + 1) as nat));
        assert forall|k: int, l: int| 0 <= k < l < tried.len() implies tried[k] != tried[l] by {
            lemma_candidates_differ(s, (k + 1) as nat, (l + 1) as nat);
        }
        assert(tried.no_duplicates());
        tried.unique_seq_to_set();
        taken.lemma_cardinality_of_set();
        vstd::seq_lib::seq_to_set_is_finite(taken);
        assert(tried.to_set().subset_of(taken.to_set())) by {
            assert forall|x: Seq<char>| tried.to_set().contains(x) implies taken.to_set().contains(
                x,
            ) by {
                let k = choose|k: int| 0 <= k < tried.len() && tried[k] == x;
                assert(tried[k] == candidate(s, (k + 1) as nat));
                assert(taken.contains(candidate(s, (k + 1) as nat)));
            }
        }
        vstd::set_lib::lemma_len_subset(tried.to_set(), taken.to_set());
    }
}

/// Whether no two projects lie in the same directory.
pub open spec fn lie_apart(projects: Seq<project::ProjectView>) -> bool {
    forall|i: int, j: int|
        0 <= i < j < projects.len() ==> (#[trigger] projects[i]).dir_name != (
        #[trigger] projects[j]).dir_name
}

/// Whether two lists hold the same projects, each once, in whatever order.
pub open spec fn same_projects(
    a: Seq<project::ProjectView>,
    b: Seq<project::ProjectView>,
) -> bool {
    &&& a.len() == b.len()
    &&& a.no_duplicates()
    &&& forall|i: int| 0 <= i < a.len() ==> b.contains(#[trigger] a[i])
}

/// The names of the directories of projects, as the order file holds them.
pub open spec fn dir_names(projects: Seq<project::ProjectView>) -> Seq<Seq<char>> {
    projects.map_values(|p: project::ProjectView| p.dir_name)
}

/// A name is found at the first place where it stands.
proof fn lemma_place_in(names: Seq<Seq<char>>, i: int, at: int)
    requires
        0 <= i <= at < names.len(),
        forall|j: int| i <= j < at ==> #[trigger] names[j] != names[at],
    ensures
        place_in(names, names[at], i) == at,
    decreases at - i,
{
    if i < at {
        lemma_place_in(names, i + 1, at);
    }
}

/// Numbers below their count that rise are the numbers from 0 on.
proof fn lemma_rising(q: Seq<int>, p: int)
    requires
        0 <= p < q.len(),
        forall|i: int| 0 <= i < q.len() ==> 0 <= #[trigger] q[i] < q.len(),
        forall|i: int, j: int| 0 <= i < j < q.len() ==> #[trigger] q[i] < #[trigger] q[j],
    ensures
        q[p] == p,
{
    lemma_rising_low(q, p);
    lemma_rising_high(q, p);
}

proof fn lemma_rising_low(q: Seq<int>, p: int)
    requires
        0 <= p < q.len(),
        forall|i: int| 0 <= i < q.len() ==> 0 <= #[trigger] q[i] < q.len(),
        forall|i: int, j: int| 0 <= i < j < q.len() ==> #[trigger] q[i] < #[trigger] q[j],
    ensures
        q[p] >= p,
    decreases p,
{
    if p > 0 {
        lemma_rising_low(q, p - 1);
        assert(q[p - 1] < q[p]);
    }
}

proof fn lemma_rising_high(q: Seq<int>, p: int)
    requires
        0 <= p < q.len(),
        forall|i: int| 0 <= i < q.len() ==> 0 <= #[trigger] q[i] < q.len(),
        forall|i: int, j: int| 0 <= i < j < q.len() ==> #[trigger] q[i] < #[trigger] q[j],
    ensures
        q[p] <= p,
    decreases q.len() - p,
{
    if p + 1 < q.len() {
        lemma_rising_high(q, p + 1);
        assert(q[p] < q[p + 1]);
    }
}

/// Of two keys of listed projects, the one with the earlier place comes first.
proof fn lemma_earlier_key(a: u64, x: u64, b: u64, y: u64)
    requires
        a < b,
    ensures
        sort::key_less(seq![0u64, a, x], seq![0u64, b, y]),
{
    let k = seq![0u64, a, x];
    let l = seq![0u64, b, y];
    assert(k.skip(1)[0] == a && l.skip(1)[0] == b);
    reveal_with_fuel(sort::key_less, 2);
}

/// Projects that are read with the order that was saved of them are listed in that order,
/// in whatever order their directories were found.
pub proof fn law_saved_order_is_kept(
    found: Seq<project::ProjectView>,
    listed: Seq<project::ProjectView>,
)
    requires
        lie_apart(listed),
        same_projects(found, listed),
        listed.len() <= u64::MAX,
    ensures
        in_order(found, dir_names(listed)) == listed,
{
    let names = dir_names(listed);
    let keys = found.map_values(
        |p: project::ProjectView| project_key(names, p.dir_name, p.updated_at_ms),
    );
    let order = sort::order_of(keys);
    let r = in_order(found, names);
    sort::law_order_is_stable(keys);
    let q = Seq::new(r.len(), |p: int| place_in(names, r[p].dir_name, 0));
    assert forall|p: int| 0 <= p < r.len() implies {
        &&& 0 <= #[trigger] q[p] < q.len()
        &&& listed[q[p]] == r[p]
        &&& r[p] == found[order[p]]
        &&& keys[order[p]] == seq![
            0u64,
            q[p] as u64,
            (i64::MAX - r[p].updated_at_ms) as u64,
        ]
    } by {
        let j = order[p];
        assert(0 <= j < found.len());
        assert(listed.contains(found[j]));
        let at = choose|at: int| 0 <= at < listed.len() && listed[at] == found[j];
        assert(names[at] == r[p].dir_name);
        assert forall|i: int| 0 <= i < at implies #[trigger] names[i] != names[at] by {
            assert(names[i] == listed[i].dir_name);
        }
        lemma_place_in(names, 0, at);
    }
    assert forall|i: int, j: int| 0 <= i < j < q.len() implies #[trigger] q[i]
        < #[trigger] q[j] by {
        assert(order[i] != order[j]);
        assert(found[order[i]] != found[order[j]]);
        assert(listed[q[i]] == r[i] && listed[q[j]] == r[j]);
        if q[j] < q[i] {
            lemma_earlier_key(
                q[j] as u64,
                (i64::MAX - r[j].updated_at_ms) as u64,
                q[i] as u64,
                (i64::MAX - r[i].updated_at_ms) as u64,
            );
            assert(!sort::key_less(keys[order[j]], keys[order[i]]));
        }
    }
    assert forall|p: int| 0 <= p < r.len() implies r[p] == listed[p] by {
        lemma_rising(q, p);
        assert(listed[q[p]] == r[p]);
    }
    assert(r =~= listed);
}

} // verus!
