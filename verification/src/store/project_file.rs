//! Editing project files: only what changes is replaced, all else in the JSON is kept.

use vstd::prelude::*;

use crate::json;
use crate::json::{
    close, field_is, parse_json, print_json, set_member, take_member, Json, JsonView,
    MAX_DEPTH,
};
use crate::model::project;
use crate::model::status::TaskStatus;

verus! {

// ----------------------------------------------------------------- identifiers

/// Whether a character is a digit of a lower-case hexadecimal number.
pub open spec fn is_hex(c: char) -> bool {
    ('0' <= c <= '9') || ('a' <= c <= 'f')
}

/// Whether a text has the form of a random identifier: groups of 8, 4, 4, 4 and 12
/// hexadecimal digits with hyphens between them, the third group beginning with 4.
pub open spec fn is_id(s: Seq<char>) -> bool {
    &&& s.len() == 36
    &&& s[8] == '-' && s[13] == '-' && s[18] == '-' && s[23] == '-'
    &&& s[14] == '4'
    &&& forall|i: int|
        0 <= i < 36 && i != 8 && i != 13 && i != 18 && i != 23 ==> is_hex(#[trigger] s[i])
}

/// `Uuid::new_v4` of the `uuid` crate and its text. Claimed of them: the text has the form
/// of a random identifier. Which one it is, is left open.
#[verifier::external_body]
pub(crate) fn new_id() -> (r: String)
    ensures
        is_id(r@),
{
    uuid::Uuid::new_v4().to_string()
}

/// Makes identifiers.
fn new_ids(n: usize) -> (r: Vec<String>)
    ensures
        r@.len() == n,
        forall|i: int| 0 <= i < n ==> is_id(#[trigger] r@[i]@),
{
    let mut out: Vec<String> = Vec::new();
    let mut i: usize = 0;
    while i < n
        invariant
            i <= n,
            out@.len() == i,
            forall|k: int| 0 <= k < i ==> is_id(#[trigger] out@[k]@),
        decreases n - i,
    {
        out.push(new_id());
        i += 1;
    }
    out
}

// ----------------------------------------------------------------------- tasks

/// A new task of a project file.
pub open spec fn new_task(id: Seq<char>, title: Seq<char>, now_ms: i64) -> JsonView {
    json::object(
        seq![
            ("id"@, JsonView::Str(id)),
            ("title"@, JsonView::Str(title)),
            ("status"@, JsonView::Str("Backlog"@)),
            ("createdAtMs"@, JsonView::Int(now_ms)),
            ("updatedAtMs"@, JsonView::Int(now_ms)),
            ("completedAtMs"@, JsonView::Int(0)),
            ("source"@, JsonView::Str("local"@)),
            ("sourceUrl"@, JsonView::Str(""@)),
            ("repository"@, JsonView::Str(""@)),
        ],
    )
}

/// A task of a project file with a state. Where the state changes, so does the time of the
/// last change, and the time of completion is set or taken back.
pub open spec fn with_state(task: JsonView, status: TaskStatus, now_ms: i64) -> JsonView {
    if json::as_text(json::field(task, "status"@)) == Some(status.title()) {
        task
    } else {
        json::with_field(
            json::with_field(
                json::with_field(task, "status"@, JsonView::Str(status.title())),
                "updatedAtMs"@,
                JsonView::Int(now_ms),
            ),
            "completedAtMs"@,
            JsonView::Int(
                if status is Done {
                    now_ms
                } else {
                    0
                },
            ),
        )
    }
}

/// The first task from `i` on with a title, or the number of tasks.
pub open spec fn first_titled(tasks: Seq<JsonView>, title: Seq<char>, i: int) -> int
    decreases tasks.len() - i,
{
    if i >= tasks.len() || json::as_text(json::field(tasks[i], "title"@)) == Some(title) {
        i
    } else {
        first_titled(tasks, title, i + 1)
    }
}

/// The tasks that are left when each wanted one has taken the first with its title.
pub open spec fn left_over(old: Seq<JsonView>, wanted: Seq<(TaskStatus, Seq<char>)>) -> Seq<
    JsonView,
>
    decreases wanted.len(),
{
    if wanted.len() == 0 {
        old
    } else {
        let before = left_over(old, wanted.drop_last());
        let at = first_titled(before, wanted.last().1, 0);
        if at < before.len() {
            before.remove(at)
        } else {
            before
        }
    }
}

/// The tasks of a project file brought in line with wanted ones: a task with the same title
/// is kept with all it holds, a missing one is made, and the states are set.
pub open spec fn task_values(
    old: Seq<JsonView>,
    wanted: Seq<(TaskStatus, Seq<char>)>,
    ids: Seq<Seq<char>>,
    now_ms: i64,
) -> Seq<JsonView>
    decreases wanted.len(),
{
    if wanted.len() == 0 {
        Seq::empty()
    } else {
        let k = wanted.len() - 1;
        let pool = left_over(old, wanted.drop_last());
        let (status, title) = wanted.last();
        let at = first_titled(pool, title, 0);
        let task = if at < pool.len() {
            pool[at]
        } else {
            new_task(ids[k], title, now_ms)
        };
        task_values(old, wanted.drop_last(), ids, now_ms).push(with_state(task, status, now_ms))
    }
}

/// The tasks that a project file holds.
pub open spec fn tasks_of(root: JsonView) -> Seq<JsonView> {
    match json::field(root, "tasks"@) {
        Some(JsonView::Arr(tasks)) => tasks,
        _ => Seq::empty(),
    }
}

/// A project file with its tasks brought in line with wanted ones.
pub open spec fn with_tasks(
    root: JsonView,
    wanted: Seq<(TaskStatus, Seq<char>)>,
    ids: Seq<Seq<char>>,
    now_ms: i64,
) -> JsonView {
    json::with_field(
        json::with_field(
            root,
            "tasks"@,
            JsonView::Arr(task_values(tasks_of(root), wanted, ids, now_ms)),
        ),
        "updatedAtMs"@,
        JsonView::Int(now_ms),
    )
}

/// A project file with the time it was archived; 0 where it is not.
pub open spec fn with_archived(root: JsonView, archived_at_ms: i64, now_ms: i64) -> JsonView {
    json::with_field(
        json::with_field(root, "archivedAtMs"@, JsonView::Int(archived_at_ms)),
        "updatedAtMs"@,
        JsonView::Int(now_ms),
    )
}

/// The file of a new project.
pub open spec fn new_project(
    id: Seq<char>,
    name: Seq<char>,
    dir_name: Seq<char>,
    now_ms: i64,
) -> JsonView {
    json::object(
        seq![
            ("id"@, JsonView::Str(id)),
            ("name"@, JsonView::Str(name)),
            ("dirName"@, JsonView::Str(dir_name)),
            ("createdAtMs"@, JsonView::Int(now_ms)),
            ("updatedAtMs"@, JsonView::Int(now_ms)),
            ("archivedAtMs"@, JsonView::Int(0)),
            ("issueUrl"@, JsonView::Str(""@)),
            ("tasks"@, JsonView::Arr(Seq::empty())),
        ],
    )
}

// ------------------------------------------------------------------------ code

/// Why a project file was not changed.
#[derive(Debug, Clone, Copy, PartialEq, Eq, Structural)]
pub enum FileError {
    /// The text is no JSON.
    NotJson,
    /// The JSON is no object.
    NotObject,
    /// The JSON could not be written.
    NotWritten,
}

impl FileError {
    /// What went wrong, in words.
    pub fn message(self) -> (r: &'static str)
        ensures
            r@ == match self {
                FileError::NotJson => "JSON として読めません"@,
                FileError::NotObject => "JSON がオブジェクトではありません"@,
                FileError::NotWritten => "JSON を書き出せません"@,
            },
    {
        match self {
            FileError::NotJson => "JSON として読めません",
            FileError::NotObject => "JSON がオブジェクトではありません",
            FileError::NotWritten => "JSON を書き出せません",
        }
    }
}

proof fn lemma_object_push(
    fields: Seq<(Seq<char>, JsonView)>,
    m: Map<Seq<char>, JsonView>,
    key: Seq<char>,
    v: JsonView,
)
    requires
        json::object(fields) == JsonView::Obj(m),
    ensures
        json::object(fields.push((key, v))) == JsonView::Obj(m.insert(key, v)),
{
    assert(fields.push((key, v)).drop_last() == fields);
}

/// Adds a text member to an object that is being built.
fn put(
    fields: &mut Vec<(String, serde_json::Value)>,
    key: &str,
    v: Json,
    Ghost(built): Ghost<Seq<(Seq<char>, JsonView)>>,
)
    requires
        json::object(built) == JsonView::Obj(json::members(old(fields)@)),
    ensures
        json::object(built.push((key@, v@))) == JsonView::Obj(json::members(final(fields)@)),
{
    proof {
        lemma_object_push(built, json::members(fields@), key@, v@);
    }
    set_member(fields, key, v);
}

/// Makes a new task of a project file.
pub fn new_task_value(id: String, title: &str, now_ms: i64) -> (r: Json)
    ensures
        r@ == new_task(id@, title@, now_ms),
        r is Obj,
{
    let mut f: Vec<(String, serde_json::Value)> = Vec::new();
    let ghost b0 = Seq::<(Seq<char>, JsonView)>::empty();
    let ghost b1 = b0.push(("id"@, JsonView::Str(id@)));
    let ghost b2 = b1.push(("title"@, JsonView::Str(title@)));
    let ghost b3 = b2.push(("status"@, JsonView::Str("Backlog"@)));
    let ghost b4 = b3.push(("createdAtMs"@, JsonView::Int(now_ms)));
    let ghost b5 = b4.push(("updatedAtMs"@, JsonView::Int(now_ms)));
    let ghost b6 = b5.push(("completedAtMs"@, JsonView::Int(0)));
    let ghost b7 = b6.push(("source"@, JsonView::Str("local"@)));
    let ghost b8 = b7.push(("sourceUrl"@, JsonView::Str(""@)));
    let ghost b9 = b8.push(("repository"@, JsonView::Str(""@)));
    put(&mut f, "id", Json::Str(id), Ghost(b0));
    put(&mut f, "title", Json::Str(title.to_owned()), Ghost(b1));
    put(&mut f, "status", Json::Str("Backlog".to_owned()), Ghost(b2));
    put(&mut f, "createdAtMs", Json::Int(now_ms), Ghost(b3));
    put(&mut f, "updatedAtMs", Json::Int(now_ms), Ghost(b4));
    put(&mut f, "completedAtMs", Json::Int(0), Ghost(b5));
    put(&mut f, "source", Json::Str("local".to_owned()), Ghost(b6));
    put(&mut f, "sourceUrl", Json::Str("".to_owned()), Ghost(b7));
    put(&mut f, "repository", Json::Str("".to_owned()), Ghost(b8));
    assert(b9 == seq![
        ("id"@, JsonView::Str(id@)),
        ("title"@, JsonView::Str(title@)),
        ("status"@, JsonView::Str("Backlog"@)),
        ("createdAtMs"@, JsonView::Int(now_ms)),
        ("updatedAtMs"@, JsonView::Int(now_ms)),
        ("completedAtMs"@, JsonView::Int(0)),
        ("source"@, JsonView::Str("local"@)),
        ("sourceUrl"@, JsonView::Str(""@)),
        ("repository"@, JsonView::Str(""@)),
    ]);
    Json::Obj(f)
}

/// Makes the file of a new project.
pub fn new_project_value(id: String, name: &str, dir_name: &str, now_ms: i64) -> (r: Json)
    ensures
        r@ == new_project(id@, name@, dir_name@, now_ms),
{
    let mut f: Vec<(String, serde_json::Value)> = Vec::new();
    let ghost b0 = Seq::<(Seq<char>, JsonView)>::empty();
    let ghost b1 = b0.push(("id"@, JsonView::Str(id@)));
    let ghost b2 = b1.push(("name"@, JsonView::Str(name@)));
    let ghost b3 = b2.push(("dirName"@, JsonView::Str(dir_name@)));
    let ghost b4 = b3.push(("createdAtMs"@, JsonView::Int(now_ms)));
    let ghost b5 = b4.push(("updatedAtMs"@, JsonView::Int(now_ms)));
    let ghost b6 = b5.push(("archivedAtMs"@, JsonView::Int(0)));
    let ghost b7 = b6.push(("issueUrl"@, JsonView::Str(""@)));
    let ghost b8 = b7.push(("tasks"@, JsonView::Arr(Seq::empty())));
    let none: Vec<serde_json::Value> = Vec::new();
    assert(json::contents(none@) == Seq::<JsonView>::empty());
    put(&mut f, "id", Json::Str(id), Ghost(b0));
    put(&mut f, "name", Json::Str(name.to_owned()), Ghost(b1));
    put(&mut f, "dirName", Json::Str(dir_name.to_owned()), Ghost(b2));
    put(&mut f, "createdAtMs", Json::Int(now_ms), Ghost(b3));
    put(&mut f, "updatedAtMs", Json::Int(now_ms), Ghost(b4));
    put(&mut f, "archivedAtMs", Json::Int(0), Ghost(b5));
    put(&mut f, "issueUrl", Json::Str("".to_owned()), Ghost(b6));
    put(&mut f, "tasks", Json::Arr(none), Ghost(b7));
    assert(b8 == seq![
        ("id"@, JsonView::Str(id@)),
        ("name"@, JsonView::Str(name@)),
        ("dirName"@, JsonView::Str(dir_name@)),
        ("createdAtMs"@, JsonView::Int(now_ms)),
        ("updatedAtMs"@, JsonView::Int(now_ms)),
        ("archivedAtMs"@, JsonView::Int(0)),
        ("issueUrl"@, JsonView::Str(""@)),
        ("tasks"@, JsonView::Arr(Seq::empty())),
    ]);
    Json::Obj(f)
}

/// Sets the state of a task of a project file; null counts as an empty one.
pub fn apply_status(task: serde_json::Value, status: TaskStatus, now_ms: i64) -> (r:
    serde_json::Value)
    requires
        json::content(task) is Obj || json::content(task) is Null,
    ensures
        json::content(r) == with_state(json::content(task), status, now_ms),
{
    if field_is(&task, "status", status.name()) {
        return task;
    }
    let mut f: Vec<(String, serde_json::Value)> = match crate::json::open(task) {
        Json::Obj(f) => f,
        _ => Vec::new(),
    };
    set_member(&mut f, "status", Json::Str(status.name().to_owned()));
    set_member(&mut f, "updatedAtMs", Json::Int(now_ms));
    let completed: i64 = match status {
        TaskStatus::Done => now_ms,
        _ => 0,
    };
    set_member(&mut f, "completedAtMs", Json::Int(completed));
    close(Json::Obj(f))
}

/// Finds the first task with a title.
fn find_titled(tasks: &Vec<serde_json::Value>, title: &str) -> (r: usize)
    ensures
        r == first_titled(json::contents(tasks@), title@, 0),
        r <= tasks@.len(),
        r < tasks@.len() ==> json::content(tasks@[r as int]) is Obj,
{
    let ghost all = json::contents(tasks@);
    let mut i: usize = 0;
    while i < tasks.len() && !field_is(&tasks[i], "title", title)
        invariant
            i <= tasks.len(),
            all == json::contents(tasks@),
            first_titled(all, title@, 0) == first_titled(all, title@, i as int),
        decreases tasks.len() - i,
    {
        assert(all[i as int] == json::content(tasks@[i as int]));
        i += 1;
    }
    if i < tasks.len() {
        assert(all[i as int] == json::content(tasks@[i as int]));
    }
    i
}

/// Brings the tasks of a project file in line with wanted ones. The identifiers are used
/// for the tasks that are new.
pub fn merge_tasks(
    old: Vec<serde_json::Value>,
    wanted: &[(TaskStatus, String)],
    ids: &Vec<String>,
    now_ms: i64,
) -> (r: Vec<serde_json::Value>)
    requires
        ids@.len() == wanted@.len(),
    ensures
        json::contents(r@) == task_values(
            json::contents(old@),
            project::pair_views(wanted@),
            crate::text::texts(ids@),
            now_ms,
        ),
{
    let ghost before = json::contents(old@);
    let ghost pairs = project::pair_views(wanted@);
    let ghost names = crate::text::texts(ids@);
    let mut pool: Vec<serde_json::Value> = old;
    let mut next: Vec<serde_json::Value> = Vec::new();
    let mut k: usize = 0;
    assert(json::contents(next@) == Seq::<JsonView>::empty());
    while k < wanted.len()
        invariant
            k <= wanted@.len(),
            ids@.len() == wanted@.len(),
            pairs == project::pair_views(wanted@),
            names == crate::text::texts(ids@),
            json::contents(pool@) == left_over(before, pairs.take(k as int)),
            json::contents(next@) == task_values(before, pairs.take(k as int), names, now_ms),
        decreases wanted@.len() - k,
    {
        let status: TaskStatus = wanted[k].0;
        let title: &str = wanted[k].1.as_str();
        let ghost longer = pairs.take(k + 1);
        assert(longer.drop_last() == pairs.take(k as int));
        assert(longer.last() == (status, title@));
        let at: usize = find_titled(&pool, title);
        let ghost had = json::contents(pool@);
        let task: serde_json::Value = if at < pool.len() {
            let ghost was = pool@;
            let t: serde_json::Value = pool.remove(at);
            assert(json::contents(pool@) == had.remove(at as int));
            assert(json::content(t) == had[at as int]);
            t
        } else {
            assert(names[k as int] == ids@[k as int]@);
            close(new_task_value(ids[k].clone(), title, now_ms))
        };
        let done: serde_json::Value = apply_status(task, status, now_ms);
        let ghost so_far = next@;
        next.push(done);
        assert(json::contents(next@) == json::contents(so_far).push(json::content(done)));
        k += 1;
    }
    assert(pairs.take(k as int) == pairs);
    next
}

/// Puts the tasks of a project file in line with wanted ones.
pub fn replace_tasks(
    root: Vec<(String, serde_json::Value)>,
    wanted: &[(TaskStatus, String)],
    ids: &Vec<String>,
    now_ms: i64,
) -> (r: Json)
    requires
        ids@.len() == wanted@.len(),
    ensures
        r@ == with_tasks(
            JsonView::Obj(json::members(root@)),
            project::pair_views(wanted@),
            crate::text::texts(ids@),
            now_ms,
        ),
{
    let ghost m = json::members(root@);
    let (mut fields, tasks) = take_member(root, "tasks");
    let old: Vec<serde_json::Value> = match tasks {
        Some(v) => match crate::json::open(v) {
            Json::Arr(a) => a,
            _ => Vec::new(),
        },
        None => Vec::new(),
    };
    assert(Seq::<JsonView>::empty() =~= json::contents(Seq::empty()));
    assert(json::contents(old@) == tasks_of(JsonView::Obj(m)));
    let next: Vec<serde_json::Value> = merge_tasks(old, wanted, ids, now_ms);
    let ghost list = JsonView::Arr(json::contents(next@));
    set_member(&mut fields, "tasks", Json::Arr(next));
    assert(m.remove("tasks"@).insert("tasks"@, list) =~= m.insert("tasks"@, list));
    set_member(&mut fields, "updatedAtMs", Json::Int(now_ms));
    Json::Obj(fields)
}

/// Opens the text of a project file as an object; null counts as an empty one.
fn open_root(text: &str) -> (r: Result<Vec<(String, serde_json::Value)>, FileError>)
    ensures
        match r {
            Ok(fields) => root_of(text@) == Ok::<JsonView, FileError>(
                JsonView::Obj(json::members(fields@)),
            ),
            Err(e) => root_of(text@) == Err::<JsonView, FileError>(e),
        },
{
    match parse_json(text) {
        Some(Json::Obj(f)) => Ok(f),
        Some(Json::Null) => {
            let none: Vec<(String, serde_json::Value)> = Vec::new();
            Ok(none)
        },
        Some(_) => Err(FileError::NotObject),
        None => Err(FileError::NotJson),
    }
}

/// The object that the text of a project file holds; null counts as an empty one.
pub open spec fn root_of(s: Seq<char>) -> Result<JsonView, FileError> {
    match json::parsed(s) {
        Some(j) => if j is Obj {
            Ok(j)
        } else if j is Null {
            Ok(JsonView::Obj(Map::empty()))
        } else {
            Err(FileError::NotObject)
        },
        None => Err(FileError::NotJson),
    }
}

/// The text that is written of a value.
pub open spec fn written(j: JsonView) -> Result<Seq<char>, FileError> {
    match json::printed(j) {
        Some(t) => Ok(t),
        None => Err(FileError::NotWritten),
    }
}

/// What a result with a text holds.
pub open spec fn text_result(r: Result<String, FileError>) -> Result<Seq<char>, FileError> {
    match r {
        Ok(s) => Ok(s@),
        Err(e) => Err(e),
    }
}

/// The text of a project file with its tasks in line with wanted ones.
pub open spec fn tasks_written(
    s: Seq<char>,
    wanted: Seq<(TaskStatus, Seq<char>)>,
    ids: Seq<Seq<char>>,
    now_ms: i64,
) -> Result<Seq<char>, FileError> {
    match root_of(s) {
        Ok(root) => written(with_tasks(root, wanted, ids, now_ms)),
        Err(e) => Err(e),
    }
}

/// A new task is plain.
proof fn lemma_new_task_plain(id: Seq<char>, title: Seq<char>, now_ms: i64, depth: nat)
    requires
        depth > 0,
    ensures
        json::is_plain(new_task(id, title, now_ms), depth),
{
    json::lemma_plain_object(
        seq![
            ("id"@, JsonView::Str(id)),
            ("title"@, JsonView::Str(title)),
            ("status"@, JsonView::Str("Backlog"@)),
            ("createdAtMs"@, JsonView::Int(now_ms)),
            ("updatedAtMs"@, JsonView::Int(now_ms)),
            ("completedAtMs"@, JsonView::Int(0)),
            ("source"@, JsonView::Str("local"@)),
            ("sourceUrl"@, JsonView::Str(""@)),
            ("repository"@, JsonView::Str(""@)),
        ],
        depth,
    );
}

/// The file of a new project is plain.
proof fn lemma_new_project_plain(
    id: Seq<char>,
    name: Seq<char>,
    dir_name: Seq<char>,
    now_ms: i64,
)
    ensures
        json::is_plain(new_project(id, name, dir_name, now_ms), MAX_DEPTH as nat),
{
    assert(json::is_plain(JsonView::Arr(Seq::empty()), 1));
    json::lemma_plain_object(
        seq![
            ("id"@, JsonView::Str(id)),
            ("name"@, JsonView::Str(name)),
            ("dirName"@, JsonView::Str(dir_name)),
            ("createdAtMs"@, JsonView::Int(now_ms)),
            ("updatedAtMs"@, JsonView::Int(now_ms)),
            ("archivedAtMs"@, JsonView::Int(0)),
            ("issueUrl"@, JsonView::Str(""@)),
            ("tasks"@, JsonView::Arr(Seq::empty())),
        ],
        MAX_DEPTH as nat,
    );
}

/// A task with a state is plain where the task is.
proof fn lemma_state_plain(task: JsonView, status: TaskStatus, now_ms: i64, depth: nat)
    requires
        depth > 0,
        json::is_plain(task, depth),
    ensures
        json::is_plain(with_state(task, status, now_ms), depth),
{
    let a = json::with_field(task, "status"@, JsonView::Str(status.title()));
    let b = json::with_field(a, "updatedAtMs"@, JsonView::Int(now_ms));
    json::lemma_plain_with_field(task, "status"@, JsonView::Str(status.title()), depth);
    json::lemma_plain_with_field(a, "updatedAtMs"@, JsonView::Int(now_ms), depth);
    json::lemma_plain_with_field(
        b,
        "completedAtMs"@,
        JsonView::Int(
            if status is Done {
                now_ms
            } else {
                0
            },
        ),
        depth,
    );
}

/// The first task with a title is one of the tasks.
proof fn lemma_first_titled(tasks: Seq<JsonView>, title: Seq<char>, i: int)
    requires
        0 <= i <= tasks.len(),
    ensures
        i <= first_titled(tasks, title, i) <= tasks.len(),
    decreases tasks.len() - i,
{
    if i < tasks.len() {
        lemma_first_titled(tasks, title, i + 1);
    }
}

/// Tasks that are left over are plain where all are.
proof fn lemma_left_plain(
    old_tasks: Seq<JsonView>,
    wanted: Seq<(TaskStatus, Seq<char>)>,
    depth: nat,
)
    requires
        forall|i: int|
            0 <= i < old_tasks.len() ==> json::is_plain(#[trigger] old_tasks[i], depth),
    ensures
        forall|i: int|
            0 <= i < left_over(old_tasks, wanted).len() ==> json::is_plain(
                #[trigger] left_over(old_tasks, wanted)[i],
                depth,
            ),
    decreases wanted.len(),
{
    if wanted.len() > 0 {
        lemma_left_plain(old_tasks, wanted.drop_last(), depth);
        let before = left_over(old_tasks, wanted.drop_last());
        let at = first_titled(before, wanted.last().1, 0);
        lemma_first_titled(before, wanted.last().1, 0);
        let all = left_over(old_tasks, wanted);
        assert forall|i: int| 0 <= i < all.len() implies json::is_plain(
            #[trigger] all[i],
            depth,
        ) by {
            if at < before.len() {
                if i < at {
                    assert(all[i] == before[i]);
                } else {
                    assert(all[i] == before[i + 1]);
                }
            }
        }
    }
}

/// Tasks in line with wanted ones are plain where those they are made of are.
proof fn lemma_values_plain(
    old_tasks: Seq<JsonView>,
    wanted: Seq<(TaskStatus, Seq<char>)>,
    ids: Seq<Seq<char>>,
    now_ms: i64,
    depth: nat,
)
    requires
        depth > 0,
        forall|i: int|
            0 <= i < old_tasks.len() ==> json::is_plain(#[trigger] old_tasks[i], depth),
    ensures
        forall|i: int|
            0 <= i < task_values(old_tasks, wanted, ids, now_ms).len() ==> json::is_plain(
                #[trigger] task_values(old_tasks, wanted, ids, now_ms)[i],
                depth,
            ),
    decreases wanted.len(),
{
    if wanted.len() > 0 {
        let front = wanted.drop_last();
        lemma_values_plain(old_tasks, front, ids, now_ms, depth);
        lemma_left_plain(old_tasks, front, depth);
        let pool = left_over(old_tasks, front);
        let (status, title) = wanted.last();
        let at = first_titled(pool, title, 0);
        lemma_first_titled(pool, title, 0);
        let id = ids[wanted.len() - 1];
        lemma_new_task_plain(id, title, now_ms, depth);
        let task = if at < pool.len() {
            pool[at]
        } else {
            new_task(id, title, now_ms)
        };
        lemma_state_plain(task, status, now_ms, depth);
        let before = task_values(old_tasks, front, ids, now_ms);
        let all = task_values(old_tasks, wanted, ids, now_ms);
        assert forall|i: int| 0 <= i < all.len() implies json::is_plain(
            #[trigger] all[i],
            depth,
        ) by {
            if i < before.len() {
                assert(all[i] == before[i]);
            }
        }
    }
}

/// A project file with other tasks is plain where the file is.
proof fn lemma_tasks_plain(
    root: JsonView,
    wanted: Seq<(TaskStatus, Seq<char>)>,
    ids: Seq<Seq<char>>,
    now_ms: i64,
    depth: nat,
)
    requires
        depth > 2,
        root is Obj,
        json::is_plain(root, depth),
    ensures
        json::is_plain(with_tasks(root, wanted, ids, now_ms), depth),
{
    let old_tasks = tasks_of(root);
    let inner = (depth - 1) as nat;
    let deep = (depth - 2) as nat;
    assert forall|i: int| 0 <= i < old_tasks.len() implies json::is_plain(
        #[trigger] old_tasks[i],
        deep,
    ) by {
        let m = root->Obj_0;
        assert(m.contains_key("tasks"@));
        assert(json::is_plain(m["tasks"@], inner));
    }
    lemma_values_plain(old_tasks, wanted, ids, now_ms, deep);
    let list = JsonView::Arr(task_values(old_tasks, wanted, ids, now_ms));
    assert(json::is_plain(list, inner));
    json::lemma_plain_with_field(root, "tasks"@, list, depth);
    json::lemma_plain_with_field(
        json::with_field(root, "tasks"@, list),
        "updatedAtMs"@,
        JsonView::Int(now_ms),
        depth,
    );
}

/// Writes JSON.
fn write_root(j: Json) -> (r: Result<String, FileError>)
    ensures
        text_result(r) == written(j@),
        json::is_plain(j@, MAX_DEPTH as nat) ==> (r matches Ok(t) && json::parsed(t@) == Some(j@)),
{
    match print_json(j) {
        Some(t) => Ok(t),
        None => Err(FileError::NotWritten),
    }
}

/// Changes the tasks in the text of a project file. The identifiers are used for the tasks
/// that are new.
pub fn edit_tasks_with(
    text: &str,
    wanted: &[(TaskStatus, String)],
    ids: &Vec<String>,
    now_ms: i64,
) -> (r: Result<String, FileError>)
    requires
        ids@.len() == wanted@.len(),
    ensures
        text_result(r) == tasks_written(
            text@,
            project::pair_views(wanted@),
            crate::text::texts(ids@),
            now_ms,
        ),
        root_of(text@) matches Ok(root) ==> (json::is_plain(root, MAX_DEPTH as nat) ==> (
        r matches Ok(t) && root_of(t@) == Ok::<JsonView, FileError>(
            with_tasks(root, project::pair_views(wanted@), crate::text::texts(ids@), now_ms),
        ))),
{
    match open_root(text) {
        Ok(root) => {
            proof {
                let j = JsonView::Obj(json::members(root@));
                if json::is_plain(j, MAX_DEPTH as nat) {
                    lemma_tasks_plain(
                        j,
                        project::pair_views(wanted@),
                        crate::text::texts(ids@),
                        now_ms,
                        MAX_DEPTH as nat,
                    );
                }
            }
            write_root(replace_tasks(root, wanted, ids, now_ms))
        },
        Err(e) => Err(e),
    }
}

/// Changes the tasks in the text of a project file. New tasks get random identifiers.
pub fn edit_tasks(text: &str, wanted: &[(TaskStatus, String)], now_ms: i64) -> (r: Result<
    String,
    FileError,
>)
    ensures
        exists|ids: Seq<Seq<char>>|
            #![trigger tasks_written(text@, project::pair_views(wanted@), ids, now_ms)]
            {
                &&& ids.len() == wanted@.len()
                &&& forall|i: int| 0 <= i < ids.len() ==> is_id(#[trigger] ids[i])
                &&& text_result(r) == tasks_written(
                    text@,
                    project::pair_views(wanted@),
                    ids,
                    now_ms,
                )
                &&& root_of(text@) matches Ok(root) ==> (json::is_plain(
                    root,
                    MAX_DEPTH as nat,
                ) ==> (r matches Ok(t) && root_of(t@) == Ok::<JsonView, FileError>(
                    with_tasks(root, project::pair_views(wanted@), ids, now_ms),
                )))
            },
{
    let ids: Vec<String> = new_ids(wanted.len());
    let ghost names = crate::text::texts(ids@);
    assert forall|i: int| 0 <= i < names.len() implies is_id(#[trigger] names[i]) by {
        assert(names[i] == ids@[i]@);
    }
    edit_tasks_with(text, wanted, &ids, now_ms)
}

/// Changes whether a project is archived in the text of its file.
pub fn edit_archived(text: &str, archived_at_ms: i64, now_ms: i64) -> (r: Result<
    String,
    FileError,
>)
    ensures
        text_result(r) == match root_of(text@) {
            Ok(root) => written(with_archived(root, archived_at_ms, now_ms)),
            Err(e) => Err(e),
        },
        root_of(text@) matches Ok(root) ==> (json::is_plain(root, MAX_DEPTH as nat) ==> (
        r matches Ok(t) && root_of(t@) == Ok::<JsonView, FileError>(
            with_archived(root, archived_at_ms, now_ms),
        ))),
{
    match open_root(text) {
        Ok(root) => {
            proof {
                let j = JsonView::Obj(json::members(root@));
                if json::is_plain(j, MAX_DEPTH as nat) {
                    let at = JsonView::Int(archived_at_ms);
                    json::lemma_plain_with_field(j, "archivedAtMs"@, at, MAX_DEPTH as nat);
                    json::lemma_plain_with_field(
                        json::with_field(j, "archivedAtMs"@, at),
                        "updatedAtMs"@,
                        JsonView::Int(now_ms),
                        MAX_DEPTH as nat,
                    );
                }
            }
            let mut fields: Vec<(String, serde_json::Value)> = root;
            set_member(&mut fields, "archivedAtMs", Json::Int(archived_at_ms));
            set_member(&mut fields, "updatedAtMs", Json::Int(now_ms));
            write_root(Json::Obj(fields))
        },
        Err(e) => Err(e),
    }
}

/// Writes the file of a new project with an identifier.
pub fn project_text_with(id: String, name: &str, dir_name: &str, now_ms: i64) -> (r: Result<
    String,
    FileError,
>)
    ensures
        text_result(r) == written(new_project(id@, name@, dir_name@, now_ms)),
        r matches Ok(t) && json::parsed(t@) == Some(new_project(id@, name@, dir_name@, now_ms)),
{
    proof {
        lemma_new_project_plain(id@, name@, dir_name@, now_ms);
    }
    write_root(new_project_value(id, name, dir_name, now_ms))
}

/// Writes the file of a new project with a random identifier.
pub fn project_text(name: &str, dir_name: &str, now_ms: i64) -> (r: Result<String, FileError>)
    ensures
        exists|id: Seq<char>|
            is_id(id) && text_result(r) == written(
                #[trigger] new_project(id, name@, dir_name@, now_ms),
            ) && (r matches Ok(t) && json::parsed(t@) == Some(
                new_project(id, name@, dir_name@, now_ms),
            )),
{
    let id: String = new_id();
    let ghost name_of_id = id@;
    let r = project_text_with(id, name, dir_name, now_ms);
    assert(text_result(r) == written(new_project(name_of_id, name@, dir_name@, now_ms)));
    r
}

// ----------------------------------------------------------------------- order

/// The texts in a list, if all of its items are texts.
pub open spec fn all_texts(items: Seq<JsonView>) -> Option<Seq<Seq<char>>>
    decreases items.len(),
{
    if items.len() == 0 {
        Some(Seq::empty())
    } else {
        match (all_texts(items.drop_last()), items.last()) {
            (Some(before), JsonView::Str(s)) => Some(before.push(s)),
            _ => None,
        }
    }
}

/// The order that the text of the order file holds; none where it holds something else.
pub open spec fn order_of_text(s: Seq<char>) -> Seq<Seq<char>> {
    match json::parsed(s) {
        Some(JsonView::Arr(items)) => match all_texts(items) {
            Some(names) => names,
            None => Seq::empty(),
        },
        _ => Seq::empty(),
    }
}

proof fn lemma_all_texts(items: Seq<JsonView>, k: int)
    requires
        0 <= k <= items.len(),
        all_texts(items.take(k)) is None,
    ensures
        all_texts(items) is None,
    decreases items.len() - k,
{
    if k < items.len() {
        assert(items.take(k + 1).drop_last() == items.take(k));
        lemma_all_texts(items, k + 1);
    } else {
        assert(items.take(k) == items);
    }
}

/// Reads the text of the order file.
pub fn parse_order(text: &str) -> (r: Vec<String>)
    ensures
        crate::text::texts(r@) == order_of_text(text@),
{
    let mut out: Vec<String> = Vec::new();
    assert(crate::text::texts(out@) == Seq::<Seq<char>>::empty());
    let items: Vec<serde_json::Value> = match parse_json(text) {
        Some(Json::Arr(a)) => a,
        _ => {
            return out;
        },
    };
    let ghost all = json::contents(items@);
    let mut k: usize = 0;
    let count: usize = items.len();
    let mut rest: Vec<serde_json::Value> = items;
    while k < count
        invariant
            k <= count,
            count == all.len(),
            json::contents(rest@) == all.skip(k as int),
            all_texts(all.take(k as int)) == Some(crate::text::texts(out@)),
            order_of_text(text@) == (match all_texts(all) {
                Some(names) => names,
                None => Seq::empty(),
            }),
        decreases count - k,
    {
        assert(rest@.len() == json::contents(rest@).len());
        let ghost had = json::contents(rest@);
        let item: serde_json::Value = rest.remove(0);
        assert(json::contents(rest@) == had.remove(0));
        assert(had.remove(0) == all.skip(k + 1));
        assert(json::content(item) == had[0]);
        assert(all.take(k + 1).drop_last() == all.take(k as int));
        match crate::json::open(item) {
            Json::Str(s) => {
                let ghost done = out@;
                out.push(s);
                assert(crate::text::texts(out@) == crate::text::texts(done).push(s@));
            },
            _ => {
                proof {
                    lemma_all_texts(all, k + 1);
                }
                return Vec::new();
            },
        }
        k += 1;
    }
    assert(all.take(k as int) == all);
    out
}

/// The order as a list of texts.
pub open spec fn order_value(order: Seq<Seq<char>>) -> JsonView {
    JsonView::Arr(order.map_values(|s: Seq<char>| JsonView::Str(s)))
}

/// An order is plain.
proof fn lemma_order_plain(order: Seq<Seq<char>>)
    ensures
        json::is_plain(order_value(order), MAX_DEPTH as nat),
{
    reveal_with_fuel(json::is_plain, 2);
}

/// The texts of an order are its names.
proof fn lemma_order_texts(order: Seq<Seq<char>>)
    ensures
        all_texts(order.map_values(|s: Seq<char>| JsonView::Str(s))) == Some(order),
    decreases order.len(),
{
    let items = order.map_values(|s: Seq<char>| JsonView::Str(s));
    if order.len() > 0 {
        let front = order.drop_last();
        lemma_order_texts(front);
        assert(items.drop_last() =~= front.map_values(|s: Seq<char>| JsonView::Str(s)));
        assert(front.push(order.last()) =~= order);
    } else {
        assert(order =~= Seq::empty());
    }
}

/// Writes the text of the order file. It reads back as the same order.
pub fn order_text(order: &[String]) -> (r: Result<String, FileError>)
    ensures
        text_result(r) == written(order_value(crate::text::texts(order@))),
        r matches Ok(t) && order_of_text(t@) == crate::text::texts(order@),
{
    let ghost all = crate::text::texts(order@);
    let mut items: Vec<serde_json::Value> = Vec::new();
    let mut i: usize = 0;
    assert(json::contents(items@) =~= all.take(0).map_values(|s: Seq<char>| JsonView::Str(s)));
    while i < order.len()
        invariant
            i <= order.len(),
            all == crate::text::texts(order@),
            JsonView::Arr(json::contents(items@)) == order_value(all.take(i as int)),
        decreases order.len() - i,
    {
        let ghost done = items@;
        let s: String = order[i].clone();
        assert(all[i as int] == s@);
        let v: serde_json::Value = close(Json::Str(s));
        items.push(v);
        assert(json::contents(items@) =~= json::contents(done).push(json::content(v)));
        assert(all.take(i + 1) == all.take(i as int).push(all[i as int]));
        assert(json::contents(items@) =~= all.take(i + 1).map_values(
            |s: Seq<char>| JsonView::Str(s),
        ));
        i += 1;
    }
    assert(all.take(i as int) == all);
    proof {
        lemma_order_plain(all);
        lemma_order_texts(all);
    }
    write_root(Json::Arr(items))
}

// ------------------------------------------------------------------------ laws

/// Changing the tasks of a project file leaves all its other members as they were.
pub proof fn law_tasks_keep_members(
    root: JsonView,
    wanted: Seq<(TaskStatus, Seq<char>)>,
    ids: Seq<Seq<char>>,
    now_ms: i64,
    key: Seq<char>,
)
    requires
        root is Obj,
        key != "tasks"@,
        key != "updatedAtMs"@,
    ensures
        json::field(with_tasks(root, wanted, ids, now_ms), key) == json::field(root, key),
{
}

/// A task keeps what it holds besides its state and the times that go with it; where the
/// state is the same, all of it.
pub proof fn law_state_keeps_members(
    task: JsonView,
    status: TaskStatus,
    now_ms: i64,
    key: Seq<char>,
)
    requires
        task is Obj,
        key != "status"@,
        key != "updatedAtMs"@,
        key != "completedAtMs"@,
    ensures
        json::field(with_state(task, status, now_ms), key) == json::field(task, key),
        json::as_text(json::field(with_state(task, status, now_ms), "status"@)) == Some(
            status.title(),
        ),
        with_state(with_state(task, status, now_ms), status, now_ms) == with_state(
            task,
            status,
            now_ms,
        ),
{
    reveal_strlit("status");
    reveal_strlit("updatedAtMs");
    reveal_strlit("completedAtMs");
    assert("status"@.len() == 6 && "updatedAtMs"@.len() == 11 && "completedAtMs"@.len() == 13);
}

} // verus!
