//! What a project file holds after its tasks were brought in line with wanted ones.

use vstd::prelude::*;

use crate::json;
use crate::json::JsonView;
use crate::model::status::TaskStatus;
use crate::pick;
use crate::store::project_file;

verus! {

/// The name under which a state is written.
pub open spec fn state_name(status: TaskStatus) -> Seq<char> {
    match status {
        TaskStatus::Backlog => "Backlog"@,
        TaskStatus::InProgress => "InProgress"@,
        TaskStatus::Done => "Done"@,
    }
}

/// The time of completion that goes with a state.
pub open spec fn completion(status: TaskStatus, now_ms: i64) -> i64 {
    if status is Done {
        now_ms
    } else {
        0
    }
}

/// Whether a task of a file is another one with a state. Where the state is the same, all is;
/// else the state and the times that go with it are set, and all else is as it was.
pub open spec fn is_restated(
    new: JsonView,
    task: JsonView,
    status: TaskStatus,
    now_ms: i64,
) -> bool {
    if json::field(task, "status"@) == Some(JsonView::Str(state_name(status))) {
        new == task
    } else {
        &&& new is Obj
        &&& forall|key: Seq<char>| #[trigger]
            json::field(new, key) == if key == "status"@ {
                Some(JsonView::Str(state_name(status)))
            } else if key == "updatedAtMs"@ {
                Some(JsonView::Int(now_ms))
            } else if key == "completedAtMs"@ {
                Some(JsonView::Int(completion(status, now_ms)))
            } else {
                json::field(task, key)
            }
    }
}

/// Whether a task of a file is a new one.
pub open spec fn is_made(
    new: JsonView,
    id: Seq<char>,
    title: Seq<char>,
    status: TaskStatus,
    now_ms: i64,
) -> bool {
    &&& new is Obj
    &&& forall|key: Seq<char>| #[trigger]
        json::field(new, key) == if key == "id"@ {
            Some(JsonView::Str(id))
        } else if key == "title"@ {
            Some(JsonView::Str(title))
        } else if key == "status"@ {
            Some(JsonView::Str(state_name(status)))
        } else if key == "createdAtMs"@ || key == "updatedAtMs"@ {
            Some(JsonView::Int(now_ms))
        } else if key == "completedAtMs"@ {
            Some(JsonView::Int(completion(status, now_ms)))
        } else if key == "source"@ {
            Some(JsonView::Str("local"@))
        } else if key == "sourceUrl"@ || key == "repository"@ {
            Some(JsonView::Str(""@))
        } else {
            None
        }
}

/// Whether a task of a file has a title.
pub open spec fn is_titled(task: JsonView, title: Seq<char>) -> bool {
    json::field(task, "title"@) == Some(JsonView::Str(title))
}

/// Whether one of the first `k` wanted tasks took task `i` of the file.
pub open spec fn is_used(from: Seq<int>, k: int, i: int) -> bool {
    exists|j: int| 0 <= j < k && #[trigger] from[j] == i
}

/// Whether wanted task `k` took the first task of the file with its title that none before it
/// took, or none where there is none left.
pub open spec fn is_taken(
    from: Seq<int>,
    old: Seq<JsonView>,
    wanted: Seq<(TaskStatus, Seq<char>)>,
    k: int,
) -> bool {
    let title = wanted[k].1;
    &&& -1 <= from[k] < old.len()
    &&& from[k] >= 0 ==> is_titled(old[from[k]], title) && !is_used(from, k, from[k])
    &&& forall|i: int|
        0 <= i < old.len() && (from[k] < 0 || i < from[k]) && is_titled(#[trigger] old[i], title)
            ==> is_used(from, k, i)
}

proof fn lemma_first_titled(tasks: Seq<JsonView>, title: Seq<char>, i: int)
    requires
        0 <= i <= tasks.len(),
    ensures
        ({
            let at = project_file::first_titled(tasks, title, i);
            &&& i <= at <= tasks.len()
            &&& at < tasks.len() ==> is_titled(tasks[at], title)
            &&& forall|j: int| i <= j < at ==> !is_titled(#[trigger] tasks[j], title)
        }),
    decreases tasks.len() - i,
{
    if i < tasks.len() && !is_titled(tasks[i], title) {
        lemma_first_titled(tasks, title, i + 1);
    }
}

/// What is used with one more task that was taken.
proof fn lemma_used(before: Seq<int>, x: int)
    ensures
        ({
            let n = before.len() as int;
            let from = before.push(x);
            &&& forall|k: int, i: int|
                0 <= k <= n ==> #[trigger] is_used(from, k, i) == is_used(before, k, i)
            &&& forall|i: int| #[trigger]
                is_used(from, n + 1, i) == (is_used(before, n, i) || x == i)
        }),
{
    let n = before.len() as int;
    let from = before.push(x);
    assert forall|k: int, i: int| 0 <= k <= n implies #[trigger] is_used(from, k, i) == is_used(
        before,
        k,
        i,
    ) by {
        if is_used(from, k, i) {
            let j = choose|j: int| 0 <= j < k && #[trigger] from[j] == i;
            assert(before[j] == i);
        }
        if is_used(before, k, i) {
            let j = choose|j: int| 0 <= j < k && #[trigger] before[j] == i;
            assert(from[j] == i);
        }
    }
    assert forall|i: int| #[trigger] is_used(from, n + 1, i) == (is_used(before, n, i) || x == i) by {
        if is_used(from, n + 1, i) && x != i {
            let j = choose|j: int| 0 <= j < n + 1 && #[trigger] from[j] == i;
            assert(before[j] == i);
        }
        if is_used(before, n, i) {
            let j = choose|j: int| 0 <= j < n && #[trigger] before[j] == i;
            assert(from[j] == i);
        }
        if x == i {
            assert(from[n] == i);
        }
    }
}

/// Of the tasks that are left the first one with a title is taken.
proof fn lemma_last_taken(
    old: Seq<JsonView>,
    wanted: Seq<(TaskStatus, Seq<char>)>,
    before: Seq<int>,
    left: Seq<int>,
    pool: Seq<JsonView>,
)
    requires
        wanted.len() > 0,
        before.len() == wanted.len() - 1,
        pick::is_picked(pool, old, left),
        forall|i: int|
            0 <= i < old.len() ==> #[trigger] left.contains(i) == !is_used(
                before,
                before.len() as int,
                i,
            ),
    ensures
        ({
            let n = wanted.len() - 1;
            let at = project_file::first_titled(pool, wanted[n].1, 0);
            &&& 0 <= at <= pool.len()
            &&& at < pool.len() ==> is_taken(before.push(left[at]), old, wanted, n)
            &&& at >= pool.len() ==> is_taken(before.push(-1), old, wanted, n)
        }),
{
    let n = wanted.len() - 1;
    let title = wanted[n].1;
    let at = project_file::first_titled(pool, title, 0);
    lemma_first_titled(pool, title, 0);
    let x = if at < pool.len() {
        left[at]
    } else {
        -1
    };
    let from = before.push(x);
    lemma_used(before, x);
    if at < pool.len() {
        assert(left.contains(left[at]));
        assert(!is_used(before, n, left[at]));
        assert(pool[at] == old[left[at]]);
    }
    assert forall|i: int|
        0 <= i < old.len() && (x < 0 || i < x) && is_titled(
            #[trigger] old[i],
            title,
        ) implies is_used(from, n, i) by {
        if !is_used(before, n, i) {
            assert(left.contains(i));
            let y = choose|y: int| 0 <= y < left.len() && left[y] == i;
            assert(pool[y] == old[i]);
            if at < pool.len() && y >= at {
                if y > at {
                    assert(left[at] < left[y]);
                }
            } else {
                assert(!is_titled(pool[y], title));
            }
        }
    }
}

/// What the first wanted tasks took stays taken.
proof fn lemma_still_taken(
    old: Seq<JsonView>,
    wanted: Seq<(TaskStatus, Seq<char>)>,
    before: Seq<int>,
    x: int,
    k: int,
)
    requires
        wanted.len() > 0,
        before.len() == wanted.len() - 1,
        0 <= k < before.len(),
        is_taken(before, old, wanted.drop_last(), k),
    ensures
        is_taken(before.push(x), old, wanted, k),
{
    lemma_used(before, x);
    let from = before.push(x);
    assert(wanted.drop_last()[k] == wanted[k] && from[k] == before[k]);
    assert forall|i: int|
        0 <= i < old.len() && (from[k] < 0 || i < from[k]) && is_titled(
            #[trigger] old[i],
            wanted[k].1,
        ) implies is_used(from, k, i) by {
        assert(is_used(before, k, i));
    }
}

#[verifier::spinoff_prover]
#[verifier::rlimit(40)]
proof fn lemma_taken(
    old: Seq<JsonView>,
    wanted: Seq<(TaskStatus, Seq<char>)>,
    ids: Seq<Seq<char>>,
    now_ms: i64,
) -> (r: (Seq<int>, Seq<int>))
    ensures
        ({
            let (from, rest) = r;
            let all = project_file::task_values(old, wanted, ids, now_ms);
            &&& from.len() == wanted.len() && all.len() == wanted.len()
            &&& pick::is_picked(project_file::left_over(old, wanted), old, rest)
            &&& forall|i: int|
                0 <= i < old.len() ==> #[trigger] rest.contains(i) == !is_used(
                    from,
                    wanted.len() as int,
                    i,
                )
            &&& forall|k: int|
                0 <= k < wanted.len() ==> #[trigger] is_taken(from, old, wanted, k)
            &&& forall|k: int|
                0 <= k < wanted.len() ==> #[trigger] all[k] == project_file::with_state(
                    if from[k] >= 0 {
                        old[from[k]]
                    } else {
                        project_file::new_task(ids[k], wanted[k].1, now_ms)
                    },
                    wanted[k].0,
                    now_ms,
                )
        }),
    decreases wanted.len(),
{
    if wanted.len() == 0 {
        let rest = Seq::new(old.len(), |i: int| i);
        assert forall|i: int| 0 <= i < old.len() implies #[trigger] rest.contains(i) by {
            assert(rest[i] == i);
        }
        (Seq::empty(), rest)
    } else {
        let head = wanted.drop_last();
        let n = wanted.len() - 1;
        let title = wanted.last().1;
        let (before, left) = lemma_taken(old, head, ids, now_ms);
        let pool = project_file::left_over(old, head);
        let at = project_file::first_titled(pool, title, 0);
        lemma_last_taken(old, wanted, before, left, pool);
        let hit = at < pool.len();
        let x = if hit {
            left[at]
        } else {
            -1
        };
        let from = before.push(x);
        let rest = if hit {
            left.remove(at)
        } else {
            left
        };
        lemma_used(before, x);
        if hit {
            pick::lemma_removed(pool, old, left, at);
        }
        assert forall|k: int| 0 <= k < wanted.len() implies #[trigger] is_taken(
            from,
            old,
            wanted,
            k,
        ) by {
            if k < n {
                assert(is_taken(before, old, head, k));
                lemma_still_taken(old, wanted, before, x, k);
            }
        }
        assert forall|i: int| 0 <= i < old.len() implies #[trigger] rest.contains(i) == !is_used(
            from,
            wanted.len() as int,
            i,
        ) by {
            assert(left.contains(i) == !is_used(before, n, i));
            assert(is_used(from, n + 1, i) == (is_used(before, n, i) || x == i));
        }
        let all = project_file::task_values(old, wanted, ids, now_ms);
        let some = project_file::task_values(old, head, ids, now_ms);
        assert forall|k: int| 0 <= k < wanted.len() implies #[trigger] all[k]
            == project_file::with_state(
            if from[k] >= 0 {
                old[from[k]]
            } else {
                project_file::new_task(ids[k], wanted[k].1, now_ms)
            },
            wanted[k].0,
            now_ms,
        ) by {
            if k < n {
                assert(all[k] == some[k]);
                assert(wanted[k] == head[k] && from[k] == before[k]);
            } else if hit {
                assert(pool[at] == old[left[at]]);
                assert(left[at] >= 0);
            }
        }
        (from, rest)
    }
}

/// The names of members of tasks are different.
proof fn lemma_names()
    ensures
        "status"@ != "updatedAtMs"@,
        "status"@ != "completedAtMs"@,
        "updatedAtMs"@ != "completedAtMs"@,
        "id"@ != "title"@ && "id"@ != "status"@ && "id"@ != "createdAtMs"@ && "id"@
            != "updatedAtMs"@ && "id"@ != "completedAtMs"@ && "id"@ != "source"@ && "id"@
            != "sourceUrl"@ && "id"@ != "repository"@,
        "title"@ != "status"@ && "title"@ != "createdAtMs"@ && "title"@ != "updatedAtMs"@
            && "title"@ != "completedAtMs"@ && "title"@ != "source"@ && "title"@ != "sourceUrl"@
            && "title"@ != "repository"@,
        "status"@ != "createdAtMs"@ && "status"@ != "source"@ && "status"@ != "sourceUrl"@
            && "status"@ != "repository"@,
        "createdAtMs"@ != "updatedAtMs"@ && "createdAtMs"@ != "completedAtMs"@ && "createdAtMs"@
            != "source"@ && "createdAtMs"@ != "sourceUrl"@ && "createdAtMs"@ != "repository"@,
        "updatedAtMs"@ != "source"@ && "updatedAtMs"@ != "sourceUrl"@ && "updatedAtMs"@
            != "repository"@,
        "completedAtMs"@ != "source"@ && "completedAtMs"@ != "sourceUrl"@ && "completedAtMs"@
            != "repository"@,
        "source"@ != "sourceUrl"@ && "source"@ != "repository"@ && "sourceUrl"@ != "repository"@,
{
    reveal_strlit("id");
    reveal_strlit("title");
    reveal_strlit("status");
    reveal_strlit("createdAtMs");
    reveal_strlit("updatedAtMs");
    reveal_strlit("completedAtMs");
    reveal_strlit("source");
    reveal_strlit("sourceUrl");
    reveal_strlit("repository");
    assert("status"@[1] == 't' && "source"@[1] == 'o');
    assert("createdAtMs"@[0] == 'c' && "updatedAtMs"@[0] == 'u');
    assert("id"@.len() == 2 && "title"@.len() == 5 && "status"@.len() == 6 && "createdAtMs"@.len()
        == 11 && "updatedAtMs"@.len() == 11 && "completedAtMs"@.len() == 13 && "source"@.len() == 6
        && "sourceUrl"@.len() == 9 && "repository"@.len() == 10);
}

proof fn lemma_restated(task: JsonView, status: TaskStatus, now_ms: i64)
    ensures
        is_restated(project_file::with_state(task, status, now_ms), task, status, now_ms),
{
    lemma_names();
    let new = project_file::with_state(task, status, now_ms);
    if json::as_text(json::field(task, "status"@)) == Some(status.title()) {
        assert(json::field(task, "status"@) == Some(JsonView::Str(state_name(status))));
    } else {
        assert forall|key: Seq<char>| #[trigger] json::field(new, key) == if key == "status"@ {
            Some(JsonView::Str(state_name(status)))
        } else if key == "updatedAtMs"@ {
            Some(JsonView::Int(now_ms))
        } else if key == "completedAtMs"@ {
            Some(JsonView::Int(completion(status, now_ms)))
        } else {
            json::field(task, key)
        } by {}
    }
}

proof fn lemma_made(id: Seq<char>, title: Seq<char>, status: TaskStatus, now_ms: i64)
    ensures
        is_made(
            project_file::with_state(
                project_file::new_task(id, title, now_ms),
                status,
                now_ms,
            ),
            id,
            title,
            status,
            now_ms,
        ),
{
    lemma_names();
    let plain = project_file::new_task(id, title, now_ms);
    assert(is_made(plain, id, title, TaskStatus::Backlog, now_ms)) by {
        let f0 = Seq::<(Seq<char>, JsonView)>::empty();
        let f1 = f0.push(("id"@, JsonView::Str(id)));
        let f2 = f1.push(("title"@, JsonView::Str(title)));
        let f3 = f2.push(("status"@, JsonView::Str("Backlog"@)));
        let f4 = f3.push(("createdAtMs"@, JsonView::Int(now_ms)));
        let f5 = f4.push(("updatedAtMs"@, JsonView::Int(now_ms)));
        let f6 = f5.push(("completedAtMs"@, JsonView::Int(0)));
        let f7 = f6.push(("source"@, JsonView::Str("local"@)));
        let f8 = f7.push(("sourceUrl"@, JsonView::Str(""@)));
        let f9 = f8.push(("repository"@, JsonView::Str(""@)));
        assert(f9 =~= seq![
            ("id"@, JsonView::Str(id)),
            ("title"@, JsonView::Str(title)),
            ("status"@, JsonView::Str("Backlog"@)),
            ("createdAtMs"@, JsonView::Int(now_ms)),
            ("updatedAtMs"@, JsonView::Int(now_ms)),
            ("completedAtMs"@, JsonView::Int(0)),
            ("source"@, JsonView::Str("local"@)),
            ("sourceUrl"@, JsonView::Str(""@)),
            ("repository"@, JsonView::Str(""@)),
        ]);
        assert(f9.drop_last() =~= f8 && f8.drop_last() =~= f7 && f7.drop_last() =~= f6
            && f6.drop_last() =~= f5 && f5.drop_last() =~= f4 && f4.drop_last() =~= f3
            && f3.drop_last() =~= f2 && f2.drop_last() =~= f1 && f1.drop_last() =~= f0);
        reveal_with_fuel(json::object, 10);
        assert(plain == json::object(f9));
    }
    lemma_restated(plain, status, now_ms);
    lemma_state_names(status);
    let new = project_file::with_state(plain, status, now_ms);
    assert(json::field(plain, "status"@) == Some(JsonView::Str("Backlog"@)));
}

proof fn lemma_state_names(status: TaskStatus)
    ensures
        state_name(status) == "Backlog"@ ==> status is Backlog,
{
    reveal_strlit("Backlog");
    reveal_strlit("InProgress");
    reveal_strlit("Done");
    assert("Backlog"@.len() == 7 && "InProgress"@.len() == 10 && "Done"@.len() == 4);
}

/// The tasks of a project file after they were brought in line are the wanted ones, in their
/// order. Each is the first task of the file with its title that none before it took, with all
/// that it holds and the wanted state, or a new task where there is none left.
pub proof fn law_tasks_are_merged(
    old: Seq<JsonView>,
    wanted: Seq<(TaskStatus, Seq<char>)>,
    ids: Seq<Seq<char>>,
    now_ms: i64,
)
    requires
        ids.len() == wanted.len(),
    ensures
        exists|from: Seq<int>|
            {
                let all = project_file::task_values(old, wanted, ids, now_ms);
                &&& #[trigger] from.len() == wanted.len()
                &&& all.len() == wanted.len()
                &&& forall|k: int|
                    0 <= k < wanted.len() ==> #[trigger] is_taken(from, old, wanted, k)
                &&& forall|k: int|
                    0 <= k < wanted.len() ==> {
                        let new = #[trigger] all[k];
                        if from[k] >= 0 {
                            is_restated(new, old[from[k]], wanted[k].0, now_ms)
                        } else {
                            is_made(new, ids[k], wanted[k].1, wanted[k].0, now_ms)
                        }
                    }
            },
{
    let (from, _) = lemma_taken(old, wanted, ids, now_ms);
    let all = project_file::task_values(old, wanted, ids, now_ms);
    assert forall|k: int| 0 <= k < wanted.len() implies {
        let new = #[trigger] all[k];
        if from[k] >= 0 {
            is_restated(new, old[from[k]], wanted[k].0, now_ms)
        } else {
            is_made(new, ids[k], wanted[k].1, wanted[k].0, now_ms)
        }
    } by {
        if from[k] >= 0 {
            lemma_restated(old[from[k]], wanted[k].0, now_ms);
        } else {
            lemma_made(ids[k], wanted[k].1, wanted[k].0, now_ms);
        }
    }
    assert(from.len() == wanted.len());
}

/// A project file whose tasks were changed holds these tasks and the time of the change; one
/// that was archived or taken back holds that time and the time of the change. All else is as it
/// was.
pub proof fn law_files_keep_the_rest(
    root: JsonView,
    wanted: Seq<(TaskStatus, Seq<char>)>,
    ids: Seq<Seq<char>>,
    archived_at_ms: i64,
    now_ms: i64,
    key: Seq<char>,
)
    ensures
        json::field(project_file::with_tasks(root, wanted, ids, now_ms), key) == if key
            == "updatedAtMs"@ {
            Some(JsonView::Int(now_ms))
        } else if key == "tasks"@ {
            Some(
                JsonView::Arr(
                    project_file::task_values(project_file::tasks_of(root), wanted, ids, now_ms),
                ),
            )
        } else {
            json::field(root, key)
        },
        json::field(project_file::with_archived(root, archived_at_ms, now_ms), key) == if key
            == "updatedAtMs"@ {
            Some(JsonView::Int(now_ms))
        } else if key == "archivedAtMs"@ {
            Some(JsonView::Int(archived_at_ms))
        } else {
            json::field(root, key)
        },
{
    reveal_strlit("tasks");
    reveal_strlit("updatedAtMs");
    reveal_strlit("archivedAtMs");
    assert("tasks"@.len() == 5 && "updatedAtMs"@.len() == 11 && "archivedAtMs"@.len() == 12);
}

/// The texts of an order file are read where all of its items are texts, each as it is; where
/// one is not, none is.
pub proof fn law_order_is_read(items: Seq<JsonView>)
    ensures
        match project_file::all_texts(items) {
            Some(names) => names.len() == items.len() && forall|i: int|
                0 <= i < items.len() ==> #[trigger] items[i] == JsonView::Str(names[i]),
            None => exists|i: int| 0 <= i < items.len() && !((#[trigger] items[i]) is Str),
        },
    decreases items.len(),
{
    if items.len() > 0 {
        let head = items.drop_last();
        law_order_is_read(head);
        match project_file::all_texts(head) {
            Some(before) => {
                match items.last() {
                    JsonView::Str(s) => {
                        let names = before.push(s);
                        assert forall|i: int| 0 <= i < items.len() implies #[trigger] items[i]
                            == JsonView::Str(names[i]) by {
                            if i < head.len() {
                                assert(head[i] == items[i]);
                            }
                        }
                    },
                    _ => {
                        assert(!(items[items.len() - 1] is Str));
                    },
                }
            },
            None => {
                let i = choose|i: int| 0 <= i < head.len() && !((#[trigger] head[i]) is Str);
                assert(!(items[i] is Str));
            },
        }
    }
}

/// A project file holds an object; nothing at all counts as an empty one. Every other JSON is
/// refused as no object, and every other text as no JSON.
pub proof fn law_file_holds_an_object(s: Seq<char>)
    ensures
        match json::parsed(s) {
            Some(JsonView::Obj(m)) => project_file::root_of(s) == Ok::<
                JsonView,
                project_file::FileError,
            >(JsonView::Obj(m)),
            Some(JsonView::Null) => project_file::root_of(s) is Ok && forall|key: Seq<char>|
                json::field(project_file::root_of(s)->Ok_0, key) is None,
            Some(_) => project_file::root_of(s) is Err && project_file::root_of(s)->Err_0
                is NotObject,
            None => project_file::root_of(s) is Err && project_file::root_of(s)->Err_0 is NotJson,
        },
{
}

/// The order that is written for the projects is the one that is read again, name by name.
pub proof fn law_order_reads_back(order: Seq<Seq<char>>)
    ensures
        project_file::order_value(order) matches JsonView::Arr(items) && project_file::all_texts(
            items,
        ) == Some(order),
{
    let items = project_file::order_value(order)->Arr_0;
    assert(items.len() == order.len());
    law_order_is_read(items);
    assert forall|i: int| 0 <= i < items.len() implies #[trigger] items[i] == JsonView::Str(
        order[i],
    ) by {}
    match project_file::all_texts(items) {
        Some(names) => {
            assert forall|i: int| 0 <= i < names.len() implies names[i] == order[i] by {
                assert(items[i] == JsonView::Str(names[i]));
            }
            assert(names =~= order);
        },
        None => {
            let i = choose|i: int| 0 <= i < items.len() && !((#[trigger] items[i]) is Str);
            assert(items[i] == JsonView::Str(order[i]));
        },
    }
}

/// The file of a new project names it and its directory. It has no tasks and no address, was made
/// and changed last at the moment that is given, and is not put away.
pub proof fn law_new_project_file(
    id: Seq<char>,
    name: Seq<char>,
    dir_name: Seq<char>,
    now_ms: i64,
)
    ensures
        ({
            let j = project_file::new_project(id, name, dir_name, now_ms);
            &&& json::field(j, "id"@) == Some(JsonView::Str(id))
            &&& json::field(j, "name"@) == Some(JsonView::Str(name))
            &&& json::field(j, "dirName"@) == Some(JsonView::Str(dir_name))
            &&& json::field(j, "createdAtMs"@) == Some(JsonView::Int(now_ms))
            &&& json::field(j, "updatedAtMs"@) == Some(JsonView::Int(now_ms))
            &&& json::field(j, "archivedAtMs"@) == Some(JsonView::Int(0))
            &&& json::field(j, "issueUrl"@) == Some(JsonView::Str(""@))
            &&& json::field(j, "tasks"@) == Some(JsonView::Arr(Seq::empty()))
        }),
{
    reveal_strlit("id");
    reveal_strlit("name");
    reveal_strlit("dirName");
    reveal_strlit("createdAtMs");
    reveal_strlit("updatedAtMs");
    reveal_strlit("archivedAtMs");
    reveal_strlit("issueUrl");
    reveal_strlit("tasks");
    assert("createdAtMs"@[0] == 'c' && "updatedAtMs"@[0] == 'u');
    assert("id"@.len() == 2 && "name"@.len() == 4 && "dirName"@.len() == 7 && "tasks"@.len() == 5);
    assert("archivedAtMs"@.len() == 12 && "issueUrl"@.len() == 8);
    let f0 = Seq::<(Seq<char>, JsonView)>::empty();
    let f1 = f0.push(("id"@, JsonView::Str(id)));
    let f2 = f1.push(("name"@, JsonView::Str(name)));
    let f3 = f2.push(("dirName"@, JsonView::Str(dir_name)));
    let f4 = f3.push(("createdAtMs"@, JsonView::Int(now_ms)));
    let f5 = f4.push(("updatedAtMs"@, JsonView::Int(now_ms)));
    let f6 = f5.push(("archivedAtMs"@, JsonView::Int(0)));
    let f7 = f6.push(("issueUrl"@, JsonView::Str(""@)));
    let f8 = f7.push(("tasks"@, JsonView::Arr(Seq::empty())));
    assert(f8 =~= seq![
        ("id"@, JsonView::Str(id)),
        ("name"@, JsonView::Str(name)),
        ("dirName"@, JsonView::Str(dir_name)),
        ("createdAtMs"@, JsonView::Int(now_ms)),
        ("updatedAtMs"@, JsonView::Int(now_ms)),
        ("archivedAtMs"@, JsonView::Int(0)),
        ("issueUrl"@, JsonView::Str(""@)),
        ("tasks"@, JsonView::Arr(Seq::empty())),
    ]);
    assert(f8.drop_last() =~= f7 && f7.drop_last() =~= f6 && f6.drop_last() =~= f5
        && f5.drop_last() =~= f4 && f4.drop_last() =~= f3 && f3.drop_last() =~= f2
        && f2.drop_last() =~= f1 && f1.drop_last() =~= f0);
    reveal_with_fuel(json::object, 9);
    assert(project_file::new_project(id, name, dir_name, now_ms) == json::object(f8));
}

} // verus!
