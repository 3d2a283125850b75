//! What holds of moving projects up and down their list.

use vstd::prelude::*;

use crate::app::jobs::{AfterView, EventView, JobView, WaitView};
use crate::app::state;
use crate::app::state::AppView;
use crate::app::steps;
use crate::app::types::Msg;
use crate::calendar::Moment;
use crate::model::project::ProjectView;
use crate::store::paths;

verus! {

/// Listed projects stand in their order.
proof fn lemma_listed_rise(projects: Seq<ProjectView>, archived: bool)
    ensures
        forall|i: int, j: int|
            0 <= i < j < state::listed_projects(projects, archived).len() ==> (
            #[trigger] state::listed_projects(projects, archived)[i]) < (
            #[trigger] state::listed_projects(projects, archived)[j]),
        forall|i: int|
            0 <= i < state::listed_projects(projects, archived).len() ==> 0 <= (
            #[trigger] state::listed_projects(projects, archived)[i]) < projects.len(),
    decreases projects.len(),
{
    if projects.len() > 0 {
        lemma_listed_rise(projects.drop_last(), archived);
        let before = state::listed_projects(projects.drop_last(), archived);
        let all = state::listed_projects(projects, archived);
        assert forall|i: int, j: int| 0 <= i < j < all.len() implies (#[trigger] all[i]) < (
        #[trigger] all[j]) by {
            assert(all[i] == before[i]);
            if j < before.len() {
                assert(all[j] == before[j]);
            }
        }
        assert forall|i: int| 0 <= i < all.len() implies 0 <= (#[trigger] all[i])
            < projects.len() by {
            if i < before.len() {
                assert(all[i] == before[i]);
            }
        }
    }
}

/// Rearranging names at some places puts them there and leaves all others.
proof fn lemma_rearranged(
    names: Seq<Seq<char>>,
    places: Seq<int>,
    order: Seq<int>,
    k: int,
)
    requires
        0 <= k <= places.len(),
        places.len() == order.len(),
        forall|i: int, j: int|
            0 <= i < j < places.len() ==> (#[trigger] places[i]) < (#[trigger] places[j]),
        forall|i: int| 0 <= i < places.len() ==> 0 <= (#[trigger] places[i]) < names.len(),
    ensures
        ({
            let r = steps::rearranged(names, places, order, k);
            &&& r.len() == names.len()
            &&& forall|i: int| 0 <= i < k ==> r[#[trigger] places[i]] == names[order[i]]
            &&& forall|x: int|
                0 <= x < names.len() && !places.contains(x) ==> #[trigger] r[x] == names[x]
        }),
    decreases k,
{
    if k > 0 {
        lemma_rearranged(names, places, order, k - 1);
        let before = steps::rearranged(names, places, order, k - 1);
        let r = steps::rearranged(names, places, order, k);
        let last = places[k - 1];
        assert forall|i: int| 0 <= i < k implies r[#[trigger] places[i]] == names[order[i]] by {
            if i < k - 1 {
                assert(places[i] < places[k - 1]);
            }
        }
        assert forall|x: int| 0 <= x < names.len() && !places.contains(x) implies
            #[trigger] r[x] == names[x] by {
            if x == last {
                assert(places.contains(x));
            }
        }
    }
}

/// One place down or up.
pub open spec fn one_place(down: bool) -> int {
    if down {
        1
    } else {
        -1
    }
}

/// Moving a project by one place exchanges it with its neighbor in the list. All other
/// projects, those that are not listed among them, stay where they are.
pub proof fn law_moved_project_changes_places(s: AppView, down: bool)
    requires
        0 <= s.project_sel < s.projects_shown().len(),
        0 <= s.project_sel + one_place(down) < s.projects_shown().len(),
    ensures
        ({
            let shown = s.projects_shown();
            let delta = one_place(down);
            let a = shown[s.project_sel];
            let b = shown[s.project_sel + delta];
            match s.project_moved(delta).1 {
                Some(JobView::SaveOrder { order }) => {
                    &&& order.len() == s.projects.len()
                    &&& order[a] == s.projects[b].dir_name
                    &&& order[b] == s.projects[a].dir_name
                    &&& forall|x: int|
                        0 <= x < order.len() && x != a && x != b ==> #[trigger] order[x]
                            == s.projects[x].dir_name
                },
                _ => false,
            }
        }),
{
    let shown = s.projects_shown();
    let delta = one_place(down);
    let at = s.project_sel;
    let to = at + delta;
    let names = s.projects.map_values(|p: ProjectView| p.dir_name);
    let moved = shown.remove(at).insert(to, shown[at]);
    lemma_listed_rise(s.projects, s.show_archived);
    lemma_rearranged(names, shown, moved, shown.len() as int);
    let order = steps::rearranged(names, shown, moved, shown.len() as int);
    assert(moved[at] == shown[to] && moved[to] == shown[at]);
    assert(order[shown[at]] == names[moved[at]]);
    assert(order[shown[to]] == names[moved[to]]);
    assert forall|x: int|
        0 <= x < order.len() && x != shown[at] && x != shown[to] implies #[trigger] order[x]
        == s.projects[x].dir_name by {
        if shown.contains(x) {
            let k = choose|k: int| 0 <= k < shown.len() && shown[k] == x;
            assert(moved[k] == shown[k]);
            assert(order[shown[k]] == names[moved[k]]);
        }
    }
}

/// The state after a project was asked to move, with the order saved where there is one to
/// save and the projects read again as their directories were found.
#[verifier::opaque]
pub open spec fn after_move(s: AppView, down: bool, found: Seq<ProjectView>, now: Moment) -> AppView {
    let step = s.told(Msg::MoveProject(one_step(down)), now);
    match step.1 {
        Some(JobView::SaveOrder { order }) => step.0.resumed(
            EventView::Saved(None),
            now,
        ).0.resumed(EventView::Projects(Ok(paths::in_order(found, order))), now).0,
        _ => step.0,
    }
}

/// Whether a project is listed.
spec fn is_listed(p: ProjectView, archived: bool) -> bool {
    archived || p.archived_at_ms <= 0
}

/// Which projects are listed depends on which of them are archived.
proof fn lemma_listed_same(a: Seq<ProjectView>, b: Seq<ProjectView>, archived: bool)
    requires
        a.len() == b.len(),
        forall|i: int|
            0 <= i < a.len() ==> is_listed(#[trigger] a[i], archived) == is_listed(b[i], archived),
    ensures
        state::listed_projects(a, archived) == state::listed_projects(b, archived),
    decreases a.len(),
{
    if a.len() > 0 {
        let x = a.drop_last();
        let y = b.drop_last();
        assert forall|i: int| 0 <= i < x.len() implies is_listed(#[trigger] x[i], archived)
            == is_listed(y[i], archived) by {
            assert(x[i] == a[i] && y[i] == b[i]);
        }
        lemma_listed_same(x, y, archived);
        assert(is_listed(a[a.len() - 1], archived) == is_listed(b[a.len() - 1], archived));
    }
}

/// A project that is listed is not archived, unless archived ones are listed too.
proof fn lemma_listed_open(projects: Seq<ProjectView>, archived: bool, k: int)
    requires
        0 <= k < state::listed_projects(projects, archived).len(),
    ensures
        is_listed(projects[state::listed_projects(projects, archived)[k]], archived),
    decreases projects.len(),
{
    let front = projects.drop_last();
    let before = state::listed_projects(front, archived);
    if k < before.len() {
        lemma_listed_open(front, archived, k);
        lemma_listed_rise(front, archived);
        assert(state::listed_projects(projects, archived)[k] == before[k]);
        assert(front[before[k]] == projects[before[k]]);
    }
}

/// A list of projects with two of them exchanged.
pub open spec fn exchanged(projects: Seq<ProjectView>, a: int, b: int) -> Seq<ProjectView> {
    projects.update(a, projects[b]).update(b, projects[a])
}

/// Exchanging two projects keeps which ones there are and that they lie apart.
proof fn lemma_exchanged(projects: Seq<ProjectView>, a: int, b: int, found: Seq<ProjectView>)
    requires
        0 <= a < projects.len(),
        0 <= b < projects.len(),
        paths::lie_apart(projects),
        paths::same_projects(found, projects),
    ensures
        paths::lie_apart(exchanged(projects, a, b)),
        paths::same_projects(found, exchanged(projects, a, b)),
{
    let next = exchanged(projects, a, b);
    let from = |i: int| if i == a { b } else if i == b { a } else { i };
    assert forall|i: int, j: int| 0 <= i < j < next.len() implies (#[trigger] next[i]).dir_name
        != (#[trigger] next[j]).dir_name by {
        assert(next[i] == projects[from(i)] && next[j] == projects[from(j)]);
        assert(projects[from(i)].dir_name != projects[from(j)].dir_name);
    }
    assert forall|i: int| 0 <= i < found.len() implies next.contains(#[trigger] found[i]) by {
        assert(projects.contains(found[i]));
        let k = choose|k: int| 0 <= k < projects.len() && projects[k] == found[i];
        assert(next[from(k)] == found[i]);
    }
}

/// One place down or up, as a message says it.
pub open spec fn one_step(down: bool) -> i32 {
    if down {
        1
    } else {
        (-1) as i32
    }
}

/// The projects with the chosen one and its neighbor exchanged.
pub open spec fn moved_projects(s: AppView, down: bool) -> Seq<ProjectView> {
    let shown = s.projects_shown();
    exchanged(s.projects, shown[s.project_sel], shown[s.project_sel + one_place(down)])
}

/// A move by one place asks that the order be saved in which the chosen project and its
/// neighbor have changed places.
pub proof fn law_move_asks_to_save(s: AppView, down: bool, now: Moment)
    requires
        0 <= s.project_sel < s.projects_shown().len(),
        0 <= s.project_sel + one_place(down) < s.projects_shown().len(),
    ensures
        s.told(Msg::MoveProject(one_step(down)), now) == (
            AppView {
                wait: WaitView::Order { to: s.project_sel + one_place(down), down },
                status: None,
                ..s
            },
            Some(JobView::SaveOrder { order: paths::dir_names(moved_projects(s, down)) }),
        ),
{
    let c = AppView { status: None, ..s };
    assert(c.projects_shown() == s.projects_shown());
    let delta = one_place(down);
    let shown = s.projects_shown();
    let a = shown[s.project_sel];
    let b = shown[s.project_sel + delta];
    lemma_listed_rise(s.projects, s.show_archived);
    law_moved_project_changes_places(c, down);
    let step = c.project_moved(delta);
    assert(s.told(Msg::MoveProject(one_step(down)), now) == step);
    let order = step.1->0->SaveOrder_order;
    let next = moved_projects(s, down);
    let names = paths::dir_names(next);
    assert(order.len() == names.len());
    assert forall|x: int| 0 <= x < order.len() implies order[x] == #[trigger] names[x] by {
        assert(names[x] == next[x].dir_name);
        if x != a && x != b {
            assert(order[x] == s.projects[x].dir_name);
        }
    }
    assert(order =~= names);
}

/// Once the order is saved, the projects are to be read again.
pub proof fn law_saved_order_asks_to_read(s: AppView, to: int, down: bool, now: Moment)
    requires
        s.wait == (WaitView::Order { to, down }),
    ensures
        s.resumed(EventView::Saved(None), now) == (
            AppView { wait: WaitView::Projects(AfterView::Order { to, down }), ..s },
            Some(JobView::LoadProjects),
        ),
{
}

/// Once the projects are read again, they are listed as they were read, and the moved one is
/// chosen at its new place.
pub proof fn law_read_order_is_shown(
    s: AppView,
    to: int,
    down: bool,
    read: Seq<ProjectView>,
    now: Moment,
)
    requires
        s.wait == WaitView::Projects(AfterView::Order { to, down }),
    ensures
        ({
            let t = s.resumed(EventView::Projects(Ok(read)), now);
            &&& t.0.projects == read
            &&& t.0.project_sel == to
            &&& t.0.show_archived == s.show_archived
            &&& t.0.wait is Idle
            &&& t.1 is None
        }),
{
    let idle = AppView { wait: WaitView::Idle, ..s };
    assert(s.resumed(EventView::Projects(Ok(read)), now) == idle.projects_read(
        Ok(read),
    ).after_reload(AfterView::Order { to, down }, now));
}

/// A list of projects in which a listed one and its neighbor have changed places is listed at
/// the same places, and with the order that was saved it is what is read again.
pub proof fn law_moved_projects_are_read(s: AppView, down: bool, found: Seq<ProjectView>)
    requires
        0 <= s.project_sel < s.projects_shown().len(),
        0 <= s.project_sel + one_place(down) < s.projects_shown().len(),
        s.projects.len() <= u64::MAX,
        paths::lie_apart(s.projects),
        paths::same_projects(found, s.projects),
    ensures
        ({
            let next = moved_projects(s, down);
            &&& paths::in_order(found, paths::dir_names(next)) == next
            &&& state::listed_projects(next, s.show_archived) == s.projects_shown()
            &&& next[s.projects_shown()[s.project_sel + one_place(down)]]
                == s.projects[s.projects_shown()[s.project_sel]]
            &&& paths::lie_apart(next)
            &&& paths::same_projects(found, next)
        }),
{
    let shown = s.projects_shown();
    let at = s.project_sel;
    let to = at + one_place(down);
    let a = shown[at];
    let b = shown[to];
    let next = moved_projects(s, down);
    lemma_listed_rise(s.projects, s.show_archived);
    lemma_listed_open(s.projects, s.show_archived, at);
    lemma_listed_open(s.projects, s.show_archived, to);
    lemma_listed_same(s.projects, next, s.show_archived);
    lemma_exchanged(s.projects, a, b, found);
    paths::law_saved_order_is_kept(found, next);
}

/// A move of a project by one place, with the order saved and the projects read again.
proof fn lemma_after_move(s: AppView, down: bool, found: Seq<ProjectView>, now: Moment)
    requires
        0 <= s.project_sel < s.projects_shown().len(),
        0 <= s.project_sel + one_place(down) < s.projects_shown().len(),
        s.projects.len() <= u64::MAX,
        paths::lie_apart(s.projects),
        paths::same_projects(found, s.projects),
    ensures
        ({
            let t = after_move(s, down, found, now);
            &&& t.projects == moved_projects(s, down)
            &&& t.projects_shown() == s.projects_shown()
            &&& t.project_sel == s.project_sel + one_place(down)
            &&& t.project() == s.project()
        }),
{
    reveal(after_move);
    let to = s.project_sel + one_place(down);
    let next = moved_projects(s, down);
    law_move_asks_to_save(s, down, now);
    law_moved_projects_are_read(s, down, found);
    let step = s.told(Msg::MoveProject(one_step(down)), now);
    law_saved_order_asks_to_read(step.0, to, down, now);
    let saved = step.0.resumed(EventView::Saved(None), now);
    law_read_order_is_shown(saved.0, to, down, next, now);
}

/// A project that goes one place down or up changes places with its neighbor in the list and
/// stays chosen, and all other projects stay where they are. Going back the other way gives
/// the list and the choice as they were.
pub proof fn law_project_moves_there_and_back(
    s: AppView,
    down: bool,
    found: Seq<ProjectView>,
    again: Seq<ProjectView>,
    now: Moment,
    later: Moment,
)
    requires
        0 <= s.project_sel < s.projects_shown().len(),
        0 <= s.project_sel + one_place(down) < s.projects_shown().len(),
        s.projects.len() <= u64::MAX,
        paths::lie_apart(s.projects),
        paths::same_projects(found, s.projects),
        paths::same_projects(again, s.projects),
    ensures
        ({
            let t = after_move(s, down, found, now);
            let u = after_move(t, !down, again, later);
            &&& t.projects == moved_projects(s, down)
            &&& t.projects_shown() == s.projects_shown()
            &&& t.project_sel == s.project_sel + one_place(down)
            &&& t.project() == s.project()
            &&& u.projects == s.projects
            &&& u.projects_shown() == s.projects_shown()
            &&& u.project_sel == s.project_sel
            &&& u.project() == s.project()
        }),
{
    let t = after_move(s, down, found, now);
    lemma_listed_rise(s.projects, s.show_archived);
    lemma_after_move(s, down, found, now);
    law_moved_projects_are_read(s, down, again);
    lemma_after_move(t, !down, again, later);
    assert(moved_projects(t, !down) =~= s.projects);
}

/// A project at an end of the list does not go beyond it.
pub proof fn law_project_stops_at_the_ends(s: AppView, delta: i32, now: Moment)
    requires
        s.project_sel + delta < 0 || s.project_sel + delta >= s.projects_shown().len(),
    ensures
        s.told(Msg::MoveProject(delta), now) == (AppView { status: None, ..s }, None::<JobView>),
{
    let c = AppView { status: None, ..s };
    assert(c.projects_shown() == s.projects_shown());
}

} // verus!
