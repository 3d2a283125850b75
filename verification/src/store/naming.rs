//! How files and directories are named, and in what order they are listed.

use vstd::prelude::*;

use crate::model::project::ProjectView;
use crate::number;
use crate::sort;
use crate::store::paths;
use crate::text;

verus! {

// ------------------------------------------------------------------------- projects

/// Whether a name stands in an order first at a place.
pub open spec fn stands_first(order: Seq<Seq<char>>, name: Seq<char>, at: int) -> bool {
    &&& 0 <= at < order.len()
    &&& order[at] == name
    &&& forall|i: int| 0 <= i < at ==> #[trigger] order[i] != name
}

/// Whether a project is listed before another: those in the order come first and stand as they
/// do there; else the one that was changed later comes first.
pub open spec fn is_listed_before(order: Seq<Seq<char>>, a: ProjectView, b: ProjectView) -> bool {
    if order.contains(a.dir_name) {
        if order.contains(b.dir_name) {
            ||| exists|i: int, j: int|
                i < j && #[trigger] stands_first(order, a.dir_name, i) && #[trigger] stands_first(
                    order,
                    b.dir_name,
                    j,
                )
            ||| a.dir_name == b.dir_name && a.updated_at_ms > b.updated_at_ms
        } else {
            true
        }
    } else {
        !order.contains(b.dir_name) && a.updated_at_ms > b.updated_at_ms
    }
}

proof fn lemma_place(order: Seq<Seq<char>>, name: Seq<char>, i: int)
    requires
        0 <= i <= order.len(),
        forall|j: int| 0 <= j < i ==> #[trigger] order[j] != name,
    ensures
        ({
            let at = paths::place_in(order, name, i);
            if at < order.len() {
                stands_first(order, name, at)
            } else {
                !order.contains(name)
            }
        }),
        paths::place_in(order, name, i) <= order.len(),
    decreases order.len() - i,
{
    if i < order.len() && order[i] != name {
        lemma_place(order, name, i + 1);
    }
}

proof fn lemma_first_unique(order: Seq<Seq<char>>, name: Seq<char>, a: int, b: int)
    requires
        stands_first(order, name, a),
        stands_first(order, name, b),
    ensures
        a == b,
{
}

/// Keys of three numbers are ordered by the first in which they differ.
proof fn lemma_three(a: Seq<u64>, b: Seq<u64>)
    requires
        a.len() == 3,
        b.len() == 3,
    ensures
        sort::key_less(a, b) == (a[0] < b[0] || (a[0] == b[0] && (a[1] < b[1] || (a[1] == b[1]
            && a[2] < b[2])))),
{
    sort::law_keys_are_ordered(a, b);
    if sort::key_less(a, b) {
        let k = choose|k: int| #[trigger] sort::differs_at(a, b, k);
        assert(k < 3);
        if k > 0 {
            assert(a[0] == b[0]);
        }
        if k > 1 {
            assert(a[1] == b[1]);
        }
    }
    if a[0] < b[0] {
        assert(sort::differs_at(a, b, 0));
    } else if a[0] == b[0] && a[1] < b[1] {
        assert(sort::differs_at(a, b, 1));
    } else if a[0] == b[0] && a[1] == b[1] && a[2] < b[2] {
        assert(sort::differs_at(a, b, 2));
    }
}

proof fn lemma_project_keys(order: Seq<Seq<char>>, a: ProjectView, b: ProjectView)
    requires
        order.len() <= u64::MAX,
    ensures
        sort::key_less(
            paths::project_key(order, a.dir_name, a.updated_at_ms),
            paths::project_key(order, b.dir_name, b.updated_at_ms),
        ) == is_listed_before(order, a, b),
{
    let x = paths::project_key(order, a.dir_name, a.updated_at_ms);
    let y = paths::project_key(order, b.dir_name, b.updated_at_ms);
    lemma_three(x, y);
    lemma_place(order, a.dir_name, 0);
    lemma_place(order, b.dir_name, 0);
    let i = paths::place_in(order, a.dir_name, 0);
    let j = paths::place_in(order, b.dir_name, 0);
    assert(order.contains(a.dir_name) == (i < order.len()));
    assert(order.contains(b.dir_name) == (j < order.len()));
    if i < order.len() && j < order.len() {
        if exists|p: int, q: int|
            p < q && #[trigger] stands_first(order, a.dir_name, p) && #[trigger] stands_first(
                order,
                b.dir_name,
                q,
            ) {
            let (p, q) = choose|p: int, q: int|
                p < q && #[trigger] stands_first(order, a.dir_name, p) && #[trigger] stands_first(
                    order,
                    b.dir_name,
                    q,
                );
            lemma_first_unique(order, a.dir_name, i, p);
            lemma_first_unique(order, b.dir_name, j, q);
        }
        if a.dir_name == b.dir_name {
            lemma_first_unique(order, a.dir_name, i, j);
        }
        if i == j {
            assert(a.dir_name == b.dir_name);
        }
    }
}

/// Projects are listed each once: first those in the saved order, as they stand there, then the
/// others, the one that was changed last first. Those that are equal in this keep the order in
/// which they were found.
pub proof fn law_projects_are_ordered(projects: Seq<ProjectView>, order: Seq<Seq<char>>)
    requires
        order.len() <= u64::MAX,
    ensures
        exists|at: Seq<int>|
            {
                let all = paths::in_order(projects, order);
                &&& #[trigger] at.no_duplicates()
                &&& at.len() == projects.len() && all.len() == projects.len()
                &&& forall|i: int|
                    0 <= i < all.len() ==> 0 <= #[trigger] at[i] < projects.len() && all[i]
                        == projects[at[i]]
                &&& forall|i: int, j: int|
                    0 <= i < j < all.len() ==> !is_listed_before(
                        order,
                        #[trigger] all[j],
                        #[trigger] all[i],
                    ) && (is_listed_before(order, all[i], all[j]) || at[i] < at[j])
            },
{
    let keys = projects.map_values(
        |p: ProjectView| paths::project_key(order, p.dir_name, p.updated_at_ms),
    );
    let at = sort::order_of(keys);
    sort::law_order_is_stable(keys);
    let all = paths::in_order(projects, order);
    assert forall|i: int, j: int| 0 <= i < j < all.len() implies !is_listed_before(
        order,
        #[trigger] all[j],
        #[trigger] all[i],
    ) && (is_listed_before(order, all[i], all[j]) || at[i] < at[j]) by {
        let a = projects[at[i]];
        let b = projects[at[j]];
        lemma_project_keys(order, a, b);
        lemma_project_keys(order, b, a);
        assert(keys[at[i]] == paths::project_key(order, a.dir_name, a.updated_at_ms));
        assert(keys[at[j]] == paths::project_key(order, b.dir_name, b.updated_at_ms));
        if !sort::key_less(keys[at[i]], keys[at[j]]) {
            sort::lemma_less_total(keys[at[i]], keys[at[j]]);
            assert(at[i] < at[j]);
        }
    }
    assert(at.no_duplicates());
}

// ---------------------------------------------------------------------------- notes

/// The name of the file that a path leads to.
pub open spec fn name_of(path: Seq<char>) -> Seq<char> {
    paths::file_name(path)->0
}

proof fn lemma_reverse_less(a: Seq<char>, b: Seq<char>)
    requires
        a.len() == b.len(),
    ensures
        sort::key_less(sort::reverse_text_key(a), sort::reverse_text_key(b))
            == sort::reads_before(b, a),
{
    let x = sort::reverse_text_key(a);
    let y = sort::reverse_text_key(b);
    sort::law_keys_are_ordered(x, y);
    assert forall|i: int| 0 <= i < a.len() implies {
        &&& (#[trigger] x[i] == #[trigger] y[i]) == (a[i] == b[i])
        &&& (x[i] < y[i]) == (b[i] < a[i])
    } by {
        lemma_reverse_char(a[i], b[i]);
    }
    if sort::key_less(x, y) {
        let k = choose|k: int| #[trigger] sort::differs_at(x, y, k);
        assert forall|i: int| 0 <= i < k implies #[trigger] b[i] == a[i] by {
            assert(x[i] == y[i]);
        }
        assert(x[k] < y[k]);
        assert(sort::parts_at(b, a, k));
    }
    if sort::reads_before(b, a) {
        let k = choose|k: int| #[trigger] sort::parts_at(b, a, k);
        assert forall|i: int| 0 <= i < k implies #[trigger] x[i] == y[i] by {
            assert(b[i] == a[i]);
        }
        assert(x[k] < y[k]);
        assert(sort::differs_at(x, y, k));
    }
}

/// Characters are ordered backwards as their numbers subtracted from the largest are.
proof fn lemma_reverse_char(a: char, b: char)
    ensures
        ((u64::MAX - a as u64) as u64 == (u64::MAX - b as u64) as u64) == (a == b),
        (((u64::MAX - a as u64) as u64) < ((u64::MAX - b as u64) as u64)) == (b < a),
{
}

/// Notes are listed each once, the one with the latest date in its name first. Those with the
/// same name keep the order in which they were found.
pub proof fn law_notes_are_newest_first(found: Seq<Seq<char>>)
    requires
        forall|i: int|
            0 <= i < found.len() ==> paths::file_name(#[trigger] found[i]) is Some
                && paths::is_note_name(name_of(found[i])),
    ensures
        exists|at: Seq<int>|
            {
                let all = paths::newest_first(found);
                &&& #[trigger] at.no_duplicates()
                &&& at.len() == found.len() && all.len() == found.len()
                &&& forall|i: int|
                    0 <= i < all.len() ==> 0 <= #[trigger] at[i] < found.len() && all[i]
                        == found[at[i]]
                &&& forall|i: int, j: int|
                    0 <= i < j < all.len() ==> !sort::reads_before(
                        name_of(#[trigger] all[i]),
                        name_of(#[trigger] all[j]),
                    ) && (sort::reads_before(name_of(all[j]), name_of(all[i])) || at[i] < at[j])
            },
{
    let keys = found.map_values(|p: Seq<char>| paths::note_key(p));
    let at = sort::order_of(keys);
    sort::law_order_is_stable(keys);
    let all = paths::newest_first(found);
    assert forall|i: int, j: int| 0 <= i < j < all.len() implies !sort::reads_before(
        name_of(#[trigger] all[i]),
        name_of(#[trigger] all[j]),
    ) && (sort::reads_before(name_of(all[j]), name_of(all[i])) || at[i] < at[j]) by {
        let a = found[at[i]];
        let b = found[at[j]];
        assert(paths::is_note_name(name_of(a)) && paths::is_note_name(name_of(b)));
        lemma_reverse_less(name_of(a), name_of(b));
        lemma_reverse_less(name_of(b), name_of(a));
        assert(keys[at[i]] == sort::reverse_text_key(name_of(a)));
        assert(keys[at[j]] == sort::reverse_text_key(name_of(b)));
        if !sort::key_less(keys[at[i]], keys[at[j]]) {
            sort::lemma_less_total(keys[at[i]], keys[at[j]]);
            assert(at[i] < at[j]);
        }
    }
    assert(at.no_duplicates());
}

/// The note of a day lies below the directory of posts, in a directory for its year, one for its
/// month and one for its day.
pub proof fn law_note_path_layout(dir: Seq<char>, date: Seq<char>)
    requires
        paths::is_date_text(date),
        dir.len() > 0,
        dir.last() != '/',
    ensures
        paths::note_path_of(dir, date) == Some(
            dir + seq!['/', 'p', 'o', 's', 't', 's', '/'] + date.subrange(0, 4) + seq!['/']
                + date.subrange(5, 7) + seq!['/'] + date.subrange(8, 10) + seq!['/'] + date + seq![
                '.',
                'm',
                'd',
            ],
        ),
{
    reveal_strlit("posts");
    reveal_strlit(".md");
    let y = date.subrange(0, 4);
    let m = date.subrange(5, 7);
    let d = date.subrange(8, 10);
    assert(text::is_digit(date[0]) && text::is_digit(date[3]) && text::is_digit(date[5])
        && text::is_digit(date[6]) && text::is_digit(date[8]) && text::is_digit(date[9]));
    assert(y[0] == date[0] && y.last() == date[3]);
    assert(m[0] == date[5] && m.last() == date[6]);
    assert(d[0] == date[8] && d.last() == date[9]);
    let a = paths::joined_path(dir, "posts"@);
    assert(a =~= dir + seq!['/', 'p', 'o', 's', 't', 's']);
    assert(a.last() == 's');
    let b = paths::joined_path(a, y);
    assert(b.last() == y.last());
    let c = paths::joined_path(b, m);
    assert(c.last() == m.last());
    let e = paths::joined_path(c, d);
    assert(e.last() == d.last());
    let f = paths::joined_path(e, date + ".md"@);
    assert((date + ".md"@)[0] == date[0]);
    assert(f =~= dir + seq!['/', 'p', 'o', 's', 't', 's', '/'] + y + seq!['/'] + m + seq!['/'] + d
        + seq!['/'] + date + seq!['.', 'm', 'd']);
}

/// Whether a text can be the name of a file: it is not empty, it holds no slash, and it is
/// neither one dot nor two.
pub open spec fn is_name(s: Seq<char>) -> bool {
    s.len() > 0 && !s.contains('/') && s != seq!['.'] && s != seq!['.', '.']
}

proof fn lemma_last_part(base: Seq<char>, name: Seq<char>)
    requires
        base.len() == 0 || base.last() == '/',
        !name.contains('/'),
    ensures
        paths::last_part_at(base + name) == base.len(),
    decreases name.len(),
{
    let s = base + name;
    if name.len() > 0 {
        assert(name.contains(name.last()));
        assert(s.drop_last() =~= base + name.drop_last());
        assert(!name.drop_last().contains('/')) by {
            if name.drop_last().contains('/') {
                let k = choose|k: int| 0 <= k < name.drop_last().len() && name.drop_last()[k] == '/';
                assert(name[k] == '/');
            }
        }
        lemma_last_part(base, name.drop_last());
    } else {
        assert(s =~= base);
    }
}

/// The name of a file is what stands behind the last slash of its path; slashes at the end do
/// not count.
pub proof fn law_file_name_is_the_last_part(base: Seq<char>, name: Seq<char>)
    requires
        base.len() == 0 || base.last() == '/',
        is_name(name),
    ensures
        paths::file_name(base + name) == Some(name),
        paths::file_name((base + name).push('/')) == Some(name),
{
    let s = base + name;
    lemma_last_part(base, name);
    assert(name.contains(name.last()));
    assert(s.last() == name.last());
    assert(paths::without_end(s) == s) by {
        if s.len() >= 2 && s.last() == '.' && s[s.len() - 2] == '/' {
            if name.len() >= 2 {
                assert(s[s.len() - 2] == name[name.len() - 2]);
                assert(name.contains(name[name.len() - 2]));
            } else {
                assert(name =~= seq!['.']);
            }
        }
    }
    assert(s.skip(base.len() as int) =~= name);
    assert(s.push('/').drop_last() =~= s);
}

/// A name without its extension is what stands before its last dot; a name without a dot, or
/// with one only at its beginning, is all of it.
pub proof fn law_stem(front: Seq<char>, ext: Seq<char>)
    requires
        !ext.contains('.'),
    ensures
        front.len() > 0 ==> paths::stem(front.push('.') + ext) == front,
        paths::stem(ext) == ext,
        paths::stem(seq!['.'] + ext) == seq!['.'] + ext,
{
    lemma_last_dot(front, ext);
    lemma_last_dot(Seq::empty(), ext);
    assert(Seq::<char>::empty().push('.') + ext =~= seq!['.'] + ext);
    lemma_no_dot(ext);
    assert((front.push('.') + ext).take(front.len() as int) =~= front);
}

proof fn lemma_no_dot(s: Seq<char>)
    requires
        !s.contains('.'),
    ensures
        paths::last_dot(s) == -1,
    decreases s.len(),
{
    if s.len() > 0 {
        assert(s.contains(s.last()));
        assert(!s.drop_last().contains('.')) by {
            if s.drop_last().contains('.') {
                let k = choose|k: int| 0 <= k < s.drop_last().len() && s.drop_last()[k] == '.';
                assert(s[k] == '.');
            }
        }
        lemma_no_dot(s.drop_last());
    }
}

proof fn lemma_last_dot(front: Seq<char>, ext: Seq<char>)
    requires
        !ext.contains('.'),
    ensures
        paths::last_dot(front.push('.') + ext) == front.len(),
    decreases ext.len(),
{
    let s = front.push('.') + ext;
    if ext.len() > 0 {
        assert(ext.contains(ext.last()));
        assert(!ext.drop_last().contains('.')) by {
            if ext.drop_last().contains('.') {
                let k = choose|k: int| 0 <= k < ext.drop_last().len() && ext.drop_last()[k] == '.';
                assert(ext[k] == '.');
            }
        }
        lemma_last_dot(front, ext.drop_last());
        assert(s.drop_last() =~= front.push('.') + ext.drop_last());
        assert(s.last() == ext.last());
    } else {
        assert(s =~= front.push('.'));
    }
}

/// A part lies below a base with one slash between them; a part that begins with a slash stands
/// for itself.
pub proof fn law_joined_path(base: Seq<char>, part: Seq<char>)
    ensures
        part.len() > 0 && part[0] == '/' ==> paths::joined_path(base, part) == part,
        base.len() > 0 && base.last() != '/' && (part.len() == 0 || part[0] != '/')
            ==> paths::joined_path(base, part) == base + seq!['/'] + part,
        (base.len() == 0 || base.last() == '/') && (part.len() == 0 || part[0] != '/')
            ==> paths::joined_path(base, part) == base + part,
{
    assert(base.push('/') + part =~= base + seq!['/'] + part);
}

// ------------------------------------------------------------------ directory names

/// Whether a character stays in the name of a directory: an ASCII letter or digit, or an
/// underscore.
pub open spec fn stays(c: char) -> bool {
    'a' <= c <= 'z' || 'A' <= c <= 'Z' || '0' <= c <= '9' || c == '_'
}

/// Whether ranges of a text are its runs of characters that stay: they do not touch, and a
/// character lies in one of them just where it stays.
pub open spec fn are_kept_runs(at: Seq<(int, int)>, s: Seq<char>) -> bool {
    &&& forall|i: int|
        0 <= i < at.len() ==> 0 <= (#[trigger] at[i]).0 < at[i].1 && at[i].1 <= s.len()
    &&& forall|i: int, j: int|
        0 <= i < j < at.len() ==> (#[trigger] at[i]).1 < (#[trigger] at[j]).0
    &&& forall|p: int| 0 <= p < s.len() ==> (stays(#[trigger] s[p]) <==> lies_in(at, p))
}

/// Whether a position lies in one of some ranges.
pub open spec fn lies_in(at: Seq<(int, int)>, p: int) -> bool {
    exists|i: int| 0 <= i < at.len() && (#[trigger] at[i]).0 <= p < at[i].1
}

/// The parts of a text in some ranges.
pub open spec fn parts_of(at: Seq<(int, int)>, s: Seq<char>) -> Seq<Seq<char>> {
    at.map_values(|r: (int, int)| s.subrange(r.0, r.1))
}

/// A hyphen, or nothing.
spec fn hyphen_if(b: bool) -> Seq<char> {
    if b {
        seq!['-']
    } else {
        Seq::empty()
    }
}

/// The runs of a text with hyphens between them, and one at an end where something else stands.
proof fn lemma_hyphened(s: Seq<char>) -> (at: Seq<(int, int)>)
    ensures
        are_kept_runs(at, s),
        at.len() == 0 ==> paths::hyphened(s) == hyphen_if(s.len() > 0),
        at.len() > 0 ==> paths::hyphened(s) == hyphen_if(!stays(s[0])) + text::joined(
            parts_of(at, s),
            seq!['-'],
        ) + hyphen_if(!stays(s.last())),
    decreases s.len(),
{
    if s.len() == 0 {
        assert(paths::hyphened(s) =~= hyphen_if(false));
        Seq::empty()
    } else {
        let n = s.len() - 1;
        let front = s.drop_last();
        let c = s.last();
        let head = lemma_hyphened(front);
        let h = paths::hyphened(front);
        assert forall|p: int| 0 <= p < n implies #[trigger] front[p] == s[p] by {}
        assert(parts_of(head, front) =~= parts_of(head, s)) by {
            assert forall|i: int| 0 <= i < head.len() implies parts_of(head, front)[i] == parts_of(
                head,
                s,
            )[i] by {
                let r = head[i];
                assert(front.subrange(r.0, r.1) =~= s.subrange(r.0, r.1));
            }
        }
        let mid = text::joined(parts_of(head, s), seq!['-']);
        assert(paths::is_slug_char(c) == stays(c));
        if !stays(c) {
            assert forall|p: int| 0 <= p < s.len() implies (stays(#[trigger] s[p]) <==> lies_in(
                head,
                p,
            )) by {
                if p < n {
                    assert(front[p] == s[p]);
                }
            }
            if head.len() == 0 {
                assert(paths::hyphened(s) =~= seq!['-']);
            } else {
                let m = head.len() - 1;
                assert(head[m].0 < head[m].1);
                assert(front.len() > 0);
                lemma_run_ends(parts_of(head, s), head, s);
                if stays(front.last()) {
                    assert(h.last() == mid.last());
                    assert(h.last() != '-');
                    assert(paths::hyphened(s) =~= h.push('-'));
                } else {
                    assert(h.last() == '-');
                    assert(paths::hyphened(s) == h);
                }
                assert(paths::hyphened(s) =~= hyphen_if(!stays(s[0])) + mid + seq!['-']);
            }
            head
        } else if n > 0 && stays(s[n - 1]) {
            assert(stays(front[n - 1]));
            assert(lies_in(head, n - 1));
            let i = choose|i: int| 0 <= i < head.len() && (#[trigger] head[i]).0 <= n - 1 < head[i].1;
            let m = head.len() - 1;
            if i < m {
                assert(head[i].1 < head[m].0);
            }
            assert(i == m && head[m].1 == n);
            let at = head.update(m, (head[m].0, n + 1));
            assert forall|p: int| 0 <= p < s.len() implies (stays(#[trigger] s[p]) <==> lies_in(
                at,
                p,
            )) by {
                if p < n {
                    assert(front[p] == s[p]);
                    if lies_in(head, p) {
                        let j = choose|j: int|
                            0 <= j < head.len() && (#[trigger] head[j]).0 <= p < head[j].1;
                        assert(at[j].0 <= p < at[j].1);
                    }
                    if lies_in(at, p) {
                        let j = choose|j: int|
                            0 <= j < at.len() && (#[trigger] at[j]).0 <= p < at[j].1;
                        assert(head[j].0 <= p < head[j].1);
                    }
                } else {
                    assert(at[m].0 <= p < at[m].1);
                }
            }
            let before = parts_of(head.drop_last(), s);
            let last = s.subrange(head[m].0, n);
            let grown = s.subrange(head[m].0, n + 1);
            assert(grown =~= last.push(c));
            assert(parts_of(head, s) =~= before.push(last));
            assert(parts_of(at, s) =~= before.push(grown));
            text::lemma_joined_push(before, last, seq!['-']);
            text::lemma_joined_push(before, grown, seq!['-']);
            assert(text::joined(parts_of(at, s), seq!['-']) =~= mid.push(c));
            assert(paths::hyphened(s) =~= hyphen_if(!stays(s[0])) + mid.push(c) + hyphen_if(
                false,
            ));
            at
        } else {
            let at = head.push((n, n + 1));
            if n > 0 {
                assert(!stays(front[n - 1]));
                assert(!lies_in(head, n - 1));
            }
            assert forall|i: int| 0 <= i < head.len() implies (#[trigger] head[i]).1 < n by {
                if head[i].1 >= n {
                    assert(head[i].0 <= n - 1 < head[i].1);
                    assert(lies_in(head, n - 1));
                }
            }
            assert forall|p: int| 0 <= p < s.len() implies (stays(#[trigger] s[p]) <==> lies_in(
                at,
                p,
            )) by {
                if p < n {
                    assert(front[p] == s[p]);
                    if lies_in(head, p) {
                        let j = choose|j: int|
                            0 <= j < head.len() && (#[trigger] head[j]).0 <= p < head[j].1;
                        assert(at[j].0 <= p < at[j].1);
                    }
                    if lies_in(at, p) {
                        let j = choose|j: int|
                            0 <= j < at.len() && (#[trigger] at[j]).0 <= p < at[j].1;
                        assert(head[j].0 <= p < head[j].1);
                    }
                } else {
                    assert(at[head.len() as int].0 <= p < at[head.len() as int].1);
                }
            }
            let one = s.subrange(n, n + 1);
            assert(one =~= seq![c]);
            assert(parts_of(at, s) =~= parts_of(head, s).push(one));
            text::lemma_joined_push(parts_of(head, s), one, seq!['-']);
            if head.len() == 0 {
                if n > 0 {
                    assert(stays(s[0]) == lies_in(head, 0)) by {
                        assert(front[0] == s[0]);
                    }
                    assert(!stays(s[0]));
                }
                assert(paths::hyphened(s) =~= hyphen_if(!stays(s[0])) + seq![c] + hyphen_if(false));
            } else {
                assert(paths::hyphened(s) =~= hyphen_if(!stays(s[0])) + (mid + seq!['-'] + seq![c])
                    + hyphen_if(false));
            }
            at
        }
    }
}

/// Joined runs begin and end with characters that stay.
proof fn lemma_run_ends(parts: Seq<Seq<char>>, at: Seq<(int, int)>, s: Seq<char>)
    requires
        at.len() > 0,
        parts == parts_of(at, s),
        forall|i: int|
            0 <= i < at.len() ==> 0 <= (#[trigger] at[i]).0 < at[i].1 && at[i].1 <= s.len(),
        forall|p: int| 0 <= p < s.len() && lies_in(at, p) ==> stays(#[trigger] s[p]),
    ensures
        text::joined(parts, seq!['-']).len() > 0,
        stays(text::joined(parts, seq!['-'])[0]),
        stays(text::joined(parts, seq!['-']).last()),
    decreases at.len(),
{
    let m = at.len() - 1;
    let all = text::joined(parts, seq!['-']);
    let last = parts.last();
    assert(last == s.subrange(at[m].0, at[m].1));
    assert(at[m].0 <= at[m].1 - 1 < at[m].1);
    assert(lies_in(at, at[m].1 - 1));
    assert(stays(s[at[m].1 - 1]));
    assert(last.last() == s[at[m].1 - 1]);
    if m > 0 {
        let head = at.drop_last();
        assert forall|p: int| 0 <= p < s.len() && lies_in(head, p) implies stays(#[trigger] s[p]) by {
            let i = choose|i: int| 0 <= i < head.len() && (#[trigger] head[i]).0 <= p < head[i].1;
            assert(at[i].0 <= p < at[i].1);
            assert(lies_in(at, p));
        }
        assert(parts.drop_last() =~= parts_of(head, s));
        lemma_run_ends(parts.drop_last(), head, s);
        let front = text::joined(parts.drop_last(), seq!['-']);
        assert(all == front + seq!['-'] + last);
        assert(all[0] == front[0]);
    } else {
        assert(at[0].0 <= at[0].0 < at[0].1);
        assert(lies_in(at, at[0].0));
        assert(all == last);
        assert(last[0] == s[at[0].0]);
    }
    assert(all.last() == last.last());
}

/// The directory of a project is named after the runs of letters, digits and underscores in its
/// name, in small letters, with single hyphens between them. A name without any is made of the
/// time.
pub proof fn law_slug_keeps_the_runs(name: Seq<char>, now_ms: i64)
    ensures
        exists|at: Seq<(int, int)>|
            {
                let low = text::lowercased(text::trimmed(name));
                &&& #[trigger] are_kept_runs(at, text::lowercased(text::trimmed(name)))
                &&& paths::slug(name, now_ms) == if at.len() == 0 {
                    "project-"@ + number::signed_decimal(now_ms as int)
                } else {
                    text::joined(parts_of(at, low), seq!['-'])
                }
            },
{
    let low = text::lowercased(text::trimmed(name));
    let at = lemma_hyphened(low);
    let h = paths::hyphened(low);
    if at.len() == 0 {
        let a = text::without_leading(h, '-', '-');
        if low.len() > 0 {
            assert(h.skip(1) =~= Seq::<char>::empty());
            assert(text::without_leading(h.skip(1), '-', '-') =~= Seq::<char>::empty());
            assert(a =~= Seq::<char>::empty());
        } else {
            assert(a == h);
        }
        assert(text::without_trailing(a, '-').len() == 0);
    } else {
        let mid = text::joined(parts_of(at, low), seq!['-']);
        lemma_run_ends(parts_of(at, low), at, low);
        let tail = mid + hyphen_if(!stays(low.last()));
        assert(h =~= hyphen_if(!stays(low[0])) + tail);
        assert(tail[0] == mid[0]);
        assert(text::without_leading(tail, '-', '-') == tail);
        assert(text::without_leading(h, '-', '-') == tail) by {
            if !stays(low[0]) {
                assert(h.skip(1) =~= tail);
            } else {
                assert(h =~= tail);
            }
        }
        assert(text::without_trailing(mid, '-') == mid);
        assert(text::without_trailing(tail, '-') == mid) by {
            if !stays(low.last()) {
                assert(tail.drop_last() =~= mid);
                assert(tail.last() == '-');
            } else {
                assert(tail =~= mid);
            }
        }
    }
    assert(are_kept_runs(at, text::lowercased(text::trimmed(name))));
}

/// The name with a number behind it.
pub open spec fn numbered(s: Seq<char>, k: nat) -> Seq<char> {
    if k == 1 {
        s
    } else {
        s + seq!['-'] + number::decimal(k)
    }
}

/// The name for the directory of a new project is the plain one, or the first with a number
/// behind it, counted from two, that is not taken.
pub proof fn law_free_name_is_the_first(taken: Seq<Seq<char>>, name: Seq<char>, now_ms: i64)
    ensures
        exists|k: nat|
            {
                let s = paths::slug(name, now_ms);
                &&& k >= 1
                &&& paths::free_name(taken, name, now_ms) == #[trigger] numbered(
                    paths::slug(name, now_ms),
                    k,
                )
                &&& forall|j: nat| 1 <= j < k ==> taken.contains(#[trigger] numbered(s, j))
            },
        !taken.contains(paths::free_name(taken, name, now_ms)),
{
    let s = paths::slug(name, now_ms);
    paths::law_free_name_is_free(taken, name, now_ms);
    paths::lemma_free_attempt(s, taken, 1, taken.len() + 1);
    let k = paths::free_attempt(s, taken, 1, taken.len() + 1);
    assert(paths::free_name(taken, name, now_ms) == numbered(s, k));
    assert forall|j: nat| 1 <= j < k implies taken.contains(#[trigger] numbered(s, j)) by {
        assert(taken.contains(paths::candidate(s, j)));
    }
}

/// A file is a note just where it is named after a day, four, two and two digits with hyphens
/// between them, with the extension for Markdown.
pub proof fn law_note_names(date: Seq<char>, name: Seq<char>)
    ensures
        paths::is_note_name(date + seq!['.', 'm', 'd']) <==> paths::is_date_text(date),
        paths::is_note_name(name) ==> name.len() == 13 && name.skip(10) == seq!['.', 'm', 'd'],
        paths::is_date_text(date) <==> {
            &&& date.len() == 10
            &&& date[4] == '-' && date[7] == '-'
            &&& number::all_digits(date.subrange(0, 4))
            &&& number::all_digits(date.subrange(5, 7))
            &&& number::all_digits(date.subrange(8, 10))
        },
{
    reveal_strlit(".md");
    let s = date + seq!['.', 'm', 'd'];
    assert(".md"@ =~= seq!['.', 'm', 'd']);
    if date.len() == 10 {
        assert(s.skip(10) =~= ".md"@);
        assert(s.take(10) =~= date);
        let y = date.subrange(0, 4);
        let m = date.subrange(5, 7);
        let d = date.subrange(8, 10);
        assert(y[0] == date[0] && y[1] == date[1] && y[2] == date[2] && y[3] == date[3]);
        assert(m[0] == date[5] && m[1] == date[6]);
        assert(d[0] == date[8] && d[1] == date[9]);
        if number::all_digits(y) && number::all_digits(m) && number::all_digits(d) && date[4] == '-'
            && date[7] == '-' {
            assert(text::is_digit(y[0]) && text::is_digit(y[1]) && text::is_digit(y[2])
                && text::is_digit(y[3]) && text::is_digit(m[0]) && text::is_digit(m[1])
                && text::is_digit(d[0]) && text::is_digit(d[1]));
        }
        if paths::is_date_text(date) {
            assert(date[4] == '-' && date[7] == '-');
            assert forall|i: int| 0 <= i < 4 implies text::is_digit(#[trigger] y[i]) by {
                assert(date[i] == y[i]);
            }
            assert forall|i: int| 0 <= i < 2 implies text::is_digit(#[trigger] m[i]) by {
                assert(date[i + 5] == m[i]);
            }
            assert forall|i: int| 0 <= i < 2 implies text::is_digit(#[trigger] d[i]) by {
                assert(date[i + 8] == d[i]);
            }
        }
    }
}

/// The directories that are left alone hold no notes: those of tools, and those of the wiki and
/// of images.
pub proof fn law_directories_left_alone(name: Seq<char>)
    ensures
        paths::is_ignored_dir(name) <==> seq![
            ".git"@,
            "node_modules"@,
            "dist"@,
            "release"@,
            "wiki"@,
            "images"@,
        ].contains(name),
{
    let all = seq![".git"@, "node_modules"@, "dist"@, "release"@, "wiki"@, "images"@];
    assert(all[0] == ".git"@ && all[1] == "node_modules"@ && all[2] == "dist"@ && all[3]
        == "release"@ && all[4] == "wiki"@ && all[5] == "images"@);
}

/// A project that its file gives no name is called after its directory; all else that the file
/// says stays.
pub proof fn law_project_has_a_name(
    p: ProjectView,
    entry_name: Seq<char>,
    knowledge: Seq<char>,
    source_dir: Seq<char>,
)
    ensures
        ({
            let q = paths::placed(p, entry_name, knowledge, source_dir);
            &&& p.name.len() > 0 ==> q.name == p.name
            &&& p.name.len() == 0 ==> q.name == entry_name
            &&& q.knowledge == knowledge && q.source_dir == source_dir
            &&& q.id == p.id && q.dir_name == p.dir_name && q.tasks == p.tasks && q.issue_url
                == p.issue_url
            &&& q.created_at_ms == p.created_at_ms && q.updated_at_ms == p.updated_at_ms
                && q.archived_at_ms == p.archived_at_ms
        }),
{
}

} // verus!
