use vstd::prelude::*;
use crate::todo::{Dependency, Todo};
use crate::todo_list::{restricted, Restriction, TodoList};
use vstd::string::StrSliceExecFns;
use crate::app::App;

verus! {

broadcast use vstd::std_specs::vec::group_vec_axioms;

/// The todos of a list that `r` admits: the undone ones, then the done ones.
pub open spec fn enumerate(l: TodoList, r: Restriction) -> Seq<Todo> {
    restricted(l.undone@ + l.done@, r)
}

/// The list that `path` names, descending from `l` through the nested list
/// of one todo of each enumeration in turn.
pub open spec fn list_at(l: TodoList, path: Seq<usize>, r: Restriction) -> Option<TodoList>
    decreases path.len(),
{
    if path.len() == 0 {
        Some(l)
    } else {
        let e = enumerate(l, r);
        if path[0] < e.len() && e[path[0] as int].dependency is List {
            list_at(e[path[0] as int].dependency->List_0, path.skip(1), r)
        } else {
            None
        }
    }
}

/// The indices of the todos of `e` that match `query`, in increasing order.
pub open spec fn match_indices(e: Seq<Todo>, query: Seq<char>) -> Seq<usize>
    decreases e.len(),
{
    if e.len() == 0 {
        Seq::empty()
    } else if e.last().spec_matches(query) {
        match_indices(e.drop_last(), query).push((e.len() - 1) as usize)
    } else {
        match_indices(e.drop_last(), query)
    }
}

/// The matches found in one list, named by its tree path.
pub struct SearchPosition {
    pub tree_path: Vec<usize>,
    pub matching_indices: Vec<usize>,
}

/// The matches of a query over a whole tree, one group per list that holds
/// any, with a cursor on one match.
pub struct TreeSearch {
    pub positions: Vec<SearchPosition>,
    pub list_index: usize,
    pub pos_index: usize,
}

pub(crate) proof fn lemma_list_at_push(l: TodoList, path: Seq<usize>, k: usize, r: Restriction)
    requires
        list_at(l, path, r) is Some,
    ensures
        list_at(l, path.push(k), r) == ({
            let m = list_at(l, path, r)->Some_0;
            let e = enumerate(m, r);
            if k < e.len() && e[k as int].dependency is List {
                Some(e[k as int].dependency->List_0)
            } else {
                None::<TodoList>
            }
        }),
    decreases path.len(),
{
    if path.len() > 0 {
        let e = enumerate(l, r);
        assert(path.push(k).skip(1) =~= path.skip(1).push(k));
        assert(path.push(k)[0] == path[0]);
        lemma_list_at_push(e[path[0] as int].dependency->List_0, path.skip(1), k, r);
    } else {
        assert(path.push(k).skip(1) =~= Seq::<usize>::empty());
        assert(path.push(k)[0] == k);
        reveal_with_fuel(list_at, 2);
    }
}

pub(crate) proof fn lemma_restricted_prefix(s: Seq<Todo>, j: int, r: Restriction)
    requires
        0 <= j <= s.len(),
    ensures
        restricted(s.take(j), r).len() <= restricted(s, r).len(),
        forall|i: int| 0 <= i < restricted(s.take(j), r).len()
            ==> restricted(s, r)[i] == #[trigger] restricted(s.take(j), r)[i],
    decreases s.len() - j,
{
    if j == s.len() {
        assert(s.take(j) =~= s);
    } else {
        lemma_restricted_prefix(s, j + 1, r);
        assert(s.take(j + 1).drop_last() =~= s.take(j));
        let a = restricted(s.take(j), r);
        let b = restricted(s.take(j + 1), r);
        assert(s.take(j + 1).last() == s[j]);
        assert forall|i: int| 0 <= i < a.len() implies b[i] == a[i] by {
            if r.spec_admits(s[j]) {
                assert(b == a.push(s[j]));
            } else {
                assert(b == a);
            }
        }
    }
}

/// Every group holds the matches of `query` in the list that its path names,
/// and holds at least one.
pub open spec fn groups_found(gs: Seq<SearchPosition>, root: TodoList, query: Seq<char>, r: Restriction) -> bool {
    forall|g: int| 0 <= g < gs.len() ==> {
        let pos = #[trigger] gs[g];
        list_at(root, pos.tree_path@, r) is Some
        && pos.matching_indices@ == match_indices(enumerate(list_at(root, pos.tree_path@, r)->Some_0, r), query)
        && pos.matching_indices@.len() > 0
    }
}

/// The sizes of `l` fit in a `usize`.
pub open spec fn fits(l: TodoList) -> bool {
    l.undone@.len() + l.done@.len() <= usize::MAX
}

/// The sizes of every list met on the way along `q` from `l` fit.
pub open spec fn fits_along(l: TodoList, q: Seq<usize>, r: Restriction) -> bool
    decreases q.len(),
{
    fits(l) && (q.len() > 0 ==> {
        let e = enumerate(l, r);
        q[0] < e.len() && e[q[0] as int].dependency is List
            ==> fits_along(e[q[0] as int].dependency->List_0, q.skip(1), r)
    })
}

/// `q` names a list below `l`, reached through lists whose sizes fit, that
/// holds a match of `query`.
pub open spec fn has_matches_at(l: TodoList, q: Seq<usize>, query: Seq<char>, r: Restriction) -> bool {
    list_at(l, q, r) is Some && fits_along(l, q, r)
        && match_indices(enumerate(list_at(l, q, r)->Some_0, r), query).len() > 0
}

/// Some group of `out` from index `from` on has the path `path + q`.
pub open spec fn covered(out: Seq<SearchPosition>, from: int, path: Seq<usize>, q: Seq<usize>) -> bool {
    exists|g: int| from <= g < out.len() && (#[trigger] out[g]).tree_path@ == path + q
}

proof fn lemma_covered_grow(
    l: TodoList,
    query: Seq<char>,
    r: Restriction,
    a: Seq<SearchPosition>,
    b: Seq<SearchPosition>,
    from: int,
    path: Seq<usize>,
    k: int,
)
    requires
        0 <= from,
        b.len() >= a.len(),
        b.subrange(0, a.len() as int) == a,
        forall|q: Seq<usize>| #[trigger] has_matches_at(l, q, query, r) && q.len() > 0 && q[0] >= k
            ==> covered(a, from, path, q),
    ensures
        forall|q: Seq<usize>| #[trigger] has_matches_at(l, q, query, r) && q.len() > 0 && q[0] >= k
            ==> covered(b, from, path, q),
{
    assert forall|q: Seq<usize>| #[trigger] has_matches_at(l, q, query, r) && q.len() > 0 && q[0] >= k
        implies covered(b, from, path, q) by {
        assert(covered(a, from, path, q));
        let g = choose|g: int| from <= g < a.len() && (#[trigger] a[g]).tree_path@ == path + q;
        assert(b.subrange(0, a.len() as int)[g] == a[g]);
        assert(b[g] == a[g]);
    }
}

/// The paths of the groups of `gs`, in order.
pub open spec fn paths_of(gs: Seq<SearchPosition>) -> Seq<Seq<usize>> {
    gs.map_values(|g: SearchPosition| g.tree_path@)
}

/// The paths of the groups that a search finds below `l`, named by `path`:
/// `path` itself if `l` holds a match, then, from the last admitted todo to
/// the first, the paths found below each nested list; nothing for a list
/// whose size does not fit.
pub open spec fn search_paths(l: TodoList, path: Seq<usize>, query: Seq<char>, r: Restriction) -> Seq<Seq<usize>>
    decreases l, l.undone@.len() + l.done@.len() + 1,
{
    if fits(l) {
        (if match_indices(enumerate(l, r), query).len() > 0 { seq![path] } else { Seq::empty() })
            + child_paths(l, (l.undone@.len() + l.done@.len()) as nat, enumerate(l, r).len(), path, query, r)
    } else {
        Seq::empty()
    }
}

/// The paths found below the nested lists of the todos of `l` before index
/// `j`, from the last to the first; `k` of them are admitted.
pub open spec fn child_paths(l: TodoList, j: nat, k: nat, path: Seq<usize>, query: Seq<char>, r: Restriction) -> Seq<Seq<usize>>
    decreases l, j,
{
    if j == 0 || j > l.undone@.len() + l.done@.len() {
        Seq::empty()
    } else {
        let t = if j - 1 < l.undone@.len() { l.undone[j - 1] } else { l.done[j - 1 - l.undone@.len()] };
        if r.spec_admits(t) && k > 0 {
            (if t.dependency is List {
                search_paths(t.dependency->List_0, path.push((k - 1) as usize), query, r)
            } else {
                Seq::empty()
            }) + child_paths(l, (j - 1) as nat, (k - 1) as nat, path, query, r)
        } else {
            child_paths(l, (j - 1) as nat, k, path, query, r)
        }
    }
}

/// How many todos of `list` the restriction admits.
pub(crate) fn admitted_count(list: &TodoList, restriction: Restriction) -> (r: usize)
    requires
        list.undone@.len() + list.done@.len() <= usize::MAX,
    ensures
        r as int == enumerate(*list, restriction).len(),
{
    let ghost all = list.undone@ + list.done@;
    let total = list.undone.len() + list.done.len();
    let mut k: usize = 0;
    let mut j: usize = 0;
    while j < total
        invariant
            total == all.len(),
            all == list.undone@ + list.done@,
            j <= total,
            k as int == restricted(all.take(j as int), restriction).len(),
            k <= j,
        decreases total - j,
    {
        let t = todo_at(list, j);
        assert(all.take(j + 1).drop_last() =~= all.take(j as int));
        if restriction.admits(t) {
            k = k + 1;
        }
        j = j + 1;
    }
    assert(all.take(total as int) =~= all);
    k
}

/// Appends, depth first, the groups of `list` (named by `path`) and of the
/// lists nested in it, the later nested lists first.
fn collect(
    out: &mut Vec<SearchPosition>,
    list: &TodoList,
    path: &Vec<usize>,
    query: &str,
    restriction: Restriction,
    Ghost(root): Ghost<TodoList>,
)
    requires
        list_at(root, path@, restriction) == Some(*list),
        groups_found(old(out)@, root, query@, restriction),
    ensures
        groups_found(final(out)@, root, query@, restriction),
        final(out)@.len() >= old(out)@.len(),
        final(out)@.subrange(0, old(out)@.len() as int) == old(out)@,
        list.undone@.len() + list.done@.len() <= usize::MAX
            && match_indices(enumerate(*list, restriction), query@).len() > 0
            ==> final(out)@.len() > old(out)@.len() && final(out)@[old(out)@.len() as int].tree_path@ == path@,
        forall|q: Seq<usize>| #[trigger] has_matches_at(*list, q, query@, restriction)
            ==> covered(final(out)@, old(out)@.len() as int, path@, q),
        paths_of(final(out)@) == paths_of(old(out)@) + search_paths(*list, path@, query@, restriction),
    decreases *list,
{
    let ghost start = out@;
    if list.undone.len() > usize::MAX - list.done.len() {
        assert(paths_of(out@) =~= paths_of(start) + search_paths(*list, path@, query@, restriction));
        return;
    }
    let found = matching_indices(list, query, restriction);
    let ghost found_seq = found@;
    if found.len() > 0 {
        let mut tree_path: Vec<usize> = path.clone();
        assert(tree_path@ =~= path@);
        out.push(SearchPosition { tree_path, matching_indices: found });
    }
    assert(groups_found(out@, root, query@, restriction));
    let ghost after_own = out@;
    let ghost own = if found_seq.len() > 0 { seq![path@] } else { Seq::<Seq<usize>>::empty() };
    assert(paths_of(after_own) =~= paths_of(start) + own);
    assert(found_seq.len() > 0 ==> after_own.len() == start.len() + 1
        && after_own[start.len() as int].tree_path@ == path@);
    let ghost all = list.undone@ + list.done@;
    let ulen = list.undone.len();
    let total = ulen + list.done.len();
    let mut k = admitted_count(list, restriction);
    let mut j: usize = total;
    proof {
        assert(all.take(total as int) =~= all);
    }
    while j > 0
        invariant
            total == all.len(),
            ulen == list.undone@.len(),
            all == list.undone@ + list.done@,
            j <= total,
            k as int == restricted(all.take(j as int), restriction).len(),
            list_at(root, path@, restriction) == Some(*list),
            groups_found(out@, root, query@, restriction),
            out@.len() >= after_own.len(),
            out@.subrange(0, after_own.len() as int) == after_own,
            after_own.subrange(0, start.len() as int) == start,
            after_own.len() >= start.len(),
            k <= enumerate(*list, restriction).len(),
            forall|q: Seq<usize>| #[trigger] has_matches_at(*list, q, query@, restriction) && q.len() > 0 && q[0] >= k
                ==> covered(out@, start.len() as int, path@, q),
            paths_of(out@) + child_paths(*list, j as nat, k as nat, path@, query@, restriction)
                == paths_of(start) + own + child_paths(*list, total as nat, enumerate(*list, restriction).len(), path@, query@, restriction),
        decreases j,
    {
        let ghost before = out@;
        let ghost k_old = k;
        proof {
            assert(all.take(j as int).drop_last() =~= all.take(j - 1));
            lemma_restricted_prefix(all, j as int, restriction);
        }
        let t: &Todo = if j - 1 < ulen {
            &list.undone[j - 1]
        } else {
            &list.done[j - 1 - ulen]
        };
        assert(*t == all[j - 1]);
        if restriction.admits(t) {
            assert(all.take(j as int).last() == all[j - 1]);
            assert(restricted(all.take(j as int), restriction)
                == restricted(all.take(j - 1), restriction).push(all[j - 1]));
            k = k - 1;
            assert(restricted(all.take(j as int), restriction)[k as int] == all[j - 1]);
            assert(restricted(all, restriction)[k as int] == all[j - 1]);
            assert(enumerate(*list, restriction)[k as int] == *t);
            if let Dependency::List(sub) = &t.dependency {
                let mut child_path: Vec<usize> = path.clone();
                assert(child_path@ =~= path@);
                child_path.push(k);
                proof {
                    lemma_list_at_push(root, path@, k, restriction);
                    lemma_restricted_prefix(all, j as int, restriction);
                }
                collect(out, sub, &child_path, query, restriction, Ghost(root));
                proof {
                    assert(paths_of(out@) == paths_of(before) + search_paths(*sub, path@.push(k), query@, restriction));
                    assert(child_paths(*list, j as nat, (k + 1) as nat, path@, query@, restriction)
                        == search_paths(*sub, path@.push(k), query@, restriction)
                            + child_paths(*list, (j - 1) as nat, k as nat, path@, query@, restriction));
                    assert(paths_of(out@) + child_paths(*list, (j - 1) as nat, k as nat, path@, query@, restriction)
                        =~= paths_of(before) + child_paths(*list, j as nat, (k + 1) as nat, path@, query@, restriction));
                    lemma_covered_grow(*list, query@, restriction, before, out@, start.len() as int, path@, k_old as int);
                    assert forall|q: Seq<usize>| #[trigger] has_matches_at(*list, q, query@, restriction) && q.len() > 0 && q[0] >= k
                        implies covered(out@, start.len() as int, path@, q) by {
                        if q[0] < k_old {
                            let rest = q.skip(1);
                            assert(has_matches_at(*sub, rest, query@, restriction));
                            let g = choose|g: int| before.len() <= g < out@.len() && (#[trigger] out@[g]).tree_path@ == child_path@ + rest;
                            assert(child_path@ + rest =~= path@ + q);
                            assert(out@[g].tree_path@ == path@ + q);
                        }
                    }
                }
            } else {
                proof {
                    assert(before == out@);
                    assert forall|q: Seq<usize>| #[trigger] has_matches_at(*list, q, query@, restriction) && q.len() > 0 && q[0] >= k
                        implies covered(out@, start.len() as int, path@, q) by {
                        if q[0] < k_old {
                            assert(list_at(*list, q, restriction) is None);
                        }
                    }
                }
            }
        }
        j = j - 1;
        assert(out@.subrange(0, after_own.len() as int) =~= after_own) by {
            assert(out@.subrange(0, before.len() as int) == before);
            assert forall|i: int| 0 <= i < after_own.len() implies out@[i] == after_own[i] by {
                assert(out@.subrange(0, before.len() as int)[i] == before[i]);
                assert(before.subrange(0, after_own.len() as int)[i] == after_own[i]);
            }
        }
    }
    assert forall|q: Seq<usize>| #[trigger] has_matches_at(*list, q, query@, restriction)
        implies covered(out@, start.len() as int, path@, q) by {
        if q.len() == 0 {
            assert(list_at(*list, q, restriction) == Some(*list));
            assert(found_seq.len() > 0);
            assert(out@.subrange(0, after_own.len() as int)[start.len() as int] == after_own[start.len() as int]);
            assert(path@ + q =~= path@);
            assert(out@[start.len() as int].tree_path@ == path@ + q);
        }
    }
    assert(out@.subrange(0, start.len() as int) =~= start) by {
        if found_seq.len() > 0 {
            assert(after_own.len() > start.len());
            assert(out@.subrange(0, after_own.len() as int)[start.len() as int] == after_own[start.len() as int]);
        }
        assert forall|i: int| 0 <= i < start.len() implies out@[i] == start[i] by {
            assert(out@.subrange(0, after_own.len() as int)[i] == after_own[i]);
            assert(after_own.subrange(0, start.len() as int)[i] == start[i]);
        }
    }
}

/// The todo at index `j` of the undone todos followed by the done ones.
pub(crate) fn todo_at(list: &TodoList, j: usize) -> (t: &Todo)
    requires
        j < list.undone@.len() + list.done@.len(),
    ensures
        *t == (list.undone@ + list.done@)[j as int],
{
    if j < list.undone.len() {
        &list.undone[j]
    } else {
        &list.done[j - list.undone.len()]
    }
}

/// The indices of the todos of `v` whose message holds `query`, ignoring case.
pub fn matching_todos(v: &Vec<Todo>, query: &str) -> (r: Vec<usize>)
    ensures
        r@ == match_indices(v@, query@),
{
    let mut out: Vec<usize> = Vec::new();
    let mut j: usize = 0;
    while j < v.len()
        invariant
            j <= v@.len(),
            out@ == match_indices(v@.take(j as int), query@),
        decreases v@.len() - j,
    {
        assert(v@.take(j + 1).drop_last() =~= v@.take(j as int));
        if v[j].matches(query) {
            out.push(j);
        }
        j = j + 1;
    }
    assert(v@.take(j as int) =~= v@);
    out
}

/// The indices, within the enumeration of `list` under `restriction`, of the
/// todos whose message holds `query`, ignoring case.
pub fn matching_indices(list: &TodoList, query: &str, restriction: Restriction) -> (r: Vec<usize>)
    requires
        list.undone@.len() + list.done@.len() <= usize::MAX,
    ensures
        r@ == match_indices(enumerate(*list, restriction), query@),
{
    let ghost all = list.undone@ + list.done@;
    let total = list.undone.len() + list.done.len();
    let mut out: Vec<usize> = Vec::new();
    let mut k: usize = 0;
    let mut j: usize = 0;
    while j < total
        invariant
            total == all.len(),
            all == list.undone@ + list.done@,
            j <= total,
            k as int == restricted(all.take(j as int), restriction).len(),
            k <= j,
            out@ == match_indices(restricted(all.take(j as int), restriction), query@),
        decreases total - j,
    {
        let t = todo_at(list, j);
        assert(all.take(j + 1).drop_last() =~= all.take(j as int));
        if restriction.admits(t) {
            let ghost e = restricted(all.take(j + 1), restriction);
            assert(e.drop_last() == restricted(all.take(j as int), restriction));
            if t.matches(query) {
                out.push(k);
            }
            k = k + 1;
        }
        j = j + 1;
    }
    assert(all.take(total as int) =~= all);
    out
}

impl TreeSearch {
    /// Each group names a list of the tree, holds a match, and holds exactly
    /// the matches of that list; the cursor stands on a match.
    pub open spec fn wf(&self) -> bool {
        (self.positions@.len() > 0 ==> self.list_index < self.positions@.len()
            && self.pos_index < self.positions@[self.list_index as int].matching_indices@.len())
        && forall|g: int| 0 <= g < self.positions@.len()
            ==> (#[trigger] self.positions@[g]).matching_indices@.len() > 0
    }

    /// Every group holds the matches of `query` in the list that its path names.
    pub open spec fn found_in(&self, root: TodoList, query: Seq<char>, r: Restriction) -> bool {
        forall|g: int| 0 <= g < self.positions@.len() ==> {
            let pos = #[trigger] self.positions@[g];
            list_at(root, pos.tree_path@, r) is Some
            && pos.matching_indices@ == match_indices(enumerate(list_at(root, pos.tree_path@, r)->Some_0, r), query)
        }
    }

    /// Finds every match of `query` in the tree below `todo_list`, one group
    /// per list that holds one, depth first with the later nested lists
    /// first, and puts the cursor on the first match. An empty query finds
    /// nothing.
    pub fn search(&mut self, query: String, todo_list: &TodoList, restriction: Restriction)
        ensures
            final(self).wf(),
            final(self).found_in(*todo_list, query@, restriction),
            final(self).list_index == 0,
            final(self).pos_index == 0,
            query@.len() == 0 ==> final(self).positions@.len() == 0,
            query@.len() > 0 && todo_list.undone@.len() + todo_list.done@.len() <= usize::MAX
                && match_indices(enumerate(*todo_list, restriction), query@).len() > 0
                ==> final(self).positions@.len() > 0 && final(self).positions@[0].tree_path@.len() == 0,
            query@.len() > 0 ==> forall|q: Seq<usize>| #[trigger] has_matches_at(*todo_list, q, query@, restriction)
                ==> covered(final(self).positions@, 0, Seq::empty(), q),
            query@.len() > 0 ==> paths_of(final(self).positions@)
                == search_paths(*todo_list, Seq::empty(), query@, restriction),
    {
        self.positions = Vec::new();
        self.pos_index = 0;
        self.list_index = 0;
        if query.as_str().unicode_len() == 0 {
            return;
        }
        let root_path: Vec<usize> = Vec::new();
        assert(root_path@ =~= Seq::<usize>::empty());
        assert(paths_of(self.positions@) =~= Seq::<Seq<usize>>::empty());
        collect(&mut self.positions, todo_list, &root_path, query.as_str(), restriction, Ghost(*todo_list));
    }

    pub fn new() -> (r: TreeSearch)
        ensures
            r.positions@.len() == 0,
            r.list_index == 0,
            r.pos_index == 0,
            r.wf(),
    {
        TreeSearch { positions: Vec::new(), list_index: 0, pos_index: 0 }
    }

    /// The match under the cursor: its index in its list and the list's path.
    pub fn current_tree_position(&self) -> (r: Option<(usize, &Vec<usize>)>)
        requires
            self.wf(),
        ensures
            self.positions@.len() == 0 <==> r is None,
            r is Some ==> ({
                let g = self.positions@[self.list_index as int];
                r->Some_0.0 == g.matching_indices@[self.pos_index as int]
                && r->Some_0.1 == g.tree_path
            }),
    {
        if self.positions.len() == 0 {
            None
        } else {
            let item = &self.positions[self.list_index];
            let index = item.matching_indices[self.pos_index];
            Some((index, &item.tree_path))
        }
    }

    /// Puts the cursor of `todo_app` on the match under this search's cursor;
    /// a path that names no list there is cut back to the part that does.
    pub fn set_to_app(&self, todo_app: &mut App)
        requires
            self.wf(),
            old(todo_app).wf(),
        ensures
            final(todo_app).wf(),
            final(todo_app).todo_list == old(todo_app).todo_list,
            self.positions@.len() == 0 ==> *final(todo_app) == *old(todo_app),
            self.positions@.len() > 0 ==> ({
                let g = self.positions@[self.list_index as int];
                &&& final(todo_app).index == g.matching_indices@[self.pos_index as int]
                &&& final(todo_app).prior_indexes@ == g.tree_path@.take(final(todo_app).prior_indexes@.len() as int)
                &&& final(todo_app).prior_indexes@.len() <= g.tree_path@.len()
                &&& list_at(old(todo_app).todo_list, g.tree_path@, Restriction::All) is Some
                    && fits(list_at(old(todo_app).todo_list, g.tree_path@, Restriction::All)->Some_0)
                    ==> final(todo_app).prior_indexes@ == g.tree_path@
            }),
    {
        if let Some((index, path)) = self.current_tree_position() {
            todo_app.index = index;
            let p = path.clone();
            assert(p@ =~= path@);
            todo_app.prior_indexes = p;
            todo_app.fix_path();
        }
    }

    /// Moves the cursor to the next match of its group, else to the first
    /// match of the next group, else back to the first match of all.
    pub fn next(&mut self)
        requires
            old(self).wf(),
        ensures
            final(self).wf(),
            final(self).positions == old(self).positions,
            old(self).positions@.len() == 0 ==> *final(self) == *old(self),
            old(self).positions@.len() > 0 ==> ({
                let group_len = old(self).positions@[old(self).list_index as int].matching_indices@.len();
                if old(self).pos_index + 1 < group_len {
                    final(self).list_index == old(self).list_index
                        && final(self).pos_index == old(self).pos_index + 1
                } else if old(self).list_index + 1 < old(self).positions@.len() {
                    final(self).list_index == old(self).list_index + 1 && final(self).pos_index == 0
                } else {
                    final(self).list_index == 0 && final(self).pos_index == 0
                }
            }),
    {
        if self.positions.len() > 0 {
            let list_size = self.positions.len();
            let pos_size = self.positions[self.list_index].matching_indices.len();
            if self.pos_index + 1 < pos_size {
                self.pos_index = self.pos_index + 1;
            } else if self.list_index + 1 < list_size {
                self.list_index = self.list_index + 1;
                self.pos_index = 0;
            } else {
                self.list_index = 0;
                self.pos_index = 0;
            }
        }
    }
}

} // verus!
