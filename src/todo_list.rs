use vstd::prelude::*;
use crate::todo::{Dependency, Todo};

verus! {

/// A list of todos, split into the undone ones and the done ones.
pub struct TodoList {
    pub undone: Vec<Todo>,
    pub done: Vec<Todo>,
}

/// Which todos an enumeration of a list considers.
#[derive(PartialEq, Eq, Structural, Clone, Copy, Debug)]
pub enum Restriction {
    All,
    UndoneOnly,
    DoneOnly,
}

impl Restriction {
    pub open spec fn spec_admits(self, t: Todo) -> bool {
        match self {
            Restriction::All => true,
            Restriction::UndoneOnly => !t.done,
            Restriction::DoneOnly => t.done,
        }
    }

    pub fn admits(&self, t: &Todo) -> (r: bool)
        ensures
            r == self.spec_admits(*t),
    {
        match self {
            Restriction::All => true,
            Restriction::UndoneOnly => !t.done,
            Restriction::DoneOnly => t.done,
        }
    }
}

/// The todos of `s` that are not marked done, in order.
pub open spec fn undone_of(s: Seq<Todo>) -> Seq<Todo>
    decreases s.len(),
{
    if s.len() == 0 {
        s
    } else if s.last().done {
        undone_of(s.drop_last())
    } else {
        undone_of(s.drop_last()).push(s.last())
    }
}

/// The todos of `s` that are marked done, in order.
pub open spec fn done_of(s: Seq<Todo>) -> Seq<Todo>
    decreases s.len(),
{
    if s.len() == 0 {
        s
    } else if s.last().done {
        done_of(s.drop_last()).push(s.last())
    } else {
        done_of(s.drop_last())
    }
}

/// Every todo of `u` is undone and every todo of `d` is done.
pub open spec fn partitioned(u: Seq<Todo>, d: Seq<Todo>) -> bool {
    (forall|i: int| 0 <= i < u.len() ==> !(#[trigger] u[i]).done)
    && (forall|i: int| 0 <= i < d.len() ==> (#[trigger] d[i]).done)
}

/// Priorities never rise along `s`.
pub open spec fn sorted(s: Seq<Todo>) -> bool {
    forall|i: int, j: int| 0 <= i < j < s.len() ==> s[i].priority >= s[j].priority
}

/// The first index from `i` on whose priority is below `p`, or the length.
pub open spec fn first_lower(s: Seq<Todo>, p: i8, i: int) -> int
    decreases s.len() - i,
{
    if i < 0 || i >= s.len() {
        s.len() as int
    } else if s[i].priority < p {
        i
    } else {
        first_lower(s, p, i + 1)
    }
}

/// The first index from `i` on whose priority is at most `p`, or the length.
pub open spec fn first_at_most(s: Seq<Todo>, p: i8, i: int) -> int
    decreases s.len() - i,
{
    if i < 0 || i >= s.len() {
        s.len() as int
    } else if s[i].priority <= p {
        i
    } else {
        first_at_most(s, p, i + 1)
    }
}

/// `s` with `t` placed after every todo whose priority is at least its own.
pub open spec fn insert_ordered(s: Seq<Todo>, t: Todo) -> Seq<Todo> {
    s.insert(first_lower(s, t.priority, 0), t)
}

/// `s` with the todos of `items` placed one after the other by `insert_ordered`.
pub open spec fn insert_all(s: Seq<Todo>, items: Seq<Todo>) -> Seq<Todo>
    decreases items.len(),
{
    if items.len() == 0 {
        s
    } else {
        insert_ordered(insert_all(s, items.drop_last()), items.last())
    }
}

/// Where the todo at `index` of `s` goes when it is moved after a change of
/// its priority, as an index into `s` without it: up to the end of the run
/// of todos at least as urgent if one less urgent stands before it, else down
/// past the more urgent todos after it, else nowhere.
pub open spec fn reorder_target(s: Seq<Todo>, index: int) -> int {
    let rest = s.remove(index);
    let p = s[index].priority;
    if first_lower(rest, p, 0) < index {
        first_lower(rest, p, 0)
    } else {
        first_at_most(rest, p, index)
    }
}

/// `s` once the todo at `index` has been moved by `reorder_target`.
pub open spec fn reordered(s: Seq<Todo>, index: int) -> Seq<Todo> {
    s.remove(index).insert(reorder_target(s, index), s[index])
}

/// The undone and done sequences once the done todos of `u` are moved to the end of `d`.
pub open spec fn after_fix_undone(u: Seq<Todo>, d: Seq<Todo>) -> (Seq<Todo>, Seq<Todo>) {
    (undone_of(u), d + done_of(u))
}

/// The undone and done sequences once the undone todos of `d` are put into `u` by priority.
pub open spec fn after_fix_done(u: Seq<Todo>, d: Seq<Todo>) -> (Seq<Todo>, Seq<Todo>) {
    (insert_all(u, undone_of(d)), done_of(d))
}

/// The todos of `s` that `r` admits, in order.
pub open spec fn restricted(s: Seq<Todo>, r: Restriction) -> Seq<Todo>
    decreases s.len(),
{
    if s.len() == 0 {
        s
    } else if r.spec_admits(s.last()) {
        restricted(s.drop_last(), r).push(s.last())
    } else {
        restricted(s.drop_last(), r)
    }
}

proof fn lemma_first_lower_bounds(s: Seq<Todo>, p: i8, i: int)
    requires
        0 <= i <= s.len(),
    ensures
        i <= first_lower(s, p, i) <= s.len(),
        forall|j: int| i <= j < first_lower(s, p, i) ==> s[j].priority >= p,
        first_lower(s, p, i) < s.len() ==> s[first_lower(s, p, i)].priority < p,
    decreases s.len() - i,
{
    if i < s.len() && s[i].priority >= p {
        lemma_first_lower_bounds(s, p, i + 1);
    }
}

proof fn lemma_first_at_most_bounds(s: Seq<Todo>, p: i8, i: int)
    requires
        0 <= i <= s.len(),
    ensures
        i <= first_at_most(s, p, i) <= s.len(),
        forall|j: int| i <= j < first_at_most(s, p, i) ==> s[j].priority > p,
        first_at_most(s, p, i) < s.len() ==> s[first_at_most(s, p, i)].priority <= p,
    decreases s.len() - i,
{
    if i < s.len() && s[i].priority > p {
        lemma_first_at_most_bounds(s, p, i + 1);
    }
}

proof fn lemma_undone_of_all_undone(s: Seq<Todo>)
    ensures
        forall|i: int| 0 <= i < undone_of(s).len() ==> !(#[trigger] undone_of(s)[i]).done,
    decreases s.len(),
{
    if s.len() > 0 {
        lemma_undone_of_all_undone(s.drop_last());
    }
}

proof fn lemma_done_of_all_done(s: Seq<Todo>)
    ensures
        forall|i: int| 0 <= i < done_of(s).len() ==> (#[trigger] done_of(s)[i]).done,
    decreases s.len(),
{
    if s.len() > 0 {
        lemma_done_of_all_done(s.drop_last());
    }
}

proof fn lemma_insert_all_undone(s: Seq<Todo>, items: Seq<Todo>)
    requires
        forall|i: int| 0 <= i < s.len() ==> !(#[trigger] s[i]).done,
        forall|i: int| 0 <= i < items.len() ==> !(#[trigger] items[i]).done,
    ensures
        forall|i: int| 0 <= i < insert_all(s, items).len() ==> !(#[trigger] insert_all(s, items)[i]).done,
    decreases items.len(),
{
    if items.len() > 0 {
        let rest = items.drop_last();
        assert forall|i: int| 0 <= i < rest.len() implies !(#[trigger] rest[i]).done by {
            assert(rest[i] == items[i]);
        }
        lemma_insert_all_undone(s, rest);
        let prev = insert_all(s, rest);
        lemma_first_lower_bounds(prev, items.last().priority, 0);
    }
}

/// After `fix_undone` and then `fix_done`, every undone todo is in `undone`
/// and every done todo is in `done`, whatever the list held before.
pub proof fn lemma_fix_partitions(u: Seq<Todo>, d: Seq<Todo>)
    ensures
        ({
            let mid = after_fix_undone(u, d);
            let end = after_fix_done(mid.0, mid.1);
            partitioned(end.0, end.1)
        }),
{
    let mid = after_fix_undone(u, d);
    lemma_undone_of_all_undone(u);
    lemma_undone_of_all_undone(mid.1);
    lemma_done_of_all_done(mid.1);
    lemma_insert_all_undone(mid.0, undone_of(mid.1));
}

/// Inserting a todo by its priority into a sequence whose priorities never
/// rise keeps them from rising.
pub proof fn lemma_insert_ordered_sorted(s: Seq<Todo>, t: Todo)
    requires
        sorted(s),
    ensures
        sorted(insert_ordered(s, t)),
{
    lemma_first_lower_bounds(s, t.priority, 0);
    let pos = first_lower(s, t.priority, 0);
    let r = insert_ordered(s, t);
    assert forall|i: int, j: int| 0 <= i < j < r.len() implies r[i].priority >= r[j].priority by {
        if i < pos && j == pos {
        } else if i == pos && j > pos {
            assert(s[pos].priority < t.priority);
            assert(s[pos].priority >= s[j - 1].priority || j - 1 == pos);
        }
    }
}

/// Moving the todo at `index` after a change of its priority leaves the
/// priorities of `undone` never rising, provided they did not rise among
/// the other todos; the other todos keep their order.
pub proof fn lemma_reorder_sorted(s: Seq<Todo>, index: int)
    requires
        0 <= index < s.len(),
        sorted(s.remove(index)),
    ensures
        sorted(reordered(s, index)),
        reordered(s, index).remove(reorder_target(s, index)) == s.remove(index),
        reordered(s, index)[reorder_target(s, index)] == s[index],
{
    let rest = s.remove(index);
    let t = s[index];
    let p = t.priority;
    lemma_first_lower_bounds(rest, p, 0);
    let pos = reorder_target(s, index);
    if first_lower(rest, p, 0) >= index {
        lemma_first_at_most_bounds(rest, p, index);
    }
    let r = reordered(s, index);
    assert(0 <= pos <= rest.len());
    assert forall|i: int, j: int| 0 <= i < j < r.len() implies r[i].priority >= r[j].priority by {
        if j == pos {
            assert(rest[i].priority >= p);
        } else if i == pos {
            assert(rest[pos].priority <= p);
            assert(rest[pos].priority >= rest[j - 1].priority || j - 1 == pos);
        }
    }
    assert(r.remove(pos) =~= rest);
}

proof fn lemma_parts_len(s: Seq<Todo>)
    ensures
        undone_of(s).len() + done_of(s).len() == s.len(),
    decreases s.len(),
{
    if s.len() > 0 {
        lemma_parts_len(s.drop_last());
    }
}

proof fn lemma_insert_all_len(s: Seq<Todo>, items: Seq<Todo>)
    ensures
        insert_all(s, items).len() == s.len() + items.len(),
    decreases items.len(),
{
    if items.len() > 0 {
        lemma_insert_all_len(s, items.drop_last());
        lemma_first_lower_bounds(insert_all(s, items.drop_last()), items.last().priority, 0);
    }
}

/// Where `add` and `reorder` put a todo lies within the sequence.
pub proof fn lemma_target_bounds(s: Seq<Todo>, index: int, t: Todo)
    ensures
        0 <= first_lower(s, t.priority, 0) <= s.len(),
        insert_ordered(s, t).len() == s.len() + 1,
        0 <= index < s.len() ==> 0 <= reorder_target(s, index) < s.len()
            && reordered(s, index).len() == s.len(),
{
    lemma_first_lower_bounds(s, t.priority, 0);
    if 0 <= index < s.len() {
        let rest = s.remove(index);
        lemma_first_lower_bounds(rest, s[index].priority, 0);
        lemma_first_at_most_bounds(rest, s[index].priority, index);
    }
}

proof fn lemma_undone_of_sorted(s: Seq<Todo>)
    requires
        sorted(s),
    ensures
        sorted(undone_of(s)),
        forall|i: int| 0 <= i < undone_of(s).len() ==> exists|j: int| 0 <= j < s.len() && #[trigger] undone_of(s)[i] == s[j],
    decreases s.len(),
{
    if s.len() > 0 {
        let rest = s.drop_last();
        assert(sorted(rest));
        lemma_undone_of_sorted(rest);
        let u = undone_of(rest);
        assert forall|i: int| 0 <= i < u.len() implies exists|j: int| 0 <= j < s.len() && #[trigger] u[i] == s[j] by {
            let j = choose|j: int| 0 <= j < rest.len() && #[trigger] u[i] == rest[j];
            assert(s[j] == rest[j]);
        }
        if !s.last().done {
            let v = u.push(s.last());
            assert forall|a: int, b: int| 0 <= a < b < v.len() implies v[a].priority >= v[b].priority by {
                if b == v.len() - 1 && a < u.len() {
                    let j = choose|j: int| 0 <= j < rest.len() && #[trigger] u[a] == rest[j];
                    assert(s[j] == rest[j]);
                }
            }
            assert forall|i: int| 0 <= i < v.len() implies exists|j: int| 0 <= j < s.len() && #[trigger] v[i] == s[j] by {
                if i == v.len() - 1 {
                    assert(v[i] == s[s.len() - 1]);
                } else {
                    assert(v[i] == u[i]);
                }
            }
        }
    }
}

proof fn lemma_insert_all_sorted(s: Seq<Todo>, items: Seq<Todo>)
    requires
        sorted(s),
    ensures
        sorted(insert_all(s, items)),
    decreases items.len(),
{
    if items.len() > 0 {
        lemma_insert_all_sorted(s, items.drop_last());
        lemma_insert_ordered_sorted(insert_all(s, items.drop_last()), items.last());
    }
}

/// The undone and done sequences once `fix` has run: `fix_undone`, then
/// `fix_done` too when done todos are shown.
pub open spec fn fixed(u: Seq<Todo>, d: Seq<Todo>, show_done: bool) -> (Seq<Todo>, Seq<Todo>) {
    let m = after_fix_undone(u, d);
    if show_done { after_fix_done(m.0, m.1) } else { m }
}

/// `(u, d)` with the todo at index `i` of `u` followed by `d` replaced by `t`.
pub open spec fn updated(u: Seq<Todo>, d: Seq<Todo>, i: int, t: Todo) -> (Seq<Todo>, Seq<Todo>) {
    if i < u.len() { (u.update(i, t), d) } else { (u, d.update(i - u.len(), t)) }
}

/// `t2` is `t` but for its done flag and its dependency.
pub open spec fn same_but_done_dep(t: Todo, t2: Todo) -> bool {
    t2 == (Todo { done: t2.done, dependency: t2.dependency, ..t })
}

/// A list that holds done todos only.
pub open spec fn only_done(l: TodoList) -> bool {
    l.undone@.len() == 0 && l.done@.len() > 0
}

/// `new` is `old` once the todo at `index` of the list that `path` names
/// has been toggled (its own nested list put in order), each list on the way
/// back put in order, and each todo on the path whose undone nested list is
/// left with done todos only marked done in turn.
pub open spec fn toggled(old: TodoList, new: TodoList, path: Seq<usize>, index: int, show_done: bool) -> bool
    decreases path.len(),
{
    let all = old.undone@ + old.done@;
    if path.len() == 0 {
        if 0 <= index < all.len() {
            let t = all[index];
            exists|t2: Todo| #[trigger] same_but_done_dep(t, t2) && t2.done == !t.done
                && (t.dependency is List <==> t2.dependency is List)
                && (!(t.dependency is List) ==> t2.dependency == t.dependency)
                && (t.dependency is List ==> (t2.dependency->List_0.undone@, t2.dependency->List_0.done@)
                    == fixed(t.dependency->List_0.undone@, t.dependency->List_0.done@, show_done))
                && (new.undone@, new.done@) == fixed(updated(old.undone@, old.done@, index, t2).0,
                    updated(old.undone@, old.done@, index, t2).1, show_done)
        } else {
            new.undone@ == old.undone@ && new.done@ == old.done@
        }
    } else {
        let p = path[0] as int;
        if p < all.len() && all[p].dependency is List {
            let t = all[p];
            exists|t2: Todo| #[trigger] same_but_done_dep(t, t2) && t2.dependency is List
                && toggled(t.dependency->List_0, t2.dependency->List_0, path.skip(1), index, show_done)
                && if p < old.undone@.len() && !t.done && only_done(t2.dependency->List_0) {
                    t2.done && (new.undone@, new.done@) == fixed(updated(old.undone@, old.done@, p, t2).0,
                        updated(old.undone@, old.done@, p, t2).1, show_done)
                } else {
                    t2.done == t.done && (new.undone@, new.done@) == updated(old.undone@, old.done@, p, t2)
                }
        } else {
            new.undone@ == old.undone@ && new.done@ == old.done@
        }
    }
}

/// Scans `v` from `start` for the first priority below `p`.
pub(crate) fn find_first_lower(v: &Vec<Todo>, p: i8, start: usize) -> (r: usize)
    requires
        start <= v@.len(),
    ensures
        r as int == first_lower(v@, p, start as int),
{
    let mut i = start;
    while i < v.len()
        invariant
            start <= i <= v@.len(),
            first_lower(v@, p, i as int) == first_lower(v@, p, start as int),
        decreases v@.len() - i,
    {
        if v[i].priority < p {
            return i;
        }
        i = i + 1;
    }
    i
}

/// Scans `v` from `start` for the first priority at most `p`.
fn find_first_at_most(v: &Vec<Todo>, p: i8, start: usize) -> (r: usize)
    requires
        start <= v@.len(),
    ensures
        r as int == first_at_most(v@, p, start as int),
{
    let mut i = start;
    while i < v.len()
        invariant
            start <= i <= v@.len(),
            first_at_most(v@, p, i as int) == first_at_most(v@, p, start as int),
        decreases v@.len() - i,
    {
        if v[i].priority <= p {
            return i;
        }
        i = i + 1;
    }
    i
}

impl TodoList {
    /// Undone and done todos are kept apart, and priorities never rise
    /// along `undone`.
    pub open spec fn wf(&self) -> bool {
        partitioned(self.undone@, self.done@) && sorted(self.undone@)
    }

    pub fn new() -> (r: TodoList)
        ensures
            r.undone@.len() == 0,
            r.done@.len() == 0,
            r.wf(),
    {
        TodoList { undone: Vec::new(), done: Vec::new() }
    }

    /// The number of todos, undone and done.
    pub fn len(&self) -> (r: usize)
        requires
            self.undone@.len() + self.done@.len() <= usize::MAX,
        ensures
            r == self.undone@.len() + self.done@.len(),
    {
        self.undone.len() + self.done.len()
    }

    pub fn is_empty(&self) -> (r: bool)
        ensures
            r == (self.undone@.len() == 0 && self.done@.len() == 0),
    {
        self.undone.len() == 0 && self.done.len() == 0
    }

    /// Inserts `todo` into `undone` after every todo at least as urgent.
    pub fn add(&mut self, todo: Todo)
        ensures
            final(self).undone@ == insert_ordered(old(self).undone@, todo),
            final(self).done@ == old(self).done@,
            old(self).wf() && !todo.done ==> final(self).wf(),
    {
        proof {
            if old(self).wf() {
                lemma_insert_ordered_sorted(old(self).undone@, todo);
            }
        }
        let pos = find_first_lower(&self.undone, todo.priority, 0);
        proof {
            lemma_first_lower_bounds(self.undone@, todo.priority, 0);
        }
        self.undone.insert(pos, todo);
    }

    /// Appends `todo` at the end of `undone`, whatever its priority.
    pub fn push(&mut self, todo: Todo)
        ensures
            final(self).undone@ == old(self).undone@.push(todo),
            final(self).done@ == old(self).done@,
    {
        self.undone.push(todo);
    }

    /// Puts `todo` at the front of `undone`, whatever its priority.
    pub fn prepend(&mut self, todo: Todo)
        ensures
            final(self).undone@ == old(self).undone@.insert(0, todo),
            final(self).done@ == old(self).done@,
    {
        self.undone.insert(0, todo);
    }

    /// Moves the todo at `index` of `undone` to where its priority puts it,
    /// passing no todo of its own priority, and returns its new index.
    pub fn reorder(&mut self, index: usize) -> (r: usize)
        requires
            index < old(self).undone@.len(),
        ensures
            r as int == reorder_target(old(self).undone@, index as int),
            final(self).undone@ == reordered(old(self).undone@, index as int),
            final(self).done@ == old(self).done@,
            sorted(old(self).undone@.remove(index as int)) ==> sorted(final(self).undone@),
    {
        proof {
            if sorted(old(self).undone@.remove(index as int)) {
                lemma_reorder_sorted(old(self).undone@, index as int);
            }
        }
        let todo = self.undone.remove(index);
        let p = todo.priority;
        let up = find_first_lower(&self.undone, p, 0);
        let pos = if up < index {
            up
        } else {
            proof {
                lemma_first_lower_bounds(self.undone@, p, 0);
            }
            find_first_at_most(&self.undone, p, index)
        };
        proof {
            lemma_first_at_most_bounds(self.undone@, p, index as int);
        }
        self.undone.insert(pos, todo);
        pos
    }

    /// Moves every done todo of `undone` to the end of `done`, keeping order.
    pub fn fix_undone(&mut self)
        ensures
            (final(self).undone@, final(self).done@) == after_fix_undone(old(self).undone@, old(self).done@),
    {
        let ghost orig = self.undone@;
        let ghost orig_done = self.done@;
        let ghost mut k: int = 0;
        let mut i: usize = 0;
        while i < self.undone.len()
            invariant
                0 <= k <= orig.len(),
                i as int == undone_of(orig.take(k)).len(),
                self.undone@ == undone_of(orig.take(k)) + orig.skip(k),
                self.done@ == orig_done + done_of(orig.take(k)),
            decreases orig.len() - k,
        {
            assert(orig.take(k + 1).drop_last() =~= orig.take(k));
            assert(self.undone@[i as int] == orig[k]);
            if self.undone[i].done {
                let t = self.undone.remove(i);
                self.done.push(t);
                proof {
                    k = k + 1;
                }
                assert(self.undone@ =~= undone_of(orig.take(k)) + orig.skip(k));
                assert(self.done@ =~= orig_done + done_of(orig.take(k)));
            } else {
                i = i + 1;
                proof {
                    k = k + 1;
                }
                assert(self.undone@ =~= undone_of(orig.take(k)) + orig.skip(k));
            }
        }
        assert(orig.take(k) =~= orig) by {
            assert(orig.skip(k).len() == 0);
        }
        assert(self.undone@ =~= undone_of(orig));
    }

    /// Runs `fix_undone`, and `fix_done` too when done todos are shown.
    pub fn fix(&mut self, show_done: bool)
        ensures
            forall|i: int| 0 <= i < final(self).undone@.len() ==> !(#[trigger] final(self).undone@[i]).done,
            show_done ==> partitioned(final(self).undone@, final(self).done@),
            !show_done ==> (final(self).undone@, final(self).done@)
                == after_fix_undone(old(self).undone@, old(self).done@),
            show_done ==> ({
                let mid = after_fix_undone(old(self).undone@, old(self).done@);
                (final(self).undone@, final(self).done@) == after_fix_done(mid.0, mid.1)
            }),
            final(self).undone@.len() + final(self).done@.len() == old(self).undone@.len() + old(self).done@.len(),
            show_done && sorted(old(self).undone@) ==> final(self).wf(),
    {
        self.fix_undone();
        proof {
            if sorted(old(self).undone@) {
                lemma_undone_of_sorted(old(self).undone@);
                lemma_insert_all_sorted(self.undone@, undone_of(self.done@));
            }
            lemma_parts_len(old(self).undone@);
            lemma_parts_len(self.done@);
            lemma_insert_all_len(self.undone@, undone_of(self.done@));
            lemma_undone_of_all_undone(old(self).undone@);
            lemma_fix_partitions(old(self).undone@, old(self).done@);
        }
        if show_done {
            self.fix_done();
        }
    }

    /// Whether no todo is left undone while some are done.
    pub fn only_undone_empty(&self) -> (r: bool)
        ensures
            r == (self.undone@.len() == 0 && self.done@.len() > 0),
    {
        self.undone.len() == 0 && self.done.len() > 0
    }

    /// Toggles the todo at `index` of the undone todos followed by the done
    /// ones, in the list that `path` names (each step an index into the
    /// undone todos followed by the done ones), then puts each list on the way
    /// back in order. A todo whose nested list
    /// is left with only done todos is marked done in turn. Returns whether
    /// this list is left with only done todos; a path that names no list
    /// changes nothing.
    pub fn toggle_done_at(&mut self, path: &Vec<usize>, index: usize, show_done: bool) -> (r: bool)
        ensures
            r == (final(self).undone@.len() == 0 && final(self).done@.len() > 0),
            path@.len() == 0 && index < old(self).undone@.len() + old(self).done@.len() ==>
                forall|i: int| 0 <= i < final(self).undone@.len() ==> !(#[trigger] final(self).undone@[i]).done,
            path@.len() == 0 && index < old(self).undone@.len() + old(self).done@.len() && show_done ==>
                partitioned(final(self).undone@, final(self).done@),
            final(self).undone@.len() + final(self).done@.len() == old(self).undone@.len() + old(self).done@.len(),
            toggled(*old(self), *final(self), path@, index as int, show_done),
    {
        assert(path@.skip(0) =~= path@);
        self.toggle_from(path, 0, index, show_done)
    }

    fn toggle_from(&mut self, path: &Vec<usize>, from: usize, index: usize, show_done: bool) -> (r: bool)
        requires
            from <= path@.len(),
        ensures
            r == (final(self).undone@.len() == 0 && final(self).done@.len() > 0),
            from == path@.len() && index < old(self).undone@.len() + old(self).done@.len() ==>
                forall|i: int| 0 <= i < final(self).undone@.len() ==> !(#[trigger] final(self).undone@[i]).done,
            from == path@.len() && index < old(self).undone@.len() + old(self).done@.len() && show_done ==>
                partitioned(final(self).undone@, final(self).done@),
            final(self).undone@.len() + final(self).done@.len() == old(self).undone@.len() + old(self).done@.len(),
            toggled(*old(self), *final(self), path@.skip(from as int), index as int, show_done),
        decreases path@.len() - from,
    {
        let ghost q = path@.skip(from as int);
        let ghost all = self.undone@ + self.done@;
        let ulen = self.undone.len();
        if from == path.len() {
            assert(q.len() == 0);
            if index < ulen {
                let t = &mut self.undone[index];
                t.toggle_done();
                if t.has_dependency() {
                    if let Dependency::List(sub) = &mut t.dependency {
                        sub.fix(show_done);
                    }
                }
            } else if index - ulen < self.done.len() {
                let t = &mut self.done[index - ulen];
                t.toggle_done();
                if t.has_dependency() {
                    if let Dependency::List(sub) = &mut t.dependency {
                        sub.fix(show_done);
                    }
                }
            } else {
                return self.only_undone_empty();
            }
            let ghost t2 = (self.undone@ + self.done@)[index as int];
            proof {
                assert(all[index as int] == if index < ulen { old(self).undone@[index as int] } else { old(self).done@[index - ulen] });
                assert(same_but_done_dep(all[index as int], t2));
                assert((self.undone@, self.done@) == updated(old(self).undone@, old(self).done@, index as int, t2));
            }
            self.fix(show_done);
        } else {
            let p = path[from];
            proof {
                assert(q[0] == p);
                assert(q.skip(1) =~= path@.skip(from + 1));
            }
            if p < ulen {
                if !self.undone[p].has_dependency() {
                    return self.only_undone_empty();
                }
                let t = &mut self.undone[p];
                let mut cascade = false;
                if let Dependency::List(sub) = &mut t.dependency {
                    cascade = sub.toggle_from(path, from + 1, index, show_done);
                }
                if cascade && !t.done {
                    t.set_done(true);
                    let ghost t2 = self.undone@[p as int];
                    proof {
                        assert(same_but_done_dep(all[p as int], t2));
                        assert((self.undone@, self.done@) == updated(old(self).undone@, old(self).done@, p as int, t2));
                    }
                    self.fix(show_done);
                } else {
                    let ghost t2 = self.undone@[p as int];
                    proof {
                        assert(same_but_done_dep(all[p as int], t2));
                        assert((self.undone@, self.done@) == updated(old(self).undone@, old(self).done@, p as int, t2));
                    }
                }
            } else if p - ulen < self.done.len() {
                if !self.done[p - ulen].has_dependency() {
                    return self.only_undone_empty();
                }
                if let Dependency::List(sub) = &mut self.done[p - ulen].dependency {
                    sub.toggle_from(path, from + 1, index, show_done);
                }
                let ghost t2 = self.done@[p - ulen];
                proof {
                    assert(all[p as int] == old(self).done@[p - ulen]);
                    assert(same_but_done_dep(all[p as int], t2));
                    assert((self.undone@, self.done@) == updated(old(self).undone@, old(self).done@, p as int, t2));
                }
            }
        }
        self.only_undone_empty()
    }

    /// Moves every undone todo of `done` into `undone` by priority, keeping
    /// the order of the rest.
    pub fn fix_done(&mut self)
        ensures
            (final(self).undone@, final(self).done@) == after_fix_done(old(self).undone@, old(self).done@),
    {
        let ghost orig = self.done@;
        let ghost orig_undone = self.undone@;
        let ghost mut k: int = 0;
        let mut i: usize = 0;
        while i < self.done.len()
            invariant
                0 <= k <= orig.len(),
                i as int == done_of(orig.take(k)).len(),
                self.done@ == done_of(orig.take(k)) + orig.skip(k),
                self.undone@ == insert_all(orig_undone, undone_of(orig.take(k))),
            decreases orig.len() - k,
        {
            assert(orig.take(k + 1).drop_last() =~= orig.take(k));
            assert(self.done@[i as int] == orig[k]);
            if !self.done[i].done {
                let t = self.done.remove(i);
                self.add(t);
                proof {
                    k = k + 1;
                }
                assert(undone_of(orig.take(k)).drop_last() =~= undone_of(orig.take(k - 1)));
                assert(self.done@ =~= done_of(orig.take(k)) + orig.skip(k));
            } else {
                i = i + 1;
                proof {
                    k = k + 1;
                }
                assert(self.done@ =~= done_of(orig.take(k)) + orig.skip(k));
            }
        }
        assert(orig.take(k) =~= orig) by {
            assert(orig.skip(k).len() == 0);
        }
        assert(self.done@ =~= done_of(orig));
    }
}

} // verus!
