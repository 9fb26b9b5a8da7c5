use vstd::prelude::*;
use crate::codec::{decode_from_clipboard, encode_for_clipboard, fields_of, fields_of_line, line_of, ParseError};
use crate::edit::{edit_holds, ListEdit};
use crate::todo::{Dependency, Todo};
use vstd::string::StrSliceExecFns;
use crate::todo_list::{restricted, Restriction, TodoList};
use crate::tree_search::{enumerate, lemma_list_at_push, list_at, matching_indices, matching_todos, match_indices, todo_at};

verus! {

broadcast use vstd::std_specs::vec::group_vec_axioms;

/// Every todo passes `All`.
pub(crate) proof fn lemma_restricted_all(s: Seq<Todo>)
    ensures
        restricted(s, Restriction::All) == s,
    decreases s.len(),
{
    if s.len() > 0 {
        lemma_restricted_all(s.drop_last());
        assert(s.drop_last().push(s.last()) =~= s);
    }
}

/// A prefix of a path that names a list names a list too.
proof fn lemma_list_at_prefix(l: TodoList, p: Seq<usize>, i: int)
    requires
        list_at(l, p, Restriction::All) is Some,
        0 <= i <= p.len(),
    ensures
        list_at(l, p.take(i), Restriction::All) is Some,
    decreases p.len(),
{
    if i > 0 {
        let e = enumerate(l, Restriction::All);
        assert(p.take(i)[0] == p[0]);
        assert(p.take(i).skip(1) =~= p.skip(1).take(i - 1));
        lemma_list_at_prefix(e[p[0] as int].dependency->List_0, p.skip(1), i - 1);
    }
}

/// The todo list being worked on and a cursor into it: the path of the list
/// shown, the index of the todo under the cursor, whether done todos are
/// shown, and the last search within the list shown.
pub struct App {
    pub todo_list: TodoList,
    pub index: usize,
    pub prior_indexes: Vec<usize>,
    pub show_done: bool,
    pub changed: bool,
    pub search_indexes: Vec<usize>,
    pub search_index: usize,
    pub last_query: String,
}

impl App {
    /// The path of the list shown names a list.
    pub open spec fn wf(&self) -> bool {
        &&& list_at(self.todo_list, self.prior_indexes@, Restriction::All) is Some
        &&& self.spec_current().undone@.len() + self.spec_current().done@.len() <= usize::MAX
        &&& self.todo_list.undone@.len() + self.todo_list.done@.len() <= usize::MAX
    }

    /// The list shown.
    pub open spec fn spec_current(&self) -> TodoList {
        list_at(self.todo_list, self.prior_indexes@, Restriction::All)->Some_0
    }

    /// How many todos the list shown shows.
    pub open spec fn spec_len(&self) -> int {
        let l = self.spec_current();
        if self.show_done { (l.undone@.len() + l.done@.len()) as int } else { l.undone@.len() as int }
    }

    pub fn new(todo_list: TodoList) -> (r: App)
        requires
            todo_list.undone@.len() + todo_list.done@.len() <= usize::MAX,
        ensures
            r.wf(),
            r.todo_list == todo_list,
            r.index == 0,
            r.prior_indexes@.len() == 0,
            !r.show_done,
            !r.changed,
            r.search_indexes@.len() == 0,
            r.search_index == 0,
            r.last_query@.len() == 0,
    {
        App {
            todo_list,
            index: 0,
            prior_indexes: Vec::new(),
            show_done: false,
            changed: false,
            search_indexes: Vec::new(),
            search_index: 0,
            last_query: String::new(),
        }
    }

    /// The list that the path names.
    pub fn current_list(&self) -> (r: &TodoList)
        requires
            self.wf(),
        ensures
            *r == self.spec_current(),
    {
        let ghost root = self.todo_list;
        let ghost path = self.prior_indexes@;
        let mut list: &TodoList = &self.todo_list;
        let mut i: usize = 0;
        proof {
            assert(path.take(0) =~= Seq::<usize>::empty());
        }
        while i < self.prior_indexes.len()
            invariant
                i <= path.len(),
                path == self.prior_indexes@,
                root == self.todo_list,
                list_at(root, path, Restriction::All) is Some,
                list_at(root, path.take(i as int), Restriction::All) == Some(*list),
            decreases path.len() - i,
        {
            let k = self.prior_indexes[i];
            proof {
                assert(path.take(i + 1) =~= path.take(i as int).push(k));
                lemma_list_at_prefix(root, path, i + 1);
                lemma_list_at_push(root, path.take(i as int), k, Restriction::All);
                lemma_restricted_all(list.undone@ + list.done@);
            }
            let t = todo_at(list, k);
            match &t.dependency {
                Dependency::List(sub) => {
                    list = sub;
                },
                _ => {
                    assert(false);
                    return list;
                },
            }
            i = i + 1;
        }
        proof {
            assert(path.take(i as int) =~= path);
        }
        list
    }

    /// How many todos the list shown shows: the undone ones, and the done
    /// ones too when they are shown.
    pub fn len(&self) -> (r: usize)
        requires
            self.wf(),
        ensures
            r == self.spec_len(),
    {
        let list = self.current_list();
        if self.show_done {
            list.undone.len() + list.done.len()
        } else {
            list.undone.len()
        }
    }
}

impl App {
    /// The index under the cursor once clamped to the todos shown.
    pub open spec fn spec_clamped(&self) -> int {
        if self.spec_len() == 0 { 0 } else if self.index < self.spec_len() { self.index as int } else { self.spec_len() - 1 }
    }

    /// The index of the last todo shown, or zero.
    pub fn bottom(&self) -> (r: usize)
        requires
            self.wf(),
        ensures
            r == if self.spec_len() == 0 { 0 } else { self.spec_len() - 1 },
    {
        let size = self.len();
        if size == 0 { 0 } else { size - 1 }
    }

    /// Keeps the cursor on a todo shown.
    pub fn fix_index(&mut self)
        requires
            old(self).wf(),
        ensures
            *final(self) == (App { index: old(self).spec_clamped() as usize, ..*old(self) }),
    {
        let size = self.len();
        if size == 0 {
            self.index = 0;
        } else if self.index >= size {
            self.index = size - 1;
        }
    }

    pub fn go_top(&mut self)
        ensures
            *final(self) == (App { index: 0, ..*old(self) }),
    {
        self.index = 0;
    }

    pub fn go_bottom(&mut self)
        requires
            old(self).wf(),
        ensures
            *final(self) == (App { index: (if old(self).spec_len() == 0 { 0 } else { old(self).spec_len() - 1 }) as usize, ..*old(self) }),
    {
        self.index = self.bottom();
    }

    /// Moves the cursor down one todo, from the last back to the first.
    pub fn increment(&mut self)
        requires
            old(self).wf(),
        ensures
            *final(self) == (App {
                index: (if old(self).index + 1 < old(self).spec_len() { old(self).index + 1 } else { 0 }) as usize,
                ..*old(self)
            }),
    {
        let size = self.len();
        if size > 0 && self.index < size - 1 {
            self.index = self.index + 1;
        } else {
            self.index = 0;
        }
    }

    /// Moves the cursor up one todo, from the first round to the last.
    pub fn decrement(&mut self)
        requires
            old(self).wf(),
        ensures
            *final(self) == (App {
                index: (if old(self).index != 0 { old(self).index - 1 }
                    else if old(self).spec_len() == 0 { 0 } else { old(self).spec_len() - 1 }) as usize,
                ..*old(self)
            }),
    {
        if self.index != 0 {
            self.index = self.index - 1;
        } else {
            self.go_bottom();
        }
    }

    pub fn is_undone_empty(&self) -> (r: bool)
        requires
            self.wf(),
        ensures
            r == (self.spec_current().undone@.len() == 0),
    {
        self.current_list().undone.len() == 0
    }

    pub fn is_done_empty(&self) -> (r: bool)
        requires
            self.wf(),
        ensures
            r == (self.spec_current().done@.len() == 0),
    {
        self.current_list().done.len() == 0
    }

    /// Whether no todo is shown.
    pub fn is_todos_empty(&self) -> (r: bool)
        requires
            self.wf(),
        ensures
            r == (self.spec_len() == 0),
    {
        self.len() == 0
    }

    /// Whether the list shown holds done todos only.
    pub fn only_undone_empty(&self) -> (r: bool)
        requires
            self.wf(),
        ensures
            r == (self.spec_current().undone@.len() == 0 && self.spec_current().done@.len() > 0),
    {
        self.is_undone_empty() && !self.is_done_empty()
    }

    /// The todo under the cursor, the index clamped to the todos shown.
    pub fn todo(&self) -> (r: Option<&Todo>)
        requires
            self.wf(),
        ensures
            self.spec_len() == 0 <==> r is None,
            r is Some ==> *r->Some_0 == (self.spec_current().undone@ + self.spec_current().done@)[self.spec_clamped()],
    {
        let size = self.len();
        if size == 0 {
            return None;
        }
        let index = if self.index < size { self.index } else { size - 1 };
        Some(todo_at(self.current_list(), index))
    }

    /// Goes into the nested list of the todo under the cursor, if it has one.
    pub fn traverse_down(&mut self)
        requires
            old(self).wf(),
        ensures
            final(self).wf(),
            final(self).todo_list == old(self).todo_list,
            final(self).show_done == old(self).show_done,
            ({
                let t = (old(self).spec_current().undone@ + old(self).spec_current().done@)[old(self).spec_clamped()];
                old(self).spec_len() > 0 && t.dependency is List && crate::tree_search::fits(t.dependency->List_0)
            }) ==> final(self).prior_indexes@ == old(self).prior_indexes@.push(old(self).spec_clamped() as usize)
                && final(self).index == 0 && final(self).changed == old(self).changed,
            !({
                let t = (old(self).spec_current().undone@ + old(self).spec_current().done@)[old(self).spec_clamped()];
                old(self).spec_len() > 0 && t.dependency is List && crate::tree_search::fits(t.dependency->List_0)
            }) ==> *final(self) == *old(self),
    {
        let size = self.len();
        if size == 0 {
            return;
        }
        let index = if self.index < size { self.index } else { size - 1 };
        let ghost path = self.prior_indexes@;
        let t = todo_at(self.current_list(), index);
        if let Dependency::List(sub) = &t.dependency {
            if sub.undone.len() <= usize::MAX - sub.done.len() {
                proof {
                    lemma_list_at_push(self.todo_list, path, index, Restriction::All);
                    lemma_restricted_all(self.spec_current().undone@ + self.spec_current().done@);
                }
                self.prior_indexes.push(index);
                self.index = 0;
            }
        }
    }

    /// Goes back to the list around the list shown, the cursor on the todo
    /// that holds it.
    pub fn traverse_up(&mut self)
        requires
            old(self).wf(),
        ensures
            final(self).wf(),
            old(self).prior_indexes@.len() == 0 ==> *final(self) == *old(self),
            final(self).changed == old(self).changed,
            old(self).prior_indexes@.len() > 0 ==> final(self).prior_indexes@.len() < old(self).prior_indexes@.len()
                && final(self).prior_indexes@
                == old(self).prior_indexes@.drop_last().take(final(self).prior_indexes@.len() as int)
                && final(self).index == old(self).prior_indexes@.last()
                && final(self).todo_list == old(self).todo_list
                && final(self).show_done == old(self).show_done,
    {
        if self.prior_indexes.len() > 0 {
            let last = self.prior_indexes.pop();
            if let Some(i) = last {
                self.index = i;
            }
            self.fix_path();
        }
    }
}

impl App {
    /// Cuts the path of the list shown back to its longest prefix that still
    /// names a list whose size fits, after a change of the tree.
    pub fn fix_path(&mut self)
        requires
            old(self).todo_list.undone@.len() + old(self).todo_list.done@.len() <= usize::MAX,
        ensures
            final(self).wf(),
            final(self).prior_indexes@.len() <= old(self).prior_indexes@.len(),
            final(self).prior_indexes@ == old(self).prior_indexes@.take(final(self).prior_indexes@.len() as int),
            old(self).wf() ==> final(self).prior_indexes@ == old(self).prior_indexes@,
            final(self).todo_list == old(self).todo_list,
            final(self).index == old(self).index,
            final(self).show_done == old(self).show_done,
            final(self).changed == old(self).changed,
    {
        let ghost root = self.todo_list;
        let ghost path = self.prior_indexes@;
        let mut list: &TodoList = &self.todo_list;
        let mut i: usize = 0;
        let mut fit: usize = 0;
        proof {
            assert(path.take(0) =~= Seq::<usize>::empty());
        }
        while i < self.prior_indexes.len()
            invariant_except_break
                fit <= i <= path.len(),
                path == self.prior_indexes@,
                root == self.todo_list,
                list_at(root, path.take(i as int), Restriction::All) == Some(*list),
                list_at(root, path.take(fit as int), Restriction::All) is Some,
                list_at(root, path.take(fit as int), Restriction::All)->Some_0.undone@.len()
                    + list_at(root, path.take(fit as int), Restriction::All)->Some_0.done@.len() <= usize::MAX,
                list.undone@.len() + list.done@.len() <= usize::MAX ==> fit == i,
            ensures
                fit <= i <= path.len(),
                list_at(root, path.take(fit as int), Restriction::All) is Some,
                list_at(root, path.take(fit as int), Restriction::All)->Some_0.undone@.len()
                    + list_at(root, path.take(fit as int), Restriction::All)->Some_0.done@.len() <= usize::MAX,
                list_at(root, path, Restriction::All) is Some ==> i == path.len(),
                list_at(root, path.take(i as int), Restriction::All) == Some(*list),
                list.undone@.len() + list.done@.len() <= usize::MAX ==> fit == i,
            decreases path.len() - i,
        {
            let k = self.prior_indexes[i];
            proof {
                assert(path.take(i + 1) =~= path.take(i as int).push(k));
                lemma_list_at_push(root, path.take(i as int), k, Restriction::All);
                lemma_restricted_all(list.undone@ + list.done@);
                if list_at(root, path, Restriction::All) is Some {
                    lemma_list_at_prefix(root, path, i + 1);
                }
            }
            let ulen = list.undone.len();
            if !(k < ulen || k - ulen < list.done.len()) {
                break;
            }
            let t = todo_at(list, k);
            match &t.dependency {
                Dependency::List(sub) => {
                    list = sub;
                },
                _ => {
                    break;
                },
            }
            i = i + 1;
            if list.undone.len() <= usize::MAX - list.done.len() {
                fit = i;
            }
        }
        proof {
            if list_at(root, path, Restriction::All) is Some {
                assert(path.take(i as int) =~= path);
            }
        }
        self.prior_indexes.truncate(fit);
        proof {
            assert(self.prior_indexes@ =~= path.take(fit as int));
        }
    }
}

/// The change grows the list by one todo.
pub open spec fn grows(edit: ListEdit) -> bool {
    edit is Add || edit is Push || edit is Prepend
}

proof fn lemma_edit_len(u: Seq<Todo>, d: Seq<Todo>, index: int, edit: ListEdit, nu: Seq<Todo>, nd: Seq<Todo>, r: int)
    requires
        edit_holds(u, d, index, edit, nu, nd, r),
        0 <= index,
    ensures
        nu.len() + nd.len() <= u.len() + d.len() + if grows(edit) { 1int } else { 0int },
{
    match edit {
        ListEdit::Add(t) => {
            crate::todo_list::lemma_target_bounds(u, 0, t);
        },
        ListEdit::Remove => {},
        ListEdit::Push(_) => {},
        ListEdit::Prepend(_) => {},
        _ => {
            if index < u.len() {
                let n = choose|n: Todo| #[trigger] crate::edit::changed_todo(u[index], edit, n) && nd == d && if crate::edit::moves(edit) {
                    nu == crate::todo_list::reordered(u.update(index, n), index)
                } else {
                    nu == u.update(index, n)
                };
                crate::todo_list::lemma_target_bounds(u.update(index, n), index, n);
            }
        },
    }
}

impl App {
    /// Makes the change `edit` in the list shown, on the todo under the
    /// cursor (its index clamped), and returns where the cursor should go. A
    /// list that cannot grow is left as it is.
    pub fn edit_current(&mut self, edit: ListEdit) -> (r: usize)
        requires
            old(self).wf(),
        ensures
            final(self).wf(),
            final(self).index == old(self).index,
            final(self).show_done == old(self).show_done,
            final(self).prior_indexes@ == old(self).prior_indexes@,
            grows(edit) && old(self).spec_current().undone@.len() + old(self).spec_current().done@.len() == usize::MAX
                ==> *final(self) == *old(self),
            !(grows(edit) && old(self).spec_current().undone@.len() + old(self).spec_current().done@.len() == usize::MAX) ==>
                edit_holds(old(self).spec_current().undone@, old(self).spec_current().done@, old(self).spec_clamped(), edit,
                    final(self).spec_current().undone@, final(self).spec_current().done@, r as int)
                && final(self).changed,
    {
        let size = self.current_list().undone.len() + self.current_list().done.len();
        let grows = match &edit {
            ListEdit::Add(_) | ListEdit::Push(_) | ListEdit::Prepend(_) => true,
            _ => false,
        };
        if grows && size == usize::MAX {
            return self.index;
        }
        let count = self.len();
        let index = if count == 0 { 0 } else if self.index < count { self.index } else { count - 1 };
        let ghost e = edit;
        let ghost old_root = self.todo_list;
        let r = self.todo_list.edit_at(&self.prior_indexes, index, edit);
        proof {
            let before = old(self).spec_current();
            lemma_edit_len(before.undone@, before.done@, index as int, e,
                self.spec_current().undone@, self.spec_current().done@, r as int);
            if self.prior_indexes@.len() == 0 {
                assert(old(self).spec_current() == old_root);
                assert(self.spec_current() == self.todo_list);
            }
            assert(self.wf());
        }
        self.changed = true;
        self.fix_path();
        r
    }

    /// Sets the priority of the todo under the cursor and follows it to its place.
    pub fn set_current_priority(&mut self, priority: i8)
        requires
            old(self).wf(),
        ensures
            final(self).wf(),
            final(self).prior_indexes@ == old(self).prior_indexes@,
            old(self).spec_len() > 0 ==> final(self).changed,
            old(self).spec_len() == 0 ==> *final(self) == *old(self),
            old(self).spec_len() > 0 ==> edit_holds(old(self).spec_current().undone@,
                old(self).spec_current().done@, old(self).spec_clamped(), ListEdit::SetPriority(priority),
                final(self).spec_current().undone@, final(self).spec_current().done@, final(self).index as int),
    {
        if self.len() > 0 {
            self.index = self.edit_current(ListEdit::SetPriority(priority));
        }
    }

    pub fn increase_current_priority(&mut self)
        requires
            old(self).wf(),
        ensures
            final(self).wf(),
            final(self).prior_indexes@ == old(self).prior_indexes@,
            old(self).spec_len() > 0 ==> final(self).changed,
            old(self).spec_len() == 0 ==> *final(self) == *old(self),
            old(self).spec_len() > 0 ==> edit_holds(old(self).spec_current().undone@,
                old(self).spec_current().done@, old(self).spec_clamped(), ListEdit::IncreasePriority,
                final(self).spec_current().undone@, final(self).spec_current().done@, final(self).index as int),
    {
        if self.len() > 0 {
            self.index = self.edit_current(ListEdit::IncreasePriority);
        }
    }

    pub fn decrease_current_priority(&mut self)
        requires
            old(self).wf(),
        ensures
            final(self).wf(),
            final(self).prior_indexes@ == old(self).prior_indexes@,
            old(self).spec_len() > 0 ==> final(self).changed,
            old(self).spec_len() == 0 ==> *final(self) == *old(self),
            old(self).spec_len() > 0 ==> edit_holds(old(self).spec_current().undone@,
                old(self).spec_current().done@, old(self).spec_clamped(), ListEdit::DecreasePriority,
                final(self).spec_current().undone@, final(self).spec_current().done@, final(self).index as int),
    {
        if self.len() > 0 {
            self.index = self.edit_current(ListEdit::DecreasePriority);
        }
    }

    pub fn toggle_current_daily(&mut self)
        requires
            old(self).wf(),
        ensures
            final(self).wf(),
            final(self).prior_indexes@ == old(self).prior_indexes@,
            old(self).spec_len() > 0 ==> final(self).changed,
            old(self).spec_len() == 0 ==> *final(self) == *old(self),
            final(self).index == old(self).index,
            old(self).spec_len() > 0 ==> edit_holds(old(self).spec_current().undone@,
                old(self).spec_current().done@, old(self).spec_clamped(), ListEdit::ToggleDaily,
                final(self).spec_current().undone@, final(self).spec_current().done@, old(self).spec_clamped()),
    {
        if self.len() > 0 {
            self.edit_current(ListEdit::ToggleDaily);
        }
    }

    /// Removes the todo under the cursor.
    pub fn delete_todo(&mut self)
        requires
            old(self).wf(),
        ensures
            final(self).wf(),
            final(self).prior_indexes@ == old(self).prior_indexes@,
            old(self).spec_len() > 0 ==> final(self).changed,
            old(self).spec_len() == 0 ==> *final(self) == *old(self),
            old(self).spec_len() > 0 ==> edit_holds(old(self).spec_current().undone@,
                old(self).spec_current().done@, old(self).spec_clamped(), ListEdit::Remove,
                final(self).spec_current().undone@, final(self).spec_current().done@, old(self).spec_clamped()),
            old(self).spec_len() == 0 ==> *final(self) == *old(self),
    {
        if self.len() > 0 {
            self.edit_current(ListEdit::Remove);
        }
    }

    /// Gives the todo under the cursor an empty nested list, unless it has a note.
    pub fn add_dependency(&mut self)
        requires
            old(self).wf(),
        ensures
            final(self).wf(),
            final(self).prior_indexes@ == old(self).prior_indexes@,
            old(self).spec_len() > 0 ==> final(self).changed,
            old(self).spec_len() == 0 ==> *final(self) == *old(self),
            old(self).spec_len() > 0 ==> edit_holds(old(self).spec_current().undone@,
                old(self).spec_current().done@, old(self).spec_clamped(), ListEdit::AddDependency,
                final(self).spec_current().undone@, final(self).spec_current().done@, old(self).spec_clamped()),
    {
        if self.len() > 0 {
            self.edit_current(ListEdit::AddDependency);
        }
    }

    /// Gives the todo under the cursor a nested list if it has neither list
    /// nor note, then goes into its list.
    pub fn add_dependency_traverse_down(&mut self)
        requires
            old(self).wf(),
        ensures
            final(self).wf(),
    {
        self.add_dependency();
        self.traverse_down();
    }

    /// Drops the note and the nested list of the todo under the cursor.
    pub fn remove_current_dependent(&mut self)
        requires
            old(self).wf(),
        ensures
            final(self).wf(),
            final(self).prior_indexes@ == old(self).prior_indexes@,
            old(self).spec_len() > 0 ==> final(self).changed,
            old(self).spec_len() == 0 ==> *final(self) == *old(self),
            old(self).spec_len() > 0 ==> edit_holds(old(self).spec_current().undone@,
                old(self).spec_current().done@, old(self).spec_clamped(), ListEdit::RemoveDependency,
                final(self).spec_current().undone@, final(self).spec_current().done@, old(self).spec_clamped()),
    {
        if self.len() > 0 {
            self.edit_current(ListEdit::RemoveDependency);
        }
    }

    /// The hash of the note of the todo under the cursor, to be edited; a
    /// todo without note gets the note `new_hash` instead (unless it has a
    /// nested list), and `None` comes back.
    pub fn edit_or_add_note(&mut self, new_hash: String) -> (r: Option<String>)
        requires
            old(self).wf(),
        ensures
            final(self).wf(),
            final(self).prior_indexes@ == old(self).prior_indexes@,
            r is Some ==> *final(self) == *old(self) && old(self).spec_len() > 0 && ({
                let t = (old(self).spec_current().undone@ + old(self).spec_current().done@)[old(self).spec_clamped()];
                t.dependency is Note && r->Some_0@ == t.dependency->Note_0@
            }),
            old(self).spec_len() > 0 && r is None ==> edit_holds(
                old(self).spec_current().undone@, old(self).spec_current().done@, old(self).spec_clamped(),
                ListEdit::AddNote(new_hash), final(self).spec_current().undone@, final(self).spec_current().done@,
                old(self).spec_clamped()),
            old(self).spec_len() > 0
                && (old(self).spec_current().undone@ + old(self).spec_current().done@)[old(self).spec_clamped()].dependency is Note
                ==> r is Some,
            old(self).spec_len() == 0 ==> r is None && *final(self) == *old(self),
    {
        match self.todo() {
            None => None,
            Some(t) => match t.edit_note() {
                Ok(hash) => Some(hash),
                Err(_) => {
                    self.edit_current(ListEdit::AddNote(new_hash));
                    None
                },
            },
        }
    }

    /// Adds a todo of priority zero at the end of the undone todos and puts
    /// the cursor on it.
    pub fn on_prepend_todo(&mut self, message: String)
        requires
            old(self).wf(),
        ensures
            final(self).wf(),
            final(self).prior_indexes@ == old(self).prior_indexes@,
            old(self).spec_current().undone@.len() + old(self).spec_current().done@.len() < usize::MAX ==> ({
                let t = final(self).spec_current().undone@.last();
                &&& final(self).spec_current().undone@ == old(self).spec_current().undone@.push(t)
                &&& final(self).spec_current().done@ == old(self).spec_current().done@
                &&& t.message == message && t.priority == 0 && !t.done && !t.daily && t.dependency is Empty
                &&& final(self).index == old(self).spec_current().undone@.len()
            }),
    {
        let r = self.edit_current(ListEdit::Push(Todo::new(message, 0)));
        self.index = r;
    }

    /// Puts a todo of priority one in front of the undone todos and puts the
    /// cursor on it.
    pub fn on_append_todo(&mut self, message: String)
        requires
            old(self).wf(),
        ensures
            final(self).wf(),
            final(self).prior_indexes@ == old(self).prior_indexes@,
            final(self).index == 0,
            old(self).spec_current().undone@.len() + old(self).spec_current().done@.len() < usize::MAX ==> ({
                let t = final(self).spec_current().undone@[0];
                &&& final(self).spec_current().undone@ == old(self).spec_current().undone@.insert(0, t)
                &&& final(self).spec_current().done@ == old(self).spec_current().done@
                &&& t.message == message && t.priority == 1 && !t.done && !t.daily && t.dependency is Empty
            }),
    {
        self.edit_current(ListEdit::Prepend(Todo::new(message, 1)));
        self.index = 0;
    }

    /// Replaces the message of the todo under the cursor; an empty message
    /// changes nothing.
    pub fn on_edit_todo(&mut self, message: String)
        requires
            old(self).wf(),
        ensures
            final(self).wf(),
            final(self).prior_indexes@ == old(self).prior_indexes@,
            message@.len() == 0 ==> *final(self) == *old(self),
            message@.len() > 0 && old(self).spec_len() > 0 ==> edit_holds(
                old(self).spec_current().undone@, old(self).spec_current().done@, old(self).spec_clamped(),
                ListEdit::SetMessage(message), final(self).spec_current().undone@, final(self).spec_current().done@,
                old(self).spec_clamped()),
    {
        if message.as_str().unicode_len() > 0 && self.len() > 0 {
            self.edit_current(ListEdit::SetMessage(message));
        }
    }

    /// The one-line form of the todo under the cursor, for the clipboard;
    /// `None` without a todo or with a priority out of range.
    pub fn yank_todo(&self) -> (r: Option<String>)
        requires
            self.wf(),
        ensures
            r is Some ==> self.spec_len() > 0 && r->Some_0@ == line_of(fields_of(
                (self.spec_current().undone@ + self.spec_current().done@)[self.spec_clamped()])),
            self.spec_len() > 0 && (self.spec_current().undone@ + self.spec_current().done@)[self.spec_clamped()].wf()
                ==> r is Some,
    {
        match self.todo() {
            Some(t) => {
                if t.priority >= 0 && t.priority <= crate::todo::MAX_PRIORITY {
                    Some(encode_for_clipboard(t))
                } else {
                    None
                }
            },
            None => None,
        }
    }

    /// Removes the todo under the cursor and gives its one-line form.
    pub fn cut_todo(&mut self) -> (r: Option<String>)
        requires
            old(self).wf(),
        ensures
            final(self).wf(),
            final(self).prior_indexes@ == old(self).prior_indexes@,
            r is Some ==> old(self).spec_len() > 0 && r->Some_0@ == line_of(fields_of(
                (old(self).spec_current().undone@ + old(self).spec_current().done@)[old(self).spec_clamped()])),
            r is Some ==> edit_holds(old(self).spec_current().undone@,
                old(self).spec_current().done@, old(self).spec_clamped(), ListEdit::Remove,
                final(self).spec_current().undone@, final(self).spec_current().done@, old(self).spec_clamped()),
            r is None ==> *final(self) == *old(self),
            old(self).spec_len() > 0
                && (old(self).spec_current().undone@ + old(self).spec_current().done@)[old(self).spec_clamped()].wf()
                ==> r is Some,
    {
        let text = self.yank_todo();
        if text.is_some() {
            self.edit_current(ListEdit::Remove);
        }
        text
    }

    /// Reads a todo from its one-line form and adds it to the list shown by
    /// its priority.
    pub fn paste_todo(&mut self, text: &str) -> (r: Result<(), ParseError>)
        requires
            old(self).wf(),
        ensures
            final(self).wf(),
            final(self).prior_indexes@ == old(self).prior_indexes@,
            fields_of_line(text@) is None <==> r is Err,
            r is Err ==> *final(self) == *old(self),
            r is Ok
                && old(self).spec_current().undone@.len() + old(self).spec_current().done@.len() < usize::MAX ==> ({
                let u = old(self).spec_current().undone@;
                let nu = final(self).spec_current().undone@;
                exists|t: Todo| #[trigger] crate::todo_list::insert_ordered(u, t) == nu
                    && Some(fields_of(t)) == fields_of_line(text@) && t.dependency is Empty
            }),
    {
        match decode_from_clipboard(text) {
            Ok(t) => {
                let ghost tt = t;
                self.edit_current(ListEdit::Add(t));
                proof {
                    if old(self).spec_current().undone@.len() + old(self).spec_current().done@.len() < usize::MAX {
                        assert(crate::todo_list::insert_ordered(old(self).spec_current().undone@, tt)
                            == self.spec_current().undone@);
                    }
                }
                Ok(())
            },
            Err(e) => Err(e),
        }
    }
}

/// The first index from `i` on of `s` whose entry is above `x`, or the length.
pub open spec fn first_greater(s: Seq<usize>, x: usize, i: int) -> int
    decreases s.len() - i,
{
    if i < 0 || i >= s.len() {
        s.len() as int
    } else if s[i] > x {
        i
    } else {
        first_greater(s, x, i + 1)
    }
}

proof fn lemma_first_greater_bounds(s: Seq<usize>, x: usize, i: int)
    requires
        0 <= i <= s.len(),
    ensures
        i <= first_greater(s, x, i) <= s.len(),
    decreases s.len() - i,
{
    if i < s.len() && s[i] <= x {
        lemma_first_greater_bounds(s, x, i + 1);
    }
}

/// The todos that the list shown shows: its undone todos, then its done
/// ones when they are shown.
pub open spec fn shown_todos(l: TodoList, show_done: bool) -> Seq<Todo> {
    if show_done { l.undone@ + l.done@ } else { l.undone@ }
}

impl App {
    /// Toggles the todo under the cursor, puts the lists on its path in
    /// order (a todo whose nested list is left with done todos only is done
    /// in turn), then leaves lists that show nothing and keeps the cursor on
    /// a todo shown.
    pub fn toggle_current_done(&mut self)
        requires
            old(self).wf(),
        ensures
            final(self).wf(),
            old(self).prior_indexes@.len() == 0 && old(self).spec_len() > 0 ==>
                forall|i: int| 0 <= i < final(self).todo_list.undone@.len()
                    ==> !(#[trigger] final(self).todo_list.undone@[i]).done,
            old(self).prior_indexes@.len() == 0 && old(self).spec_len() > 0 && old(self).show_done ==>
                crate::todo_list::partitioned(final(self).todo_list.undone@, final(self).todo_list.done@),
            old(self).spec_len() == 0 ==> *final(self) == *old(self),
            final(self).spec_len() > 0 ==> final(self).index < final(self).spec_len(),
            old(self).spec_len() > 0 ==> crate::todo_list::toggled(old(self).todo_list, final(self).todo_list,
                old(self).prior_indexes@, old(self).spec_clamped(), old(self).show_done),
            final(self).show_done == old(self).show_done,
            old(self).spec_len() > 0 ==> final(self).changed,
    {
        let size = self.len();
        if size == 0 {
            return;
        }
        let index = if self.index < size { self.index } else { size - 1 };
        self.todo_list.toggle_done_at(&self.prior_indexes, index, self.show_done);
        self.changed = true;
        self.fix_path();
        let ghost after = self.todo_list;
        while self.only_undone_empty() && self.prior_indexes.len() > 0
            invariant
                self.wf(),
                self.todo_list == after,
                self.changed,
                old(self).prior_indexes@.len() == 0 ==> self.prior_indexes@.len() == 0,
                self.show_done == old(self).show_done,
            decreases self.prior_indexes@.len(),
        {
            self.traverse_up();
        }
        self.fix_index();
    }

    /// Shows or hides the done todos, leaving lists that then show nothing,
    /// and searches the list shown again.
    pub fn toggle_show_done(&mut self)
        requires
            old(self).wf(),
        ensures
            final(self).wf(),
            final(self).show_done == !old(self).show_done,
            final(self).todo_list == old(self).todo_list,
    {
        self.show_done = !self.show_done;
        while self.only_undone_empty() && self.prior_indexes.len() > 0
            invariant
                self.wf(),
                self.show_done == !old(self).show_done,
                self.todo_list == old(self).todo_list,
            decreases self.prior_indexes@.len(),
        {
            self.traverse_up();
        }
        self.search(None);
    }

    /// Searches the todos shown in the list shown for `query`, or for the
    /// last query when none is given; an empty query changes nothing more.
    pub fn search(&mut self, query: Option<String>)
        requires
            old(self).wf(),
        ensures
            final(self).wf(),
            final(self).todo_list == old(self).todo_list,
            final(self).prior_indexes == old(self).prior_indexes,
            final(self).index == old(self).index,
            final(self).show_done == old(self).show_done,
            final(self).search_index == old(self).search_index,
            query is Some ==> final(self).last_query == query->Some_0,
            query is None ==> final(self).last_query == old(self).last_query,
            final(self).last_query@.len() > 0 ==> final(self).search_indexes@
                == match_indices(shown_todos(final(self).spec_current(), final(self).show_done), final(self).last_query@),
            final(self).last_query@.len() == 0 ==> final(self).search_indexes == old(self).search_indexes,
    {
        if let Some(q) = query {
            self.last_query = q;
        }
        if self.last_query.as_str().unicode_len() == 0 {
            return;
        }
        let found = if self.show_done {
            proof {
                lemma_restricted_all(self.spec_current().undone@ + self.spec_current().done@);
            }
            matching_indices(self.current_list(), self.last_query.as_str(), Restriction::All)
        } else {
            matching_todos(&self.current_list().undone, self.last_query.as_str())
        };
        self.search_indexes = found;
    }

    /// Moves the cursor to the first match after it, else to the first match.
    pub fn search_next_index(&mut self)
        ensures
            old(self).search_indexes@.len() == 0 ==> *final(self) == *old(self),
            old(self).search_indexes@.len() > 0 ==> *final(self) == (App {
                index: ({
                    let s = old(self).search_indexes@;
                    let g = first_greater(s, old(self).index, 0);
                    if g < s.len() { s[g] } else { s[0] }
                }),
                ..*old(self)
            }),
    {
        if self.search_indexes.len() == 0 {
            return;
        }
        let mut i: usize = 0;
        while i < self.search_indexes.len()
            invariant
                i <= self.search_indexes@.len(),
                self.search_indexes == old(self).search_indexes,
                self.index == old(self).index,
                *self == *old(self),
                first_greater(self.search_indexes@, self.index, i as int)
                    == first_greater(self.search_indexes@, self.index, 0),
            decreases self.search_indexes@.len() - i,
        {
            if self.search_indexes[i] > self.index {
                self.index = self.search_indexes[i];
                return;
            }
            i = i + 1;
        }
        self.index = self.search_indexes[0];
    }

    /// Moves the cursor to the next match, from the last back to the first.
    pub fn search_next(&mut self)
        ensures
            old(self).search_indexes@.len() == 0 ==> *final(self) == *old(self),
            old(self).search_indexes@.len() > 0 ==> ({
                let n = if old(self).search_index + 1 < old(self).search_indexes@.len() { old(self).search_index + 1 } else { 0 };
                *final(self) == (App { search_index: n as usize, index: old(self).search_indexes@[n], ..*old(self) })
            }),
    {
        if self.search_indexes.len() == 0 {
            return;
        }
        if self.search_index < self.search_indexes.len() - 1 {
            self.search_index = self.search_index + 1;
        } else {
            self.search_index = 0;
        }
        self.index = self.search_indexes[self.search_index];
    }

    /// Moves the cursor to the previous match, from the first round to the last.
    pub fn search_prev(&mut self)
        ensures
            old(self).search_indexes@.len() == 0 ==> *final(self) == *old(self),
            old(self).search_indexes@.len() > 0 ==> ({
                let len = old(self).search_indexes@.len();
                let n = if old(self).search_index != 0 && old(self).search_index <= len { old(self).search_index - 1 } else { len - 1 };
                *final(self) == (App { search_index: n as usize, index: old(self).search_indexes@[n], ..*old(self) })
            }),
    {
        let len = self.search_indexes.len();
        if len == 0 {
            return;
        }
        if self.search_index != 0 && self.search_index <= len {
            self.search_index = self.search_index - 1;
        } else {
            self.search_index = len - 1;
        }
        self.index = self.search_indexes[self.search_index];
    }

    /// The message of the todo under the cursor.
    pub fn get_message(&self) -> (r: Option<String>)
        requires
            self.wf(),
        ensures
            self.spec_len() == 0 <==> r is None,
            r is Some ==> r->Some_0@
                == (self.spec_current().undone@ + self.spec_current().done@)[self.spec_clamped()].message@,
    {
        match self.todo() {
            Some(t) => Some(t.message.clone()),
            None => None,
        }
    }

    /// The todo whose nested list is shown, `None` at the top.
    pub fn parent(&self) -> (r: Option<&Todo>)
        requires
            self.wf(),
        ensures
            self.prior_indexes@.len() == 0 <==> r is None,
            r is Some ==> ({
                let path = self.prior_indexes@;
                let above = list_at(self.todo_list, path.drop_last(), Restriction::All)->Some_0;
                *r->Some_0 == (above.undone@ + above.done@)[path.last() as int]
            }),
    {
        let ghost root = self.todo_list;
        let ghost path = self.prior_indexes@;
        let n = self.prior_indexes.len();
        if n == 0 {
            return None;
        }
        let mut list: &TodoList = &self.todo_list;
        let mut i: usize = 0;
        proof {
            assert(path.take(0) =~= Seq::<usize>::empty());
        }
        while i < n - 1
            invariant
                n == path.len(),
                i <= n - 1,
                path == self.prior_indexes@,
                root == self.todo_list,
                list_at(root, path, Restriction::All) is Some,
                list_at(root, path.take(i as int), Restriction::All) == Some(*list),
            decreases n - 1 - i,
        {
            let k = self.prior_indexes[i];
            proof {
                assert(path.take(i + 1) =~= path.take(i as int).push(k));
                lemma_list_at_prefix(root, path, i + 1);
                lemma_list_at_push(root, path.take(i as int), k, Restriction::All);
                lemma_restricted_all(list.undone@ + list.done@);
            }
            let t = todo_at(list, k);
            match &t.dependency {
                Dependency::List(sub) => {
                    list = sub;
                },
                _ => {
                    assert(false);
                    return None;
                },
            }
            i = i + 1;
        }
        let k = self.prior_indexes[n - 1];
        proof {
            assert(path.take(i as int) =~= path.drop_last());
            assert(path.drop_last().push(k) =~= path);
            lemma_list_at_push(root, path.drop_last(), k, Restriction::All);
            lemma_restricted_all(list.undone@ + list.done@);
        }
        Some(todo_at(list, k))
    }
}

} // verus!
