use vstd::prelude::*;
use crate::todo::{clamp_priority, Dependency, Todo};
use crate::app::lemma_restricted_all;
use crate::tree_search::list_at;
use crate::todo_list::{Restriction, first_lower, insert_ordered, lemma_insert_ordered_sorted, lemma_reorder_sorted, reorder_target, reordered, sorted, TodoList};

verus! {

/// A change to one list of a tree, made through a path by `TodoList::edit_at`.
pub enum ListEdit {
    SetPriority(i8),
    IncreasePriority,
    DecreasePriority,
    ToggleDaily,
    SetMessage(String),
    AddDependency,
    AddNote(String),
    RemoveDependency,
    Remove,
    Add(Todo),
    Push(Todo),
    Prepend(Todo),
}

/// A change of priority, after which the todo is moved to its place.
pub open spec fn moves(edit: ListEdit) -> bool {
    edit is SetPriority || edit is IncreasePriority || edit is DecreasePriority
}

/// `n` is what the change `edit` makes of the todo `t`.
pub open spec fn changed_todo(t: Todo, edit: ListEdit, n: Todo) -> bool {
    match edit {
        ListEdit::SetPriority(p) => n == (Todo { priority: clamp_priority(p as int) as i8, ..t }),
        ListEdit::IncreasePriority => n == (Todo { priority: clamp_priority(t.priority + 1) as i8, ..t }),
        ListEdit::DecreasePriority => n == (Todo { priority: clamp_priority(t.priority - 1) as i8, ..t }),
        ListEdit::ToggleDaily => n == (Todo { daily: !t.daily, ..t }),
        ListEdit::SetMessage(m) => n == (Todo { message: m, ..t }),
        ListEdit::AddDependency => if t.dependency is Empty {
            n.dependency is List && n.dependency->List_0.undone@.len() == 0
                && n.dependency->List_0.done@.len() == 0 && n == (Todo { dependency: n.dependency, ..t })
        } else {
            n == t
        },
        ListEdit::AddNote(h) => if t.dependency is List { n == t } else { n == (Todo { dependency: Dependency::Note(h), ..t }) },
        ListEdit::RemoveDependency => n == (Todo { dependency: Dependency::Empty, ..t }),
        _ => n == t,
    }
}

/// `(nu, nd)` are the undone and done todos of a list `(u, d)` after the
/// change `edit` of the todo at `index` of `u` followed by `d`, and `r` is
/// where the cursor goes: a todo whose priority changed is moved to its place
/// in `undone`; an index past the end changes nothing.
pub open spec fn edit_holds(
    u: Seq<Todo>,
    d: Seq<Todo>,
    index: int,
    edit: ListEdit,
    nu: Seq<Todo>,
    nd: Seq<Todo>,
    r: int,
) -> bool {
    match edit {
        ListEdit::Remove => r == index && if index < u.len() {
            nu == u.remove(index) && nd == d
        } else if index < u.len() + d.len() {
            nu == u && nd == d.remove(index - u.len())
        } else {
            nu == u && nd == d
        },
        ListEdit::Add(t) => nu == insert_ordered(u, t) && nd == d && r == first_lower(u, t.priority, 0),
        ListEdit::Push(t) => nu == u.push(t) && nd == d && r == u.len(),
        ListEdit::Prepend(t) => nu == u.insert(0, t) && nd == d && r == 0,
        _ => if index < u.len() {
            exists|n: Todo| #[trigger] changed_todo(u[index], edit, n) && nd == d && if moves(edit) {
                nu == reordered(u.update(index, n), index) && r == reorder_target(u.update(index, n), index)
            } else {
                nu == u.update(index, n) && r == index
            }
        } else if index < u.len() + d.len() {
            exists|n: Todo| #[trigger] changed_todo(d[index - u.len()], edit, n)
                && nu == u && nd == d.update(index - u.len(), n) && r == index
        } else {
            nu == u && nd == d && r == index
        },
    }
}

/// Whatever change of priority is made to an undone todo, and whatever
/// todo is added by priority, the priorities of `undone` never rise after
/// it if they never rose before; the todos whose priority did not change
/// keep their order.
pub proof fn lemma_edit_keeps_sorted(
    u: Seq<Todo>,
    d: Seq<Todo>,
    index: int,
    edit: ListEdit,
    nu: Seq<Todo>,
    nd: Seq<Todo>,
    r: int,
)
    requires
        sorted(u),
        edit_holds(u, d, index, edit, nu, nd, r),
        moves(edit) || edit is Add,
        0 <= index,
    ensures
        sorted(nu),
        moves(edit) && index < u.len() ==> nu.remove(r) == u.remove(index),
{
    match edit {
        ListEdit::Add(t) => {
            lemma_insert_ordered_sorted(u, t);
        },
        _ => {
            if index < u.len() {
                let n = choose|n: Todo| #[trigger] changed_todo(u[index], edit, n) && nd == d
                    && nu == reordered(u.update(index, n), index) && r == reorder_target(u.update(index, n), index);
                let v = u.update(index, n);
                assert(v.remove(index) =~= u.remove(index));
                assert(sorted(u.remove(index))) by {
                    assert forall|i: int, j: int| 0 <= i < j < u.remove(index).len()
                        implies u.remove(index)[i].priority >= u.remove(index)[j].priority by {
                        let ii = if i < index { i } else { i + 1 };
                        let jj = if j < index { j } else { j + 1 };
                        assert(u.remove(index)[i] == u[ii]);
                        assert(u.remove(index)[j] == u[jj]);
                    }
                }
                lemma_reorder_sorted(v, index);
            }
        },
    }
}

/// Makes the change `edit` on one todo.
fn apply(t: &mut Todo, edit: ListEdit)
    requires
        !(edit is Remove || edit is Add || edit is Push || edit is Prepend),
    ensures
        changed_todo(*old(t), edit, *final(t)),
{
    match edit {
        ListEdit::SetPriority(p) => t.set_priority(p),
        ListEdit::IncreasePriority => t.increase_priority(),
        ListEdit::DecreasePriority => t.decrease_priority(),
        ListEdit::ToggleDaily => t.toggle_daily(),
        ListEdit::SetMessage(m) => t.set_message(m),
        ListEdit::AddDependency => {
            let _ = t.add_dependency();
        },
        ListEdit::AddNote(h) => {
            let _ = t.add_note(h);
        },
        ListEdit::RemoveDependency => {
            t.remove_dependency();
            t.remove_note();
        },
        _ => {},
    }
}

impl TodoList {
    /// Makes the change `edit` in this list; see `edit_holds`.
    pub fn edit_here(&mut self, index: usize, edit: ListEdit) -> (r: usize)
        ensures
            edit_holds(old(self).undone@, old(self).done@, index as int, edit,
                final(self).undone@, final(self).done@, r as int),
    {
        let ulen = self.undone.len();
        match edit {
            ListEdit::Remove => {
                if index < ulen {
                    self.undone.remove(index);
                } else if index - ulen < self.done.len() {
                    self.done.remove(index - ulen);
                }
                index
            },
            ListEdit::Add(t) => {
                let pos = crate::todo_list::find_first_lower(&self.undone, t.priority, 0);
                self.add(t);
                pos
            },
            ListEdit::Push(t) => {
                self.push(t);
                ulen
            },
            ListEdit::Prepend(t) => {
                self.prepend(t);
                0
            },
            _ => {
                let is_move = match &edit {
                    ListEdit::SetPriority(_) | ListEdit::IncreasePriority | ListEdit::DecreasePriority => true,
                    _ => false,
                };
                let ghost e = edit;
                if index < ulen {
                    apply(&mut self.undone[index], edit);
                    let ghost n = self.undone@[index as int];
                    assert(changed_todo(old(self).undone@[index as int], e, n));
                    assert(self.undone@ == old(self).undone@.update(index as int, n));
                    if is_move {
                        self.reorder(index)
                    } else {
                        index
                    }
                } else if index - ulen < self.done.len() {
                    apply(&mut self.done[index - ulen], edit);
                    let ghost n = self.done@[index - ulen];
                    assert(changed_todo(old(self).done@[index - ulen], e, n));
                    index
                } else {
                    index
                }
            },
        }
    }

    /// Makes the change `edit` in the list that `path` names (each step an
    /// index into the undone todos followed by the done ones); a path that
    /// names no list leaves the sizes of this list as they are. Returns where
    /// the cursor goes.
    pub fn edit_at(&mut self, path: &Vec<usize>, index: usize, edit: ListEdit) -> (r: usize)
        ensures
            list_at(*old(self), path@, Restriction::All) is Some ==> ({
                let before = list_at(*old(self), path@, Restriction::All)->Some_0;
                &&& list_at(*final(self), path@, Restriction::All) is Some
                &&& edit_holds(before.undone@, before.done@, index as int, edit,
                    list_at(*final(self), path@, Restriction::All)->Some_0.undone@,
                    list_at(*final(self), path@, Restriction::All)->Some_0.done@, r as int)
            }),
            path@.len() > 0 ==> final(self).undone@.len() == old(self).undone@.len()
                && final(self).done@.len() == old(self).done@.len(),
    {
        assert(path@.skip(0) =~= path@);
        self.edit_from(path, 0, index, edit)
    }

    fn edit_from(&mut self, path: &Vec<usize>, from: usize, index: usize, edit: ListEdit) -> (r: usize)
        requires
            from <= path@.len(),
        ensures
            list_at(*old(self), path@.skip(from as int), Restriction::All) is Some ==> ({
                let q = path@.skip(from as int);
                let before = list_at(*old(self), q, Restriction::All)->Some_0;
                &&& list_at(*final(self), q, Restriction::All) is Some
                &&& edit_holds(before.undone@, before.done@, index as int, edit,
                    list_at(*final(self), q, Restriction::All)->Some_0.undone@,
                    list_at(*final(self), q, Restriction::All)->Some_0.done@, r as int)
            }),
            from < path@.len() ==> final(self).undone@.len() == old(self).undone@.len()
                && final(self).done@.len() == old(self).done@.len(),
        decreases path@.len() - from,
    {
        let ghost q = path@.skip(from as int);
        proof {
            lemma_restricted_all(self.undone@ + self.done@);
        }
        if from == path.len() {
            assert(q =~= Seq::<usize>::empty());
            return self.edit_here(index, edit);
        }
        let p = path[from];
        proof {
            assert(q[0] == p);
            assert(q.skip(1) =~= path@.skip(from + 1));
        }
        let ulen = self.undone.len();
        if p < ulen {
            let ghost t0 = self.undone@[p as int];
            if let Dependency::List(sub) = &mut self.undone[p].dependency {
                let r = sub.edit_from(path, from + 1, index, edit);
                proof {
                    lemma_restricted_all(self.undone@ + self.done@);
                    assert((self.undone@ + self.done@)[p as int] == self.undone@[p as int]);
                }
                return r;
            }
        } else if p - ulen < self.done.len() {
            if let Dependency::List(sub) = &mut self.done[p - ulen].dependency {
                let r = sub.edit_from(path, from + 1, index, edit);
                proof {
                    lemma_restricted_all(self.undone@ + self.done@);
                    assert((self.undone@ + self.done@)[p as int] == self.done@[p - ulen]);
                }
                return r;
            }
        }
        index
    }
}

} // verus!
