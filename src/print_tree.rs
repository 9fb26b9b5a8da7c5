use vstd::prelude::*;
use crate::text::push_char;
use crate::todo::{Dependency, Todo};
use crate::todo_list::{Restriction, TodoList};
use crate::tree_search::{admitted_count, enumerate};
use crate::persist::views;
use vstd::string::StringExecFns;

verus! {

broadcast use vstd::std_specs::vec::group_vec_axioms;

/// Draws a list and the lists nested in it as a tree of text lines.
pub struct PrintTodoTree {
    /// For each enclosing level, whether its guide line goes on below.
    pub last_stack: Vec<bool>,
    /// Set for a minimal tree: no guides at all.
    pub should_print_indention: bool,
    /// Whether the todo being drawn is the last of its list.
    pub is_last: bool,
    pub depth: usize,
}

/// The four characters drawn for one enclosing level.
pub open spec fn guide(go_on: bool) -> Seq<char> {
    if go_on { seq!['│', ' ', ' ', ' '] } else { seq![' ', ' ', ' ', ' '] }
}

/// The guides of all enclosing levels.
pub open spec fn guides(stack: Seq<bool>) -> Seq<char>
    decreases stack.len(),
{
    if stack.len() == 0 {
        Seq::empty()
    } else {
        guides(stack.drop_last()) + guide(stack.last())
    }
}

/// The guides and the branch drawn before a todo's text; nothing in a
/// minimal tree.
pub open spec fn indention(stack: Seq<bool>, is_last: bool, minimal: bool) -> Seq<char> {
    if minimal {
        Seq::empty()
    } else {
        guides(stack) + if is_last { seq!['└', '─', '─', ' '] } else { seq!['├', '─', '─', ' '] }
    }
}

/// The lines that draw the todos of `l` that `r` admits, with the guides of
/// `stack`, each followed by the lines of its nested list one level deeper
/// (none below the largest depth); nothing for a list whose size does not fit.
pub open spec fn printed_list(l: TodoList, stack: Seq<bool>, minimal: bool, r: Restriction, depth: nat) -> Seq<Seq<char>>
    decreases l, l.undone@.len() + l.done@.len() + 1,
{
    if l.undone@.len() + l.done@.len() <= usize::MAX {
        printed_todos(l, 0, 0, enumerate(l, r).len(), stack, minimal, r, depth)
    } else {
        Seq::empty()
    }
}

/// The lines that draw the todos of `l` from index `j` on (the undone ones,
/// then the done ones) that `r` admits, `idx` of them admitted before `j` and
/// `count` in all.
pub open spec fn printed_todos(
    l: TodoList,
    j: nat,
    idx: nat,
    count: nat,
    stack: Seq<bool>,
    minimal: bool,
    r: Restriction,
    depth: nat,
) -> Seq<Seq<char>>
    decreases l, (l.undone@.len() + l.done@.len()) - j,
{
    if j >= l.undone@.len() + l.done@.len() {
        Seq::empty()
    } else {
        let t = if j < l.undone@.len() { l.undone[j as int] } else { l.done[j - l.undone@.len()] };
        if r.spec_admits(t) {
            let last = idx + 1 == count;
            seq![line_prefix(stack, last, minimal) + t.spec_display()]
                + (if t.dependency is List && depth < usize::MAX {
                    printed_list(t.dependency->List_0, stack.push(!last && stack.len() > 0), minimal, r, depth + 1)
                } else {
                    Seq::empty()
                })
                + printed_todos(l, j + 1, idx + 1, count, stack, minimal, r, depth)
        } else {
            printed_todos(l, j + 1, idx, count, stack, minimal, r, depth)
        }
    }
}

/// What stands before a todo's text: nothing at the top level, else its
/// indention.
#[verifier::opaque]
pub open spec fn line_prefix(stack: Seq<bool>, is_last: bool, minimal: bool) -> Seq<char> {
    if stack.len() > 0 { indention(stack, is_last, minimal) } else { Seq::empty() }
}

impl PrintTodoTree {
    pub fn new(should_print_indention: bool) -> (r: PrintTodoTree)
        ensures
            r.last_stack@.len() == 0,
            r.should_print_indention == should_print_indention,
            !r.is_last,
            r.depth == 0,
    {
        PrintTodoTree { last_stack: Vec::new(), should_print_indention, is_last: false, depth: 0 }
    }

    /// The drawer for a list nested under the current todo: one level deeper,
    /// its guide going on when `what_to_push` holds and the todo is not last.
    pub fn tree_child(&self, what_to_push: bool) -> (r: PrintTodoTree)
        requires
            self.depth < usize::MAX,
        ensures
            r.last_stack@ == self.last_stack@.push(!self.is_last && what_to_push),
            r.should_print_indention == self.should_print_indention,
            r.is_last == self.is_last,
            r.depth == self.depth + 1,
    {
        let mut last_stack = self.last_stack.clone();
        assert(last_stack@ =~= self.last_stack@);
        last_stack.push(!self.is_last && what_to_push);
        PrintTodoTree {
            last_stack,
            should_print_indention: self.should_print_indention,
            is_last: self.is_last,
            depth: self.depth + 1,
        }
    }

    /// The text before the current todo.
    fn print_indention(&self) -> (r: String)
        ensures
            r@ == indention(self.last_stack@, self.is_last, self.should_print_indention),
    {
        let mut out = String::new();
        if self.should_print_indention {
            return out;
        }
        let mut i: usize = 0;
        while i < self.last_stack.len()
            invariant
                i <= self.last_stack@.len(),
                out@ == guides(self.last_stack@.take(i as int)),
            decreases self.last_stack@.len() - i,
        {
            assert(self.last_stack@.take(i + 1).drop_last() =~= self.last_stack@.take(i as int));
            if self.last_stack[i] {
                push_char(&mut out, '│');
            } else {
                push_char(&mut out, ' ');
            }
            push_char(&mut out, ' ');
            push_char(&mut out, ' ');
            push_char(&mut out, ' ');
            i = i + 1;
            assert(out@ =~= guides(self.last_stack@.take(i as int)));
        }
        assert(self.last_stack@.take(i as int) =~= self.last_stack@);
        push_char(&mut out, if self.is_last { '└' } else { '├' });
        push_char(&mut out, '─');
        push_char(&mut out, '─');
        push_char(&mut out, ' ');
        assert(out@ =~= indention(self.last_stack@, self.is_last, self.should_print_indention));
        out
    }

    /// The lines that draw the todos of `todo_list` that `restriction`
    /// admits, each followed by the lines of its nested list.
    #[verifier::rlimit(80)]
    pub fn print_list(&mut self, todo_list: &TodoList, restriction: Restriction) -> (r: Vec<String>)
        ensures
            final(self).last_stack@ == old(self).last_stack@,
            final(self).depth == old(self).depth,
            final(self).should_print_indention == old(self).should_print_indention,
            views(r@) == printed_list(*todo_list, old(self).last_stack@, old(self).should_print_indention,
                restriction, old(self).depth as nat),
        decreases *todo_list,
    {
        let mut lines: Vec<String> = Vec::new();
        let ghost stack = self.last_stack@;
        let ghost minimal = self.should_print_indention;
        let ghost depth = self.depth as nat;
        if todo_list.undone.len() > usize::MAX - todo_list.done.len() {
            assert(views(lines@) =~= Seq::<Seq<char>>::empty());
            return lines;
        }
        let ghost all = todo_list.undone@ + todo_list.done@;
        let count = admitted_count(todo_list, restriction);
        let ulen = todo_list.undone.len();
        let total = ulen + todo_list.done.len();
        let mut index: usize = 0;
        let mut j: usize = 0;
        assert(views(lines@) + printed_todos(*todo_list, 0, 0, count as nat, stack, minimal, restriction, depth)
            =~= printed_list(*todo_list, stack, minimal, restriction, depth));
        while j < total
            invariant
                total == all.len(),
                ulen == todo_list.undone@.len(),
                all == todo_list.undone@ + todo_list.done@,
                count as int == enumerate(*todo_list, restriction).len(),
                j <= total,
                index <= j,
                self.last_stack@ == stack,
                self.depth == depth,
                self.should_print_indention == minimal,
                views(lines@) + printed_todos(*todo_list, j as nat, index as nat, count as nat, stack, minimal, restriction, depth)
                    == printed_list(*todo_list, stack, minimal, restriction, depth),
            decreases total - j,
        {
            let ghost before = lines@;
            let ghost rest = printed_todos(*todo_list, (j + 1) as nat, (index + 1) as nat, count as nat, stack, minimal, restriction, depth);
            let t: &Todo = if j < ulen {
                &todo_list.undone[j]
            } else {
                &todo_list.done[j - ulen]
            };
            if restriction.admits(t) {
                self.is_last = index + 1 == count;
                let mut line = if self.last_stack.len() > 0 {
                    self.print_indention()
                } else {
                    String::new()
                };
                line.append(t.display().as_str());
                assert(line@ == line_prefix(stack, self.is_last, minimal) + t.spec_display()) by {
                    reveal(line_prefix);
                }
                lines.push(line);
                assert(views(lines@) =~= views(before).push(line@));
                let ghost mid = lines@;
                let ghost extra = if t.dependency is List && depth < usize::MAX {
                    printed_list(t.dependency->List_0, stack.push(!self.is_last && stack.len() > 0), minimal, restriction, depth + 1)
                } else {
                    Seq::empty()
                };
                if let Dependency::List(sub) = &t.dependency {
                    if self.depth < usize::MAX {
                        let what_to_push = self.last_stack.len() > 0;
                        let mut child = self.tree_child(what_to_push);
                        let mut sub_lines = child.print_list(sub, restriction);
                        let ghost sub_seq = sub_lines@;
                        lines.append(&mut sub_lines);
                        assert(views(lines@) =~= views(mid) + views(sub_seq));
                    }
                }
                assert(views(lines@) == views(mid) + extra);
                assert(printed_todos(*todo_list, j as nat, index as nat, count as nat, stack, minimal, restriction, depth)
                    == seq![line_prefix(stack, self.is_last, minimal)
                        + t.spec_display()] + extra + rest);
                assert(views(lines@) + rest =~= views(before)
                    + printed_todos(*todo_list, j as nat, index as nat, count as nat, stack, minimal, restriction, depth));
                index = index + 1;
            }
            j = j + 1;
        }
        lines
    }
}

} // verus!
