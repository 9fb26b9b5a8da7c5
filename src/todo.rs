use vstd::prelude::*;
use crate::todo_list::TodoList;
use crate::text::{is_substring, lower_of, matches_ignoring_case, push_char};
use crate::codec::{digit_char, digit_of};
use vstd::string::StringExecFns;

verus! {

/// The largest priority a todo can carry.
pub const MAX_PRIORITY: i8 = 9;

/// What a todo carries besides its own fields: nothing, a note stored
/// elsewhere under a hash, or a nested list of todos.
pub enum Dependency {
    Empty,
    Note(String),
    List(TodoList),
}

/// Why an operation on a todo's dependency did not take place.
#[derive(PartialEq, Eq, Structural, Clone, Copy, Debug)]
pub enum TodoError {
    /// A note was asked for while a list is attached, or the other way round.
    DependencyConflict,
    /// The todo has no note.
    NoNote,
}

/// One task.
pub struct Todo {
    pub message: String,
    pub done: bool,
    pub priority: i8,
    pub daily: bool,
    pub dependency: Dependency,
}

/// A priority clamped to the range `0..=MAX_PRIORITY`.
pub open spec fn clamp_priority(p: int) -> int {
    if p < 0 {
        0
    } else if p > MAX_PRIORITY as int {
        MAX_PRIORITY as int
    } else {
        p
    }
}

impl Todo {
    /// A priority in range.
    pub open spec fn wf(&self) -> bool {
        0 <= self.priority <= MAX_PRIORITY
    }

    /// A new undone, non-daily todo without dependency; the priority is clamped.
    pub fn new(message: String, priority: i8) -> (r: Todo)
        ensures
            r.message == message,
            !r.done,
            !r.daily,
            r.priority as int == clamp_priority(priority as int),
            r.dependency is Empty,
            r.wf(),
    {
        let p: i8 = if priority < 0 {
            0
        } else if priority > MAX_PRIORITY {
            MAX_PRIORITY
        } else {
            priority
        };
        Todo { message, done: false, priority: p, daily: false, dependency: Dependency::Empty }
    }

    pub fn toggle_done(&mut self)
        ensures
            final(self).done == !old(self).done,
            final(self).message == old(self).message,
            final(self).priority == old(self).priority,
            final(self).daily == old(self).daily,
            final(self).dependency == old(self).dependency,
    {
        self.done = !self.done;
    }

    pub fn set_done(&mut self, done: bool)
        ensures
            *final(self) == (Todo { done, ..*old(self) }),
    {
        self.done = done;
    }

    pub fn toggle_daily(&mut self)
        ensures
            *final(self) == (Todo { daily: !old(self).daily, ..*old(self) }),
    {
        self.daily = !self.daily;
    }

    pub fn set_message(&mut self, message: String)
        ensures
            *final(self) == (Todo { message, ..*old(self) }),
    {
        self.message = message;
    }

    /// Sets the priority, clamped to `0..=MAX_PRIORITY`.
    pub fn set_priority(&mut self, priority: i8)
        ensures
            final(self).priority as int == clamp_priority(priority as int),
            *final(self) == (Todo { priority: final(self).priority, ..*old(self) }),
    {
        self.priority = if priority < 0 {
            0
        } else if priority > MAX_PRIORITY {
            MAX_PRIORITY
        } else {
            priority
        };
    }

    /// Raises the priority by one step; nothing changes at the top.
    pub fn increase_priority(&mut self)
        ensures
            final(self).priority as int == clamp_priority(old(self).priority + 1),
            *final(self) == (Todo { priority: final(self).priority, ..*old(self) }),
    {
        if self.priority < MAX_PRIORITY {
            self.priority = if self.priority < 0 { 0 } else { self.priority + 1 };
        } else {
            self.priority = MAX_PRIORITY;
        }
    }

    /// Lowers the priority by one step; nothing changes at the bottom.
    pub fn decrease_priority(&mut self)
        ensures
            final(self).priority as int == clamp_priority(old(self).priority - 1),
            *final(self) == (Todo { priority: final(self).priority, ..*old(self) }),
    {
        if self.priority > 0 {
            self.priority = if self.priority > MAX_PRIORITY { MAX_PRIORITY } else { self.priority - 1 };
        } else {
            self.priority = 0;
        }
    }

    pub fn has_dependency(&self) -> (r: bool)
        ensures
            r == self.dependency is List,
    {
        match &self.dependency {
            Dependency::List(_) => true,
            _ => false,
        }
    }

    pub fn has_note(&self) -> (r: bool)
        ensures
            r == self.dependency is Note,
    {
        match &self.dependency {
            Dependency::Note(_) => true,
            _ => false,
        }
    }

    /// Attaches an empty nested list. A list already attached is kept as it is;
    /// a note makes this fail.
    pub fn add_dependency(&mut self) -> (r: Result<(), TodoError>)
        ensures
            old(self).dependency is Note <==> r == Err::<(), TodoError>(TodoError::DependencyConflict),
            old(self).dependency is Note || old(self).dependency is List ==> *final(self) == *old(self),
            old(self).dependency is Empty ==> final(self).dependency is List
                && final(self).dependency->List_0.undone@.len() == 0
                && final(self).dependency->List_0.done@.len() == 0
                && *final(self) == (Todo { dependency: final(self).dependency, ..*old(self) }),
            r is Ok <==> !(old(self).dependency is Note),
    {
        match &self.dependency {
            Dependency::Note(_) => Err(TodoError::DependencyConflict),
            Dependency::List(_) => Ok(()),
            Dependency::Empty => {
                self.dependency = Dependency::List(TodoList::new());
                Ok(())
            },
        }
    }

    /// Attaches the note stored under `hash`, replacing an earlier note; a
    /// nested list makes this fail.
    pub fn add_note(&mut self, hash: String) -> (r: Result<(), TodoError>)
        ensures
            old(self).dependency is List ==> r == Err::<(), TodoError>(TodoError::DependencyConflict)
                && *final(self) == *old(self),
            !(old(self).dependency is List) ==> r is Ok
                && *final(self) == (Todo { dependency: Dependency::Note(hash), ..*old(self) }),
    {
        match &self.dependency {
            Dependency::List(_) => Err(TodoError::DependencyConflict),
            _ => {
                self.dependency = Dependency::Note(hash);
                Ok(())
            },
        }
    }

    /// The hash of the note to edit, or `NoNote`.
    pub fn edit_note(&self) -> (r: Result<String, TodoError>)
        ensures
            self.dependency is Note ==> r is Ok && r->Ok_0@ == self.dependency->Note_0@,
            !(self.dependency is Note) ==> r == Err::<String, TodoError>(TodoError::NoNote),
    {
        match &self.dependency {
            Dependency::Note(hash) => Ok(hash.clone()),
            _ => Err(TodoError::NoNote),
        }
    }

    /// Drops a nested list, if there is one.
    pub fn remove_dependency(&mut self)
        ensures
            old(self).dependency is List ==> *final(self) == (Todo { dependency: Dependency::Empty, ..*old(self) }),
            !(old(self).dependency is List) ==> *final(self) == *old(self),
    {
        if self.has_dependency() {
            self.dependency = Dependency::Empty;
        }
    }

    /// Drops a note, if there is one.
    pub fn remove_note(&mut self)
        ensures
            old(self).dependency is Note ==> *final(self) == (Todo { dependency: Dependency::Empty, ..*old(self) }),
            !(old(self).dependency is Note) ==> *final(self) == *old(self),
    {
        if self.has_note() {
            self.dependency = Dependency::Empty;
        }
    }

    /// Whether `query` occurs in the message, ignoring case.
    pub fn matches(&self, query: &str) -> (r: bool)
        ensures
            r == self.spec_matches(query@),
    {
        matches_ignoring_case(query, self.message.as_str())
    }

    /// How a todo is shown: `[x] ` or `[ ] `, the priority and a dot, the
    /// message, and ` *` for a daily todo.
    pub open spec fn spec_display(&self) -> Seq<char> {
        seq!['[', if self.done { 'x' } else { ' ' }, ']', ' ', digit_char(clamp_priority(self.priority as int)), '.', ' ']
            + self.message@ + if self.daily { seq![' ', '*'] } else { Seq::empty() }
    }

    pub fn display(&self) -> (r: String)
        ensures
            r@ == self.spec_display(),
    {
        let mut out = String::new();
        let p: i8 = if self.priority < 0 {
            0
        } else if self.priority > MAX_PRIORITY {
            MAX_PRIORITY
        } else {
            self.priority
        };
        push_char(&mut out, '[');
        push_char(&mut out, if self.done { 'x' } else { ' ' });
        push_char(&mut out, ']');
        push_char(&mut out, ' ');
        push_char(&mut out, digit_of(p));
        push_char(&mut out, '.');
        push_char(&mut out, ' ');
        out.append(self.message.as_str());
        if self.daily {
            push_char(&mut out, ' ');
            push_char(&mut out, '*');
        }
        assert(out@ =~= self.spec_display());
        out
    }

    pub open spec fn spec_matches(&self, query: Seq<char>) -> bool {
        is_substring(lower_of(query), lower_of(self.message@))
    }
}

} // verus!
