//! A hierarchical task list: todos with priorities, nested sub-lists and
//! notes, kept partitioned into undone and done items.
//!
//! - `todo`: one todo and its dependency (nothing, a note hash, a nested list).
//! - `todo_list`: the undone/done pair, its fixing and priority ordering.
//! - `edit`: changes to the list that a path names.
//! - `tree_search`: matches of a query over the whole tree, by tree path.
//! - `codec`: the one-line form of a todo, for the clipboard.
//! - `persist`: the stored lines of a whole tree.
//! - `print_tree`: a tree drawn as text lines.
//! - `app`: a cursor over the tree and the operations made through it.
//! - `text`: case-insensitive substring matching.
pub mod app;
pub mod codec;
pub mod edit;
pub mod persist;
pub mod print_tree;
pub mod text;
pub mod todo;
pub mod todo_list;
pub mod tree_search;
