use c3::todo::{Dependency, Todo, TodoError};
use c3::todo_list::TodoList;

fn todo(message: &str, priority: i8) -> Todo {
    Todo::new(message.to_string(), priority)
}

fn messages(list: &[Todo]) -> Vec<String> {
    list.iter().map(|t| t.message.clone()).collect()
}

#[test]
fn fix_undone_then_fix_done_partitions() {
    let mut list = TodoList::new();
    list.push(todo("a", 3));
    list.push(todo("b", 2));
    list.push(todo("c", 1));
    list.undone[1].toggle_done();
    let mut back = todo("d", 2);
    back.done = false;
    list.done.push(back);
    list.fix_undone();
    list.fix_done();
    assert!(list.undone.iter().all(|t| !t.done));
    assert!(list.done.iter().all(|t| t.done));
    assert_eq!(messages(&list.undone), vec!["a", "d", "c"]);
    assert_eq!(messages(&list.done), vec!["b"]);
}

#[test]
fn fix_undone_keeps_completion_order() {
    let mut list = TodoList::new();
    list.push(todo("a", 1));
    list.push(todo("b", 1));
    list.push(todo("c", 1));
    list.undone[2].set_done(true);
    list.undone[0].set_done(true);
    list.fix_undone();
    assert_eq!(messages(&list.undone), vec!["b"]);
    assert_eq!(messages(&list.done), vec!["a", "c"]);
}

#[test]
fn reorder_raised_todo_lands_after_its_band() {
    let mut list = TodoList::new();
    list.push(todo("a", 5));
    list.push(todo("b", 5));
    list.push(todo("c", 2));
    list.undone[2].set_priority(5);
    let index = list.reorder(2);
    assert_eq!(index, 2);
    assert_eq!(messages(&list.undone), vec!["a", "b", "c"]);
    assert!(list.undone.iter().all(|t| t.priority == 5));
}

#[test]
fn reorder_moves_up_past_lower_priorities() {
    let mut list = TodoList::new();
    list.push(todo("a", 7));
    list.push(todo("b", 5));
    list.push(todo("c", 3));
    list.push(todo("d", 1));
    list.undone[3].set_priority(5);
    let index = list.reorder(3);
    assert_eq!(index, 2);
    assert_eq!(messages(&list.undone), vec!["a", "b", "d", "c"]);
}

#[test]
fn reorder_moves_down_before_equal_priorities() {
    let mut list = TodoList::new();
    list.push(todo("a", 7));
    list.push(todo("b", 5));
    list.push(todo("c", 3));
    list.push(todo("d", 3));
    list.undone[0].set_priority(3);
    let index = list.reorder(0);
    assert_eq!(index, 1);
    assert_eq!(messages(&list.undone), vec!["b", "a", "c", "d"]);
}

#[test]
fn reorder_after_each_priority_change_keeps_order() {
    let mut list = TodoList::new();
    for (i, p) in [9, 6, 6, 4, 2, 0].iter().enumerate() {
        list.push(todo(&format!("t{i}"), *p));
    }
    let changes: [(usize, i8); 5] = [(5, 6), (0, 1), (3, 9), (2, 2), (4, 7)];
    for (index, priority) in changes {
        list.undone[index].set_priority(priority);
        let new_index = list.reorder(index);
        assert_eq!(list.undone[new_index].priority, priority);
        for w in list.undone.windows(2) {
            assert!(w[0].priority >= w[1].priority);
        }
    }
}

#[test]
fn add_inserts_after_equal_priorities() {
    let mut list = TodoList::new();
    list.add(todo("a", 5));
    list.add(todo("b", 2));
    list.add(todo("c", 5));
    list.add(todo("d", 9));
    assert_eq!(messages(&list.undone), vec!["d", "a", "c", "b"]);
}

#[test]
fn push_and_prepend_ignore_priority() {
    let mut list = TodoList::new();
    list.push(todo("a", 1));
    list.push(todo("b", 9));
    list.prepend(todo("c", 0));
    assert_eq!(messages(&list.undone), vec!["c", "a", "b"]);
    assert_eq!(list.len(), 3);
    assert!(!list.is_empty());
}

#[test]
fn priority_is_clamped() {
    let mut t = todo("a", 12);
    assert_eq!(t.priority, 9);
    t.increase_priority();
    assert_eq!(t.priority, 9);
    t.set_priority(-3);
    assert_eq!(t.priority, 0);
    t.decrease_priority();
    assert_eq!(t.priority, 0);
    t.increase_priority();
    assert_eq!(t.priority, 1);
    t.set_priority(4);
    t.decrease_priority();
    assert_eq!(t.priority, 3);
}

#[test]
fn note_and_list_exclude_each_other() {
    let mut t = todo("a", 1);
    assert_eq!(t.edit_note(), Err(TodoError::NoNote));
    assert_eq!(t.add_note("abc".to_string()), Ok(()));
    assert_eq!(t.edit_note(), Ok("abc".to_string()));
    assert_eq!(t.add_dependency(), Err(TodoError::DependencyConflict));
    assert!(t.has_note());
    t.remove_dependency();
    assert!(t.has_note());
    t.remove_note();
    assert!(!t.has_note());
    assert_eq!(t.add_dependency(), Ok(()));
    assert!(t.has_dependency());
    assert_eq!(t.add_note("x".to_string()), Err(TodoError::DependencyConflict));
    t.remove_note();
    assert!(t.has_dependency());
    t.remove_dependency();
    assert!(matches!(t.dependency, Dependency::Empty));
}

#[test]
fn add_dependency_keeps_existing_list() {
    let mut t = todo("a", 1);
    t.add_dependency().unwrap();
    if let Dependency::List(sub) = &mut t.dependency {
        sub.push(todo("child", 1));
    }
    t.add_dependency().unwrap();
    match &t.dependency {
        Dependency::List(sub) => assert_eq!(sub.undone.len(), 1),
        _ => panic!("list expected"),
    }
}

#[test]
fn matches_ignores_case() {
    let t = todo("Buy MILK today", 1);
    assert!(t.matches("milk"));
    assert!(t.matches("BUY m"));
    assert!(!t.matches("bread"));
    assert!(t.matches(""));
}

#[test]
fn display_shows_flags_and_priority() {
    let mut t = todo("water plants", 3);
    assert_eq!(t.display(), "[ ] 3. water plants");
    t.toggle_done();
    t.toggle_daily();
    assert_eq!(t.display(), "[x] 3. water plants *");
}

fn parent_with_child(child_done: bool) -> TodoList {
    let mut root = TodoList::new();
    let mut parent = todo("parent", 5);
    parent.add_dependency().unwrap();
    if let Dependency::List(sub) = &mut parent.dependency {
        let mut child = todo("child", 1);
        child.set_done(child_done);
        if child_done {
            sub.done.push(child);
        } else {
            sub.push(child);
        }
    }
    root.push(parent);
    root.push(todo("other", 1));
    root
}

#[test]
fn completing_last_child_completes_parent() {
    let mut root = parent_with_child(false);
    let only_done = root.toggle_done_at(&vec![0], 0, false);
    assert!(!only_done);
    assert_eq!(messages(&root.undone), vec!["other"]);
    assert_eq!(messages(&root.done), vec!["parent"]);
    assert!(root.done[0].done);
    match &root.done[0].dependency {
        Dependency::List(sub) => {
            assert!(sub.undone.is_empty());
            assert_eq!(messages(&sub.done), vec!["child"]);
            assert!(sub.done.iter().all(|t| t.done));
        }
        _ => panic!("list expected"),
    }
    assert!(root.undone.iter().all(|t| !t.done));
    assert!(root.done.iter().all(|t| t.done));
}

#[test]
fn completion_cascades_up_to_the_root() {
    let mut root = parent_with_child(false);
    root.undone.remove(1);
    let only_done = root.toggle_done_at(&vec![0], 0, true);
    assert!(only_done);
    assert!(root.undone.is_empty());
    assert_eq!(messages(&root.done), vec!["parent"]);
}

#[test]
fn toggling_back_with_done_shown_restores_undone() {
    let mut root = TodoList::new();
    root.push(todo("a", 4));
    root.push(todo("b", 2));
    root.toggle_done_at(&vec![], 0, true);
    assert_eq!(messages(&root.undone), vec!["b"]);
    assert_eq!(messages(&root.done), vec!["a"]);
    root.toggle_done_at(&vec![], 1, true);
    assert_eq!(messages(&root.undone), vec!["a", "b"]);
    assert!(root.done.is_empty());
}

#[test]
fn toggle_with_bad_path_changes_nothing() {
    let mut root = parent_with_child(false);
    root.toggle_done_at(&vec![7], 0, false);
    assert_eq!(messages(&root.undone), vec!["parent", "other"]);
    assert!(root.done.is_empty());
}
