use c3::app::App;
use c3::edit::ListEdit;
use c3::todo::{Dependency, Todo};
use c3::todo_list::TodoList;

fn messages(list: &[Todo]) -> Vec<String> {
    list.iter().map(|t| t.message.clone()).collect()
}

fn app_with(names: &[(&str, i8)]) -> App {
    let mut list = TodoList::new();
    for (name, p) in names {
        list.push(Todo::new(name.to_string(), *p));
    }
    App::new(list)
}

#[test]
fn cursor_wraps_both_ways() {
    let mut app = app_with(&[("a", 3), ("b", 2), ("c", 1)]);
    assert_eq!(app.len(), 3);
    app.decrement();
    assert_eq!(app.index, 2);
    app.increment();
    assert_eq!(app.index, 0);
    app.increment();
    assert_eq!(app.index, 1);
    app.go_bottom();
    assert_eq!(app.index, 2);
    assert_eq!(app.bottom(), 2);
    app.go_top();
    assert_eq!(app.index, 0);
    app.index = 10;
    app.fix_index();
    assert_eq!(app.index, 2);
    assert_eq!(app.todo().unwrap().message, "c");
}

#[test]
fn empty_app_has_no_todo() {
    let mut app = app_with(&[]);
    assert!(app.is_todos_empty());
    assert!(app.todo().is_none());
    assert!(app.get_message().is_none());
    app.increment();
    assert_eq!(app.index, 0);
    app.delete_todo();
    assert!(app.yank_todo().is_none());
    assert!(app.cut_todo().is_none());
}

#[test]
fn traverse_into_nested_list_and_back() {
    let mut app = app_with(&[("a", 3), ("b", 2)]);
    app.index = 1;
    app.add_dependency_traverse_down();
    assert_eq!(app.prior_indexes, vec![1]);
    assert_eq!(app.index, 0);
    assert!(app.is_todos_empty());
    assert_eq!(app.parent().unwrap().message, "b");
    app.on_prepend_todo("child".to_string());
    assert_eq!(messages(&app.current_list().undone), vec!["child"]);
    app.traverse_up();
    assert!(app.prior_indexes.is_empty());
    assert_eq!(app.index, 1);
    assert!(app.parent().is_none());
    match &app.todo_list.undone[1].dependency {
        Dependency::List(sub) => assert_eq!(messages(&sub.undone), vec!["child"]),
        _ => panic!("list expected"),
    }
}

#[test]
fn raising_priority_follows_the_todo() {
    let mut app = app_with(&[("a", 5), ("b", 5), ("c", 2)]);
    app.index = 2;
    app.set_current_priority(5);
    assert_eq!(app.index, 2);
    assert_eq!(messages(&app.todo_list.undone), vec!["a", "b", "c"]);
    app.set_current_priority(7);
    assert_eq!(app.index, 0);
    assert_eq!(messages(&app.todo_list.undone), vec!["c", "a", "b"]);
    app.decrease_current_priority();
    app.decrease_current_priority();
    assert_eq!(app.index, 0);
    assert_eq!(app.todo_list.undone[0].priority, 5);
    app.decrease_current_priority();
    assert_eq!(app.index, 2);
    assert_eq!(messages(&app.todo_list.undone), vec!["a", "b", "c"]);
    app.increase_current_priority();
    assert_eq!(app.index, 2);
}

#[test]
fn cut_and_paste_moves_a_todo() {
    let mut app = app_with(&[("a", 5), ("b", 3)]);
    app.toggle_current_daily();
    assert!(app.todo_list.undone[0].daily);
    let text = app.cut_todo().unwrap();
    assert_eq!(text, "5-d a");
    assert_eq!(messages(&app.todo_list.undone), vec!["b"]);
    assert!(app.paste_todo("not a todo").is_err());
    app.paste_todo(&text).unwrap();
    assert_eq!(messages(&app.todo_list.undone), vec!["a", "b"]);
    assert_eq!(app.yank_todo().unwrap(), "5-d a");
    assert!(app.changed);
}

#[test]
fn prepend_and_append_prompts() {
    let mut app = app_with(&[("a", 5)]);
    app.on_prepend_todo("end".to_string());
    assert_eq!(app.index, 1);
    app.on_append_todo("front".to_string());
    assert_eq!(app.index, 0);
    assert_eq!(messages(&app.todo_list.undone), vec!["front", "a", "end"]);
    assert_eq!(app.todo_list.undone[0].priority, 1);
    app.on_edit_todo(String::new());
    assert_eq!(app.get_message().unwrap(), "front");
    app.on_edit_todo("first".to_string());
    assert_eq!(app.get_message().unwrap(), "first");
}

#[test]
fn notes_through_the_cursor() {
    let mut app = app_with(&[("a", 5)]);
    assert_eq!(app.edit_or_add_note("h1".to_string()), None);
    assert_eq!(app.edit_or_add_note("h2".to_string()), Some("h1".to_string()));
    app.add_dependency();
    assert!(!app.todo().unwrap().has_dependency());
    app.remove_current_dependent();
    assert!(matches!(app.todo().unwrap().dependency, Dependency::Empty));
}

#[test]
fn completing_last_child_goes_back_up() {
    let mut app = app_with(&[("parent", 5), ("other", 1)]);
    app.add_dependency_traverse_down();
    app.on_prepend_todo("child".to_string());
    app.toggle_current_done();
    assert!(app.prior_indexes.is_empty());
    assert_eq!(messages(&app.todo_list.undone), vec!["other"]);
    assert_eq!(messages(&app.todo_list.done), vec!["parent"]);
    assert!(app.todo_list.done[0].done);
    assert_eq!(app.index, 0);
}

#[test]
fn show_done_brings_done_todos_into_view() {
    let mut app = app_with(&[("a", 5), ("b", 1)]);
    app.toggle_current_done();
    assert_eq!(app.len(), 1);
    app.toggle_show_done();
    assert_eq!(app.len(), 2);
    app.index = 1;
    app.toggle_current_done();
    assert_eq!(messages(&app.todo_list.undone), vec!["a", "b"]);
    assert!(app.todo_list.done.is_empty());
}

#[test]
fn search_within_the_list_shown() {
    let mut app = app_with(&[("Milk", 5), ("bread", 4), ("milkshake", 3), ("tea", 2)]);
    app.search(Some("MILK".to_string()));
    assert_eq!(app.search_indexes, vec![0, 2]);
    app.index = 1;
    app.search_next_index();
    assert_eq!(app.index, 2);
    app.search_next_index();
    assert_eq!(app.index, 0);
    app.search_next();
    assert_eq!((app.search_index, app.index), (1, 2));
    app.search_next();
    assert_eq!((app.search_index, app.index), (0, 0));
    app.search_prev();
    assert_eq!((app.search_index, app.index), (1, 2));
    app.search(Some(String::new()));
    assert_eq!(app.search_indexes, vec![0, 2]);
}

#[test]
fn path_is_cut_back_when_its_list_goes() {
    let mut app = app_with(&[("a", 5)]);
    app.add_dependency_traverse_down();
    assert_eq!(app.prior_indexes, vec![0]);
    let path: Vec<usize> = Vec::new();
    app.todo_list.edit_at(&path, 0, ListEdit::RemoveDependency);
    app.fix_path();
    assert!(app.prior_indexes.is_empty());
}

#[test]
fn edit_through_a_path() {
    let mut root = TodoList::new();
    let mut a = Todo::new("a".to_string(), 1);
    a.add_dependency().unwrap();
    root.push(a);
    let path = vec![0];
    root.edit_at(&path, 0, ListEdit::Add(Todo::new("x".to_string(), 1)));
    root.edit_at(&path, 0, ListEdit::Add(Todo::new("y".to_string(), 4)));
    let moved = root.edit_at(&path, 1, ListEdit::SetPriority(9));
    assert_eq!(moved, 0);
    match &root.undone[0].dependency {
        Dependency::List(sub) => assert_eq!(messages(&sub.undone), vec!["x", "y"]),
        _ => panic!("list expected"),
    }
    let untouched = root.edit_at(&vec![5], 3, ListEdit::Remove);
    assert_eq!(untouched, 3);
    assert_eq!(root.undone.len(), 1);
}

fn nested_app() -> App {
    let mut app = app_with(&[("parent", 5), ("other", 1)]);
    app.add_dependency_traverse_down();
    app.on_prepend_todo("x".to_string());
    app.on_prepend_todo("y".to_string());
    app
}

#[test]
fn edits_inside_a_nested_list() {
    let mut app = nested_app();
    assert_eq!(app.prior_indexes, vec![0]);
    app.index = 1;
    app.set_current_priority(4);
    assert_eq!(app.index, 0);
    assert_eq!(messages(&app.current_list().undone), vec!["y", "x"]);
    app.toggle_current_daily();
    assert!(app.current_list().undone[0].daily);
    app.delete_todo();
    assert_eq!(messages(&app.current_list().undone), vec!["x"]);
    assert_eq!(messages(&app.todo_list.undone), vec!["parent", "other"]);
    assert_eq!(app.prior_indexes, vec![0]);
}

#[test]
fn search_hides_undone_todos_left_in_done() {
    let mut app = app_with(&[("a", 1)]);
    app.todo_list.done.push(Todo::new("stray".to_string(), 1));
    app.search(Some("stray".to_string()));
    assert!(app.search_indexes.is_empty());
    app.show_done = true;
    app.search(Some("stray".to_string()));
    assert_eq!(app.search_indexes, vec![1]);
}

#[test]
fn toggling_inside_nested_list_cascades() {
    let mut app = app_with(&[("parent", 5), ("other", 1)]);
    app.add_dependency_traverse_down();
    app.on_prepend_todo("only".to_string());
    app.toggle_current_done();
    assert!(app.prior_indexes.is_empty());
    assert_eq!(messages(&app.todo_list.done), vec!["parent"]);
    match &app.todo_list.done[0].dependency {
        Dependency::List(sub) => {
            assert!(sub.undone.is_empty());
            assert!(sub.done[0].done);
        }
        _ => panic!("list expected"),
    }
}
