use c3::print_tree::PrintTodoTree;
use c3::todo::{Dependency, Todo};
use c3::todo_list::{Restriction, TodoList};
use c3::tree_search::{matching_indices, TreeSearch};

fn scenario_tree() -> TodoList {
    let mut root = TodoList::new();
    root.push(Todo::new("buy milk".to_string(), 0));
    let mut b = Todo::new("call mom".to_string(), 0);
    b.add_dependency().unwrap();
    if let Dependency::List(sub) = &mut b.dependency {
        sub.push(Todo::new("call uncle".to_string(), 0));
    }
    root.push(b);
    root
}

#[test]
fn search_finds_groups_by_path() {
    let root = scenario_tree();
    let mut search = TreeSearch::new();
    search.search("call".to_string(), &root, Restriction::All);
    assert_eq!(search.positions.len(), 2);
    assert_eq!(search.positions[0].tree_path, Vec::<usize>::new());
    assert_eq!(search.positions[0].matching_indices, vec![1]);
    assert_eq!(search.positions[1].tree_path, vec![1]);
    assert_eq!(search.positions[1].matching_indices, vec![0]);
    let (index, path) = search.current_tree_position().unwrap();
    assert_eq!((index, path.clone()), (1, vec![]));
    search.next();
    let (index, path) = search.current_tree_position().unwrap();
    assert_eq!((index, path.clone()), (0, vec![1]));
    search.next();
    let (index, path) = search.current_tree_position().unwrap();
    assert_eq!((index, path.clone()), (1, vec![]));
}

#[test]
fn next_stays_within_a_group_first() {
    let mut root = TodoList::new();
    root.push(Todo::new("Call a".to_string(), 0));
    root.push(Todo::new("x".to_string(), 0));
    root.push(Todo::new("CALL b".to_string(), 0));
    let mut search = TreeSearch::new();
    search.search("call".to_string(), &root, Restriction::All);
    assert_eq!(search.positions[0].matching_indices, vec![0, 2]);
    search.next();
    assert_eq!(search.current_tree_position().unwrap().0, 2);
    search.next();
    assert_eq!(search.current_tree_position().unwrap().0, 0);
}

#[test]
fn search_visits_later_lists_first() {
    let mut root = TodoList::new();
    for name in ["first", "second"] {
        let mut t = Todo::new(name.to_string(), 0);
        t.add_dependency().unwrap();
        if let Dependency::List(sub) = &mut t.dependency {
            sub.push(Todo::new(format!("{name} node"), 0));
        }
        root.push(t);
    }
    let mut search = TreeSearch::new();
    search.search("nod".to_string(), &root, Restriction::All);
    assert_eq!(search.positions.len(), 2);
    assert_eq!(search.positions[0].tree_path, vec![1]);
    assert_eq!(search.positions[1].tree_path, vec![0]);
}

#[test]
fn empty_search_has_no_position() {
    let root = scenario_tree();
    let mut search = TreeSearch::new();
    search.search(String::new(), &root, Restriction::All);
    assert!(search.positions.is_empty());
    assert!(search.current_tree_position().is_none());
    search.next();
    assert!(search.current_tree_position().is_none());
    search.search("zzz".to_string(), &root, Restriction::All);
    assert!(search.current_tree_position().is_none());
}

#[test]
fn restriction_filters_enumeration() {
    let mut root = TodoList::new();
    root.push(Todo::new("task one".to_string(), 0));
    let mut done = Todo::new("task two".to_string(), 0);
    done.toggle_done();
    root.done.push(done);
    assert_eq!(matching_indices(&root, "task", Restriction::All), vec![0, 1]);
    assert_eq!(matching_indices(&root, "task", Restriction::UndoneOnly), vec![0]);
    assert_eq!(matching_indices(&root, "TASK", Restriction::DoneOnly), vec![0]);
}

#[test]
fn print_tree_draws_nested_lists() {
    let mut root = scenario_tree();
    if let Dependency::List(sub) = &mut root.undone[1].dependency {
        sub.push(Todo::new("call aunt".to_string(), 0));
    }
    let mut printer = PrintTodoTree::new(false);
    let lines = printer.print_list(&root, Restriction::All);
    assert_eq!(
        lines,
        vec!["[ ] 0. buy milk", "[ ] 0. call mom", "    ├── [ ] 0. call uncle", "    └── [ ] 0. call aunt"]
    );
    let mut minimal = PrintTodoTree::new(true);
    let lines = minimal.print_list(&root, Restriction::All);
    assert_eq!(lines[2], "[ ] 0. call uncle");
}

#[test]
fn tree_child_goes_one_level_deeper() {
    let printer = PrintTodoTree::new(false);
    let child = printer.tree_child(true);
    assert_eq!(child.depth, 1);
    assert_eq!(child.last_stack, vec![true]);
    let grandchild = child.tree_child(false);
    assert_eq!(grandchild.last_stack, vec![true, false]);
}

#[test]
fn test_tree_search() {
    let mut root = TodoList::new();
    root.push(Todo::new("first".to_string(), 0));
    root.push(Todo::new("second".to_string(), 0));
    let mut third = Todo::new("third".to_string(), 0);
    third.add_dependency().unwrap();
    if let Dependency::List(sub) = &mut third.dependency {
        let mut inner = Todo::new("inner".to_string(), 0);
        inner.add_dependency().unwrap();
        if let Dependency::List(deepest) = &mut inner.dependency {
            deepest.push(Todo::new("a node".to_string(), 0));
        }
        sub.push(inner);
    }
    root.push(third);
    let query = String::from("nod");
    let mut tree_search = TreeSearch::new();
    tree_search.search(query, &root, Restriction::All);
    let position = &tree_search.positions[0];
    assert_eq!(position.tree_path, vec![2, 0]);
    assert_eq!(position.matching_indices, vec![0]);
}

#[test]
fn set_to_app_moves_the_cursor() {
    let root = scenario_tree();
    let mut search = TreeSearch::new();
    search.search("call".to_string(), &root, Restriction::All);
    search.next();
    let mut app = c3::app::App::new(root);
    search.set_to_app(&mut app);
    assert_eq!(app.prior_indexes, vec![1]);
    assert_eq!(app.index, 0);
    assert_eq!(app.todo().unwrap().message, "call uncle");
}

#[test]
fn search_orders_groups_by_stack_discipline() {
    let mut root = TodoList::new();
    for name in ["x0", "x1", "x2"] {
        let mut t = Todo::new(format!("{name} hit"), 0);
        t.add_dependency().unwrap();
        if let Dependency::List(sub) = &mut t.dependency {
            sub.push(Todo::new("hit".to_string(), 0));
        }
        root.push(t);
    }
    let mut search = TreeSearch::new();
    search.search("hit".to_string(), &root, Restriction::All);
    let paths: Vec<Vec<usize>> = search.positions.iter().map(|p| p.tree_path.clone()).collect();
    assert_eq!(paths, vec![vec![], vec![2], vec![1], vec![0]]);
}
