use c3::codec::{decode_from_clipboard, encode_for_clipboard, ParseError};
use c3::persist::{decode_stored_line, encode_stored_line, read_lines, write_lines};
use c3::todo::{Dependency, Todo};
use c3::todo_list::TodoList;

#[test]
fn clipboard_round_trip() {
    let mut t = Todo::new("Call Mom, then  dad!".to_string(), 7);
    t.toggle_daily();
    t.toggle_done();
    let text = encode_for_clipboard(&t);
    assert_eq!(text, "7xd Call Mom, then  dad!");
    let back = decode_from_clipboard(&text).unwrap();
    assert_eq!(back.message, t.message);
    assert_eq!(back.priority, 7);
    assert!(back.done);
    assert!(back.daily);
    assert!(matches!(back.dependency, Dependency::Empty));
}

#[test]
fn clipboard_round_trip_empty_message() {
    let t = Todo::new(String::new(), 0);
    let text = encode_for_clipboard(&t);
    assert_eq!(text, "0-- ");
    let back = decode_from_clipboard(&text).unwrap();
    assert_eq!(back.message, "");
    assert_eq!(back.priority, 0);
    assert!(!back.done && !back.daily);
}

#[test]
fn clipboard_drops_dependencies() {
    let mut t = Todo::new("n".to_string(), 2);
    t.add_note("hash".to_string()).unwrap();
    let back = decode_from_clipboard(&encode_for_clipboard(&t)).unwrap();
    assert!(matches!(back.dependency, Dependency::Empty));
}

#[test]
fn clipboard_rejects_malformed_text() {
    assert_eq!(decode_from_clipboard("").err(), Some(ParseError));
    assert_eq!(decode_from_clipboard("5x-").err(), Some(ParseError));
    assert_eq!(decode_from_clipboard("ax- hi").err(), Some(ParseError));
    assert_eq!(decode_from_clipboard("5y- hi").err(), Some(ParseError));
    assert_eq!(decode_from_clipboard("5xz hi").err(), Some(ParseError));
    assert_eq!(decode_from_clipboard("5x-_hi").err(), Some(ParseError));
    assert!(decode_from_clipboard("5x- hi").is_ok());
}

#[test]
fn stored_line_forms() {
    let mut t = Todo::new("plain".to_string(), 4);
    assert_eq!(encode_stored_line(&t, 0), "-4-- plain");
    t.add_note("ab12".to_string()).unwrap();
    assert_eq!(encode_stored_line(&t, 2), "\t\t>ab12 4-- plain");
    let (depth, back) = decode_stored_line("\t\t>ab12 4-- plain").unwrap();
    assert_eq!(depth, 2);
    assert_eq!(back.edit_note(), Ok("ab12".to_string()));
    let (depth, back) = decode_stored_line("\t+9xd nested").unwrap();
    assert_eq!(depth, 1);
    assert!(back.has_dependency() && back.done && back.daily && back.priority == 9);
    assert!(decode_stored_line("\t").is_err());
    assert!(decode_stored_line(">nospace").is_err());
    assert!(decode_stored_line("*4-- x").is_err());
}

fn sample_tree() -> TodoList {
    let mut root = TodoList::new();
    let mut a = Todo::new("a".to_string(), 5);
    a.add_dependency().unwrap();
    if let Dependency::List(sub) = &mut a.dependency {
        sub.push(Todo::new("a1".to_string(), 3));
        let mut a2 = Todo::new("a2".to_string(), 1);
        a2.add_note("deadbeef".to_string()).unwrap();
        sub.push(a2);
        let mut a3 = Todo::new("a3".to_string(), 1);
        a3.toggle_done();
        sub.done.push(a3);
    }
    root.push(a);
    let mut b = Todo::new("b".to_string(), 2);
    b.toggle_daily();
    b.add_dependency().unwrap();
    root.push(b);
    let mut c = Todo::new("c".to_string(), 0);
    c.toggle_done();
    root.done.push(c);
    root
}

fn shape(list: &TodoList) -> String {
    let mut out = String::new();
    for t in list.undone.iter().chain(list.done.iter()) {
        out.push_str(&format!("({} {} {} {}", t.message, t.priority, t.done, t.daily));
        match &t.dependency {
            Dependency::Empty => {}
            Dependency::Note(h) => out.push_str(&format!(" note {h}")),
            Dependency::List(sub) => out.push_str(&format!(" [{}]", shape(sub))),
        }
        out.push(')');
    }
    out
}

#[test]
fn persistence_round_trip() {
    let tree = sample_tree();
    let lines = write_lines(&tree);
    assert_eq!(lines, vec!["+5-- a", "\t-3-- a1", "\t>deadbeef 1-- a2", "\t-1x- a3", "+2-d b", "-0x- c"]);
    let (back, warnings) = read_lines(&lines);
    assert!(warnings.is_empty());
    assert_eq!(shape(&back), shape(&tree));
    assert_eq!(back.done.len(), 1);
}

#[test]
fn malformed_line_is_skipped_with_warning() {
    let mut lines: Vec<String> = write_lines(&sample_tree());
    lines.insert(2, "\tthis is not a todo".to_string());
    let (back, warnings) = read_lines(&lines);
    assert_eq!(warnings, vec![2]);
    assert_eq!(shape(&back), shape(&sample_tree()));
}

#[test]
fn read_of_nothing_is_empty() {
    let (back, warnings) = read_lines(&Vec::new());
    assert!(back.is_empty());
    assert!(warnings.is_empty());
}

#[test]
fn too_deep_line_goes_into_innermost_list() {
    let lines: Vec<String> = vec!["+1-- a".to_string(), "\t\t\t-1-- deep".to_string(), "-1-- b".to_string()];
    let (back, warnings) = read_lines(&lines);
    assert!(warnings.is_empty());
    assert_eq!(shape(&back), "(a 1 false false [(deep 1 false false)])(b 1 false false)");
}
