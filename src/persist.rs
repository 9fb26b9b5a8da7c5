use vstd::prelude::*;
use crate::codec::{decode_line_from, fields_of, fields_of_line, line_of, push_line, LineFields, ParseError};
use crate::text::push_char;
use crate::todo::{clamp_priority, Dependency, Todo};
use crate::todo_list::{partitioned, TodoList};
use vstd::string::{StrSliceExecFns, StringExecFns};

verus! {

broadcast use vstd::std_specs::vec::group_vec_axioms;

/// What a stored line says of a todo's dependency.
#[derive(PartialEq, Eq, Structural, Clone, Copy, Debug)]
pub enum LineKind {
    Plain,
    List,
    Note,
}

/// The kind of dependency that a todo carries.
pub open spec fn kind_of(t: Todo) -> LineKind {
    match t.dependency {
        Dependency::Empty => LineKind::Plain,
        Dependency::List(_) => LineKind::List,
        Dependency::Note(_) => LineKind::Note,
    }
}

/// The hash of a todo's note, empty without one.
pub open spec fn hash_of(t: Todo) -> Seq<char> {
    match t.dependency {
        Dependency::Note(h) => h@,
        _ => Seq::empty(),
    }
}

/// The fields of a todo as stored, the priority clamped into range.
pub open spec fn stored_fields(t: Todo) -> LineFields {
    (clamp_priority(t.priority as int), t.done, t.daily, t.message@)
}

/// `n` tab characters.
pub open spec fn tabs(n: nat) -> Seq<char> {
    Seq::new(n, |i: int| '\t')
}

/// The stored line of a todo at depth `depth`: one tab per level, then `-`
/// for no dependency, `+` for a nested list (whose lines follow one level
/// deeper), or `>`, the note's hash and a space; then the one-line form.
pub open spec fn stored_line(t: Todo, depth: nat) -> Seq<char> {
    tabs(depth) + match t.dependency {
        Dependency::Empty => seq!['-'],
        Dependency::List(_) => seq!['+'],
        Dependency::Note(h) => seq!['>'] + h@ + seq![' '],
    } + line_of(stored_fields(t))
}

/// The first index from `i` on that holds no tab, or the length.
pub open spec fn first_non_tab(s: Seq<char>, i: int) -> int
    decreases s.len() - i,
{
    if i < 0 || i >= s.len() {
        s.len() as int
    } else if s[i] != '\t' {
        i
    } else {
        first_non_tab(s, i + 1)
    }
}

/// The first index from `i` on that holds a space, or the length.
pub open spec fn first_space(s: Seq<char>, i: int) -> int
    decreases s.len() - i,
{
    if i < 0 || i >= s.len() {
        s.len() as int
    } else if s[i] == ' ' {
        i
    } else {
        first_space(s, i + 1)
    }
}

/// What a stored line says, if it is one: its depth, the kind of dependency,
/// the note's hash (empty without a note) and the todo's fields.
pub open spec fn parse_stored(s: Seq<char>) -> Option<(nat, LineKind, Seq<char>, LineFields)> {
    let d = first_non_tab(s, 0);
    let rest = s.skip(d);
    if rest.len() == 0 {
        None
    } else if rest[0] == '-' || rest[0] == '+' {
        match fields_of_line(rest.skip(1)) {
            Some(f) => Some((d as nat, if rest[0] == '-' { LineKind::Plain } else { LineKind::List }, Seq::empty(), f)),
            None => None,
        }
    } else if rest[0] == '>' {
        let sp = first_space(rest, 1);
        if sp < rest.len() {
            match fields_of_line(rest.skip(sp + 1)) {
                Some(f) => Some((d as nat, LineKind::Note, rest.subrange(1, sp), f)),
                None => None,
            }
        } else {
            None
        }
    } else {
        None
    }
}

proof fn lemma_first_non_tab(s: Seq<char>, n: nat, i: int)
    requires
        0 <= i <= n < s.len(),
        forall|k: int| 0 <= k < n ==> s[k] == '\t',
        s[n as int] != '\t',
    ensures
        first_non_tab(s, i) == n,
    decreases n - i,
{
    if i < n {
        lemma_first_non_tab(s, n, i + 1);
    }
}

proof fn lemma_first_space(s: Seq<char>, n: int, i: int)
    requires
        0 <= i <= n < s.len(),
        forall|k: int| i <= k < n ==> s[k] != ' ',
        s[n] == ' ',
    ensures
        first_space(s, i) == n,
    decreases n - i,
{
    if i < n {
        lemma_first_space(s, n, i + 1);
    }
}

/// Reading back the stored line of a todo gives its depth, the kind of its
/// dependency, its note's hash and its fields (the priority clamped),
/// provided the hash holds no space.
pub proof fn lemma_stored_line_round_trip(t: Todo, depth: nat)
    requires
        forall|k: int| 0 <= k < hash_of(t).len() ==> hash_of(t)[k] != ' ',
    ensures
        parse_stored(stored_line(t, depth)) == Some((depth, kind_of(t), hash_of(t), stored_fields(t))),
{
    let s = stored_line(t, depth);
    let body = line_of(stored_fields(t));
    lemma_first_non_tab(s, depth, 0);
    let rest = s.skip(depth as int);
    assert(fields_of_line(body) == Some(stored_fields(t))) by {
        assert(body.skip(4) =~= t.message@);
    }
    match t.dependency {
        Dependency::Empty => {
            assert(rest =~= seq!['-'] + body);
            assert(rest.skip(1) =~= body);
        },
        Dependency::List(_) => {
            assert(rest =~= seq!['+'] + body);
            assert(rest.skip(1) =~= body);
        },
        Dependency::Note(h) => {
            assert(rest =~= seq!['>'] + h@ + seq![' '] + body);
            let n: int = h@.len() as int + 1;
            assert(rest[n] == ' ');
            assert forall|k: int| 1 <= k < n implies rest[k] != ' ' by {
                assert(rest[k] == h@[k - 1]);
            }
            lemma_first_space(rest, n, 1);
            assert(rest.subrange(1, n) =~= h@);
            assert(rest.skip(n + 1) =~= body);
        },
    }
}

fn digit_clamped(p: i8) -> (r: i8)
    ensures
        r as int == clamp_priority(p as int),
{
    if p < 0 {
        0
    } else if p > crate::todo::MAX_PRIORITY {
        crate::todo::MAX_PRIORITY
    } else {
        p
    }
}

/// The stored line of `todo` at depth `depth`.
pub fn encode_stored_line(todo: &Todo, depth: usize) -> (r: String)
    ensures
        r@ == stored_line(*todo, depth as nat),
{
    let mut out = String::new();
    let mut i: usize = 0;
    while i < depth
        invariant
            i <= depth,
            out@ == tabs(i as nat),
        decreases depth - i,
    {
        push_char(&mut out, '\t');
        i = i + 1;
        assert(out@ =~= tabs(i as nat));
    }
    match &todo.dependency {
        Dependency::Empty => push_char(&mut out, '-'),
        Dependency::List(_) => push_char(&mut out, '+'),
        Dependency::Note(h) => {
            push_char(&mut out, '>');
            out.append(h.as_str());
            push_char(&mut out, ' ');
        },
    }
    let shown = Todo {
        message: todo.message.clone(),
        done: todo.done,
        priority: digit_clamped(todo.priority),
        daily: todo.daily,
        dependency: Dependency::Empty,
    };
    push_line(&mut out, &shown);
    assert(out@ =~= stored_line(*todo, depth as nat));
    out
}

/// Reads a stored line: its depth and its todo, whose dependency is an
/// empty list for a list line and the hash for a note line.
pub fn decode_stored_line(line: &str) -> (r: Result<(usize, Todo), ParseError>)
    ensures
        parse_stored(line@) is None <==> r is Err,
        r is Ok ==> ({
            let (d, t) = r->Ok_0;
            let (pd, kind, hash, f) = parse_stored(line@)->Some_0;
            &&& d as nat == pd
            &&& kind_of(t) == kind
            &&& hash_of(t) == hash
            &&& fields_of(t) == f
            &&& t.wf()
            &&& t.dependency is List ==> t.dependency->List_0.undone@.len() == 0
                && t.dependency->List_0.done@.len() == 0
        }),
{
    let len = line.unicode_len();
    let mut d: usize = 0;
    while d < len && line.get_char(d) == '\t'
        invariant
            d <= len,
            len == line@.len(),
            first_non_tab(line@, d as int) == first_non_tab(line@, 0),
        decreases len - d,
    {
        d = d + 1;
    }
    let ghost rest = line@.skip(d as int);
    if d == len {
        return Err(ParseError);
    }
    let c = line.get_char(d);
    assert(rest[0] == c);
    if c == '-' || c == '+' {
        assert(line@.skip(d + 1) =~= rest.skip(1));
        match decode_line_from(line, d + 1) {
            Ok(mut t) => {
                if c == '+' {
                    t.dependency = Dependency::List(TodoList::new());
                }
                Ok((d, t))
            },
            Err(e) => Err(e),
        }
    } else if c == '>' {
        let mut sp = d + 1;
        while sp < len && line.get_char(sp) != ' '
            invariant
                d < sp <= len,
                len == line@.len(),
                rest == line@.skip(d as int),
                first_space(rest, (sp - d) as int) == first_space(rest, 1),
            decreases len - sp,
        {
            assert(rest[(sp - d) as int] == line@[sp as int]);
            sp = sp + 1;
        }
        if sp == len {
            return Err(ParseError);
        }
        assert(rest[(sp - d) as int] == line@[sp as int]);
        assert(line@.skip(sp + 1) =~= rest.skip(sp - d + 1));
        match decode_line_from(line, sp + 1) {
            Ok(mut t) => {
                let hash = String::from_str(line.substring_char(d + 1, sp));
                assert(hash@ =~= rest.subrange(1, (sp - d) as int));
                t.dependency = Dependency::Note(hash);
                Ok((d, t))
            },
            Err(e) => Err(e),
        }
    } else {
        Err(ParseError)
    }
}

/// `h` holds no space.
pub open spec fn spaceless(h: Seq<char>) -> bool {
    forall|k: int| 0 <= k < h.len() ==> h[k] != ' '
}

/// No note hash in the tree below `l` holds a space.
pub open spec fn hashes_spaceless(l: TodoList) -> bool
    decreases l, l.undone@.len() + l.done@.len() + 1,
{
    todos_spaceless(l, 0)
}

/// No note hash in the tree below the todos of `l` from index `i` on (the
/// undone ones, then the done ones) holds a space.
pub open spec fn todos_spaceless(l: TodoList, i: nat) -> bool
    decreases l, (l.undone@.len() + l.done@.len()) - i,
{
    if i >= l.undone@.len() + l.done@.len() {
        true
    } else {
        let t = if i < l.undone@.len() { l.undone[i as int] } else { l.done[i - l.undone@.len()] };
        spaceless(hash_of(t)) && match t.dependency {
            Dependency::List(sub) => hashes_spaceless(sub),
            _ => true,
        } && todos_spaceless(l, i + 1)
    }
}

/// The indices of the lines of `ls` that are not stored lines.
pub open spec fn bad_lines(ls: Seq<String>) -> Seq<usize>
    decreases ls.len(),
{
    if ls.len() == 0 {
        Seq::empty()
    } else if parse_stored(ls.last()@) is None {
        bad_lines(ls.drop_last()).push((ls.len() - 1) as usize)
    } else {
        bad_lines(ls.drop_last())
    }
}

/// How many todos the tree below `l` holds, nested ones included.
pub open spec fn tree_size(l: TodoList) -> nat
    decreases l, l.undone@.len() + l.done@.len() + 1,
{
    part_size(l, true, 0) + part_size(l, false, 0)
}

/// How many todos the undone (or the done) todos of `l` from index `i` on
/// hold, each with its nested ones.
pub open spec fn part_size(l: TodoList, undone: bool, i: nat) -> nat
    decreases l, l.undone@.len() + l.done@.len() - i,
{
    if i >= (if undone { l.undone@.len() } else { l.done@.len() }) {
        0
    } else {
        let t = if undone { l.undone[i as int] } else { l.done[i as int] };
        1 + (if t.dependency is List { tree_size(t.dependency->List_0) } else { 0 }) + part_size(l, undone, i + 1)
    }
}

/// How many todos `t` holds: itself and those of its nested list.
pub open spec fn weight(t: Todo) -> nat {
    1 + if t.dependency is List { tree_size(t.dependency->List_0) } else { 0 }
}

proof fn lemma_part_same(a: TodoList, b: TodoList, undone: bool, i: nat)
    requires
        undone ==> a.undone@ == b.undone@,
        !undone ==> a.done@ == b.done@,
    ensures
        part_size(a, undone, i) == part_size(b, undone, i),
    decreases (if undone { a.undone@.len() } else { a.done@.len() }) - i,
{
    if i < (if undone { a.undone@.len() } else { a.done@.len() }) {
        lemma_part_same(a, b, undone, i + 1);
    }
}

proof fn lemma_part_push(a: TodoList, b: TodoList, undone: bool, t: Todo, i: nat)
    requires
        undone ==> b.undone@ == a.undone@.push(t),
        !undone ==> b.done@ == a.done@.push(t),
        i <= (if undone { a.undone@.len() } else { a.done@.len() }),
    ensures
        part_size(b, undone, i) == part_size(a, undone, i) + weight(t),
    decreases (if undone { a.undone@.len() } else { a.done@.len() }) - i,
{
    if i < (if undone { a.undone@.len() } else { a.done@.len() }) {
        lemma_part_push(a, b, undone, t, i + 1);
    } else {
        assert(part_size(a, undone, i) == 0);
        assert(part_size(b, undone, i + 1) == 0);
    }
}

/// How many todos the open lists of a stack hold, each with its todo.
pub open spec fn stack_size(stack: Seq<(Todo, TodoList)>) -> nat
    decreases stack.len(),
{
    if stack.len() == 0 {
        0
    } else {
        stack_size(stack.drop_last()) + 1 + tree_size(stack.last().1)
    }
}

/// Puts `t` at the end of `undone` or of `done`, as its flag says.
fn place(list: &mut TodoList, t: Todo)
    requires
        partitioned(old(list).undone@, old(list).done@),
    ensures
        partitioned(final(list).undone@, final(list).done@),
        t.done ==> final(list).undone@ == old(list).undone@ && final(list).done@ == old(list).done@.push(t),
        !t.done ==> final(list).undone@ == old(list).undone@.push(t) && final(list).done@ == old(list).done@,
        tree_size(*final(list)) == tree_size(*old(list)) + weight(t),
{
    let ghost t0 = t;
    if t.done {
        list.done.push(t);
        proof {
            lemma_part_same(*old(list), *list, true, 0);
            lemma_part_push(*old(list), *list, false, t0, 0);
        }
    } else {
        list.undone.push(t);
        proof {
            lemma_part_same(*old(list), *list, false, 0);
            lemma_part_push(*old(list), *list, true, t0, 0);
        }
    }
}

/// Every list on the stack keeps undone and done todos apart.
pub open spec fn stack_partitioned(stack: Seq<(Todo, TodoList)>) -> bool {
    forall|i: int| 0 <= i < stack.len() ==> partitioned((#[trigger] stack[i]).1.undone@, stack[i].1.done@)
}

/// Closes the innermost open list: it becomes its todo's dependency, and the
/// todo goes into the list around it.
fn close_level(root: &mut TodoList, stack: &mut Vec<(Todo, TodoList)>)
    requires
        old(stack)@.len() > 0,
        partitioned(old(root).undone@, old(root).done@),
        stack_partitioned(old(stack)@),
    ensures
        final(stack)@.len() == old(stack)@.len() - 1,
        partitioned(final(root).undone@, final(root).done@),
        stack_partitioned(final(stack)@),
        tree_size(*final(root)) + stack_size(final(stack)@) == tree_size(*old(root)) + stack_size(old(stack)@),
{
    let ghost s0 = stack@;
    let top = stack.pop();
    if let Some((parent, list)) = top {
        let mut parent = parent;
        parent.dependency = Dependency::List(list);
        let n = stack.len();
        assert(s0.drop_last() == stack@);
        assert(weight(parent) == 1 + tree_size(s0.last().1));
        if n == 0 {
            place(root, parent);
        } else {
            let ghost s1 = stack@;
            assert(partitioned(stack@[n - 1].1.undone@, stack@[n - 1].1.done@));
            place(&mut stack[n - 1].1, parent);
            assert(stack@.drop_last() =~= s1.drop_last());
            assert(stack_size(stack@) == stack_size(s1.drop_last()) + 1 + tree_size(stack@.last().1));
            assert(stack_size(s1) == stack_size(s1.drop_last()) + 1 + tree_size(s1.last().1));
            assert(stack_partitioned(stack@)) by {
                assert forall|i: int| 0 <= i < stack@.len() implies
                    partitioned((#[trigger] stack@[i]).1.undone@, stack@[i].1.done@) by {
                    if i != n - 1 {
                        assert(stack@[i] == old(stack)@[i]);
                    }
                }
            }
        }
    }
}

/// Rebuilds a tree from its stored lines. A line that is not a stored line
/// is skipped and its index reported; a line deeper than the open lists
/// allow goes into the innermost one; lists still open at the end are closed.
pub fn read_lines(lines: &Vec<String>) -> (r: (TodoList, Vec<usize>))
    ensures
        r.1@ == bad_lines(lines@),
        partitioned(r.0.undone@, r.0.done@),
        tree_size(r.0) + bad_lines(lines@).len() == lines@.len(),
{
    let mut root = TodoList::new();
    let mut stack: Vec<(Todo, TodoList)> = Vec::new();
    let mut warnings: Vec<usize> = Vec::new();
    let mut i: usize = 0;
    while i < lines.len()
        invariant
            i <= lines@.len(),
            warnings@ == bad_lines(lines@.take(i as int)),
            partitioned(root.undone@, root.done@),
            stack_partitioned(stack@),
            tree_size(root) + stack_size(stack@) + warnings@.len() == i,
        decreases lines@.len() - i,
    {
        assert(lines@.take(i + 1).drop_last() =~= lines@.take(i as int));
        assert(lines@.take(i + 1).last() == lines@[i as int]);
        match decode_stored_line(lines[i].as_str()) {
            Err(_) => {
                warnings.push(i);
            },
            Ok((depth, todo)) => {
                let d = if depth < stack.len() { depth } else { stack.len() };
                let ghost before = tree_size(root) + stack_size(stack@);
                while stack.len() > d
                    invariant
                        partitioned(root.undone@, root.done@),
                        stack_partitioned(stack@),
                        tree_size(root) + stack_size(stack@) == before,
                    decreases stack@.len(),
                {
                    close_level(&mut root, &mut stack);
                }
                if todo.has_dependency() {
                    let ghost prev = stack@;
                    let fresh = TodoList::new();
                    assert(partitioned(fresh.undone@, fresh.done@));
                    proof {
                        assert(tree_size(fresh) == 0);
                    }
                    stack.push((todo, fresh));
                    assert(stack@.drop_last() =~= prev);
                    assert(stack_partitioned(stack@)) by {
                        assert forall|k: int| 0 <= k < stack@.len() implies
                            partitioned((#[trigger] stack@[k]).1.undone@, stack@[k].1.done@) by {
                            if k < stack@.len() - 1 {
                                assert(stack@[k] == prev[k]);
                            }
                        }
                    }
                } else {
                    let n = stack.len();
                    if n == 0 {
                        assert(weight(todo) == 1);
                        place(&mut root, todo);
                    } else {
                        let ghost s1 = stack@;
                        assert(weight(todo) == 1);
                        place(&mut stack[n - 1].1, todo);
                        assert(stack@.drop_last() =~= s1.drop_last());
                        assert(stack_partitioned(stack@)) by {
                            assert forall|k: int| 0 <= k < stack@.len() implies
                                partitioned((#[trigger] stack@[k]).1.undone@, stack@[k].1.done@) by {
                            }
                        }
                    }
                }
            },
        }
        i = i + 1;
    }
    assert(lines@.take(i as int) =~= lines@);
    while stack.len() > 0
        invariant
            partitioned(root.undone@, root.done@),
            stack_partitioned(stack@),
            tree_size(root) + stack_size(stack@) + warnings@.len() == lines@.len(),
            warnings@ == bad_lines(lines@),
        decreases stack@.len(),
    {
        close_level(&mut root, &mut stack);
    }
    (root, warnings)
}

/// The todo at index `i` of the undone todos of `l` followed by the done ones.
pub open spec fn nth(l: TodoList, i: nat) -> Todo {
    if i < l.undone@.len() { l.undone[i as int] } else { l.done[i - l.undone@.len()] }
}

/// The depth one level below `d`, staying at the largest depth.
pub open spec fn next_depth(d: nat) -> nat {
    if d < usize::MAX { d + 1 } else { d }
}

/// The stored lines of the tree below `l` at depth `depth`: each todo, undone
/// then done, followed by the lines of its nested list one level deeper.
pub open spec fn list_lines(l: TodoList, depth: nat) -> Seq<Seq<char>>
    decreases l, l.undone@.len() + l.done@.len() + 1,
{
    todos_lines(l, 0, depth)
}

/// The stored lines of the todos of `l` from index `i` on, each followed by
/// the lines of its nested list.
pub open spec fn todos_lines(l: TodoList, i: nat, depth: nat) -> Seq<Seq<char>>
    decreases l, (l.undone@.len() + l.done@.len()) - i,
{
    if i >= l.undone@.len() + l.done@.len() {
        Seq::empty()
    } else {
        let t = if i < l.undone@.len() { l.undone[i as int] } else { l.done[i - l.undone@.len()] };
        seq![stored_line(t, depth)] + match t.dependency {
            Dependency::List(sub) => list_lines(sub, next_depth(depth)),
            _ => Seq::empty(),
        } + todos_lines(l, i + 1, depth)
    }
}

proof fn lemma_list_lines_parse(l: TodoList, depth: nat)
    requires
        hashes_spaceless(l),
    ensures
        forall|k: int| 0 <= k < list_lines(l, depth).len() ==> (#[trigger] parse_stored(list_lines(l, depth)[k])) is Some,
    decreases l, l.undone@.len() + l.done@.len() + 1,
{
    lemma_todos_lines_parse(l, 0, depth);
}

proof fn lemma_todos_lines_parse(l: TodoList, i: nat, depth: nat)
    requires
        todos_spaceless(l, i),
    ensures
        forall|k: int| 0 <= k < todos_lines(l, i, depth).len() ==> (#[trigger] parse_stored(todos_lines(l, i, depth)[k])) is Some,
    decreases l, (l.undone@.len() + l.done@.len()) - i,
{
    if i < l.undone@.len() + l.done@.len() {
        let t = if i < l.undone@.len() { l.undone[i as int] } else { l.done[i - l.undone@.len()] };
        let extra = match t.dependency {
            Dependency::List(sub) => list_lines(sub, next_depth(depth)),
            _ => Seq::empty(),
        };
        lemma_stored_line_round_trip(t, depth);
        lemma_todos_lines_parse(l, i + 1, depth);
        if let Dependency::List(sub) = t.dependency {
            lemma_list_lines_parse(sub, next_depth(depth));
        }
        let all = todos_lines(l, i, depth);
        assert(all == seq![stored_line(t, depth)] + extra + todos_lines(l, i + 1, depth));
        assert forall|k: int| 0 <= k < all.len() implies (#[trigger] parse_stored(all[k])) is Some by {
            let n = 1 + extra.len();
            if k == 0 {
            } else if k < n {
                assert(all[k] == extra[k - 1]);
            } else {
                assert(all[k] == todos_lines(l, i + 1, depth)[k - n]);
            }
        }
    }
}

proof fn lemma_no_bad_lines(ls: Seq<String>)
    requires
        forall|k: int| 0 <= k < ls.len() ==> (#[trigger] parse_stored(views(ls)[k])) is Some,
    ensures
        bad_lines(ls) == Seq::<usize>::empty(),
    decreases ls.len(),
{
    if ls.len() > 0 {
        let rest = ls.drop_last();
        assert forall|k: int| 0 <= k < rest.len() implies (#[trigger] parse_stored(views(rest)[k])) is Some by {
            assert(views(rest)[k] == views(ls)[k]);
        }
        lemma_no_bad_lines(rest);
        assert(views(ls)[ls.len() - 1] == ls.last()@);
    }
}

proof fn lemma_list_lines_len(l: TodoList, depth: nat)
    ensures
        list_lines(l, depth).len() == tree_size(l),
    decreases l, l.undone@.len() + l.done@.len() + 1,
{
    lemma_todos_lines_len(l, 0, depth);
}

proof fn lemma_todos_lines_len(l: TodoList, i: nat, depth: nat)
    ensures
        todos_lines(l, i, depth).len() == if i < l.undone@.len() {
            part_size(l, true, i) + part_size(l, false, 0)
        } else {
            part_size(l, false, (i - l.undone@.len()) as nat)
        },
    decreases l, (l.undone@.len() + l.done@.len()) - i,
{
    if i < l.undone@.len() + l.done@.len() {
        lemma_todos_lines_len(l, i + 1, depth);
        let t = if i < l.undone@.len() { l.undone[i as int] } else { l.done[i - l.undone@.len()] };
        if let Dependency::List(sub) = t.dependency {
            lemma_list_lines_len(sub, next_depth(depth));
        }
        if i + 1 == l.undone@.len() {
            assert(part_size(l, true, i + 1) == 0);
        }
        if i >= l.undone@.len() {
            assert((i + 1 - l.undone@.len()) as nat == ((i - l.undone@.len()) as nat) + 1);
        }
    } else {
        if i < l.undone@.len() {
        } else {
            assert(part_size(l, false, (i - l.undone@.len()) as nat) == 0);
        }
    }
}

/// Reading back the lines written for a tree reports no bad line, provided
/// no note hash in the tree holds a space; so every todo of the tree, nested
/// ones included, is loaded again.
pub proof fn lemma_written_tree_reads_cleanly(l: TodoList, ls: Seq<String>)
    requires
        hashes_spaceless(l),
        views(ls) == list_lines(l, 0),
    ensures
        bad_lines(ls) == Seq::<usize>::empty(),
        ls.len() == tree_size(l),
{
    lemma_list_lines_len(l, 0);
    lemma_list_lines_parse(l, 0);
    assert forall|k: int| 0 <= k < ls.len() implies (#[trigger] parse_stored(views(ls)[k])) is Some by {
        assert(views(ls)[k] == list_lines(l, 0)[k]);
    }
    lemma_no_bad_lines(ls);
}

/// The characters of each line.
pub open spec fn views(ls: Seq<String>) -> Seq<Seq<char>> {
    ls.map_values(|s: String| s@)
}

/// Appends the lines of the todo at index `i` of `list` and of its nested list.
fn write_todo(out: &mut Vec<String>, list: &TodoList, t: &Todo, i: Ghost<nat>, depth: usize)
    requires
        i@ < list.undone@.len() + list.done@.len(),
        *t == nth(*list, i@),
    ensures
        views(final(out)@) + todos_lines(*list, i@ + 1, depth as nat)
            == views(old(out)@) + todos_lines(*list, i@, depth as nat),
    decreases *list, (list.undone@.len() + list.done@.len()) - i@, 0nat,
{
    let ghost start = out@;
    out.push(encode_stored_line(t, depth));
    assert(views(out@) =~= views(start).push(stored_line(*t, depth as nat)));
    let ghost mid = out@;
    if let Dependency::List(sub) = &t.dependency {
        let d = if depth < usize::MAX { depth + 1 } else { depth };
        write_list(out, sub, d);
    }
    let ghost extra = if t.dependency is List {
        list_lines(t.dependency->List_0, next_depth(depth as nat))
    } else {
        Seq::empty()
    };
    assert(views(out@) == views(mid) + extra);
    assert(todos_lines(*list, i@, depth as nat)
        == seq![stored_line(*t, depth as nat)] + extra + todos_lines(*list, i@ + 1, depth as nat));
    assert(views(out@) + todos_lines(*list, i@ + 1, depth as nat)
        =~= views(start) + todos_lines(*list, i@, depth as nat));
}

/// Appends the stored lines of the tree below `list` at depth `depth`.
fn write_list(out: &mut Vec<String>, list: &TodoList, depth: usize)
    ensures
        views(final(out)@) == views(old(out)@) + list_lines(*list, depth as nat),
    decreases *list, list.undone@.len() + list.done@.len() + 1, 0nat,
{
    let ghost start = out@;
    let ulen = list.undone.len();
    let dlen = list.done.len();
    let mut j: usize = 0;
    assert(views(out@) + todos_lines(*list, 0, depth as nat) =~= views(start) + list_lines(*list, depth as nat));
    while j < ulen
        invariant
            ulen == list.undone@.len(),
            dlen == list.done@.len(),
            j <= ulen,
            views(out@) + todos_lines(*list, j as nat, depth as nat) == views(start) + list_lines(*list, depth as nat),
        decreases ulen - j,
    {
        let ghost before = out@;
        write_todo(out, list, &list.undone[j], Ghost(j as nat), depth);
        assert(views(out@) + todos_lines(*list, (j + 1) as nat, depth as nat)
            =~= views(start) + list_lines(*list, depth as nat)) by {
            assert(views(out@) + todos_lines(*list, (j + 1) as nat, depth as nat)
                == views(before) + todos_lines(*list, j as nat, depth as nat));
        }
        j = j + 1;
    }
    let mut j: usize = 0;
    while j < dlen
        invariant
            ulen == list.undone@.len(),
            dlen == list.done@.len(),
            j <= dlen,
            views(out@) + todos_lines(*list, (ulen + j) as nat, depth as nat) == views(start) + list_lines(*list, depth as nat),
        decreases dlen - j,
    {
        let ghost before = out@;
        write_todo(out, list, &list.done[j], Ghost((ulen + j) as nat), depth);
        assert(views(out@) + todos_lines(*list, (ulen + j + 1) as nat, depth as nat)
            =~= views(start) + list_lines(*list, depth as nat)) by {
            assert(views(out@) + todos_lines(*list, (ulen + j + 1) as nat, depth as nat)
                == views(before) + todos_lines(*list, (ulen + j) as nat, depth as nat));
        }
        j = j + 1;
    }
    assert(todos_lines(*list, (ulen + dlen) as nat, depth as nat) == Seq::<Seq<char>>::empty());
    assert(views(out@) =~= views(start) + list_lines(*list, depth as nat));
}

/// The stored lines of a whole tree, the top level at depth zero.
pub fn write_lines(list: &TodoList) -> (r: Vec<String>)
    ensures
        views(r@) == list_lines(*list, 0),
{
    let mut out: Vec<String> = Vec::new();
    write_list(&mut out, list, 0);
    assert(views(out@) =~= list_lines(*list, 0)) by {
        assert(views(Seq::<String>::empty()) =~= Seq::<Seq<char>>::empty());
    }
    out
}

} // verus!
