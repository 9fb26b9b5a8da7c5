use vstd::prelude::*;
use crate::text::push_char;
use crate::todo::{Dependency, Todo, MAX_PRIORITY};
use vstd::string::{StrSliceExecFns, StringExecFns};

verus! {

/// A text that does not hold a todo in the expected layout.
#[derive(PartialEq, Eq, Structural, Clone, Copy, Debug)]
pub struct ParseError;

/// The fields of a todo that its one-line form carries: priority, done,
/// daily, message.
pub type LineFields = (int, bool, bool, Seq<char>);

/// The digit that stands for a priority in `0..=9`.
pub open spec fn digit_char(p: int) -> char {
    if p == 0 { '0' } else if p == 1 { '1' } else if p == 2 { '2' } else if p == 3 { '3' }
    else if p == 4 { '4' } else if p == 5 { '5' } else if p == 6 { '6' } else if p == 7 { '7' }
    else if p == 8 { '8' } else { '9' }
}

/// The priority that a digit stands for.
pub open spec fn digit_value(c: char) -> Option<int> {
    if c == '0' { Some(0) } else if c == '1' { Some(1) } else if c == '2' { Some(2) }
    else if c == '3' { Some(3) } else if c == '4' { Some(4) } else if c == '5' { Some(5) }
    else if c == '6' { Some(6) } else if c == '7' { Some(7) } else if c == '8' { Some(8) }
    else if c == '9' { Some(9) } else { None }
}

/// `on` for a set flag, `-` for a clear one.
pub open spec fn flag_char(b: bool, on: char) -> char {
    if b { on } else { '-' }
}

/// The one-line form of a todo: a priority digit, `x` or `-` for done,
/// `d` or `-` for daily, a space, then the message.
pub open spec fn line_of(f: LineFields) -> Seq<char> {
    seq![digit_char(f.0), flag_char(f.1, 'x'), flag_char(f.2, 'd'), ' '] + f.3
}

/// The fields that a one-line form holds, if it is one.
pub open spec fn fields_of_line(s: Seq<char>) -> Option<LineFields> {
    if s.len() >= 4 && digit_value(s[0]) is Some && (s[1] == 'x' || s[1] == '-')
        && (s[2] == 'd' || s[2] == '-') && s[3] == ' ' {
        Some((digit_value(s[0])->Some_0, s[1] == 'x', s[2] == 'd', s.skip(4)))
    } else {
        None
    }
}

/// The fields of a todo that its one-line form carries.
pub open spec fn fields_of(t: Todo) -> LineFields {
    (t.priority as int, t.done, t.daily, t.message@)
}

/// Reading back the one-line form of a todo gives its fields.
pub proof fn lemma_line_round_trip(t: Todo)
    requires
        t.wf(),
    ensures
        fields_of_line(line_of(fields_of(t))) == Some(fields_of(t)),
{
    let s = line_of(fields_of(t));
    assert(s.skip(4) =~= t.message@);
}

pub(crate) fn digit_of(p: i8) -> (c: char)
    requires
        0 <= p <= MAX_PRIORITY,
    ensures
        c == digit_char(p as int),
{
    if p == 0 { '0' } else if p == 1 { '1' } else if p == 2 { '2' } else if p == 3 { '3' }
    else if p == 4 { '4' } else if p == 5 { '5' } else if p == 6 { '6' } else if p == 7 { '7' }
    else if p == 8 { '8' } else { '9' }
}

fn value_of_digit(c: char) -> (r: Option<i8>)
    ensures
        r is Some <==> digit_value(c) is Some,
        r is Some ==> r->Some_0 as int == digit_value(c)->Some_0,
{
    if c == '0' { Some(0) } else if c == '1' { Some(1) } else if c == '2' { Some(2) }
    else if c == '3' { Some(3) } else if c == '4' { Some(4) } else if c == '5' { Some(5) }
    else if c == '6' { Some(6) } else if c == '7' { Some(7) } else if c == '8' { Some(8) }
    else if c == '9' { Some(9) } else { None }
}

/// Appends the one-line form of `todo` to `out`.
pub(crate) fn push_line(out: &mut String, todo: &Todo)
    requires
        todo.wf(),
    ensures
        final(out)@ == old(out)@ + line_of(fields_of(*todo)),
{
    push_char(out, digit_of(todo.priority));
    push_char(out, if todo.done { 'x' } else { '-' });
    push_char(out, if todo.daily { 'd' } else { '-' });
    push_char(out, ' ');
    out.append(todo.message.as_str());
    assert(final(out)@ =~= old(out)@ + line_of(fields_of(*todo)));
}

/// The one-line form of a todo, for handing it to the clipboard. A note or a
/// nested list is not carried.
pub fn encode_for_clipboard(todo: &Todo) -> (r: String)
    requires
        todo.wf(),
    ensures
        r@ == line_of(fields_of(*todo)),
{
    let mut out = String::new();
    push_line(&mut out, todo);
    assert(out@ =~= line_of(fields_of(*todo)));
    out
}

/// Reads a todo from the one-line form that starts at character `start` of
/// `text`; the todo has no dependency.
pub(crate) fn decode_line_from(text: &str, start: usize) -> (r: Result<Todo, ParseError>)
    requires
        start <= text@.len(),
    ensures
        fields_of_line(text@.skip(start as int)) is None <==> r is Err,
        r is Ok ==> Some(fields_of(r->Ok_0)) == fields_of_line(text@.skip(start as int))
            && r->Ok_0.dependency is Empty && r->Ok_0.wf(),
{
    let ghost s = text@.skip(start as int);
    let len = text.unicode_len();
    if len - start < 4 {
        return Err(ParseError);
    }
    let c0 = text.get_char(start);
    let c1 = text.get_char(start + 1);
    let c2 = text.get_char(start + 2);
    let c3 = text.get_char(start + 3);
    assert(s[0] == c0 && s[1] == c1 && s[2] == c2 && s[3] == c3);
    let priority = match value_of_digit(c0) {
        Some(p) => p,
        None => {
            return Err(ParseError);
        },
    };
    if !(c1 == 'x' || c1 == '-') || !(c2 == 'd' || c2 == '-') || c3 != ' ' {
        return Err(ParseError);
    }
    let message = String::from_str(text.substring_char(start + 4, len));
    assert(message@ =~= s.skip(4));
    Ok(Todo { message, done: c1 == 'x', priority, daily: c2 == 'd', dependency: Dependency::Empty })
}

/// Reads a todo from its one-line form; the todo has no dependency.
pub fn decode_from_clipboard(text: &str) -> (r: Result<Todo, ParseError>)
    ensures
        fields_of_line(text@) is None <==> r is Err,
        r is Ok ==> Some(fields_of(r->Ok_0)) == fields_of_line(text@) && r->Ok_0.dependency is Empty
            && r->Ok_0.wf(),
{
    assert(text@.skip(0) =~= text@);
    decode_line_from(text, 0)
}

} // verus!
