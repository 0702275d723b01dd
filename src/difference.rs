use vstd::prelude::*;
use crate::edit_operation::EditOperation;

verus! {

/// The texts placed before and after a span that differs.
#[derive(PartialEq, Eq, Debug, Clone)]
pub struct Separators {
    pub start_separator: String,
    pub end_separator: String,
}

/// Relies on `String::push`: the character is appended at the end.
#[verifier::external_body]
fn push_char(s: &mut String, c: char)
    ensures
        final(s)@ == old(s)@.push(c),
{
    s.push(c);
}

fn char_string(c: char) -> (r: String)
    ensures
        r@ == seq![c],
{
    let mut s = String::new();
    push_char(&mut s, c);
    s
}

/// Separators made of one character each.
pub fn make_char_separators(c1: char, c2: char) -> (r: Separators)
    ensures
        r.start_separator@ == seq![c1],
        r.end_separator@ == seq![c2],
{
    Separators { start_separator: char_string(c1), end_separator: char_string(c2) }
}

pub fn parens_separators() -> (r: Separators)
    ensures
        r.start_separator@ == seq!['('],
        r.end_separator@ == seq![')'],
{
    make_char_separators('(', ')')
}

pub fn brackets_separators() -> (r: Separators)
    ensures
        r.start_separator@ == seq!['['],
        r.end_separator@ == seq![']'],
{
    make_char_separators('[', ']')
}

/// An operation as text: `+c` inserted, `-c` deleted, `~a/b` substituted,
/// and a kept character as itself.
pub open spec fn operation_text(e: EditOperation<char>) -> Seq<char> {
    match e {
        EditOperation::Insert(c) => seq!['+', c],
        EditOperation::Delete(c) => seq!['-', c],
        EditOperation::Substitute(a, b) => seq!['~', a, '/', b],
        EditOperation::Keep(c) => seq![c],
    }
}

/// Displays an edit operation with a symbol in front that names it.
pub fn default_display_edit_operations(e: EditOperation<char>) -> (r: String)
    ensures
        r@ == operation_text(e),
{
    let mut s = String::new();
    match e {
        EditOperation::Insert(c) => {
            push_char(&mut s, '+');
            push_char(&mut s, c);
        },
        EditOperation::Delete(c) => {
            push_char(&mut s, '-');
            push_char(&mut s, c);
        },
        EditOperation::Substitute(a, b) => {
            push_char(&mut s, '~');
            push_char(&mut s, a);
            push_char(&mut s, '/');
            push_char(&mut s, b);
        },
        EditOperation::Keep(c) => {
            push_char(&mut s, c);
        },
    }
    assert(s@ =~= operation_text(e));
    s
}

} // verus!
