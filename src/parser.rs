//! Reading scripts: one public function per production of the grammar.
//!
//! Each function reads from the start of its input and returns what is left
//! of the input together with the value read, or a `ParseError` that gives
//! the character offset at which the construct was expected.
use vstd::prelude::*;
use vstd::string::StrSliceExecFns;
use crate::ast::{
    Array, Assignment, Atom, BinaryOperation, Block, Cell, Function, Identifier, Import, Object,
    Operator, Package, Runtime, Task, Variable, atoms_model, cells_model, pairs_model,
};
use crate::atoms::{
    atom_at, boolean_at, function_at, identifier_at, key_at, number_at, object_at, operator_at,
    primary_at, string_at, text_between, array_at, token_at,
};
use crate::cells::{
    assignment_at, block_at, cell_at, cells_at, import_at, package_at, runtime_at, task_at,
};
use crate::grammar::{
    array, assignment, atom, binary_operation, block, boolean, cell, cells, comment_end, function,
    identifier, import, key_value, number, object, operator, package, runtime, script, skip_trivia,
    string_lit, task, text_end, variable,
};
use crate::scan::{comment_end_at, marker_from_at, skip_trivia_at, word_at_exec};
use crate::text::chars_of;

verus! {

/// Where and why reading stopped.
#[derive(Debug, Clone, PartialEq, Eq)]
pub struct ParseError {
    /// Character offset in the input at which the expected construct did not start.
    pub position: usize,
}

/// The input after its first `e` characters.
pub open spec fn rest_of(input: Seq<char>, e: int) -> Seq<char> {
    input.subrange(e, input.len() as int)
}

/// The error every reader reports when its production does not match.
pub open spec fn error_at_start(input: Seq<char>) -> ParseError {
    ParseError { position: skip_trivia(input, 0) as usize }
}

/// Reads a whole script. Succeeds when nothing but whitespace and comments
/// follows the last cell; otherwise reports where the unreadable text starts.
///
/// This is stricter than `parse_cells`, which stops quietly at the first text
/// that is no cell: a script whose task misses its closing `}:runtime` must
/// be rejected with a `ParseError` rather than loaded in part, so that the
/// loader can report the file and skip it.
pub fn parse(input: &str) -> (r: Result<Vec<Cell>, ParseError>)
    ensures
        match script(input@) {
            Ok(cs) => r matches Ok(v) && cells_model(v@) == cs,
            Err(p) => r matches Err(err) && err.position == p,
        },
{
    let s = chars_of(input);
    let (v, e) = cells_at(&s, 0);
    let t = skip_trivia_at(&s, e);
    if t == s.len() {
        Ok(v)
    } else {
        Err(ParseError { position: t })
    }
}

/// Reads one top-level cell (assignment, task, runtime, block or import)
/// with the whitespace and comments around it.
pub fn parse_cell<'a>(input: &'a str) -> (r: Result<(&'a str, Cell), ParseError>)
    ensures
        match cell(input@, 0) {
            Some((m, e)) => r matches Ok((rest, c)) && rest@ == rest_of(input@, e) && c@ == m,
            None => r == Err::<(&str, Cell), ParseError>(error_at_start(input@)),
        },
{
    let s = chars_of(input);
    match cell_at(&s, 0) {
        Some((c, e)) => Ok((input.substring_char(e, s.len()), c)),
        None => Err(ParseError { position: skip_trivia_at(&s, 0) }),
    }
}

/// Reads as many top-level cells as follow one another; stops without error
/// where no further cell starts, and returns the text from there on.
pub fn parse_cells<'a>(input: &'a str) -> (r: Result<(&'a str, Vec<Cell>), ParseError>)
    ensures
        r matches Ok((rest, v)) && rest@ == rest_of(input@, cells(input@, 0).1) && cells_model(v@)
            == cells(input@, 0).0,
{
    let s = chars_of(input);
    let (v, e) = cells_at(&s, 0);
    Ok((input.substring_char(e, s.len()), v))
}

/// Reads one comment, `// ...` through the end of its line or `/* ... */`.
pub fn comment<'a>(input: &'a str) -> (r: Result<(&'a str, &'a str), ParseError>)
    ensures
        match comment_end(input@, 0) {
            Some(e) => r matches Ok((rest, t)) && rest@ == rest_of(input@, e) && t@.len() == 0,
            None => r matches Err(err) && err.position == 0,
        },
{
    let s = chars_of(input);
    match comment_end_at(&s, 0) {
        Some(e) => {
            proof {
                reveal_strlit("");
            }
            Ok((input.substring_char(e, s.len()), ""))
        },
        None => Err(ParseError { position: 0 }),
    }
}

/// Reads a `//` comment through the end of its line.
pub fn single_line_comment<'a>(input: &'a str) -> (r: Result<(&'a str, &'a str), ParseError>)
    ensures
        match comment_end(input@, 0) {
            Some(e) => if input@[1] == '/' {
                r matches Ok((rest, t)) && rest@ == rest_of(input@, e) && t@.len() == 0
            } else {
                r matches Err(err) && err.position == 0
            },
            None => r matches Err(err) && err.position == 0,
        },
{
    let s = chars_of(input);
    if s.len() >= 2 && s[1] == '/' {
        comment(input)
    } else {
        Err(ParseError { position: 0 })
    }
}

/// Reads a `/* ... */` comment.
pub fn multi_line_comment<'a>(input: &'a str) -> (r: Result<(&'a str, &'a str), ParseError>)
    ensures
        match comment_end(input@, 0) {
            Some(e) => if input@[1] == '*' {
                r matches Ok((rest, t)) && rest@ == rest_of(input@, e) && t@.len() == 0
            } else {
                r matches Err(err) && err.position == 0
            },
            None => r matches Err(err) && err.position == 0,
        },
{
    let s = chars_of(input);
    if s.len() >= 2 && s[1] == '*' {
        comment(input)
    } else {
        Err(ParseError { position: 0 })
    }
}

/// Skips whitespace and comments; never fails.
pub fn comments<'a>(input: &'a str) -> (r: Result<(&'a str, &'a str), ParseError>)
    ensures
        r matches Ok((rest, t)) && rest@ == rest_of(input@, skip_trivia(input@, 0)) && t@.len()
            == 0,
{
    ignore_comments_and_spaces(input)
}

/// Skips whitespace and comments; never fails.
pub fn ignore_comments_and_spaces<'a>(input: &'a str) -> (r: Result<(&'a str, &'a str), ParseError>)
    ensures
        r matches Ok((rest, t)) && rest@ == rest_of(input@, skip_trivia(input@, 0)) && t@.len()
            == 0,
{
    let s = chars_of(input);
    let e = skip_trivia_at(&s, 0);
    proof {
        reveal_strlit("");
    }
    Ok((input.substring_char(e, s.len()), ""))
}

/// Reads `package name { cells }:runtime`.
pub fn parse_package<'a>(input: &'a str) -> (r: Result<(&'a str, Package), ParseError>)
    ensures
        match package(input@, 0) {
            Some((m, e)) => r matches Ok((rest, p)) && rest@ == rest_of(input@, e) && (
            p.identifer.0@, cells_model(p.children@), p.runtime.0@) == m,
            None => r == Err::<(&str, Package), ParseError>(error_at_start(input@)),
        },
{
    let s = chars_of(input);
    match package_at(&s, 0) {
        Some((p, e)) => Ok((input.substring_char(e, s.len()), p)),
        None => Err(ParseError { position: skip_trivia_at(&s, 0) }),
    }
}

/// Reads `let name = atom;`.
pub fn parse_assignment<'a>(input: &'a str) -> (r: Result<(&'a str, Assignment), ParseError>)
    ensures
        match assignment(input@, 0) {
            Some((m, e)) => r matches Ok((rest, a)) && rest@ == rest_of(input@, e) && (
            a.identifier.0@, a.value@) == m,
            None => r == Err::<(&str, Assignment), ParseError>(error_at_start(input@)),
        },
{
    let s = chars_of(input);
    match assignment_at(&s, 0) {
        Some((a, e)) => Ok((input.substring_char(e, s.len()), a)),
        None => Err(ParseError { position: skip_trivia_at(&s, 0) }),
    }
}

/// Reads `task name { body }:runtime`; the body runs to the first `}:`.
pub fn parse_task<'a>(input: &'a str) -> (r: Result<(&'a str, Task), ParseError>)
    ensures
        match task(input@, 0) {
            Some((m, e)) => r matches Ok((rest, t)) && rest@ == rest_of(input@, e) && (
            t.identifer.0@, t.body@, t.runtime.0@) == m,
            None => r == Err::<(&str, Task), ParseError>(error_at_start(input@)),
        },
{
    let s = chars_of(input);
    match task_at(&s, 0) {
        Some((t, e)) => Ok((input.substring_char(e, s.len()), t)),
        None => Err(ParseError { position: skip_trivia_at(&s, 0) }),
    }
}

/// Reads `runtime name { assignments and tasks }:runtime`.
pub fn parse_runtime<'a>(input: &'a str) -> (r: Result<(&'a str, Runtime), ParseError>)
    ensures
        match runtime(input@, 0) {
            Some((m, e)) => r matches Ok((rest, t)) && rest@ == rest_of(input@, e) && (
            t.identifer.0@, cells_model(t.children@), t.runtime.0@) == m,
            None => r == Err::<(&str, Runtime), ParseError>(error_at_start(input@)),
        },
{
    let s = chars_of(input);
    match runtime_at(&s, 0) {
        Some((t, e)) => Ok((input.substring_char(e, s.len()), t)),
        None => Err(ParseError { position: skip_trivia_at(&s, 0) }),
    }
}

/// Reads `block name { body }:runtime`; the body runs to the first `}:`.
pub fn parse_block<'a>(input: &'a str) -> (r: Result<(&'a str, Block), ParseError>)
    ensures
        match block(input@, 0) {
            Some((m, e)) => r matches Ok((rest, t)) && rest@ == rest_of(input@, e) && (
            t.identifer.0@, t.body@, t.runtime.0@) == m,
            None => r == Err::<(&str, Block), ParseError>(error_at_start(input@)),
        },
{
    let s = chars_of(input);
    match block_at(&s, 0) {
        Some((t, e)) => Ok((input.substring_char(e, s.len()), t)),
        None => Err(ParseError { position: skip_trivia_at(&s, 0) }),
    }
}

/// Reads `import "path" as alias`.
pub fn parse_import<'a>(input: &'a str) -> (r: Result<(&'a str, Import), ParseError>)
    ensures
        match import(input@, 0) {
            Some((m, e)) => r matches Ok((rest, t)) && rest@ == rest_of(input@, e) && (t.path@,
            t.alias.0@) == m,
            None => r == Err::<(&str, Import), ParseError>(error_at_start(input@)),
        },
{
    let s = chars_of(input);
    match import_at(&s, 0) {
        Some((t, e)) => Ok((input.substring_char(e, s.len()), t)),
        None => Err(ParseError { position: skip_trivia_at(&s, 0) }),
    }
}

/// Reads an identifier, `[A-Za-z_][A-Za-z0-9_]*`, with the trivia around it.
pub fn parse_identifier<'a>(input: &'a str) -> (r: Result<(&'a str, Identifier), ParseError>)
    ensures
        match identifier(input@, 0) {
            Some((m, e)) => r matches Ok((rest, t)) && rest@ == rest_of(input@, e) && t.0@ == m,
            None => r == Err::<(&str, Identifier), ParseError>(error_at_start(input@)),
        },
{
    let s = chars_of(input);
    match identifier_at(&s, 0) {
        Some((t, e)) => Ok((input.substring_char(e, s.len()), Identifier(t))),
        None => Err(ParseError { position: skip_trivia_at(&s, 0) }),
    }
}

/// Reads an atom: number, string, boolean, array, object or function call,
/// optionally followed by an operator and a further atom.
pub fn parse_atom<'a>(input: &'a str) -> (r: Result<(&'a str, Atom), ParseError>)
    ensures
        match atom(input@, 0) {
            Some((m, e)) => r matches Ok((rest, t)) && rest@ == rest_of(input@, e) && t@ == m,
            None => r == Err::<(&str, Atom), ParseError>(error_at_start(input@)),
        },
{
    let s = chars_of(input);
    match atom_at(&s, 0) {
        Some((t, e)) => Ok((input.substring_char(e, s.len()), t)),
        None => Err(ParseError { position: skip_trivia_at(&s, 0) }),
    }
}

fn variable_at(s: &Vec<char>, open: &Vec<char>) -> (r: Option<(Variable, usize)>)
    ensures
        match r {
            Some((v, e)) => variable(s@, 0, open@) == Some(
                ((v.identifier.0@, v.value@), e as int),
            ) && e <= s.len(),
            None => variable(s@, 0, open@) is None,
        },
{
    if !word_at_exec(s, 0, open) {
        return None;
    }
    let (name, k) = match identifier_at(s, open.len()) {
        Some(x) => x,
        None => return None,
    };
    if k < s.len() && s[k] == '=' {
        match atom_at(s, k + 1) {
            None => None,
            Some((d, m)) => match token_at(s, m, ']') {
                Some(e) => Some((Variable { identifier: Identifier(name), value: d }, e)),
                None => None,
            },
        }
    } else {
        match token_at(s, k, ']') {
            Some(e) => Some((Variable { identifier: Identifier(name), value: Atom::Null }, e)),
            None => None,
        }
    }
}

/// Reads `[name]` or `[name=atom]`.
pub fn parse_variable_atom<'a>(input: &'a str) -> (r: Result<(&'a str, Variable), ParseError>)
    ensures
        match variable(input@, 0, seq!['[']) {
            Some((m, e)) => r matches Ok((rest, t)) && rest@ == rest_of(input@, e) && (
            t.identifier.0@, t.value@) == m,
            None => r matches Err(err) && err.position == 0,
        },
{
    let s = chars_of(input);
    let open = vec!['['];
    assert(open@ =~= seq!['[']);
    match variable_at(&s, &open) {
        Some((t, e)) => Ok((input.substring_char(e, s.len()), t)),
        None => Err(ParseError { position: 0 }),
    }
}

/// Reads `[:name]` or `[:name=atom]`.
pub fn parse_variable<'a>(input: &'a str) -> (r: Result<(&'a str, Variable), ParseError>)
    ensures
        match variable(input@, 0, seq!['[', ':']) {
            Some((m, e)) => r matches Ok((rest, t)) && rest@ == rest_of(input@, e) && (
            t.identifier.0@, t.value@) == m,
            None => r matches Err(err) && err.position == 0,
        },
{
    let s = chars_of(input);
    let open = vec!['[', ':'];
    assert(open@ =~= seq!['[', ':']);
    match variable_at(&s, &open) {
        Some((t, e)) => Ok((input.substring_char(e, s.len()), t)),
        None => Err(ParseError { position: 0 }),
    }
}

/// Reads an operator with the trivia around it.
pub fn parse_binary_operator<'a>(input: &'a str) -> (r: Result<(&'a str, Operator), ParseError>)
    ensures
        match operator(input@, skip_trivia(input@, 0)) {
            Some((m, e)) => r matches Ok((rest, t)) && rest@ == rest_of(input@, skip_trivia(input@, e))
                && t.value@ == m,
            None => r == Err::<(&str, Operator), ParseError>(error_at_start(input@)),
        },
{
    let s = chars_of(input);
    let j = skip_trivia_at(&s, 0);
    match operator_at(&s, j) {
        Some((t, e)) => Ok((input.substring_char(skip_trivia_at(&s, e), s.len()), Operator { value: t })),
        None => Err(ParseError { position: j }),
    }
}

/// Reads an operator: `+ - * / == != > < >= <= && ||`, the longest that matches.
pub fn parse_operator<'a>(input: &'a str) -> (r: Result<(&'a str, Operator), ParseError>)
    ensures
        match operator(input@, 0) {
            Some((m, e)) => r matches Ok((rest, t)) && rest@ == rest_of(input@, e) && t.value@ == m,
            None => r matches Err(err) && err.position == 0,
        },
{
    let s = chars_of(input);
    match operator_at(&s, 0) {
        Some((t, e)) => Ok((input.substring_char(e, s.len()), Operator { value: t })),
        None => Err(ParseError { position: 0 }),
    }
}

/// Reads one or more decimal digits whose value fits in 64 bits.
pub fn parse_number<'a>(input: &'a str) -> (r: Result<(&'a str, u64), ParseError>)
    ensures
        match number(input@, 0) {
            Some((m, e)) => r matches Ok((rest, t)) && rest@ == rest_of(input@, e) && t == m,
            None => r matches Err(err) && err.position == 0,
        },
{
    let s = chars_of(input);
    match number_at(&s, 0) {
        Some((t, e)) => Ok((input.substring_char(e, s.len()), t)),
        None => Err(ParseError { position: 0 }),
    }
}

/// Reads a double-quoted string; there are no escapes.
pub fn parse_string<'a>(input: &'a str) -> (r: Result<(&'a str, String), ParseError>)
    ensures
        match string_lit(input@, 0) {
            Some((m, e)) => r matches Ok((rest, t)) && rest@ == rest_of(input@, e) && t@ == m,
            None => r matches Err(err) && err.position == 0,
        },
{
    let s = chars_of(input);
    match string_at(&s, 0) {
        Some((t, e)) => Ok((input.substring_char(e, s.len()), t)),
        None => Err(ParseError { position: 0 }),
    }
}

/// Reads `true` or `false`.
pub fn parse_boolean<'a>(input: &'a str) -> (r: Result<(&'a str, bool), ParseError>)
    ensures
        match boolean(input@, 0) {
            Some((m, e)) => r matches Ok((rest, t)) && rest@ == rest_of(input@, e) && t == m,
            None => r matches Err(err) && err.position == 0,
        },
{
    let s = chars_of(input);
    match boolean_at(&s, 0) {
        Some((t, e)) => Ok((input.substring_char(e, s.len()), t)),
        None => Err(ParseError { position: 0 }),
    }
}

/// Reads `[` atoms separated by commas `]`.
pub fn parse_array<'a>(input: &'a str) -> (r: Result<(&'a str, Array), ParseError>)
    ensures
        match array(input@, 0) {
            Some((m, e)) => r matches Ok((rest, t)) && rest@ == rest_of(input@, e) && atoms_model(
                t.values@,
            ) == m,
            None => r matches Err(err) && err.position == 0,
        },
{
    let s = chars_of(input);
    match array_at(&s, 0) {
        Some((t, e)) => Ok((input.substring_char(e, s.len()), Array { values: t })),
        None => Err(ParseError { position: 0 }),
    }
}

/// Reads `{` key `:` atom pairs separated by commas `}`, keeping their order.
pub fn parse_object<'a>(input: &'a str) -> (r: Result<(&'a str, Object), ParseError>)
    ensures
        match object(input@, 0) {
            Some((m, e)) => r matches Ok((rest, t)) && rest@ == rest_of(input@, e) && pairs_model(
                t.values@,
            ) == m,
            None => r matches Err(err) && err.position == 0,
        },
{
    let s = chars_of(input);
    match object_at(&s, 0) {
        Some((t, e)) => Ok((input.substring_char(e, s.len()), Object { values: t })),
        None => Err(ParseError { position: 0 }),
    }
}

/// Reads one `key: atom` pair.
pub fn parse_key_value_pair<'a>(input: &'a str) -> (r: Result<(&'a str, (String, Atom)), ParseError>)
    ensures
        match key_value(input@, 0) {
            Some((m, e)) => r matches Ok((rest, t)) && rest@ == rest_of(input@, e) && (t.0@,
            t.1@) == m,
            None => r == Err::<(&str, (String, Atom)), ParseError>(error_at_start(input@)),
        },
{
    let s = chars_of(input);
    match key_at(&s, 0) {
        Some((k, j)) => if j < s.len() && s[j] == ':' {
            match atom_at(&s, j + 1) {
                Some((v, m)) => Ok((input.substring_char(m, s.len()), (k, v))),
                None => Err(ParseError { position: skip_trivia_at(&s, 0) }),
            }
        } else {
            Err(ParseError { position: skip_trivia_at(&s, 0) })
        },
        None => Err(ParseError { position: skip_trivia_at(&s, 0) }),
    }
}

/// Reads `atom operator atom`.
pub fn parse_binary_operation<'a>(input: &'a str) -> (r: Result<(&'a str, BinaryOperation), ParseError>)
    ensures
        match binary_operation(input@, 0) {
            Some((m, e)) => r matches Ok((rest, t)) && rest@ == rest_of(input@, e) && (t.left@,
            t.operator.value@, t.right@) == m,
            None => r == Err::<(&str, BinaryOperation), ParseError>(error_at_start(input@)),
        },
{
    let s = chars_of(input);
    let j = skip_trivia_at(&s, 0);
    match primary_at(&s, j) {
        None => Err(ParseError { position: j }),
        Some((a, k)) => match operator_at(&s, skip_trivia_at(&s, k)) {
            None => Err(ParseError { position: j }),
            Some((op, m)) => match atom_at(&s, m) {
                None => Err(ParseError { position: j }),
                Some((b, e)) => Ok(
                    (
                        input.substring_char(e, s.len()),
                        BinaryOperation { left: a, operator: Operator { value: op }, right: b },
                    ),
                ),
            },
        },
    }
}

/// Reads `[:name(atoms)]`.
pub fn parse_function<'a>(input: &'a str) -> (r: Result<(&'a str, Function), ParseError>)
    ensures
        match function(input@, 0) {
            Some((m, e)) => r matches Ok((rest, t)) && rest@ == rest_of(input@, e) && (
            t.identifier.0@, atoms_model(t.arguments@)) == m,
            None => r matches Err(err) && err.position == 0,
        },
{
    let s = chars_of(input);
    match function_at(&s, 0) {
        Some((t, e)) => Ok((input.substring_char(e, s.len()), t)),
        None => Err(ParseError { position: 0 }),
    }
}

/// Reads the text before the first `[:`, or all of it; never fails.
pub fn parse_text<'a>(input: &'a str) -> (r: Result<(&'a str, String), ParseError>)
    ensures
        r matches Ok((rest, t)) && rest@ == rest_of(input@, text_end(input@, 0)) && t@
            == input@.subrange(0, text_end(input@, 0)),
{
    let s = chars_of(input);
    let e = match marker_from_at(&s, 0) {
        Some(m) => m,
        None => s.len(),
    };
    Ok((input.substring_char(e, s.len()), text_between(&s, 0, e)))
}

} // verus!
