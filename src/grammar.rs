//! The script grammar as mathematical functions on character sequences.
//!
//! Each production takes the input and a start position and returns the
//! model of what it reads with the position just after it, or `None`.
//! Alternatives are tried in order and the first that matches wins.
//! Whitespace and comments ("trivia") may stand between any two tokens.
use vstd::prelude::*;
use crate::ast::{AtomV, CellV};
use crate::interp_spec::trim;

verus! {

/// Whitespace: space, tab, carriage return and newline.
pub open spec fn is_space(c: char) -> bool {
    c == ' ' || c == '\t' || c == '\n' || c == '\r'
}

pub open spec fn is_ident_start(c: char) -> bool {
    ('a' <= c && c <= 'z') || ('A' <= c && c <= 'Z') || c == '_'
}

pub open spec fn is_ident_char(c: char) -> bool {
    is_ident_start(c) || is_digit(c)
}

pub open spec fn is_digit(c: char) -> bool {
    '0' <= c && c <= '9'
}

/// `s` holds the characters of `w` from position `i` on.
pub open spec fn word_at(s: Seq<char>, i: int, w: Seq<char>) -> bool {
    0 <= i && i + w.len() <= s.len() && s.subrange(i, i + w.len()) == w
}

/// The first newline at or after `i`, or the end of the input.
pub open spec fn line_end(s: Seq<char>, i: int) -> int
    decreases s.len() - i,
{
    if i >= s.len() {
        s.len() as int
    } else if s[i] == '\n' {
        i
    } else {
        line_end(s, i + 1)
    }
}

/// The position just after the first `*/` at or after `i`.
pub open spec fn block_comment_end(s: Seq<char>, i: int) -> Option<int>
    decreases s.len() - i,
{
    if i < 0 || i + 1 >= s.len() {
        None
    } else if s[i] == '*' && s[i + 1] == '/' {
        Some(i + 2)
    } else {
        block_comment_end(s, i + 1)
    }
}

/// The end of a comment that starts at `i`: `//` runs through the end of the
/// line, `/*` through the first following `*/`.
pub open spec fn comment_end(s: Seq<char>, i: int) -> Option<int> {
    if 0 <= i && i + 1 < s.len() && s[i] == '/' && s[i + 1] == '/' {
        let e = line_end(s, i + 2);
        Some(if e < s.len() { e + 1 } else { e })
    } else if 0 <= i && i + 1 < s.len() && s[i] == '/' && s[i + 1] == '*' {
        block_comment_end(s, i + 2)
    } else {
        None
    }
}

/// The position after all whitespace and comments from `i` on.
pub open spec fn skip_trivia(s: Seq<char>, i: int) -> int
    decreases s.len() - i,
{
    if i < 0 || i >= s.len() {
        i
    } else if is_space(s[i]) {
        skip_trivia(s, i + 1)
    } else {
        match comment_end(s, i) {
            Some(j) => if i < j && j <= s.len() {
                skip_trivia(s, j)
            } else {
                i
            },
            None => i,
        }
    }
}

/// The end of the run of identifier characters from `i` on.
pub open spec fn ident_end(s: Seq<char>, i: int) -> int
    decreases s.len() - i,
{
    if 0 <= i < s.len() && is_ident_char(s[i]) {
        ident_end(s, i + 1)
    } else {
        i
    }
}

/// The end of the run of decimal digits from `i` on.
pub open spec fn digits_end(s: Seq<char>, i: int) -> int
    decreases s.len() - i,
{
    if 0 <= i < s.len() && is_digit(s[i]) {
        digits_end(s, i + 1)
    } else {
        i
    }
}

/// The first `"` at or after `i`.
pub open spec fn quote_at_or_after(s: Seq<char>, i: int) -> Option<int>
    decreases s.len() - i,
{
    if i < 0 || i >= s.len() {
        None
    } else if s[i] == '"' {
        Some(i)
    } else {
        quote_at_or_after(s, i + 1)
    }
}

/// The first `}:` at or after `i`: where a raw task or block body ends.
pub open spec fn body_close(s: Seq<char>, i: int) -> Option<int>
    decreases s.len() - i,
{
    if i < 0 || i + 1 >= s.len() {
        None
    } else if s[i] == '}' && s[i + 1] == ':' {
        Some(i)
    } else {
        body_close(s, i + 1)
    }
}

pub open spec fn digit_value(c: char) -> nat {
    ((c as u32) - ('0' as u32)) as nat
}

/// The value of a string of decimal digits.
pub open spec fn digits_value(d: Seq<char>) -> nat
    decreases d.len(),
{
    if d.len() == 0 {
        0
    } else {
        digits_value(d.drop_last()) * 10 + digit_value(d.last())
    }
}

/// Unicode white space, the characters for which `char::is_whitespace`
/// holds: tab through carriage return, space, next line, no-break space,
/// ogham space mark, the spaces from en quad to hair space, line and
/// paragraph separators, narrow no-break space, medium mathematical space
/// and ideographic space.
pub open spec fn is_white_space(c: char) -> bool {
    ('\u{9}' <= c && c <= '\u{d}') || c == ' ' || c == '\u{85}' || c == '\u{a0}' || c
        == '\u{1680}' || ('\u{2000}' <= c && c <= '\u{200a}') || c == '\u{2028}' || c
        == '\u{2029}' || c == '\u{202f}' || c == '\u{205f}' || c == '\u{3000}'
}

pub open spec fn kw_let() -> Seq<char> {
    seq!['l', 'e', 't']
}

pub open spec fn kw_task() -> Seq<char> {
    seq!['t', 'a', 's', 'k']
}

pub open spec fn kw_block() -> Seq<char> {
    seq!['b', 'l', 'o', 'c', 'k']
}

pub open spec fn kw_runtime() -> Seq<char> {
    seq!['r', 'u', 'n', 't', 'i', 'm', 'e']
}

pub open spec fn kw_package() -> Seq<char> {
    seq!['p', 'a', 'c', 'k', 'a', 'g', 'e']
}

pub open spec fn kw_import() -> Seq<char> {
    seq!['i', 'm', 'p', 'o', 'r', 't']
}

pub open spec fn kw_as() -> Seq<char> {
    seq!['a', 's']
}

pub open spec fn kw_true() -> Seq<char> {
    seq!['t', 'r', 'u', 'e']
}

pub open spec fn kw_false() -> Seq<char> {
    seq!['f', 'a', 'l', 's', 'e']
}

/// The name of the runtime that a package gets when none is written.
pub open spec fn package_runtime() -> Seq<char> {
    seq!['m', 'o', 't', 'o']
}

/// A keyword after optional trivia, followed by at least one whitespace character.
pub open spec fn keyword(s: Seq<char>, i: int, w: Seq<char>) -> Option<int> {
    let j = skip_trivia(s, i);
    if word_at(s, j, w) && j + w.len() < s.len() && is_space(s[j + w.len()]) {
        Some(j + w.len())
    } else {
        None
    }
}

/// One character after optional trivia.
pub open spec fn token(s: Seq<char>, i: int, c: char) -> Option<int> {
    let j = skip_trivia(s, i);
    if 0 <= j < s.len() && s[j] == c {
        Some(j + 1)
    } else {
        None
    }
}

/// An identifier with the trivia around it.
pub open spec fn identifier(s: Seq<char>, i: int) -> Option<(Seq<char>, int)> {
    let j = skip_trivia(s, i);
    if 0 <= j < s.len() && is_ident_start(s[j]) {
        let e = ident_end(s, j + 1);
        Some((s.subrange(j, e), skip_trivia(s, e)))
    } else {
        None
    }
}

/// A run of digits at `i` whose value fits in 64 bits.
pub open spec fn number(s: Seq<char>, i: int) -> Option<(u64, int)> {
    if 0 <= i < s.len() && is_digit(s[i]) {
        let e = digits_end(s, i);
        let v = digits_value(s.subrange(i, e));
        if v <= u64::MAX {
            Some((v as u64, e))
        } else {
            None
        }
    } else {
        None
    }
}

/// A double-quoted string at `i`; no escapes.
pub open spec fn string_lit(s: Seq<char>, i: int) -> Option<(Seq<char>, int)> {
    if 0 <= i < s.len() && s[i] == '"' {
        match quote_at_or_after(s, i + 1) {
            Some(e) => Some((s.subrange(i + 1, e), e + 1)),
            None => None,
        }
    } else {
        None
    }
}

/// `true` or `false` at `i`.
pub open spec fn boolean(s: Seq<char>, i: int) -> Option<(bool, int)> {
    if word_at(s, i, kw_true()) {
        Some((true, i + 4))
    } else if word_at(s, i, kw_false()) {
        Some((false, i + 5))
    } else {
        None
    }
}

pub open spec fn is_two_char_operator(a: char, b: char) -> bool {
    (a == '=' && b == '=') || (a == '!' && b == '=') || (a == '>' && b == '=') || (a == '<'
        && b == '=') || (a == '&' && b == '&') || (a == '|' && b == '|')
}

pub open spec fn is_one_char_operator(a: char) -> bool {
    a == '+' || a == '-' || a == '*' || a == '/' || a == '>' || a == '<'
}

/// A binary operator at `i`, the longest that matches.
pub open spec fn operator(s: Seq<char>, i: int) -> Option<(Seq<char>, int)> {
    if 0 <= i && i + 1 < s.len() && is_two_char_operator(s[i], s[i + 1]) {
        Some((s.subrange(i, i + 2), i + 2))
    } else if 0 <= i < s.len() && is_one_char_operator(s[i]) {
        Some((s.subrange(i, i + 1), i + 1))
    } else {
        None
    }
}

/// An atom, with the trivia before it: a primary atom, optionally followed
/// by an operator and a further atom (which groups to the right).
pub open spec fn atom(s: Seq<char>, i: int) -> Option<(AtomV, int)>
    decreases s.len() - i, 3int,
{
    let j = skip_trivia(s, i);
    if j < i || j > s.len() {
        None
    } else {
        match primary(s, j) {
            None => None,
            Some((a, k)) => match operator(s, skip_trivia(s, k)) {
                Some((op, m)) => if i < m {
                    match atom(s, m) {
                        Some((b, e)) => Some((AtomV::BinaryOperation(Box::new(a), op, Box::new(b)), e)),
                        None => Some((a, k)),
                    }
                } else {
                    None
                },
                None => Some((a, k)),
            },
        }
    }
}

/// An atom that is not a binary operation, at `j`.
pub open spec fn primary(s: Seq<char>, j: int) -> Option<(AtomV, int)>
    decreases s.len() - j, 2int,
{
    if j < 0 || j >= s.len() {
        None
    } else if is_digit(s[j]) {
        match number(s, j) {
            Some((n, e)) => Some((AtomV::Number(n), e)),
            None => None,
        }
    } else if s[j] == '"' {
        match string_lit(s, j) {
            Some((t, e)) => Some((AtomV::Str(t), e)),
            None => None,
        }
    } else if s[j] == 't' || s[j] == 'f' {
        match boolean(s, j) {
            Some((b, e)) => Some((AtomV::Boolean(b), e)),
            None => None,
        }
    } else if s[j] == '[' && j + 1 < s.len() && s[j + 1] == ':' {
        match function(s, j) {
            Some((f, e)) => Some((AtomV::Function(f.0, f.1), e)),
            None => None,
        }
    } else if s[j] == '[' {
        match array(s, j) {
            Some((v, e)) => Some((AtomV::Array(v), e)),
            None => None,
        }
    } else if s[j] == '{' {
        match object(s, j) {
            Some((v, e)) => Some((AtomV::Object(v), e)),
            None => None,
        }
    } else {
        None
    }
}

/// Atoms separated by commas, at least one.
pub open spec fn items(s: Seq<char>, i: int) -> Option<(Seq<AtomV>, int)>
    decreases s.len() - i, 4int,
{
    match atom(s, i) {
        None => None,
        Some((a, j)) => {
            let k = skip_trivia(s, j);
            if 0 <= k < s.len() && s[k] == ',' {
                if i <= k {
                    match items(s, k + 1) {
                        Some((rest, m)) => Some((seq![a] + rest, m)),
                        None => None,
                    }
                } else {
                    None
                }
            } else {
                Some((seq![a], j))
            }
        },
    }
}

/// A possibly empty list of comma-separated atoms closed by `close`; the
/// position is that just after `close`.
pub open spec fn list(s: Seq<char>, i: int, close: char) -> Option<(Seq<AtomV>, int)>
    decreases s.len() - i, 5int,
{
    let k = skip_trivia(s, i);
    if 0 <= k < s.len() && s[k] == close {
        Some((Seq::empty(), k + 1))
    } else if i <= k && k <= s.len() {
        match items(s, k) {
            Some((v, m)) => match token(s, m, close) {
                Some(e) => Some((v, e)),
                None => None,
            },
            None => None,
        }
    } else {
        None
    }
}

/// `[` atoms `]` at `j`.
pub open spec fn array(s: Seq<char>, j: int) -> Option<(Seq<AtomV>, int)>
    decreases s.len() - j, 1int,
{
    if 0 <= j < s.len() && s[j] == '[' {
        list(s, j + 1, ']')
    } else {
        None
    }
}

/// `[:` name `(` atoms `)` `]` at `j`.
pub open spec fn function(s: Seq<char>, j: int) -> Option<((Seq<char>, Seq<AtomV>), int)>
    decreases s.len() - j, 1int,
{
    if 0 <= j && j + 1 < s.len() && s[j] == '[' && s[j + 1] == ':' {
        match identifier(s, j + 2) {
            Some((name, k)) => if j < k && k < s.len() && s[k] == '(' {
                match list(s, k + 1, ')') {
                    Some((args, m)) => match token(s, m, ']') {
                        Some(e) => Some(((name, args), e)),
                        None => None,
                    },
                    None => None,
                }
            } else {
                None
            },
            None => None,
        }
    } else {
        None
    }
}

/// An object key: an identifier or a string, with the trivia around it.
pub open spec fn key(s: Seq<char>, i: int) -> Option<(Seq<char>, int)> {
    let j = skip_trivia(s, i);
    if 0 <= j < s.len() && s[j] == '"' {
        match string_lit(s, j) {
            Some((k, e)) => Some((k, skip_trivia(s, e))),
            None => None,
        }
    } else {
        identifier(s, j)
    }
}

/// Key/value pairs separated by commas, at least one.
pub open spec fn pairs(s: Seq<char>, i: int) -> Option<(Seq<(Seq<char>, AtomV)>, int)>
    decreases s.len() - i, 0int,
{
    match key(s, i) {
        None => None,
        Some((k, j)) => if 0 <= j < s.len() && s[j] == ':' && i <= j {
            match atom(s, j + 1) {
                None => None,
                Some((v, m)) => {
                    let c = skip_trivia(s, m);
                    if 0 <= c < s.len() && s[c] == ',' && i <= c {
                        match pairs(s, c + 1) {
                            Some((rest, e)) => Some((seq![(k, v)] + rest, e)),
                            None => None,
                        }
                    } else {
                        Some((seq![(k, v)], m))
                    }
                },
            }
        } else {
            None
        },
    }
}

/// `{` pairs `}` at `j`.
pub open spec fn object(s: Seq<char>, j: int) -> Option<(Seq<(Seq<char>, AtomV)>, int)>
    decreases s.len() - j, 1int,
{
    if 0 <= j < s.len() && s[j] == '{' {
        let k = skip_trivia(s, j + 1);
        if 0 <= k < s.len() && s[k] == '}' {
            Some((Seq::empty(), k + 1))
        } else if j < k && k <= s.len() {
            match pairs(s, k) {
                Some((v, m)) => match token(s, m, '}') {
                    Some(e) => Some((v, e)),
                    None => None,
                },
                None => None,
            }
        } else {
            None
        }
    } else {
        None
    }
}

/// `let` name `=` atom `;`
pub open spec fn assignment(s: Seq<char>, i: int) -> Option<((Seq<char>, AtomV), int)> {
    match keyword(s, i, kw_let()) {
        None => None,
        Some(a) => match identifier(s, a) {
            None => None,
            Some((name, b)) => match token(s, b, '=') {
                None => None,
                Some(c) => match atom(s, c) {
                    None => None,
                    Some((v, d)) => match token(s, d, ';') {
                        None => None,
                        Some(e) => Some(((name, v), e)),
                    },
                },
            },
        },
    }
}

/// keyword name `{` raw body `}:` runtime, for tasks and blocks. The body is
/// the raw text up to the first `}:`, lines and inner spacing kept, with the
/// white space at both ends trimmed.
pub open spec fn raw_cell(s: Seq<char>, i: int, w: Seq<char>) -> Option<
    ((Seq<char>, Seq<char>, Seq<char>), int),
> {
    match keyword(s, i, w) {
        None => None,
        Some(a) => match identifier(s, a) {
            None => None,
            Some((name, b)) => if 0 <= b < s.len() && s[b] == '{' {
                match body_close(s, b + 1) {
                    None => None,
                    Some(c) => match identifier(s, c + 2) {
                        None => None,
                        Some((rt, e)) => Some(
                            ((name, trim(s.subrange(b + 1, c)), rt), e),
                        ),
                    },
                }
            } else {
                None
            },
        },
    }
}

pub open spec fn task(s: Seq<char>, i: int) -> Option<((Seq<char>, Seq<char>, Seq<char>), int)> {
    raw_cell(s, i, kw_task())
}

pub open spec fn block(s: Seq<char>, i: int) -> Option<((Seq<char>, Seq<char>, Seq<char>), int)> {
    raw_cell(s, i, kw_block())
}

/// `import` string `as` name
pub open spec fn import(s: Seq<char>, i: int) -> Option<((Seq<char>, Seq<char>), int)> {
    match keyword(s, i, kw_import()) {
        None => None,
        Some(a) => match string_lit(s, skip_trivia(s, a)) {
            None => None,
            Some((path, b)) => match keyword(s, b, kw_as()) {
                None => None,
                Some(c) => match identifier(s, c) {
                    None => None,
                    Some((alias, e)) => Some(((path, alias), e)),
                },
            },
        },
    }
}

/// A cell that may stand in a runtime: an assignment or a task.
pub open spec fn runtime_member(s: Seq<char>, i: int) -> Option<(CellV, int)> {
    match assignment(s, i) {
        Some((a, e)) => Some((CellV::Assignment(a.0, a.1), e)),
        None => match task(s, i) {
            Some((t, e)) => Some((CellV::Task(t.0, t.1, t.2), e)),
            None => None,
        },
    }
}

/// As many runtime members as follow one another from `i` on.
pub open spec fn runtime_members(s: Seq<char>, i: int) -> (Seq<CellV>, int)
    decreases s.len() - i,
{
    match runtime_member(s, i) {
        Some((c, j)) => if i < j <= s.len() {
            let (rest, e) = runtime_members(s, j);
            (seq![c] + rest, e)
        } else {
            (Seq::empty(), i)
        },
        None => (Seq::empty(), i),
    }
}

/// The closing `}:` runtime of a runtime or package, from `i` on.
pub open spec fn close_tag(s: Seq<char>, i: int) -> Option<(Seq<char>, int)> {
    let d = skip_trivia(s, i);
    if 0 <= d && d + 1 < s.len() && s[d] == '}' && s[d + 1] == ':' {
        identifier(s, d + 2)
    } else {
        None
    }
}

/// `runtime` name `{` (assignment | task)* `}:` runtime
pub open spec fn runtime(s: Seq<char>, i: int) -> Option<
    ((Seq<char>, Seq<CellV>, Seq<char>), int),
> {
    match keyword(s, i, kw_runtime()) {
        None => None,
        Some(a) => match identifier(s, a) {
            None => None,
            Some((name, b)) => if 0 <= b < s.len() && s[b] == '{' {
                let (kids, c) = runtime_members(s, b + 1);
                match close_tag(s, c) {
                    None => None,
                    Some((rt, e)) => Some(((name, kids, rt), e)),
                }
            } else {
                None
            },
        },
    }
}

/// A cell that may stand at the top level or in a package, alternatives
/// tried in this order: assignment, task, runtime, block, import.
pub open spec fn member(s: Seq<char>, i: int) -> Option<(CellV, int)> {
    match runtime_member(s, i) {
        Some(r) => Some(r),
        None => match runtime(s, i) {
            Some((r, e)) => Some((CellV::Runtime(r.0, r.1, r.2), e)),
            None => match block(s, i) {
                Some((b, e)) => Some((CellV::Block(b.0, b.1, b.2), e)),
                None => match import(s, i) {
                    Some((m, e)) => Some((CellV::Import(m.0, m.1), e)),
                    None => None,
                },
            },
        },
    }
}

/// As many members as follow one another from `i` on.
pub open spec fn members(s: Seq<char>, i: int) -> (Seq<CellV>, int)
    decreases s.len() - i,
{
    match member(s, i) {
        Some((c, j)) => if i < j <= s.len() {
            let (rest, e) = members(s, j);
            (seq![c] + rest, e)
        } else {
            (Seq::empty(), i)
        },
        None => (Seq::empty(), i),
    }
}

/// `package` name `{` members `}:` runtime
pub open spec fn package(s: Seq<char>, i: int) -> Option<
    ((Seq<char>, Seq<CellV>, Seq<char>), int),
> {
    match keyword(s, i, kw_package()) {
        None => None,
        Some(a) => match identifier(s, a) {
            None => None,
            Some((name, b)) => if 0 <= b < s.len() && s[b] == '{' {
                let (kids, c) = members(s, b + 1);
                match close_tag(s, c) {
                    None => None,
                    Some((rt, e)) => Some(((name, kids, rt), e)),
                }
            } else {
                None
            },
        },
    }
}

/// A top-level cell with the trivia after it.
pub open spec fn cell(s: Seq<char>, i: int) -> Option<(CellV, int)> {
    match member(s, i) {
        Some((c, e)) => Some((c, skip_trivia(s, e))),
        None => None,
    }
}

/// As many top-level cells as follow one another from `i` on; reading stops
/// at the first place where no cell starts.
pub open spec fn cells(s: Seq<char>, i: int) -> (Seq<CellV>, int)
    decreases s.len() - i,
{
    match cell(s, i) {
        Some((c, j)) => if i < j <= s.len() {
            let (rest, e) = cells(s, j);
            (seq![c] + rest, e)
        } else {
            (Seq::empty(), i)
        },
        None => (Seq::empty(), i),
    }
}

/// A whole script: the cells, or the position of the first text that is
/// neither trivia nor a cell.
pub open spec fn script(s: Seq<char>) -> Result<Seq<CellV>, int> {
    let (cs, e) = cells(s, 0);
    let t = skip_trivia(s, e);
    if t == s.len() {
        Ok(cs)
    } else {
        Err(t)
    }
}

/// A variable reference: `open` name, optionally `=` atom, then `]`.
/// Without a fallback the fallback is `Null`.
pub open spec fn variable(s: Seq<char>, i: int, open: Seq<char>) -> Option<
    ((Seq<char>, AtomV), int),
> {
    if word_at(s, i, open) {
        match identifier(s, i + open.len()) {
            None => None,
            Some((name, k)) => if 0 <= k < s.len() && s[k] == '=' {
                match atom(s, k + 1) {
                    None => None,
                    Some((d, m)) => match token(s, m, ']') {
                        Some(e) => Some(((name, d), e)),
                        None => None,
                    },
                }
            } else {
                match token(s, k, ']') {
                    Some(e) => Some(((name, AtomV::Null), e)),
                    None => None,
                }
            },
        }
    } else {
        None
    }
}

/// The first `[:` at or after `i`.
pub open spec fn marker_from(s: Seq<char>, i: int) -> Option<int>
    decreases s.len() - i,
{
    if i < 0 || i + 1 >= s.len() {
        None
    } else if s[i] == '[' && s[i + 1] == ':' {
        Some(i)
    } else {
        marker_from(s, i + 1)
    }
}

/// Where the text before the next `[:` (or before the end) stops.
pub open spec fn text_end(s: Seq<char>, i: int) -> int {
    match marker_from(s, i) {
        Some(m) => m,
        None => s.len() as int,
    }
}

/// One key/value pair: key `:` atom.
pub open spec fn key_value(s: Seq<char>, i: int) -> Option<((Seq<char>, AtomV), int)> {
    match key(s, i) {
        Some((k, j)) => if 0 <= j < s.len() && s[j] == ':' {
            match atom(s, j + 1) {
                Some((v, m)) => Some(((k, v), m)),
                None => None,
            }
        } else {
            None
        },
        None => None,
    }
}

/// A primary atom, an operator and a further atom, with trivia between them.
pub open spec fn binary_operation(s: Seq<char>, i: int) -> Option<
    ((AtomV, Seq<char>, AtomV), int),
> {
    match primary(s, skip_trivia(s, i)) {
        None => None,
        Some((a, k)) => match operator(s, skip_trivia(s, k)) {
            None => None,
            Some((op, m)) => match atom(s, m) {
                None => None,
                Some((b, e)) => Some(((a, op, b), e)),
            },
        },
    }
}

} // verus!
