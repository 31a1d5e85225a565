//! What interpolation means: placeholders in text, their classification,
//! their resolution against a variable store, and the fixpoint.
use vstd::prelude::*;
use crate::ast::AtomV;
use crate::grammar::{is_white_space, marker_from};
use crate::render::{atom_text, list_text};

verus! {

/// One part of an interpolated string.
pub enum PartV {
    /// Literal text.
    Text(Seq<char>),
    /// A variable reference: name and fallback (`Null` when none was given).
    Var(Seq<char>, AtomV),
    /// A function call: name and arguments.
    Call(Seq<char>, Seq<AtomV>),
}

/// The lower-case form of a text, as `str::to_lowercase` gives it.
pub uninterp spec fn lower_of(s: Seq<char>) -> Seq<char>;

/// The first `c` in `t` at or after `i`.
pub open spec fn index_from(t: Seq<char>, i: int, c: char) -> Option<int>
    decreases t.len() - i,
{
    if i < 0 || i >= t.len() {
        None
    } else if t[i] == c {
        Some(i)
    } else {
        index_from(t, i + 1, c)
    }
}

/// The last `c` in `t` before position `j`.
pub open spec fn index_before(t: Seq<char>, j: int, c: char) -> Option<int>
    decreases j,
{
    if j <= 0 || j > t.len() {
        None
    } else if t[j - 1] == c {
        Some(j - 1)
    } else {
        index_before(t, j - 1, c)
    }
}

/// The first placeholder at or after `i`: the position of its `[:` and of
/// the first `]` after that.
pub open spec fn placeholder_from(t: Seq<char>, i: int) -> Option<(int, int)> {
    match marker_from(t, i) {
        None => None,
        Some(m) => match index_from(t, m + 2, ']') {
            None => None,
            Some(c) => Some((m, c)),
        },
    }
}

/// `t` holds a complete placeholder, a `[:` with a `]` after it.
pub open spec fn has_placeholder(t: Seq<char>) -> bool {
    placeholder_from(t, 0) is Some
}

pub open spec fn first_non_space(t: Seq<char>, i: int) -> int
    decreases t.len() - i,
{
    if 0 <= i < t.len() && is_white_space(t[i]) {
        first_non_space(t, i + 1)
    } else {
        i
    }
}

pub open spec fn end_non_space(t: Seq<char>, j: int) -> int
    decreases j,
{
    if 0 < j <= t.len() && is_white_space(t[j - 1]) {
        end_non_space(t, j - 1)
    } else {
        j
    }
}

/// `t` without leading and trailing white space, as `str::trim` removes it.
pub open spec fn trim(t: Seq<char>) -> Seq<char> {
    let a = first_non_space(t, 0);
    let b = end_non_space(t, t.len() as int);
    if a < b {
        t.subrange(a, b)
    } else {
        Seq::empty()
    }
}

/// The key under which a variable name is stored and looked up.
pub open spec fn key_of(name: Seq<char>) -> Seq<char> {
    lower_of(trim(name))
}

/// A call argument: trimmed text, or a one-pair object when it holds `=`.
pub open spec fn argument(piece: Seq<char>) -> AtomV {
    let a = trim(piece);
    match index_from(a, 0, '=') {
        Some(q) => AtomV::Object(seq![(a.subrange(0, q), AtomV::Str(a.subrange(q + 1, a.len() as int)))]),
        None => AtomV::Str(a),
    }
}

/// The arguments in the comma-separated text `t` from `i` on.
pub open spec fn arguments_from(t: Seq<char>, i: int) -> Seq<AtomV>
    decreases t.len() - i,
{
    match index_from(t, i, ',') {
        Some(c) => if i <= c < t.len() {
            seq![argument(t.subrange(i, c))] + arguments_from(t, c + 1)
        } else {
            Seq::empty()
        },
        None => seq![argument(t.subrange(i, t.len() as int))],
    }
}

/// The arguments between the parentheses of a call; none when that text is blank.
pub open spec fn arguments(inner: Seq<char>) -> Seq<AtomV> {
    if trim(inner).len() == 0 {
        Seq::empty()
    } else {
        arguments_from(inner, 0)
    }
}

/// What the text between `[:` and `]` stands for: a call when it holds `(`
/// (the arguments end at the last `)`), else a variable with the text after
/// the first `=` as fallback, else a bare variable.
pub open spec fn classify(seg: Seq<char>) -> PartV {
    match index_from(seg, 0, '(') {
        Some(o) => {
            let after = seg.subrange(o + 1, seg.len() as int);
            let inner = match index_before(after, after.len() as int, ')') {
                Some(c) => after.subrange(0, c),
                None => after,
            };
            PartV::Call(seg.subrange(0, o), arguments(inner))
        },
        None => match index_from(seg, 0, '=') {
            Some(q) => PartV::Var(seg.subrange(0, q), AtomV::Str(seg.subrange(q + 1, seg.len() as int))),
            None => PartV::Var(seg, AtomV::Null),
        },
    }
}

/// Literal text as parts: none when it is empty.
pub open spec fn literal(t: Seq<char>) -> Seq<PartV> {
    if t.len() == 0 {
        Seq::empty()
    } else {
        seq![PartV::Text(t)]
    }
}

/// The parts of `t` from `i` on: literal text between placeholders, and the
/// placeholders classified. A `[:` without a later `]` stays literal.
pub open spec fn split_from(t: Seq<char>, i: int) -> Seq<PartV>
    decreases t.len() - i,
{
    match placeholder_from(t, i) {
        None => literal(t.subrange(i, t.len() as int)),
        Some((m, c)) => if i <= m && m + 2 <= c < t.len() {
            literal(t.subrange(i, m)) + seq![classify(t.subrange(m + 2, c))] + split_from(t, c + 1)
        } else {
            Seq::empty()
        },
    }
}

/// Every literal part split into its placeholders; other parts unchanged.
pub open spec fn decompose_parts(parts: Seq<PartV>) -> Seq<PartV>
    decreases parts.len(),
{
    if parts.len() == 0 {
        Seq::empty()
    } else {
        decompose_parts(parts.drop_last()) + match parts.last() {
            PartV::Text(t) => split_from(t, 0),
            p => seq![p],
        }
    }
}

/// Some part still asks for work: a variable, a call, or literal text that
/// holds a complete placeholder.
pub open spec fn parts_computable(parts: Seq<PartV>) -> bool {
    exists|k: int|
        0 <= k < parts.len() && match #[trigger] parts[k] {
            PartV::Text(t) => has_placeholder(t),
            _ => true,
        }
}

/// The text a fallback contributes: nothing for `Null`.
pub open spec fn fallback_text(fb: AtomV) -> Seq<char> {
    match fb {
        AtomV::Null => Seq::empty(),
        _ => atom_text(fb),
    }
}

/// The text a part resolves to: literal text as it is; a variable as the
/// text of its value in `vars` under its key, else as its fallback text; a
/// call as nothing, since calling functions is not supported.
pub open spec fn resolve_part(p: PartV, vars: Map<Seq<char>, AtomV>) -> Seq<char> {
    match p {
        PartV::Text(t) => t,
        PartV::Var(name, fb) => if vars.contains_key(key_of(name)) {
            atom_text(vars[key_of(name)])
        } else {
            fallback_text(fb)
        },
        PartV::Call(_, _) => Seq::empty(),
    }
}

/// Each part replaced by literal text of what it resolves to.
pub open spec fn compute_parts(parts: Seq<PartV>, vars: Map<Seq<char>, AtomV>) -> Seq<PartV> {
    Seq::new(parts.len(), |k: int| PartV::Text(resolve_part(parts[k], vars)))
}

/// The source form of a part.
pub open spec fn part_text(p: PartV) -> Seq<char> {
    match p {
        PartV::Text(t) => t,
        PartV::Var(name, fb) => match fb {
            AtomV::Null => seq!['[', ':'] + name + seq![']'],
            _ => seq!['[', ':'] + name + seq!['='] + atom_text(fb) + seq![']'],
        },
        PartV::Call(name, args) => seq!['[', ':'] + name + seq!['('] + list_text(args) + seq![
            ')',
            ']',
        ],
    }
}

/// The parts' source forms, concatenated.
pub open spec fn parts_text(parts: Seq<PartV>) -> Seq<char>
    decreases parts.len(),
{
    if parts.len() == 0 {
        Seq::empty()
    } else {
        parts_text(parts.drop_last()) + part_text(parts.last())
    }
}

/// One round of interpolation on a text: decompose, compute, join.
pub open spec fn interpolate_once(t: Seq<char>, vars: Map<Seq<char>, AtomV>) -> Seq<char> {
    parts_text(compute_parts(split_from(t, 0), vars))
}

/// Rounds of interpolation until no placeholder is left, at most `rounds`
/// of them; `None` when placeholders remain after that.
pub open spec fn interpolate(t: Seq<char>, vars: Map<Seq<char>, AtomV>, rounds: nat) -> Option<
    Seq<char>,
>
    decreases rounds,
{
    if !has_placeholder(t) {
        Some(t)
    } else if rounds == 0 {
        None
    } else {
        interpolate(interpolate_once(t, vars), vars, (rounds - 1) as nat)
    }
}

/// Resolving parts: as they are when no part asks for work; otherwise one
/// round of decompose and compute, then rounds on the resulting text.
pub open spec fn resolve_parts(parts: Seq<PartV>, vars: Map<Seq<char>, AtomV>, rounds: nat) -> Option<
    Seq<char>,
> {
    if !parts_computable(parts) {
        Some(parts_text(parts))
    } else if rounds == 0 {
        None
    } else {
        interpolate(
            parts_text(compute_parts(decompose_parts(parts), vars)),
            vars,
            (rounds - 1) as nat,
        )
    }
}

} // verus!
