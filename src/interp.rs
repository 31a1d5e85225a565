//! The interpolation engine: splitting text at `[:...]` placeholders,
//! resolving them against the registry, and repeating until none is left.
use vstd::prelude::*;
use crate::ast::{
    Atom, AtomV, Function, Identifier, Object, Variable, atoms_model, lemma_object_model,
};
use crate::atoms::text_between;
use crate::copy::{copy_atom, copy_atoms, copy_identifier};
use crate::ctx::{Ctx, lookup, variable_key};
use crate::interp_spec::{
    PartV, argument, arguments, arguments_from, classify, compute_parts, decompose_parts,
    end_non_space, first_non_space, has_placeholder, index_before, index_from, interpolate,
    interpolate_once, literal, part_text, parts_computable, parts_text, placeholder_from,
    resolve_part, resolve_parts, split_from, trim,
};
use crate::render::{push_all, push_list_text};
use crate::scan::{is_white_space_char, marker_from_at, pos};
use crate::text::{chars_of, string_from};
use crate::widths::{byte_len, utf8_len, utf8_len_between};

verus! {

/// How many rounds of interpolation `dope` allows before it gives up.
pub const MAX_ROUNDS: usize = 64;

/// One part of an interpolated string.
#[derive(Debug, PartialEq, Eq)]
pub enum Part {
    Text(String),
    Variable(Variable),
    Function(Function),
}

pub open spec fn part_model(p: Part) -> PartV {
    match p {
        Part::Text(t) => PartV::Text(t@),
        Part::Variable(v) => PartV::Var(v.identifier.0@, v.value@),
        Part::Function(f) => PartV::Call(f.identifier.0@, atoms_model(f.arguments@)),
    }
}

pub open spec fn parts_model(s: Seq<Part>) -> Seq<PartV> {
    Seq::new(s.len(), |k: int| part_model(s[k]))
}

/// Text as literal fragments, variable references and function calls.
#[derive(Debug, PartialEq, Eq)]
pub struct InterpolatedString {
    pub parts: Vec<Part>,
}

impl View for InterpolatedString {
    type V = Seq<PartV>;

    open spec fn view(&self) -> Seq<PartV> {
        parts_model(self.parts@)
    }
}

/// Interpolation did not settle: placeholders were left after the allowed rounds.
#[derive(Debug, Clone, PartialEq, Eq)]
pub struct InterpolationError {
    /// The number of rounds that were allowed.
    pub rounds: usize,
}

/// The characters `t[a..b]`.
pub fn sub_chars(t: &Vec<char>, a: usize, b: usize) -> (r: Vec<char>)
    requires
        a <= b <= t.len(),
    ensures
        r@ == t@.subrange(a as int, b as int),
{
    let mut v: Vec<char> = Vec::new();
    let mut k = a;
    while k < b
        invariant
            a <= k <= b <= t.len(),
            v@ == t@.subrange(a as int, k as int),
        decreases b - k,
    {
        v.push(t[k]);
        k += 1;
        assert(v@ =~= t@.subrange(a as int, k as int));
    }
    v
}

/// `t` without leading and trailing white space.
pub fn trim_chars(t: &Vec<char>) -> (r: Vec<char>)
    ensures
        r@ == trim(t@),
{
    let mut a: usize = 0;
    while a < t.len() && is_white_space_char(t[a])
        invariant
            a <= t.len(),
            first_non_space(t@, a as int) == first_non_space(t@, 0),
        decreases t.len() - a,
    {
        a += 1;
    }
    let mut b: usize = t.len();
    while b > 0 && is_white_space_char(t[b - 1])
        invariant
            b <= t.len(),
            end_non_space(t@, b as int) == end_non_space(t@, t@.len() as int),
        decreases b,
    {
        b -= 1;
    }
    if a < b {
        sub_chars(t, a, b)
    } else {
        let e: Vec<char> = Vec::new();
        assert(e@ =~= Seq::<char>::empty());
        e
    }
}

pub fn index_from_at(t: &Vec<char>, i: usize, c: char) -> (r: Option<usize>)
    requires
        i <= t.len(),
    ensures
        pos(r) == index_from(t@, i as int, c),
        r matches Some(e) ==> i <= e < t.len(),
{
    let mut k = i;
    while k < t.len()
        invariant
            i <= k <= t.len(),
            index_from(t@, k as int, c) == index_from(t@, i as int, c),
        decreases t.len() - k,
    {
        if t[k] == c {
            return Some(k);
        }
        k += 1;
    }
    None
}

pub fn index_before_at(t: &Vec<char>, j: usize, c: char) -> (r: Option<usize>)
    requires
        j <= t.len(),
    ensures
        pos(r) == index_before(t@, j as int, c),
        r matches Some(e) ==> e < j,
{
    let mut k = j;
    while k > 0
        invariant
            k <= j <= t.len(),
            index_before(t@, k as int, c) == index_before(t@, j as int, c),
        decreases k,
    {
        if t[k - 1] == c {
            return Some(k - 1);
        }
        k -= 1;
    }
    None
}

/// The first placeholder at or after `i`: where its `[:` and its `]` stand.
pub fn placeholder_from_at(t: &Vec<char>, i: usize) -> (r: Option<(usize, usize)>)
    requires
        i <= t.len(),
    ensures
        match r {
            Some((m, c)) => placeholder_from(t@, i as int) == Some((m as int, c as int)) && i
                <= m && m + 2 <= c < t.len(),
            None => placeholder_from(t@, i as int) is None,
        },
{
    match marker_from_at(t, i) {
        None => None,
        Some(m) => match index_from_at(t, m + 2, ']') {
            None => None,
            Some(c) => Some((m, c)),
        },
    }
}

/// Where the next placeholder in `code` starts and the position just after
/// its `]`, as byte offsets into `code` (what slices a `str`): the number of
/// bytes of UTF-8 before the `[:`, and through the `]`.
pub fn find_interpolatable(code: &str) -> (r: Option<(usize, usize)>)
    ensures
        match placeholder_from(code@, 0) {
            Some((m, c)) => r == Some(
                (utf8_len(code@.subrange(0, m)) as usize, utf8_len(code@.subrange(0, c + 1)) as usize),
            ),
            None => r is None,
        },
{
    let t = chars_of(code);
    let _n = byte_len(code);
    match placeholder_from_at(&t, 0) {
        Some((m, c)) => Some((utf8_len_between(&t, 0, m), utf8_len_between(&t, 0, c + 1))),
        None => None,
    }
}

fn argument_at(piece: &Vec<char>) -> (r: Atom)
    ensures
        r@ == argument(piece@),
{
    let a = trim_chars(piece);
    match index_from_at(&a, 0, '=') {
        Some(q) => {
            let v = vec![(text_between(&a, 0, q), Atom::String(text_between(&a, q + 1, a.len())))];
            let o = Box::new(Object { values: v });
            proof {
                lemma_object_model(o);
                assert(crate::ast::pairs_model(o.values@) =~= seq![
                    (a@.subrange(0, q as int), AtomV::Str(a@.subrange(q + 1, a@.len() as int))),
                ]);
            }
            Atom::Object(o)
        },
        None => Atom::String(string_from(&a)),
    }
}

fn arguments_at(inner: &Vec<char>) -> (r: Vec<Atom>)
    ensures
        atoms_model(r@) == arguments(inner@),
{
    let mut out: Vec<Atom> = Vec::new();
    let t = trim_chars(inner);
    if t.len() == 0 {
        assert(atoms_model(out@) =~= Seq::<AtomV>::empty());
        return out;
    }
    let mut k: usize = 0;
    loop
        invariant
            k <= inner.len(),
            trim(inner@).len() != 0,
            atoms_model(out@) + arguments_from(inner@, k as int) == arguments_from(inner@, 0),
        decreases inner.len() - k,
    {
        let ghost prev = out@;
        match index_from_at(inner, k, ',') {
            Some(c) => {
                let piece = sub_chars(inner, k, c);
                out.push(argument_at(&piece));
                assert(atoms_model(out@) =~= atoms_model(prev) + seq![argument(piece@)]);
                assert(atoms_model(out@) + arguments_from(inner@, c + 1) =~= atoms_model(prev)
                    + arguments_from(inner@, k as int));
                k = c + 1;
            },
            None => {
                let piece = sub_chars(inner, k, inner.len());
                out.push(argument_at(&piece));
                assert(atoms_model(out@) =~= atoms_model(prev) + seq![argument(piece@)]);
                assert(atoms_model(out@) =~= atoms_model(prev) + arguments_from(inner@, k as int));
                return out;
            },
        }
    }
}

/// What the text between `[:` and `]` stands for.
pub fn classify_segment(seg: &Vec<char>) -> (r: Part)
    ensures
        part_model(r) == classify(seg@),
{
    match index_from_at(seg, 0, '(') {
        Some(o) => {
            let after = sub_chars(seg, o + 1, seg.len());
            let inner = match index_before_at(&after, after.len(), ')') {
                Some(c) => sub_chars(&after, 0, c),
                None => after,
            };
            Part::Function(
                Function { identifier: Identifier(text_between(seg, 0, o)), arguments: arguments_at(&inner) },
            )
        },
        None => match index_from_at(seg, 0, '=') {
            Some(q) => Part::Variable(
                Variable {
                    identifier: Identifier(text_between(seg, 0, q)),
                    value: Atom::String(text_between(seg, q + 1, seg.len())),
                },
            ),
            None => Part::Variable(Variable { identifier: Identifier(string_from(seg)), value: Atom::Null }),
        },
    }
}

fn push_literal(out: &mut Vec<Part>, t: &Vec<char>, a: usize, b: usize)
    requires
        a <= b <= t.len(),
    ensures
        parts_model(final(out)@) == parts_model(old(out)@) + literal(t@.subrange(a as int, b as int)),
{
    if a < b {
        out.push(Part::Text(text_between(t, a, b)));
        assert(parts_model(out@) =~= parts_model(old(out)@) + literal(t@.subrange(a as int, b as int)));
    } else {
        assert(parts_model(out@) =~= parts_model(old(out)@) + literal(t@.subrange(a as int, b as int)));
    }
}

/// The parts of a text: literal fragments and classified placeholders.
pub fn split_text(t: &Vec<char>) -> (r: Vec<Part>)
    ensures
        parts_model(r@) == split_from(t@, 0),
{
    let mut out: Vec<Part> = Vec::new();
    let mut k: usize = 0;
    assert(parts_model(out@) =~= Seq::<PartV>::empty());
    loop
        invariant
            k <= t.len(),
            parts_model(out@) + split_from(t@, k as int) == split_from(t@, 0),
        decreases t.len() - k,
    {
        let ghost prev = parts_model(out@);
        match placeholder_from_at(t, k) {
            None => {
                push_literal(&mut out, t, k, t.len());
                return out;
            },
            Some((m, c)) => {
                push_literal(&mut out, t, k, m);
                let seg = sub_chars(t, m + 2, c);
                let p = classify_segment(&seg);
                let ghost mid = parts_model(out@);
                out.push(p);
                assert(parts_model(out@) =~= mid + seq![classify(seg@)]);
                assert(parts_model(out@) + split_from(t@, c + 1) =~= prev + split_from(t@, k as int));
                k = c + 1;
            },
        }
    }
}

/// The text a part resolves to against the registry.
fn resolve_part_text(p: &Part, ctx: &Ctx) -> (r: String)
    ensures
        r@ == resolve_part(part_model(*p), ctx.vars()),
{
    match p {
        Part::Text(t) => t.clone(),
        Part::Variable(v) => {
            let key = variable_key(v.identifier.0.as_str());
            match lookup(ctx, &key) {
                Some(a) => a.to_text(),
                None => match &v.value {
                    Atom::Null => String::new(),
                    other => other.to_text(),
                },
            }
        },
        Part::Function(_) => String::new(),
    }
}

fn push_part_text(p: &Part, out: &mut Vec<char>)
    ensures
        final(out)@ == old(out)@ + part_text(part_model(*p)),
{
    match p {
        Part::Text(t) => {
            let cs = chars_of(t.as_str());
            push_all(out, &cs);
        },
        Part::Variable(v) => {
            out.push('[');
            out.push(':');
            let name = chars_of(v.identifier.0.as_str());
            push_all(out, &name);
            match &v.value {
                Atom::Null => {},
                other => {
                    out.push('=');
                    crate::render::push_atom_text(other, out);
                },
            }
            out.push(']');
        },
        Part::Function(f) => {
            out.push('[');
            out.push(':');
            let name = chars_of(f.identifier.0.as_str());
            push_all(out, &name);
            out.push('(');
            push_list_text(&f.arguments, out);
            out.push(')');
            out.push(']');
        },
    }
    assert(out@ =~= old(out)@ + part_text(part_model(*p)));
}

fn copy_part(p: &Part) -> (r: Part)
    ensures
        part_model(r) == part_model(*p),
{
    match p {
        Part::Text(t) => Part::Text(t.clone()),
        Part::Variable(v) => Part::Variable(
            Variable { identifier: copy_identifier(&v.identifier), value: copy_atom(&v.value) },
        ),
        Part::Function(f) => Part::Function(
            Function { identifier: copy_identifier(&f.identifier), arguments: copy_atoms(&f.arguments) },
        ),
    }
}

impl InterpolatedString {
    /// The text as one literal fragment (no parts for empty text).
    pub fn new(text: &str) -> (r: InterpolatedString)
        ensures
            r@ == literal(text@),
    {
        let mut parts: Vec<Part> = Vec::new();
        let t = chars_of(text);
        if t.len() > 0 {
            parts.push(Part::Text(text.to_owned()));
        }
        let r = InterpolatedString { parts };
        assert(r@ =~= literal(text@));
        r
    }

    /// Every literal fragment split at its placeholders; other parts kept.
    pub fn decompose(&self) -> (r: InterpolatedString)
        ensures
            r@ == decompose_parts(self@),
    {
        let mut out: Vec<Part> = Vec::new();
        let mut k: usize = 0;
        while k < self.parts.len()
            invariant
                k <= self.parts.len(),
                parts_model(out@) == decompose_parts(parts_model(self.parts@.subrange(0, k as int))),
            decreases self.parts.len() - k,
        {
            let ghost prev = parts_model(out@);
            assert(parts_model(self.parts@.subrange(0, k + 1)).drop_last() =~= parts_model(
                self.parts@.subrange(0, k as int),
            ));
            match &self.parts[k] {
                Part::Text(t) => {
                    let cs = chars_of(t.as_str());
                    let mut v = split_text(&cs);
                    let ghost added = v@;
                    out.append(&mut v);
                    assert(parts_model(out@) =~= prev + parts_model(added));
                },
                other => {
                    out.push(copy_part(other));
                    assert(parts_model(out@) =~= prev + seq![part_model(*other)]);
                },
            }
            k += 1;
        }
        assert(self.parts@.subrange(0, self.parts.len() as int) =~= self.parts@);
        InterpolatedString { parts: out }
    }

    /// Some part still asks for work: a variable, a function call, or a
    /// literal fragment with a complete placeholder in it.
    pub fn is_computable(&self) -> (r: bool)
        ensures
            r == parts_computable(self@),
    {
        let mut k: usize = 0;
        while k < self.parts.len()
            invariant
                k <= self.parts.len(),
                forall|j: int|
                    0 <= j < k ==> match #[trigger] parts_model(self.parts@)[j] {
                        PartV::Text(t) => !has_placeholder(t),
                        _ => false,
                    },
            decreases self.parts.len() - k,
        {
            match &self.parts[k] {
                Part::Text(t) => {
                    let cs = chars_of(t.as_str());
                    if placeholder_from_at(&cs, 0).is_some() {
                        assert(match parts_model(self.parts@)[k as int] {
                            PartV::Text(t) => has_placeholder(t),
                            _ => true,
                        });
                        return true;
                    }
                },
                _ => {
                    assert(match parts_model(self.parts@)[k as int] {
                        PartV::Text(t) => has_placeholder(t),
                        _ => true,
                    });
                    return true;
                },
            }
            k += 1;
        }
        false
    }

    /// Every part replaced by a literal fragment of what it resolves to.
    pub fn compute(&self, ctx: &Ctx) -> (r: InterpolatedString)
        ensures
            r@ == compute_parts(self@, ctx.vars()),
    {
        let mut out: Vec<Part> = Vec::new();
        let mut k: usize = 0;
        while k < self.parts.len()
            invariant
                k <= self.parts.len(),
                out.len() == k,
                forall|j: int|
                    0 <= j < k ==> #[trigger] part_model(out@[j]) == PartV::Text(
                        resolve_part(part_model(self.parts@[j]), ctx.vars()),
                    ),
            decreases self.parts.len() - k,
        {
            let t = resolve_part_text(&self.parts[k], ctx);
            out.push(Part::Text(t));
            k += 1;
        }
        let r = InterpolatedString { parts: out };
        assert(r@ =~= compute_parts(self@, ctx.vars()));
        r
    }

    /// Resolves every placeholder against the registry, repeating while the
    /// values bring new placeholders, for at most `max_rounds` rounds.
    pub fn resolve(&self, ctx: &Ctx, max_rounds: usize) -> (r: Result<String, InterpolationError>)
        ensures
            match resolve_parts(self@, ctx.vars(), max_rounds as nat) {
                Some(t) => r matches Ok(s) && s@ == t,
                None => r == Err::<String, InterpolationError>(
                    InterpolationError { rounds: max_rounds },
                ),
            },
    {
        if !self.is_computable() {
            return Ok(self.to_text());
        }
        if max_rounds == 0 {
            return Err(InterpolationError { rounds: max_rounds });
        }
        let text = self.decompose().compute(ctx).to_text();
        match resolve_text(text.as_str(), ctx, max_rounds - 1) {
            Ok(t) => Ok(t),
            Err(_) => Err(InterpolationError { rounds: max_rounds }),
        }
    }

    /// The parts' source forms, concatenated.
    pub fn to_text(&self) -> (r: String)
        ensures
            r@ == parts_text(self@),
    {
        let mut out: Vec<char> = Vec::new();
        let mut k: usize = 0;
        while k < self.parts.len()
            invariant
                k <= self.parts.len(),
                out@ == parts_text(parts_model(self.parts@.subrange(0, k as int))),
            decreases self.parts.len() - k,
        {
            assert(parts_model(self.parts@.subrange(0, k + 1)).drop_last() =~= parts_model(
                self.parts@.subrange(0, k as int),
            ));
            push_part_text(&self.parts[k], &mut out);
            k += 1;
        }
        assert(self.parts@.subrange(0, self.parts.len() as int) =~= self.parts@);
        string_from(&out)
    }
}

/// One round on a text: split it, resolve each part, join the results.
pub fn interpolate_text_once(t: &Vec<char>, ctx: &Ctx) -> (r: Vec<char>)
    ensures
        r@ == interpolate_once(t@, ctx.vars()),
{
    let parts = InterpolatedString { parts: split_text(t) };
    let done = parts.compute(ctx);
    let text = done.to_text();
    chars_of(text.as_str())
}

/// Interpolates `code` in rounds until no placeholder is left, allowing at
/// most `max_rounds` rounds.
pub fn resolve_text(code: &str, ctx: &Ctx, max_rounds: usize) -> (r: Result<
    String,
    InterpolationError,
>)
    ensures
        match interpolate(code@, ctx.vars(), max_rounds as nat) {
            Some(t) => r matches Ok(s) && s@ == t,
            None => r == Err::<String, InterpolationError>(InterpolationError { rounds: max_rounds }),
        },
{
    let mut t = chars_of(code);
    let mut left = max_rounds;
    loop
        invariant
            left <= max_rounds,
            interpolate(t@, ctx.vars(), left as nat) == interpolate(code@, ctx.vars(), max_rounds as nat),
        decreases left,
    {
        if placeholder_from_at(&t, 0).is_none() {
            return Ok(string_from(&t));
        }
        if left == 0 {
            return Err(InterpolationError { rounds: max_rounds });
        }
        t = interpolate_text_once(&t, ctx);
        left -= 1;
    }
}

/// Replaces every placeholder in `code` with its value from the registry,
/// repeating while the replacements bring new placeholders, for at most
/// `MAX_ROUNDS` rounds.
pub fn dope(code: &str, ctx: &Ctx) -> (r: Result<String, InterpolationError>)
    ensures
        match interpolate(code@, ctx.vars(), MAX_ROUNDS as nat) {
            Some(t) => r matches Ok(s) && s@ == t,
            None => r == Err::<String, InterpolationError>(InterpolationError { rounds: MAX_ROUNDS }),
        },
{
    resolve_text(code, ctx, MAX_ROUNDS)
}

} // verus!
