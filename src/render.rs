//! The text form of atoms, as placed into interpolated text.
use vstd::prelude::*;
use crate::ast::{
    Atom, AtomV, atoms_model, pairs_model, lemma_array_model, lemma_object_model,
    lemma_function_model,
};
use crate::text::string_from;

verus! {

broadcast use vstd::std_specs::vec::axiom_vec_index_decreases;

pub open spec fn digit_char(d: nat) -> char {
    if d == 0 { '0' } else if d == 1 { '1' } else if d == 2 { '2' } else if d == 3 { '3' }
    else if d == 4 { '4' } else if d == 5 { '5' } else if d == 6 { '6' } else if d == 7 { '7' }
    else if d == 8 { '8' } else { '9' }
}

/// The decimal digits of `n`, without leading zeros.
pub open spec fn decimal(n: nat) -> Seq<char>
    decreases n,
{
    if n < 10 {
        seq![digit_char(n)]
    } else {
        decimal(n / 10).push(digit_char(n % 10))
    }
}

pub open spec fn comma() -> Seq<char> {
    seq![',', ' ']
}

/// The text of an atom: numbers in decimal, strings as they are, lists and
/// objects in brackets with `, ` between items, `null` for `Null`.
pub open spec fn atom_text(a: AtomV) -> Seq<char>
    decreases a,
{
    match a {
        AtomV::Number(n) => decimal(n as nat),
        AtomV::Str(t) => t,
        AtomV::Boolean(b) => if b {
            seq!['t', 'r', 'u', 'e']
        } else {
            seq!['f', 'a', 'l', 's', 'e']
        },
        AtomV::Array(items) => seq!['['] + list_text(items) + seq![']'],
        AtomV::Object(pairs) => seq!['{'] + pairs_text(pairs) + seq!['}'],
        AtomV::BinaryOperation(l, op, r) => atom_text(*l) + seq![' '] + op + seq![' '] + atom_text(
            *r,
        ),
        AtomV::Function(name, args) => name + seq!['('] + list_text(args) + seq![')'],
        AtomV::Null => seq!['n', 'u', 'l', 'l'],
    }
}

/// The texts of the items, separated by `, `.
pub open spec fn list_text(items: Seq<AtomV>) -> Seq<char>
    decreases items,
{
    if items.len() == 0 {
        Seq::empty()
    } else if items.len() == 1 {
        atom_text(items[0])
    } else {
        list_text(items.drop_last()) + comma() + atom_text(items.last())
    }
}

/// `key:value` for each pair, separated by `, `.
pub open spec fn pairs_text(pairs: Seq<(Seq<char>, AtomV)>) -> Seq<char>
    decreases pairs,
{
    if pairs.len() == 0 {
        Seq::empty()
    } else if pairs.len() == 1 {
        pairs[0].0 + seq![':'] + atom_text(pairs[0].1)
    } else {
        pairs_text(pairs.drop_last()) + comma() + pairs.last().0 + seq![':'] + atom_text(
            pairs.last().1,
        )
    }
}

pub(crate) fn push_all(out: &mut Vec<char>, t: &Vec<char>)
    ensures
        final(out)@ == old(out)@ + t@,
{
    let mut k: usize = 0;
    while k < t.len()
        invariant
            k <= t.len(),
            out@ == old(out)@ + t@.subrange(0, k as int),
        decreases t.len() - k,
    {
        out.push(t[k]);
        k += 1;
        assert(out@ =~= old(out)@ + t@.subrange(0, k as int));
    }
    assert(t@.subrange(0, t.len() as int) =~= t@);
}

pub(crate) fn push_decimal(n: u64, out: &mut Vec<char>)
    ensures
        final(out)@ == old(out)@ + decimal(n as nat),
    decreases n,
{
    if n >= 10 {
        push_decimal(n / 10, out);
    }
    let d = n % 10;
    let c = if d == 0 { '0' } else if d == 1 { '1' } else if d == 2 { '2' } else if d == 3 { '3' }
        else if d == 4 { '4' } else if d == 5 { '5' } else if d == 6 { '6' } else if d == 7 { '7' }
        else if d == 8 { '8' } else { '9' };
    out.push(c);
    assert(out@ =~= old(out)@ + decimal(n as nat));
}

/// Appends the text of `a` to `out`.
pub fn push_atom_text(a: &Atom, out: &mut Vec<char>)
    ensures
        final(out)@ == old(out)@ + atom_text(a@),
    decreases a,
{
    match a {
        Atom::Number(n) => push_decimal(*n, out),
        Atom::String(t) => {
            let cs = crate::text::chars_of(t.as_str());
            push_all(out, &cs);
        },
        Atom::Boolean(b) => {
            if *b {
                let w = vec!['t', 'r', 'u', 'e'];
                push_all(out, &w);
            } else {
                let w = vec!['f', 'a', 'l', 's', 'e'];
                push_all(out, &w);
            }
        },
        Atom::Array(b) => {
            proof {
                lemma_array_model(*b);
            }
            out.push('[');
            push_list_text(&b.values, out);
            out.push(']');
        },
        Atom::Object(o) => {
            proof {
                lemma_object_model(*o);
            }
            out.push('{');
            push_pairs_text(&o.values, out);
            out.push('}');
        },
        Atom::BinaryOperation(b) => {
            push_atom_text(&b.left, out);
            out.push(' ');
            let op = crate::text::chars_of(b.operator.value.as_str());
            push_all(out, &op);
            out.push(' ');
            push_atom_text(&b.right, out);
        },
        Atom::Function(f) => {
            proof {
                lemma_function_model(*f);
            }
            let name = crate::text::chars_of(f.identifier.0.as_str());
            push_all(out, &name);
            out.push('(');
            push_list_text(&f.arguments, out);
            out.push(')');
        },
        Atom::Null => {
            let w = vec!['n', 'u', 'l', 'l'];
            push_all(out, &w);
        },
    }
    assert(out@ =~= old(out)@ + atom_text(a@));
}

#[verifier::rlimit(40)]
pub(crate) fn push_list_text(v: &Vec<Atom>, out: &mut Vec<char>)
    ensures
        final(out)@ == old(out)@ + list_text(atoms_model(v@)),
    decreases v,
{
    let mut k: usize = 0;
    while k < v.len()
        invariant
            k <= v.len(),
            out@ == old(out)@ + list_text(atoms_model(v@.subrange(0, k as int))),
        decreases v.len() - k,
    {
        assert(atoms_model(v@.subrange(0, k + 1)).drop_last() =~= atoms_model(
            v@.subrange(0, k as int),
        ));
        if k > 0 {
            out.push(',');
            out.push(' ');
        }
        push_atom_text(&v[k], out);
        k += 1;
        assert(out@ =~= old(out)@ + list_text(atoms_model(v@.subrange(0, k as int))));
    }
    assert(v@.subrange(0, v.len() as int) =~= v@);
}

#[verifier::rlimit(40)]
fn push_pairs_text(v: &Vec<(String, Atom)>, out: &mut Vec<char>)
    ensures
        final(out)@ == old(out)@ + pairs_text(pairs_model(v@)),
    decreases v,
{
    let mut k: usize = 0;
    while k < v.len()
        invariant
            k <= v.len(),
            out@ == old(out)@ + pairs_text(pairs_model(v@.subrange(0, k as int))),
        decreases v.len() - k,
    {
        assert(pairs_model(v@.subrange(0, k + 1)).drop_last() =~= pairs_model(
            v@.subrange(0, k as int),
        ));
        if k > 0 {
            out.push(',');
            out.push(' ');
        }
        let key = crate::text::chars_of(v[k].0.as_str());
        push_all(out, &key);
        out.push(':');
        push_atom_text(&v[k].1, out);
        k += 1;
        assert(out@ =~= old(out)@ + pairs_text(pairs_model(v@.subrange(0, k as int))));
    }
    assert(v@.subrange(0, v.len() as int) =~= v@);
}

impl Atom {
    /// The text form of the atom.
    pub fn to_text(&self) -> (r: String)
        ensures
            r@ == atom_text(self@),
    {
        let mut out: Vec<char> = Vec::new();
        push_atom_text(self, &mut out);
        string_from(&out)
    }
}

} // verus!
