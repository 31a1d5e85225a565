//! Structural equality of atoms.
use vstd::prelude::*;
use crate::ast::{
    Atom, atoms_model, lemma_array_model, lemma_function_model, lemma_object_model, pairs_model,
};

verus! {

broadcast use vstd::std_specs::vec::axiom_vec_index_decreases;

/// The atoms are equal: the same variant with equal contents, lists and
/// objects item by item in order.
pub fn atom_eq(a: &Atom, b: &Atom) -> (r: bool)
    ensures
        r == (a@ == b@),
    decreases a,
{
    match (a, b) {
        (Atom::Number(x), Atom::Number(y)) => *x == *y,
        (Atom::String(x), Atom::String(y)) => *x == *y,
        (Atom::Boolean(x), Atom::Boolean(y)) => *x == *y,
        (Atom::Array(x), Atom::Array(y)) => {
            proof {
                lemma_array_model(*x);
                lemma_array_model(*y);
            }
            atoms_eq(&x.values, &y.values)
        },
        (Atom::Object(x), Atom::Object(y)) => {
            proof {
                lemma_object_model(*x);
                lemma_object_model(*y);
            }
            pairs_eq(&x.values, &y.values)
        },
        (Atom::BinaryOperation(x), Atom::BinaryOperation(y)) => {
            atom_eq(&x.left, &y.left) && x.operator.value == y.operator.value && atom_eq(
                &x.right,
                &y.right,
            )
        },
        (Atom::Function(x), Atom::Function(y)) => {
            proof {
                lemma_function_model(*x);
                lemma_function_model(*y);
            }
            x.identifier.0 == y.identifier.0 && atoms_eq(&x.arguments, &y.arguments)
        },
        (Atom::Null, Atom::Null) => true,
        _ => false,
    }
}

/// The lists hold equal atoms in the same order.
pub fn atoms_eq(u: &Vec<Atom>, v: &Vec<Atom>) -> (r: bool)
    ensures
        r == (atoms_model(u@) == atoms_model(v@)),
    decreases u,
{
    if u.len() != v.len() {
        assert(atoms_model(u@).len() != atoms_model(v@).len());
        return false;
    }
    let mut i: usize = 0;
    while i < u.len()
        invariant
            u.len() == v.len(),
            i <= u.len(),
            forall|j: int| 0 <= j < i ==> #[trigger] atoms_model(u@)[j] == atoms_model(v@)[j],
        decreases u.len() - i,
    {
        if !atom_eq(&u[i], &v[i]) {
            assert(atoms_model(u@)[i as int] != atoms_model(v@)[i as int]);
            return false;
        }
        i += 1;
    }
    assert(atoms_model(u@) =~= atoms_model(v@));
    true
}

/// The objects hold equal keys and values in the same order.
pub fn pairs_eq(u: &Vec<(String, Atom)>, v: &Vec<(String, Atom)>) -> (r: bool)
    ensures
        r == (pairs_model(u@) == pairs_model(v@)),
    decreases u,
{
    if u.len() != v.len() {
        assert(pairs_model(u@).len() != pairs_model(v@).len());
        return false;
    }
    let mut i: usize = 0;
    while i < u.len()
        invariant
            u.len() == v.len(),
            i <= u.len(),
            forall|j: int| 0 <= j < i ==> #[trigger] pairs_model(u@)[j] == pairs_model(v@)[j],
        decreases u.len() - i,
    {
        if !(u[i].0 == v[i].0 && atom_eq(&u[i].1, &v[i].1)) {
            assert(pairs_model(u@)[i as int] != pairs_model(v@)[i as int]);
            return false;
        }
        i += 1;
    }
    assert(pairs_model(u@) =~= pairs_model(v@));
    true
}

impl PartialEq for Atom {
    fn eq(&self, other: &Atom) -> (r: bool) {
        atom_eq(self, other)
    }
}

impl vstd::std_specs::cmp::PartialEqSpecImpl for Atom {
    open spec fn obeys_eq_spec() -> bool {
        true
    }

    open spec fn eq_spec(&self, other: &Atom) -> bool {
        self@ == other@
    }
}

impl Eq for Atom {

}

} // verus!
