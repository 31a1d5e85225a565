//! Deep copies of atoms and cells.
use vstd::prelude::*;
use crate::ast::{
    Array, Assignment, Atom, BinaryOperation, Block, Cell, Function, Identifier, Import, Object,
    Operator, Package, Runtime, Task, atoms_model, cells_model, lemma_array_model,
    lemma_function_model, lemma_object_model, lemma_package_model, lemma_runtime_model, pairs_model,
};

verus! {

broadcast use vstd::std_specs::vec::axiom_vec_index_decreases;

pub fn copy_identifier(i: &Identifier) -> (r: Identifier)
    ensures
        r.0@ == i.0@,
{
    Identifier(i.0.clone())
}

/// A copy of the atom with the same model.
pub fn copy_atom(a: &Atom) -> (r: Atom)
    ensures
        r@ == a@,
    decreases a,
{
    match a {
        Atom::Number(n) => Atom::Number(*n),
        Atom::String(s) => Atom::String(s.clone()),
        Atom::Boolean(b) => Atom::Boolean(*b),
        Atom::Array(b) => {
            let nb = Box::new(Array { values: copy_atoms(&b.values) });
            proof {
                lemma_array_model(*b);
                lemma_array_model(nb);
            }
            Atom::Array(nb)
        },
        Atom::Object(o) => {
            let no = Box::new(Object { values: copy_pairs(&o.values) });
            proof {
                lemma_object_model(*o);
                lemma_object_model(no);
            }
            Atom::Object(no)
        },
        Atom::BinaryOperation(b) => Atom::BinaryOperation(
            Box::new(
                BinaryOperation {
                    left: copy_atom(&b.left),
                    operator: Operator { value: b.operator.value.clone() },
                    right: copy_atom(&b.right),
                },
            ),
        ),
        Atom::Function(f) => {
            let nf = Box::new(
                Function { identifier: copy_identifier(&f.identifier), arguments: copy_atoms(&f.arguments) },
            );
            proof {
                lemma_function_model(*f);
                lemma_function_model(nf);
            }
            Atom::Function(nf)
        },
        Atom::Null => Atom::Null,
    }
}

pub fn copy_atoms(v: &Vec<Atom>) -> (r: Vec<Atom>)
    ensures
        atoms_model(r@) == atoms_model(v@),
    decreases v,
{
    let mut out: Vec<Atom> = Vec::new();
    let mut k: usize = 0;
    while k < v.len()
        invariant
            k <= v.len(),
            atoms_model(out@) == atoms_model(v@.subrange(0, k as int)),
        decreases v.len() - k,
    {
        let a = copy_atom(&v[k]);
        let ghost prev = out@;
        out.push(a);
        assert(atoms_model(out@) =~= atoms_model(prev).push(a@));
        assert(atoms_model(v@.subrange(0, k + 1)) =~= atoms_model(v@.subrange(0, k as int)).push(
            v@[k as int]@,
        ));
        k += 1;
    }
    assert(v@.subrange(0, v.len() as int) =~= v@);
    out
}

pub fn copy_pairs(v: &Vec<(String, Atom)>) -> (r: Vec<(String, Atom)>)
    ensures
        pairs_model(r@) == pairs_model(v@),
    decreases v,
{
    let mut out: Vec<(String, Atom)> = Vec::new();
    let mut k: usize = 0;
    while k < v.len()
        invariant
            k <= v.len(),
            pairs_model(out@) == pairs_model(v@.subrange(0, k as int)),
        decreases v.len() - k,
    {
        let a = copy_atom(&v[k].1);
        let ghost prev = out@;
        out.push((v[k].0.clone(), a));
        assert(pairs_model(out@) =~= pairs_model(prev).push((v@[k as int].0@, a@)));
        assert(pairs_model(v@.subrange(0, k + 1)) =~= pairs_model(v@.subrange(0, k as int)).push(
            (v@[k as int].0@, v@[k as int].1@),
        ));
        k += 1;
    }
    assert(v@.subrange(0, v.len() as int) =~= v@);
    out
}

pub fn copy_task(t: &Task) -> (r: Task)
    ensures
        r.identifer.0@ == t.identifer.0@,
        r.body@ == t.body@,
        r.runtime.0@ == t.runtime.0@,
{
    Task {
        identifer: copy_identifier(&t.identifer),
        body: t.body.clone(),
        runtime: copy_identifier(&t.runtime),
    }
}

pub fn copy_runtime(rt: &Runtime) -> (r: Runtime)
    ensures
        r.identifer.0@ == rt.identifer.0@,
        cells_model(r.children@) == cells_model(rt.children@),
        r.runtime.0@ == rt.runtime.0@,
    decreases rt,
{
    Runtime {
        identifer: copy_identifier(&rt.identifer),
        children: copy_cells(&rt.children),
        runtime: copy_identifier(&rt.runtime),
    }
}

pub fn copy_package(p: &Package) -> (r: Package)
    ensures
        r.identifer.0@ == p.identifer.0@,
        cells_model(r.children@) == cells_model(p.children@),
        r.runtime.0@ == p.runtime.0@,
    decreases p,
{
    Package {
        identifer: copy_identifier(&p.identifer),
        children: copy_cells(&p.children),
        runtime: copy_identifier(&p.runtime),
    }
}

/// A copy of the cell with the same model.
pub fn copy_cell(c: &Cell) -> (r: Cell)
    ensures
        r@ == c@,
    decreases c,
{
    match c {
        Cell::Assignment(a) => Cell::Assignment(
            Assignment { identifier: copy_identifier(&a.identifier), value: copy_atom(&a.value) },
        ),
        Cell::Task(t) => Cell::Task(copy_task(t)),
        Cell::Runtime(rt) => {
            let n = copy_runtime(rt);
            proof {
                lemma_runtime_model(*rt);
                lemma_runtime_model(n);
            }
            Cell::Runtime(n)
        },
        Cell::Block(b) => Cell::Block(
            Block {
                identifer: copy_identifier(&b.identifer),
                body: b.body.clone(),
                runtime: copy_identifier(&b.runtime),
            },
        ),
        Cell::Import(i) => Cell::Import(
            Import { path: i.path.clone(), alias: copy_identifier(&i.alias) },
        ),
        Cell::Package(p) => {
            let n = copy_package(p);
            proof {
                lemma_package_model(*p);
                lemma_package_model(n);
            }
            Cell::Package(n)
        },
    }
}

pub fn copy_cells(v: &Vec<Cell>) -> (r: Vec<Cell>)
    ensures
        cells_model(r@) == cells_model(v@),
    decreases v,
{
    let mut out: Vec<Cell> = Vec::new();
    let mut k: usize = 0;
    while k < v.len()
        invariant
            k <= v.len(),
            cells_model(out@) == cells_model(v@.subrange(0, k as int)),
        decreases v.len() - k,
    {
        let c = copy_cell(&v[k]);
        let ghost prev = out@;
        out.push(c);
        assert(cells_model(out@) =~= cells_model(prev).push(c@));
        assert(cells_model(v@.subrange(0, k + 1)) =~= cells_model(v@.subrange(0, k as int)).push(
            v@[k as int]@,
        ));
        k += 1;
    }
    assert(v@.subrange(0, v.len() as int) =~= v@);
    out
}

} // verus!
