//! The value model (atoms) and the script cells, with their mathematical models.
use vstd::prelude::*;

verus! {

/// What an atom means: the same shape with text as character sequences.
pub enum AtomV {
    Number(u64),
    Str(Seq<char>),
    Boolean(bool),
    Array(Seq<AtomV>),
    Object(Seq<(Seq<char>, AtomV)>),
    BinaryOperation(Box<AtomV>, Seq<char>, Box<AtomV>),
    Function(Seq<char>, Seq<AtomV>),
    Null,
}

/// What a cell means.
pub enum CellV {
    Assignment(Seq<char>, AtomV),
    Task(Seq<char>, Seq<char>, Seq<char>),
    Runtime(Seq<char>, Seq<CellV>, Seq<char>),
    Block(Seq<char>, Seq<char>, Seq<char>),
    Import(Seq<char>, Seq<char>),
    Package(Seq<char>, Seq<CellV>, Seq<char>),
}

/// A validated name token, compared by exact text.
#[derive(Debug, Clone, PartialEq, Eq)]
pub struct Identifier(pub String);

/// A binary operator token such as `+` or `>=`.
#[derive(Debug, Clone, PartialEq, Eq)]
pub struct Operator {
    pub value: String,
}

/// A typed literal value. Two atoms are equal when their models are.
#[derive(Debug)]
pub enum Atom {
    Number(u64),
    String(String),
    Boolean(bool),
    Array(Box<Array>),
    Object(Box<Object>),
    BinaryOperation(Box<BinaryOperation>),
    Function(Box<Function>),
    Null,
}

/// A list of atoms, `[1,2,3]`.
#[derive(Debug, PartialEq, Eq)]
pub struct Array {
    pub values: Vec<Atom>,
}

/// Key/value pairs in source order, `{a:1, b:2}`; keys may repeat.
#[derive(Debug, PartialEq, Eq)]
pub struct Object {
    pub values: Vec<(String, Atom)>,
}

/// Two atoms joined by an operator, `5 + 5`. Parsed, never evaluated.
#[derive(Debug, PartialEq, Eq)]
pub struct BinaryOperation {
    pub left: Atom,
    pub operator: Operator,
    pub right: Atom,
}

/// A reference to a function with its arguments, `[:print("hi")]`.
#[derive(Debug, PartialEq, Eq)]
pub struct Function {
    pub identifier: Identifier,
    pub arguments: Vec<Atom>,
}

/// A reference to a variable with a fallback value (`Null` when none), `[:x=5]`.
#[derive(Debug, PartialEq, Eq)]
pub struct Variable {
    pub identifier: Identifier,
    pub value: Atom,
}

/// `let x = 5;`
#[derive(Debug, PartialEq, Eq)]
pub struct Assignment {
    pub identifier: Identifier,
    pub value: Atom,
}

/// `task greet { echo "hello" }:shell`
#[derive(Debug, Clone, PartialEq, Eq)]
pub struct Task {
    pub identifer: Identifier,
    pub body: String,
    pub runtime: Identifier,
}

/// `runtime dart { let version = "3.7.0"; task build { ... }:shell }:moto`
#[derive(Debug, PartialEq, Eq)]
pub struct Runtime {
    pub identifer: Identifier,
    pub children: Vec<Cell>,
    pub runtime: Identifier,
}

/// `block credits { developed by someone }:text`
#[derive(Debug, Clone, PartialEq, Eq)]
pub struct Block {
    pub identifer: Identifier,
    pub body: String,
    pub runtime: Identifier,
}

/// `import "math.moto" as math`
#[derive(Debug, Clone, PartialEq, Eq)]
pub struct Import {
    pub path: String,
    pub alias: Identifier,
}

/// A named collection of cells, `package name { ... }:moto`.
#[derive(Debug, PartialEq, Eq)]
pub struct Package {
    pub identifer: Identifier,
    pub children: Vec<Cell>,
    pub runtime: Identifier,
}

/// One script construct.
#[derive(Debug, PartialEq, Eq)]
pub enum Cell {
    Assignment(Assignment),
    Task(Task),
    Runtime(Runtime),
    Block(Block),
    Import(Import),
    Package(Package),
}

pub open spec fn atom_model(a: Atom) -> AtomV
    decreases a,
{
    match a {
        Atom::Number(n) => AtomV::Number(n),
        Atom::String(s) => AtomV::Str(s@),
        Atom::Boolean(b) => AtomV::Boolean(b),
        Atom::Array(b) => AtomV::Array(
            Seq::new(
                b.values@.len(),
                |i: int|
                    if 0 <= i < b.values@.len() {
                        atom_model(b.values@[i])
                    } else {
                        AtomV::Null
                    },
            ),
        ),
        Atom::Object(o) => AtomV::Object(
            Seq::new(
                o.values@.len(),
                |i: int|
                    if 0 <= i < o.values@.len() {
                        (o.values@[i].0@, atom_model(o.values@[i].1))
                    } else {
                        (Seq::empty(), AtomV::Null)
                    },
            ),
        ),
        Atom::BinaryOperation(b) => AtomV::BinaryOperation(
            Box::new(atom_model(b.left)),
            b.operator.value@,
            Box::new(atom_model(b.right)),
        ),
        Atom::Function(f) => AtomV::Function(
            f.identifier.0@,
            Seq::new(
                f.arguments@.len(),
                |i: int|
                    if 0 <= i < f.arguments@.len() {
                        atom_model(f.arguments@[i])
                    } else {
                        AtomV::Null
                    },
            ),
        ),
        Atom::Null => AtomV::Null,
    }
}

/// The models of a sequence of atoms.
pub open spec fn atoms_model(s: Seq<Atom>) -> Seq<AtomV> {
    Seq::new(s.len(), |i: int| atom_model(s[i]))
}

/// The models of a sequence of key/value pairs.
pub open spec fn pairs_model(s: Seq<(String, Atom)>) -> Seq<(Seq<char>, AtomV)> {
    Seq::new(s.len(), |i: int| (s[i].0@, atom_model(s[i].1)))
}

pub open spec fn cell_model(c: Cell) -> CellV
    decreases c,
{
    match c {
        Cell::Assignment(a) => CellV::Assignment(a.identifier.0@, atom_model(a.value)),
        Cell::Task(t) => CellV::Task(t.identifer.0@, t.body@, t.runtime.0@),
        Cell::Runtime(r) => CellV::Runtime(
            r.identifer.0@,
            Seq::new(
                r.children@.len(),
                |i: int|
                    if 0 <= i < r.children@.len() {
                        cell_model(r.children@[i])
                    } else {
                        CellV::Import(Seq::empty(), Seq::empty())
                    },
            ),
            r.runtime.0@,
        ),
        Cell::Block(b) => CellV::Block(b.identifer.0@, b.body@, b.runtime.0@),
        Cell::Import(i) => CellV::Import(i.path@, i.alias.0@),
        Cell::Package(p) => CellV::Package(
            p.identifer.0@,
            Seq::new(
                p.children@.len(),
                |i: int|
                    if 0 <= i < p.children@.len() {
                        cell_model(p.children@[i])
                    } else {
                        CellV::Import(Seq::empty(), Seq::empty())
                    },
            ),
            p.runtime.0@,
        ),
    }
}

/// The models of a sequence of cells.
pub open spec fn cells_model(s: Seq<Cell>) -> Seq<CellV> {
    Seq::new(s.len(), |i: int| cell_model(s[i]))
}

impl View for Atom {
    type V = AtomV;

    open spec fn view(&self) -> AtomV {
        atom_model(*self)
    }
}

impl View for Cell {
    type V = CellV;

    open spec fn view(&self) -> CellV {
        cell_model(*self)
    }
}

pub proof fn lemma_array_model(b: Box<Array>)
    ensures
        atom_model(Atom::Array(b)) == AtomV::Array(atoms_model(b.values@)),
{
    assert(atoms_model(b.values@) =~= match atom_model(Atom::Array(b)) {
        AtomV::Array(s) => s,
        _ => Seq::empty(),
    });
}

pub proof fn lemma_object_model(o: Box<Object>)
    ensures
        atom_model(Atom::Object(o)) == AtomV::Object(pairs_model(o.values@)),
{
    assert(pairs_model(o.values@) =~= match atom_model(Atom::Object(o)) {
        AtomV::Object(s) => s,
        _ => Seq::empty(),
    });
}

pub proof fn lemma_function_model(f: Box<Function>)
    ensures
        atom_model(Atom::Function(f)) == AtomV::Function(
            f.identifier.0@,
            atoms_model(f.arguments@),
        ),
{
    assert(atoms_model(f.arguments@) =~= match atom_model(Atom::Function(f)) {
        AtomV::Function(_, s) => s,
        _ => Seq::empty(),
    });
}

pub proof fn lemma_runtime_model(r: Runtime)
    ensures
        cell_model(Cell::Runtime(r)) == CellV::Runtime(
            r.identifer.0@,
            cells_model(r.children@),
            r.runtime.0@,
        ),
{
    assert(cells_model(r.children@) =~= match cell_model(Cell::Runtime(r)) {
        CellV::Runtime(_, s, _) => s,
        _ => Seq::empty(),
    });
}

pub proof fn lemma_package_model(p: Package)
    ensures
        cell_model(Cell::Package(p)) == CellV::Package(
            p.identifer.0@,
            cells_model(p.children@),
            p.runtime.0@,
        ),
{
    assert(cells_model(p.children@) =~= match cell_model(Cell::Package(p)) {
        CellV::Package(_, s, _) => s,
        _ => Seq::empty(),
    });
}

impl View for Task {
    type V = (Seq<char>, Seq<char>, Seq<char>);

    open spec fn view(&self) -> (Seq<char>, Seq<char>, Seq<char>) {
        (self.identifer.0@, self.body@, self.runtime.0@)
    }
}

impl View for Block {
    type V = (Seq<char>, Seq<char>, Seq<char>);

    open spec fn view(&self) -> (Seq<char>, Seq<char>, Seq<char>) {
        (self.identifer.0@, self.body@, self.runtime.0@)
    }
}

impl View for Import {
    type V = (Seq<char>, Seq<char>);

    open spec fn view(&self) -> (Seq<char>, Seq<char>) {
        (self.path@, self.alias.0@)
    }
}

impl View for Runtime {
    type V = (Seq<char>, Seq<CellV>, Seq<char>);

    open spec fn view(&self) -> (Seq<char>, Seq<CellV>, Seq<char>) {
        (self.identifer.0@, cells_model(self.children@), self.runtime.0@)
    }
}

impl View for Package {
    type V = (Seq<char>, Seq<CellV>, Seq<char>);

    open spec fn view(&self) -> (Seq<char>, Seq<CellV>, Seq<char>) {
        (self.identifer.0@, cells_model(self.children@), self.runtime.0@)
    }
}

/// The name that identifies a cell.
pub open spec fn cell_name(c: CellV) -> Seq<char> {
    match c {
        CellV::Assignment(n, _) => n,
        CellV::Task(n, _, _) => n,
        CellV::Runtime(n, _, _) => n,
        CellV::Block(n, _, _) => n,
        CellV::Import(_, alias) => alias,
        CellV::Package(n, _, _) => n,
    }
}

/// The tasks among the cells, in order.
pub open spec fn tasks_in(cs: Seq<CellV>) -> Seq<(Seq<char>, Seq<char>, Seq<char>)>
    decreases cs.len(),
{
    if cs.len() == 0 {
        Seq::empty()
    } else {
        tasks_in(cs.drop_last()) + match cs.last() {
            CellV::Task(n, b, r) => seq![(n, b, r)],
            _ => Seq::empty(),
        }
    }
}

/// The runtimes among the cells, in order.
pub open spec fn runtimes_in(cs: Seq<CellV>) -> Seq<(Seq<char>, Seq<CellV>, Seq<char>)>
    decreases cs.len(),
{
    if cs.len() == 0 {
        Seq::empty()
    } else {
        runtimes_in(cs.drop_last()) + match cs.last() {
            CellV::Runtime(n, k, r) => seq![(n, k, r)],
            _ => Seq::empty(),
        }
    }
}

/// The blocks among the cells, in order.
pub open spec fn blocks_in(cs: Seq<CellV>) -> Seq<(Seq<char>, Seq<char>, Seq<char>)>
    decreases cs.len(),
{
    if cs.len() == 0 {
        Seq::empty()
    } else {
        blocks_in(cs.drop_last()) + match cs.last() {
            CellV::Block(n, b, r) => seq![(n, b, r)],
            _ => Seq::empty(),
        }
    }
}

/// The imports among the cells, in order.
pub open spec fn imports_in(cs: Seq<CellV>) -> Seq<(Seq<char>, Seq<char>)>
    decreases cs.len(),
{
    if cs.len() == 0 {
        Seq::empty()
    } else {
        imports_in(cs.drop_last()) + match cs.last() {
            CellV::Import(p, a) => seq![(p, a)],
            _ => Seq::empty(),
        }
    }
}

/// The packages among the cells, in order.
pub open spec fn packages_in(cs: Seq<CellV>) -> Seq<(Seq<char>, Seq<CellV>, Seq<char>)>
    decreases cs.len(),
{
    if cs.len() == 0 {
        Seq::empty()
    } else {
        packages_in(cs.drop_last()) + match cs.last() {
            CellV::Package(n, k, r) => seq![(n, k, r)],
            _ => Seq::empty(),
        }
    }
}

/// The first task among the cells named exactly `name`.
pub open spec fn first_task_named(cs: Seq<CellV>, name: Seq<char>) -> Option<
    (Seq<char>, Seq<char>, Seq<char>),
>
    decreases cs.len(),
{
    if cs.len() == 0 {
        None
    } else {
        match cs[0] {
            CellV::Task(n, b, r) => if n == name {
                Some((n, b, r))
            } else {
                first_task_named(cs.drop_first(), name)
            },
            _ => first_task_named(cs.drop_first(), name),
        }
    }
}

/// The first runtime among the cells named exactly `name`.
pub open spec fn first_runtime_named(cs: Seq<CellV>, name: Seq<char>) -> Option<
    (Seq<char>, Seq<CellV>, Seq<char>),
>
    decreases cs.len(),
{
    if cs.len() == 0 {
        None
    } else {
        match cs[0] {
            CellV::Runtime(n, k, r) => if n == name {
                Some((n, k, r))
            } else {
                first_runtime_named(cs.drop_first(), name)
            },
            _ => first_runtime_named(cs.drop_first(), name),
        }
    }
}

} // verus!
