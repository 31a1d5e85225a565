//! Constructors and accessors of atoms and cells.
use vstd::prelude::*;
use crate::ast::{
    Array, Assignment, Atom, AtomV, BinaryOperation, Block, Cell, CellV, Function, Identifier,
    Import, Object, Operator, Package, Runtime, Task, Variable, atoms_model, blocks_in, cell_name,
    cells_model, first_task_named, imports_in, lemma_array_model, lemma_object_model,
    lemma_package_model, lemma_runtime_model, packages_in, pairs_model, runtimes_in, tasks_in,
};
use crate::grammar::package_runtime;
use crate::copy::{copy_atom, copy_atoms, copy_identifier, copy_package, copy_runtime, copy_task};
use crate::render::atom_text;

verus! {

/// `a` and `b` hold the same text.
pub fn same_text(a: &String, b: &str) -> (r: bool)
    ensures
        r == (a@ == b@),
{
    let o = b.to_owned();
    *a == o
}

impl Identifier {
    pub fn new(value: &str) -> (r: Identifier)
        ensures
            r.0@ == value@,
    {
        Identifier(value.to_owned())
    }

    /// The identifier is exactly `name`.
    pub fn matches(&self, name: &str) -> (r: bool)
        ensures
            r == (self.0@ == name@),
    {
        same_text(&self.0, name)
    }
}

impl Task {
    pub fn new(identifer: &str, body: &str, runtime: &str) -> (r: Task)
        ensures
            r@ == (identifer@, body@, runtime@),
    {
        Task {
            identifer: Identifier::new(identifer),
            body: body.to_owned(),
            runtime: Identifier::new(runtime),
        }
    }

    pub fn identifier_is(&self, name: &str) -> (r: bool)
        ensures
            r == (self.identifer.0@ == name@),
    {
        self.identifer.matches(name)
    }

    pub fn name(&self) -> (r: String)
        ensures
            r@ == self.identifer.0@,
    {
        self.identifer.0.clone()
    }

    pub fn runtime(&self) -> (r: String)
        ensures
            r@ == self.runtime.0@,
    {
        self.runtime.0.clone()
    }

    /// The body of the task.
    pub fn get_code(&self) -> (r: String)
        ensures
            r@ == self.body@,
    {
        self.body.clone()
    }
}

impl Block {
    pub fn new(identifer: &str, body: &str, runtime: &str) -> (r: Block)
        ensures
            r@ == (identifer@, body@, runtime@),
    {
        Block {
            identifer: Identifier::new(identifer),
            body: body.to_owned(),
            runtime: Identifier::new(runtime),
        }
    }

    pub fn identifier_is(&self, name: &str) -> (r: bool)
        ensures
            r == (self.identifer.0@ == name@),
    {
        self.identifer.matches(name)
    }

    pub fn name(&self) -> (r: String)
        ensures
            r@ == self.identifer.0@,
    {
        self.identifer.0.clone()
    }

    pub fn runtime(&self) -> (r: String)
        ensures
            r@ == self.runtime.0@,
    {
        self.runtime.0.clone()
    }
}

impl Import {
    pub fn new(path: &str, alias: &str) -> (r: Import)
        ensures
            r@ == (path@, alias@),
    {
        Import { path: path.to_owned(), alias: Identifier::new(alias) }
    }
}

impl Assignment {
    pub fn new(identifier: &str, value: Atom) -> (r: Assignment)
        ensures
            r.identifier.0@ == identifier@,
            r.value@ == value@,
    {
        Assignment { identifier: Identifier::new(identifier), value }
    }

    pub fn identifier_is(&self, name: &str) -> (r: bool)
        ensures
            r == (self.identifier.0@ == name@),
    {
        self.identifier.matches(name)
    }

    pub fn name(&self) -> (r: String)
        ensures
            r@ == self.identifier.0@,
    {
        self.identifier.0.clone()
    }
}

/// The tasks among the cells.
pub(crate) fn tasks_of(children: &Vec<Cell>) -> (r: Vec<Task>)
    ensures
        r@.map_values(|t: Task| t@) == tasks_in(cells_model(children@)),
{
    let mut out: Vec<Task> = Vec::new();
    let mut k: usize = 0;
    while k < children.len()
        invariant
            k <= children.len(),
            out@.map_values(|t: Task| t@) == tasks_in(cells_model(children@.subrange(0, k as int))),
        decreases children.len() - k,
    {
        assert(cells_model(children@.subrange(0, k + 1)).drop_last() =~= cells_model(
            children@.subrange(0, k as int),
        ));
        let ghost prev = out@;
        match &children[k] {
            Cell::Task(t) => {
                out.push(copy_task(t));
                assert(out@.map_values(|t: Task| t@) =~= prev.map_values(|t: Task| t@).push(t@));
            },
            _ => {},
        }
        k += 1;
        assert(out@.map_values(|t: Task| t@) =~= tasks_in(
            cells_model(children@.subrange(0, k as int)),
        ));
    }
    assert(children@.subrange(0, children.len() as int) =~= children@);
    out
}

/// The first task among the cells named exactly `name`.
pub(crate) fn task_named(children: &Vec<Cell>, name: &str) -> (r: Option<Task>)
    ensures
        match r {
            Some(t) => first_task_named(cells_model(children@), name@) == Some(t@),
            None => first_task_named(cells_model(children@), name@) is None,
        },
{
    let mut k: usize = 0;
    assert(children@.subrange(0, children.len() as int) =~= children@);
    while k < children.len()
        invariant
            k <= children.len(),
            first_task_named(cells_model(children@), name@) == first_task_named(
                cells_model(children@.subrange(k as int, children.len() as int)),
                name@,
            ),
        decreases children.len() - k,
    {
        assert(cells_model(children@.subrange(k as int, children.len() as int)).drop_first()
            =~= cells_model(children@.subrange(k + 1, children.len() as int)));
        assert(cells_model(children@.subrange(k as int, children.len() as int))[0]
            == children@[k as int]@);
        match &children[k] {
            Cell::Task(t) => {
                if t.identifier_is(name) {
                    return Some(copy_task(t));
                }
            },
            _ => {},
        }
        k += 1;
    }
    None
}

/// The runtimes among the cells, in order.
pub(crate) fn runtimes_of(children: &Vec<Cell>) -> (r: Vec<Runtime>)
    ensures
        r@.map_values(|t: Runtime| t@) == runtimes_in(cells_model(children@)),
{
    let mut out: Vec<Runtime> = Vec::new();
    let mut k: usize = 0;
    while k < children.len()
        invariant
            k <= children.len(),
            out@.map_values(|t: Runtime| t@) == runtimes_in(
                cells_model(children@.subrange(0, k as int)),
            ),
        decreases children.len() - k,
    {
        assert(cells_model(children@.subrange(0, k + 1)).drop_last() =~= cells_model(
            children@.subrange(0, k as int),
        ));
        let ghost prev = out@;
        match &children[k] {
            Cell::Runtime(t) => {
                proof {
                    lemma_runtime_model(*t);
                }
                out.push(copy_runtime(t));
                assert(out@.map_values(|t: Runtime| t@) =~= prev.map_values(|t: Runtime| t@).push(
                    t@,
                ));
            },
            _ => {},
        }
        k += 1;
        assert(out@.map_values(|t: Runtime| t@) =~= runtimes_in(
            cells_model(children@.subrange(0, k as int)),
        ));
    }
    assert(children@.subrange(0, children.len() as int) =~= children@);
    out
}

/// The packages among the cells, in order.
pub(crate) fn packages_of(children: &Vec<Cell>) -> (r: Vec<Package>)
    ensures
        r@.map_values(|t: Package| t@) == packages_in(cells_model(children@)),
{
    let mut out: Vec<Package> = Vec::new();
    let mut k: usize = 0;
    while k < children.len()
        invariant
            k <= children.len(),
            out@.map_values(|t: Package| t@) == packages_in(
                cells_model(children@.subrange(0, k as int)),
            ),
        decreases children.len() - k,
    {
        assert(cells_model(children@.subrange(0, k + 1)).drop_last() =~= cells_model(
            children@.subrange(0, k as int),
        ));
        let ghost prev = out@;
        match &children[k] {
            Cell::Package(t) => {
                proof {
                    lemma_package_model(*t);
                }
                out.push(copy_package(t));
                assert(out@.map_values(|t: Package| t@) =~= prev.map_values(|t: Package| t@).push(
                    t@,
                ));
            },
            _ => {},
        }
        k += 1;
        assert(out@.map_values(|t: Package| t@) =~= packages_in(
            cells_model(children@.subrange(0, k as int)),
        ));
    }
    assert(children@.subrange(0, children.len() as int) =~= children@);
    out
}

impl Runtime {
    pub fn new(identifer: &str, runtime: &str, children: Vec<Cell>) -> (r: Runtime)
        ensures
            r@ == (identifer@, cells_model(children@), runtime@),
    {
        Runtime {
            identifer: Identifier::new(identifer),
            children,
            runtime: Identifier::new(runtime),
        }
    }

    pub fn identifier_is(&self, name: &str) -> (r: bool)
        ensures
            r == (self.identifer.0@ == name@),
    {
        self.identifer.matches(name)
    }

    pub fn name(&self) -> (r: String)
        ensures
            r@ == self.identifer.0@,
    {
        self.identifer.0.clone()
    }

    pub fn runtime(&self) -> (r: String)
        ensures
            r@ == self.runtime.0@,
    {
        self.runtime.0.clone()
    }

    /// The first task of the runtime named exactly `name`.
    pub fn get_task(&self, name: &str) -> (r: Option<Task>)
        ensures
            match r {
                Some(t) => first_task_named(cells_model(self.children@), name@) == Some(t@),
                None => first_task_named(cells_model(self.children@), name@) is None,
            },
    {
        task_named(&self.children, name)
    }
}

impl Package {
    /// A package of the given cells, with the default runtime `moto`.
    pub fn new(identifer: &str, children: Vec<Cell>) -> (r: Package)
        ensures
            r@ == (identifer@, cells_model(children@), package_runtime()),
    {
        let rt = vec!['m', 'o', 't', 'o'];
        let rts = crate::text::string_from(&rt);
        assert(rt@ =~= package_runtime());
        Package { identifer: Identifier::new(identifer), children, runtime: Identifier(rts) }
    }

    pub fn identifier_is(&self, name: &str) -> (r: bool)
        ensures
            r == (self.identifer.0@ == name@),
    {
        self.identifer.matches(name)
    }

    pub fn name(&self) -> (r: String)
        ensures
            r@ == self.identifer.0@,
    {
        self.identifer.0.clone()
    }

    /// The tasks among the package's cells, in order.
    pub fn tasks(&self) -> (r: Vec<Task>)
        ensures
            r@.map_values(|t: Task| t@) == tasks_in(cells_model(self.children@)),
    {
        tasks_of(&self.children)
    }

    /// The runtimes among the package's cells, in order.
    pub fn runtimes(&self) -> (r: Vec<Runtime>)
        ensures
            r@.map_values(|t: Runtime| t@) == runtimes_in(cells_model(self.children@)),
    {
        runtimes_of(&self.children)
    }

    /// The blocks among the package's cells, in order.
    pub fn blocks(&self) -> (r: Vec<Block>)
        ensures
            r@.map_values(|t: Block| t@) == blocks_in(cells_model(self.children@)),
    {
        let mut out: Vec<Block> = Vec::new();
        let mut k: usize = 0;
        while k < self.children.len()
            invariant
                k <= self.children.len(),
                out@.map_values(|t: Block| t@) == blocks_in(
                    cells_model(self.children@.subrange(0, k as int)),
                ),
            decreases self.children.len() - k,
        {
            assert(cells_model(self.children@.subrange(0, k + 1)).drop_last() =~= cells_model(
                self.children@.subrange(0, k as int),
            ));
            let ghost prev = out@;
            match &self.children[k] {
                Cell::Block(t) => {
                    out.push(
                        Block {
                            identifer: copy_identifier(&t.identifer),
                            body: t.body.clone(),
                            runtime: copy_identifier(&t.runtime),
                        },
                    );
                    assert(out@.map_values(|t: Block| t@) =~= prev.map_values(|t: Block| t@).push(
                        t@,
                    ));
                },
                _ => {},
            }
            k += 1;
            assert(out@.map_values(|t: Block| t@) =~= blocks_in(
                cells_model(self.children@.subrange(0, k as int)),
            ));
        }
        assert(self.children@.subrange(0, self.children.len() as int) =~= self.children@);
        out
    }

    /// The imports among the package's cells, in order.
    pub fn imports(&self) -> (r: Vec<Import>)
        ensures
            r@.map_values(|t: Import| t@) == imports_in(cells_model(self.children@)),
    {
        let mut out: Vec<Import> = Vec::new();
        let mut k: usize = 0;
        while k < self.children.len()
            invariant
                k <= self.children.len(),
                out@.map_values(|t: Import| t@) == imports_in(
                    cells_model(self.children@.subrange(0, k as int)),
                ),
            decreases self.children.len() - k,
        {
            assert(cells_model(self.children@.subrange(0, k + 1)).drop_last() =~= cells_model(
                self.children@.subrange(0, k as int),
            ));
            let ghost prev = out@;
            match &self.children[k] {
                Cell::Import(t) => {
                    out.push(Import { path: t.path.clone(), alias: copy_identifier(&t.alias) });
                    assert(out@.map_values(|t: Import| t@) =~= prev.map_values(|t: Import| t@).push(
                        t@,
                    ));
                },
                _ => {},
            }
            k += 1;
            assert(out@.map_values(|t: Import| t@) =~= imports_in(
                cells_model(self.children@.subrange(0, k as int)),
            ));
        }
        assert(self.children@.subrange(0, self.children.len() as int) =~= self.children@);
        out
    }

    /// The packages among the package's cells, in order.
    pub fn packages(&self) -> (r: Vec<Package>)
        ensures
            r@.map_values(|t: Package| t@) == packages_in(cells_model(self.children@)),
    {
        packages_of(&self.children)
    }

    /// The first task of the package named exactly `task_name`.
    pub fn get_task(&self, task_name: &str) -> (r: Option<Task>)
        ensures
            match r {
                Some(t) => first_task_named(cells_model(self.children@), task_name@) == Some(t@),
                None => first_task_named(cells_model(self.children@), task_name@) is None,
            },
    {
        task_named(&self.children, task_name)
    }
}

/// The kind of a cell as a word.
pub open spec fn kind_name(c: CellV) -> Seq<char> {
    match c {
        CellV::Assignment(_, _) => seq!['a', 's', 's', 'i', 'g', 'n', 'm', 'e', 'n', 't'],
        CellV::Task(_, _, _) => seq!['t', 'a', 's', 'k'],
        CellV::Runtime(_, _, _) => seq!['r', 'u', 'n', 't', 'i', 'm', 'e'],
        CellV::Block(_, _, _) => seq!['b', 'l', 'o', 'c', 'k'],
        CellV::Import(_, _) => seq!['i', 'm', 'p', 'o', 'r', 't'],
        CellV::Package(_, _, _) => seq!['p', 'a', 'c', 'k', 'a', 'g', 'e'],
    }
}

/// A one-line description of a cell.
pub open spec fn description(c: CellV) -> Seq<char> {
    match c {
        CellV::Assignment(n, v) => seq!['l', 'e', 't', ' '] + n + seq![' ', '=', ' '] + atom_text(v),
        CellV::Task(n, _, r) => seq!['t', 'a', 's', 'k', ' '] + n + with_runtime() + r,
        CellV::Runtime(n, _, r) => seq!['r', 'u', 'n', 't', 'i', 'm', 'e', ' '] + n + with_runtime()
            + r,
        CellV::Block(n, _, r) => seq!['b', 'l', 'o', 'c', 'k', ' '] + n + with_runtime() + r,
        CellV::Import(p, a) => seq!['i', 'm', 'p', 'o', 'r', 't', ' '] + p + seq![' ', 'a', 's', ' ']
            + a,
        CellV::Package(n, _, _) => seq!['p', 'a', 'c', 'k', 'a', 'g', 'e', ' '] + n,
    }
}

pub open spec fn with_runtime() -> Seq<char> {
    seq![' ', 'w', 'i', 't', 'h', ' ', 'r', 'u', 'n', 't', 'i', 'm', 'e', ' ']
}

/// The runtime a cell names, for tasks, runtimes and blocks.
pub open spec fn runtime_of(c: CellV) -> Option<Seq<char>> {
    match c {
        CellV::Task(_, _, r) => Some(r),
        CellV::Runtime(_, _, r) => Some(r),
        CellV::Block(_, _, r) => Some(r),
        _ => None,
    }
}

/// The body of a task or block.
pub open spec fn body_of(c: CellV) -> Option<Seq<char>> {
    match c {
        CellV::Task(_, b, _) => Some(b),
        CellV::Block(_, b, _) => Some(b),
        _ => None,
    }
}

fn name_ref(c: &Cell) -> (r: &Identifier)
    ensures
        r.0@ == cell_name(c@),
{
    match c {
        Cell::Assignment(a) => &a.identifier,
        Cell::Task(t) => &t.identifer,
        Cell::Runtime(t) => {
            proof {
                lemma_runtime_model(*t);
            }
            &t.identifer
        },
        Cell::Block(t) => &t.identifer,
        Cell::Import(t) => &t.alias,
        Cell::Package(t) => {
            proof {
                lemma_package_model(*t);
            }
            &t.identifer
        },
    }
}

fn chars_text(w: &Vec<char>) -> (r: String)
    ensures
        r@ == w@,
{
    crate::text::string_from(w)
}

impl Cell {
    /// The name that identifies the cell; every cell has one.
    pub fn identifier(&self) -> (r: Option<Identifier>)
        ensures
            r matches Some(i) && i.0@ == cell_name(self@),
    {
        Some(copy_identifier(name_ref(self)))
    }

    pub fn name(&self) -> (r: String)
        ensures
            r@ == cell_name(self@),
    {
        name_ref(self).0.clone()
    }

    /// `assignment`, `task`, `runtime`, `block`, `import` or `package`.
    pub fn get_kind(&self) -> (r: String)
        ensures
            r@ == kind_name(self@),
    {
        let w = match self {
            Cell::Assignment(_) => vec!['a', 's', 's', 'i', 'g', 'n', 'm', 'e', 'n', 't'],
            Cell::Task(_) => vec!['t', 'a', 's', 'k'],
            Cell::Runtime(t) => {
                proof {
                    lemma_runtime_model(*t);
                }
                vec!['r', 'u', 'n', 't', 'i', 'm', 'e']
            },
            Cell::Block(_) => vec!['b', 'l', 'o', 'c', 'k'],
            Cell::Import(_) => vec!['i', 'm', 'p', 'o', 'r', 't'],
            Cell::Package(t) => {
                proof {
                    lemma_package_model(*t);
                }
                vec!['p', 'a', 'c', 'k', 'a', 'g', 'e']
            },
        };
        assert(w@ =~= kind_name(self@));
        chars_text(&w)
    }

    /// A one-line description, such as `task greet with runtime shell`.
    pub fn get_description(&self) -> (r: String)
        ensures
            r@ == description(self@),
    {
        let mut out: Vec<char> = Vec::new();
        let wr = vec![' ', 'w', 'i', 't', 'h', ' ', 'r', 'u', 'n', 't', 'i', 'm', 'e', ' '];
        assert(wr@ =~= with_runtime());
        match self {
            Cell::Assignment(a) => {
                crate::render::push_all(&mut out, &vec!['l', 'e', 't', ' ']);
                crate::render::push_all(&mut out, &crate::text::chars_of(a.identifier.0.as_str()));
                crate::render::push_all(&mut out, &vec![' ', '=', ' ']);
                crate::render::push_atom_text(&a.value, &mut out);
            },
            Cell::Task(t) => {
                crate::render::push_all(&mut out, &vec!['t', 'a', 's', 'k', ' ']);
                crate::render::push_all(&mut out, &crate::text::chars_of(t.identifer.0.as_str()));
                crate::render::push_all(&mut out, &wr);
                crate::render::push_all(&mut out, &crate::text::chars_of(t.runtime.0.as_str()));
            },
            Cell::Runtime(t) => {
                proof {
                    lemma_runtime_model(*t);
                }
                crate::render::push_all(&mut out, &vec!['r', 'u', 'n', 't', 'i', 'm', 'e', ' ']);
                crate::render::push_all(&mut out, &crate::text::chars_of(t.identifer.0.as_str()));
                crate::render::push_all(&mut out, &wr);
                crate::render::push_all(&mut out, &crate::text::chars_of(t.runtime.0.as_str()));
            },
            Cell::Block(t) => {
                crate::render::push_all(&mut out, &vec!['b', 'l', 'o', 'c', 'k', ' ']);
                crate::render::push_all(&mut out, &crate::text::chars_of(t.identifer.0.as_str()));
                crate::render::push_all(&mut out, &wr);
                crate::render::push_all(&mut out, &crate::text::chars_of(t.runtime.0.as_str()));
            },
            Cell::Import(t) => {
                crate::render::push_all(&mut out, &vec!['i', 'm', 'p', 'o', 'r', 't', ' ']);
                crate::render::push_all(&mut out, &crate::text::chars_of(t.path.as_str()));
                crate::render::push_all(&mut out, &vec![' ', 'a', 's', ' ']);
                crate::render::push_all(&mut out, &crate::text::chars_of(t.alias.0.as_str()));
            },
            Cell::Package(t) => {
                proof {
                    lemma_package_model(*t);
                }
                crate::render::push_all(&mut out, &vec!['p', 'a', 'c', 'k', 'a', 'g', 'e', ' ']);
                crate::render::push_all(&mut out, &crate::text::chars_of(t.identifer.0.as_str()));
            },
        }
        assert(out@ =~= description(self@));
        chars_text(&out)
    }

    /// The cell's name is exactly `name`.
    pub fn identifier_is(&self, name: &str) -> (r: bool)
        ensures
            r == (cell_name(self@) == name@),
    {
        name_ref(self).matches(name)
    }

    /// The runtime named by a task, runtime or block.
    pub fn get_runtime(&self) -> (r: Option<Identifier>)
        ensures
            match runtime_of(self@) {
                Some(n) => r matches Some(i) && i.0@ == n,
                None => r is None,
            },
    {
        match self {
            Cell::Task(t) => Some(copy_identifier(&t.runtime)),
            Cell::Runtime(t) => {
                proof {
                    lemma_runtime_model(*t);
                }
                Some(copy_identifier(&t.runtime))
            },
            Cell::Block(t) => Some(copy_identifier(&t.runtime)),
            Cell::Package(t) => {
                proof {
                    lemma_package_model(*t);
                }
                None
            },
            _ => None,
        }
    }

    /// The body of a task or block.
    pub fn get_body(&self) -> (r: Option<String>)
        ensures
            match body_of(self@) {
                Some(b) => r matches Some(s) && s@ == b,
                None => r is None,
            },
    {
        match self {
            Cell::Task(t) => Some(t.body.clone()),
            Cell::Block(t) => Some(t.body.clone()),
            Cell::Runtime(t) => {
                proof {
                    lemma_runtime_model(*t);
                }
                None
            },
            Cell::Package(t) => {
                proof {
                    lemma_package_model(*t);
                }
                None
            },
            _ => None,
        }
    }

    pub fn assignment(identifier: &str, value: Atom) -> (r: Cell)
        ensures
            r@ == CellV::Assignment(identifier@, value@),
    {
        Cell::Assignment(Assignment::new(identifier, value))
    }

    pub fn task(identifer: &str, body: &str, runtime: &str) -> (r: Cell)
        ensures
            r@ == CellV::Task(identifer@, body@, runtime@),
    {
        Cell::Task(Task::new(identifer, body, runtime))
    }

    pub fn runtime(identifer: &str, runtime: &str, children: Vec<Cell>) -> (r: Cell)
        ensures
            r@ == CellV::Runtime(identifer@, cells_model(children@), runtime@),
    {
        let t = Runtime::new(identifer, runtime, children);
        proof {
            lemma_runtime_model(t);
        }
        Cell::Runtime(t)
    }

    pub fn block(identifer: &str, body: &str, runtime: &str) -> (r: Cell)
        ensures
            r@ == CellV::Block(identifer@, body@, runtime@),
    {
        Cell::Block(Block::new(identifer, body, runtime))
    }

    /// A package with the default runtime `moto`.
    pub fn package(identifer: &str, children: Vec<Cell>) -> (r: Cell)
        ensures
            r@ == CellV::Package(identifer@, cells_model(children@), package_runtime()),
    {
        let t = Package::new(identifer, children);
        proof {
            lemma_package_model(t);
        }
        Cell::Package(t)
    }

    pub fn import(path: &str, alias: &str) -> (r: Cell)
        ensures
            r@ == CellV::Import(path@, alias@),
    {
        Cell::Import(Import::new(path, alias))
    }
}

impl Atom {
    pub fn number(value: u64) -> (r: Atom)
        ensures
            r@ == AtomV::Number(value),
    {
        Atom::Number(value)
    }

    /// A string atom; the text is kept as it is, digits included.
    pub fn string(value: &str) -> (r: Atom)
        ensures
            r@ == AtomV::Str(value@),
    {
        Atom::String(value.to_owned())
    }

    pub fn boolean(value: bool) -> (r: Atom)
        ensures
            r@ == AtomV::Boolean(value),
    {
        Atom::Boolean(value)
    }

    pub fn array(value: Vec<Atom>) -> (r: Atom)
        ensures
            r@ == AtomV::Array(atoms_model(value@)),
    {
        let b = Box::new(Array { values: value });
        proof {
            lemma_array_model(b);
        }
        Atom::Array(b)
    }

    pub fn object(value: Vec<(String, Atom)>) -> (r: Atom)
        ensures
            r@ == AtomV::Object(pairs_model(value@)),
    {
        let b = Box::new(Object { values: value });
        proof {
            lemma_object_model(b);
        }
        Atom::Object(b)
    }

    pub fn binary_operation(left: Atom, operator: &str, right: Atom) -> (r: Atom)
        ensures
            r@ == AtomV::BinaryOperation(Box::new(left@), operator@, Box::new(right@)),
    {
        Atom::BinaryOperation(
            Box::new(BinaryOperation { left, operator: Operator { value: operator.to_owned() }, right }),
        )
    }
}

impl Array {
    pub fn new(values: Vec<Atom>) -> (r: Array)
        ensures
            atoms_model(r.values@) == atoms_model(values@),
    {
        Array { values }
    }

    /// Adds an item at the end.
    pub fn push(&mut self, value: Atom)
        ensures
            atoms_model(final(self).values@) == atoms_model(old(self).values@).push(value@),
    {
        let ghost v = value@;
        self.values.push(value);
        assert(atoms_model(self.values@) =~= atoms_model(old(self).values@).push(v));
    }

    /// Removes and returns the last item, if any.
    pub fn pop(&mut self) -> (r: Option<Atom>)
        ensures
            old(self).values.len() == 0 ==> r is None && final(self).values@ == old(self).values@,
            old(self).values.len() > 0 ==> (r matches Some(a) && a@ == old(self).values@.last()@
                && atoms_model(final(self).values@) == atoms_model(old(self).values@).drop_last()),
    {
        let r = self.values.pop();
        proof {
            if old(self).values.len() > 0 {
                assert(atoms_model(self.values@) =~= atoms_model(old(self).values@).drop_last());
            }
        }
        r
    }

    /// The item at `index`, if there is one.
    pub fn get(&self, index: usize) -> (r: Option<&Atom>)
        ensures
            index < self.values.len() ==> (r matches Some(a) && a@ == self.values@[index as int]@),
            index >= self.values.len() ==> r is None,
    {
        if index < self.values.len() {
            Some(&self.values[index])
        } else {
            None
        }
    }

    /// Replaces the item at `index`.
    pub fn set(&mut self, index: usize, value: Atom)
        requires
            index < old(self).values.len(),
        ensures
            atoms_model(final(self).values@) == atoms_model(old(self).values@).update(
                index as int,
                value@,
            ),
    {
        let ghost v = value@;
        self.values.set(index, value);
        assert(atoms_model(self.values@) =~= atoms_model(old(self).values@).update(index as int, v));
    }

    pub fn len(&self) -> (r: usize)
        ensures
            r == self.values.len(),
    {
        self.values.len()
    }
}

impl Variable {
    pub fn new(identifier: &str, value: Atom) -> (r: Variable)
        ensures
            r.identifier.0@ == identifier@,
            r.value@ == value@,
    {
        Variable { identifier: Identifier::new(identifier), value }
    }

    pub fn with_default(identifier: &str, default: Atom) -> (r: Variable)
        ensures
            r.identifier.0@ == identifier@,
            r.value@ == default@,
    {
        Variable { identifier: Identifier::new(identifier), value: default }
    }

    /// The variable has a fallback value other than `Null`.
    pub fn has_default(&self) -> (r: bool)
        ensures
            r == !(self.value@ is Null),
    {
        match &self.value {
            Atom::Null => false,
            _ => true,
        }
    }

    pub fn get_value(&self) -> (r: Atom)
        ensures
            r@ == self.value@,
    {
        copy_atom(&self.value)
    }

    /// The text of the fallback value.
    pub fn get_value_str(&self) -> (r: String)
        ensures
            r@ == atom_text(self.value@),
    {
        self.value.to_text()
    }

    pub fn identifier_is(&self, name: &str) -> (r: bool)
        ensures
            r == (self.identifier.0@ == name@),
    {
        self.identifier.matches(name)
    }

    pub fn name(&self) -> (r: String)
        ensures
            r@ == self.identifier.0@,
    {
        self.identifier.0.clone()
    }

    pub fn set_value(&mut self, value: Atom)
        ensures
            final(self).value@ == value@,
            final(self).identifier.0@ == old(self).identifier.0@,
    {
        self.value = value;
    }

    pub fn get_identifier(&self) -> (r: Identifier)
        ensures
            r.0@ == self.identifier.0@,
    {
        copy_identifier(&self.identifier)
    }

    pub fn set_identifier(&mut self, identifier: &str)
        ensures
            final(self).identifier.0@ == identifier@,
            final(self).value@ == old(self).value@,
    {
        self.identifier = Identifier::new(identifier);
    }

    /// The fallback value, or `default_value` when the fallback is `Null`.
    pub fn get_value_or(&self, default_value: Atom) -> (r: Atom)
        ensures
            r@ == if self.value@ is Null {
                default_value@
            } else {
                self.value@
            },
    {
        match &self.value {
            Atom::Null => default_value,
            v => copy_atom(v),
        }
    }
}

impl Function {
    pub fn new(identifier: &str, arguments: Vec<Atom>) -> (r: Function)
        ensures
            r.identifier.0@ == identifier@,
            atoms_model(r.arguments@) == atoms_model(arguments@),
    {
        Function { identifier: Identifier::new(identifier), arguments }
    }

    pub fn name(&self) -> (r: Identifier)
        ensures
            r.0@ == self.identifier.0@,
    {
        copy_identifier(&self.identifier)
    }

    pub fn set_identifier(&mut self, identifier: &str)
        ensures
            final(self).identifier.0@ == identifier@,
            atoms_model(final(self).arguments@) == atoms_model(old(self).arguments@),
    {
        self.identifier = Identifier::new(identifier);
    }

    pub fn args(&self) -> (r: Vec<Atom>)
        ensures
            atoms_model(r@) == atoms_model(self.arguments@),
    {
        copy_atoms(&self.arguments)
    }

    pub fn set_arguments(&mut self, arguments: Vec<Atom>)
        ensures
            final(self).identifier.0@ == old(self).identifier.0@,
            atoms_model(final(self).arguments@) == atoms_model(arguments@),
    {
        self.arguments = arguments;
    }
}

} // verus!
