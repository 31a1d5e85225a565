//! The registry: parsed cells in insertion order, and a variable store in
//! which the last write to a key wins.
use vstd::prelude::*;
use crate::accessors::{packages_of, runtimes_of, task_named, tasks_of};
use crate::ast::{
    Atom, AtomV, Cell, CellV, Package, Runtime, Task, cells_model, first_runtime_named,
    first_task_named, lemma_package_model, lemma_runtime_model, packages_in, runtimes_in, tasks_in,
};
use crate::copy::{copy_atom, copy_cells, copy_runtime};
use crate::interp_spec::{key_of, trim};
use crate::interp::trim_chars;
use crate::text::{chars_of, lowercase, string_from};

verus! {

/// The process-wide store of cells and variables, passed explicitly.
#[derive(Debug)]
pub struct Ctx {
    /// Written variables in order of writing, each under its key.
    pub variables: Vec<(String, Atom)>,
    /// Cells in order of insertion.
    pub children: Vec<Cell>,
}

/// The value last written under key `k`.
pub open spec fn find_var(v: Seq<(String, Atom)>, k: Seq<char>) -> Option<AtomV>
    decreases v.len(),
{
    if v.len() == 0 {
        None
    } else if v.last().0@ == k {
        Some(v.last().1@)
    } else {
        find_var(v.drop_last(), k)
    }
}

impl Ctx {
    /// The variable store as a map from keys to values.
    pub open spec fn vars(&self) -> Map<Seq<char>, AtomV> {
        Map::new(
            |k: Seq<char>| find_var(self.variables@, k) is Some,
            |k: Seq<char>| find_var(self.variables@, k)->Some_0,
        )
    }

    /// The cells, in order of insertion.
    pub open spec fn cells(&self) -> Seq<CellV> {
        cells_model(self.children@)
    }

    /// A registry with no cells and no variables.
    pub fn empty() -> (r: Ctx)
        ensures
            r.vars() == Map::<Seq<char>, AtomV>::empty(),
            r.cells() == Seq::<CellV>::empty(),
    {
        let r = Ctx { variables: Vec::new(), children: Vec::new() };
        assert(r.vars() =~= Map::<Seq<char>, AtomV>::empty());
        assert(r.cells() =~= Seq::<CellV>::empty());
        r
    }
}

/// The name without surrounding white space.
pub fn trimmed(name: &str) -> (r: String)
    ensures
        r@ == trim(name@),
{
    string_from(&trim_chars(&chars_of(name)))
}

/// The key under which `name` is stored: trimmed and lower-cased.
pub fn variable_key(name: &str) -> (r: String)
    ensures
        r@ == key_of(name@),
{
    let t = trimmed(name);
    lowercase(t.as_str())
}

/// The value last written under `key`, by reference.
pub fn lookup<'a>(ctx: &'a Ctx, key: &String) -> (r: Option<&'a Atom>)
    ensures
        match r {
            Some(a) => ctx.vars().contains_key(key@) && a@ == ctx.vars()[key@],
            None => !ctx.vars().contains_key(key@),
        },
{
    let mut k = ctx.variables.len();
    assert(ctx.variables@.subrange(0, k as int) =~= ctx.variables@);
    while k > 0
        invariant
            k <= ctx.variables.len(),
            find_var(ctx.variables@, key@) == find_var(ctx.variables@.subrange(0, k as int), key@),
        decreases k,
    {
        assert(ctx.variables@.subrange(0, k as int).drop_last() =~= ctx.variables@.subrange(
            0,
            k - 1,
        ));
        if ctx.variables[k - 1].0 == *key {
            return Some(&ctx.variables[k - 1].1);
        }
        k -= 1;
    }
    None
}

/// The value of the variable `name`, looked up by its key.
pub fn get_variable(ctx: &Ctx, name: &str) -> (r: Option<Atom>)
    ensures
        match r {
            Some(a) => ctx.vars().contains_key(key_of(name@)) && a@ == ctx.vars()[key_of(name@)],
            None => !ctx.vars().contains_key(key_of(name@)),
        },
{
    let key = variable_key(name);
    match lookup(ctx, &key) {
        Some(a) => Some(copy_atom(a)),
        None => None,
    }
}

/// The value of the variable `name`, or `default` when it has none.
pub fn get_variable_or_default(ctx: &Ctx, name: &str, default: Atom) -> (r: Atom)
    ensures
        r@ == if ctx.vars().contains_key(key_of(name@)) {
            ctx.vars()[key_of(name@)]
        } else {
            default@
        },
{
    match get_variable(ctx, name) {
        Some(a) => a,
        None => default,
    }
}

/// Writes `value` under the key of `name`; later lookups see it.
pub fn set_variable(ctx: &mut Ctx, name: &str, value: Atom)
    ensures
        final(ctx).vars() == old(ctx).vars().insert(key_of(name@), value@),
        final(ctx).cells() == old(ctx).cells(),
{
    let key = variable_key(name);
    let ghost k = key@;
    let ghost v = value@;
    ctx.variables.push((key, value));
    assert forall|q: Seq<char>| #[trigger]
        find_var(ctx.variables@, q) == if q == k {
            Some(v)
        } else {
            find_var(old(ctx).variables@, q)
        } by {
        assert(ctx.variables@.drop_last() =~= old(ctx).variables@);
    }
    assert(ctx.vars() =~= old(ctx).vars().insert(k, v));
}

/// Adds a cell after the others.
pub fn push_cell(ctx: &mut Ctx, cell: Cell)
    ensures
        final(ctx).cells() == old(ctx).cells().push(cell@),
        final(ctx).vars() == old(ctx).vars(),
{
    let ghost c = cell@;
    ctx.children.push(cell);
    assert(ctx.cells() =~= old(ctx).cells().push(c));
    assert(ctx.vars() =~= old(ctx).vars());
}

/// The tasks of the packages among the cells, package by package.
pub open spec fn package_tasks(cs: Seq<CellV>) -> Seq<(Seq<char>, Seq<char>, Seq<char>)>
    decreases cs.len(),
{
    if cs.len() == 0 {
        Seq::empty()
    } else {
        package_tasks(cs.drop_last()) + match cs.last() {
            CellV::Package(_, kids, _) => tasks_in(kids),
            _ => Seq::empty(),
        }
    }
}

/// The runtime found by name: the first cell that is a runtime of that
/// name or a package holding one (then its first runtime of that name).
pub open spec fn find_runtime(cs: Seq<CellV>, name: Seq<char>) -> Option<
    (Seq<char>, Seq<CellV>, Seq<char>),
>
    decreases cs.len(),
{
    if cs.len() == 0 {
        None
    } else {
        match cs[0] {
            CellV::Runtime(n, k, r) => if n == name {
                Some((n, k, r))
            } else {
                find_runtime(cs.drop_first(), name)
            },
            CellV::Package(_, kids, _) => match first_runtime_named(kids, name) {
                Some(r) => Some(r),
                None => find_runtime(cs.drop_first(), name),
            },
            _ => find_runtime(cs.drop_first(), name),
        }
    }
}

/// Copies of all cells.
pub fn get_children(ctx: &Ctx) -> (r: Vec<Cell>)
    ensures
        cells_model(r@) == ctx.cells(),
{
    copy_cells(&ctx.children)
}

/// The top-level runtimes, in order.
pub fn get_runtimes(ctx: &Ctx) -> (r: Vec<Runtime>)
    ensures
        r@.map_values(|t: Runtime| t@) == runtimes_in(ctx.cells()),
{
    runtimes_of(&ctx.children)
}

/// The top-level packages, in order.
pub fn get_packages(ctx: &Ctx) -> (r: Vec<Package>)
    ensures
        r@.map_values(|t: Package| t@) == packages_in(ctx.cells()),
{
    packages_of(&ctx.children)
}

/// The top-level tasks, then the tasks of each package in turn.
pub fn get_tasks(ctx: &Ctx) -> (r: Vec<Task>)
    ensures
        r@.map_values(|t: Task| t@) == tasks_in(ctx.cells()) + package_tasks(ctx.cells()),
{
    let mut out = tasks_of(&ctx.children);
    let mut k: usize = 0;
    assert(package_tasks(cells_model(ctx.children@.subrange(0, 0))) =~= Seq::empty());
    while k < ctx.children.len()
        invariant
            k <= ctx.children.len(),
            out@.map_values(|t: Task| t@) == tasks_in(ctx.cells()) + package_tasks(
                cells_model(ctx.children@.subrange(0, k as int)),
            ),
        decreases ctx.children.len() - k,
    {
        assert(cells_model(ctx.children@.subrange(0, k + 1)).drop_last() =~= cells_model(
            ctx.children@.subrange(0, k as int),
        ));
        let ghost prev = out@;
        match &ctx.children[k] {
            Cell::Package(p) => {
                proof {
                    lemma_package_model(*p);
                }
                let mut more = p.tasks();
                let ghost added = more@;
                out.append(&mut more);
                assert(out@.map_values(|t: Task| t@) =~= prev.map_values(|t: Task| t@)
                    + added.map_values(|t: Task| t@));
            },
            _ => {},
        }
        k += 1;
        assert(out@.map_values(|t: Task| t@) =~= tasks_in(ctx.cells()) + package_tasks(
            cells_model(ctx.children@.subrange(0, k as int)),
        ));
    }
    assert(ctx.children@.subrange(0, ctx.children.len() as int) =~= ctx.children@);
    out
}

/// The first top-level task named exactly `name`.
pub fn get_task(ctx: &Ctx, name: &str) -> (r: Option<Task>)
    ensures
        match r {
            Some(t) => first_task_named(ctx.cells(), name@) == Some(t@),
            None => first_task_named(ctx.cells(), name@) is None,
        },
{
    task_named(&ctx.children, name)
}

/// The task that a `[:name(...)]` call refers to: the first top-level task
/// named exactly `name`.
pub fn get_function(ctx: &Ctx, name: &str) -> (r: Option<Task>)
    ensures
        match r {
            Some(t) => first_task_named(ctx.cells(), name@) == Some(t@),
            None => first_task_named(ctx.cells(), name@) is None,
        },
{
    task_named(&ctx.children, name)
}

/// The runtime named exactly `name`, at the top level or in a package.
pub fn get_runtime(ctx: &Ctx, name: &str) -> (r: Option<Runtime>)
    ensures
        match r {
            Some(t) => find_runtime(ctx.cells(), name@) == Some(t@),
            None => find_runtime(ctx.cells(), name@) is None,
        },
{
    let mut k: usize = 0;
    assert(ctx.children@.subrange(0, ctx.children.len() as int) =~= ctx.children@);
    while k < ctx.children.len()
        invariant
            k <= ctx.children.len(),
            find_runtime(ctx.cells(), name@) == find_runtime(
                cells_model(ctx.children@.subrange(k as int, ctx.children.len() as int)),
                name@,
            ),
        decreases ctx.children.len() - k,
    {
        assert(cells_model(ctx.children@.subrange(k as int, ctx.children.len() as int)).drop_first()
            =~= cells_model(ctx.children@.subrange(k + 1, ctx.children.len() as int)));
        assert(cells_model(ctx.children@.subrange(k as int, ctx.children.len() as int))[0]
            == ctx.children@[k as int]@);
        match &ctx.children[k] {
            Cell::Runtime(t) => {
                proof {
                    lemma_runtime_model(*t);
                }
                if t.identifier_is(name) {
                    return Some(copy_runtime(t));
                }
            },
            Cell::Package(p) => {
                proof {
                    lemma_package_model(*p);
                }
                match runtime_named(&p.children, name) {
                    Some(t) => {
                        return Some(t);
                    },
                    None => {},
                }
            },
            _ => {},
        }
        k += 1;
    }
    None
}

/// The first runtime among the cells named exactly `name`.
fn runtime_named(children: &Vec<Cell>, name: &str) -> (r: Option<Runtime>)
    ensures
        match r {
            Some(t) => first_runtime_named(cells_model(children@), name@) == Some(t@),
            None => first_runtime_named(cells_model(children@), name@) is None,
        },
{
    let mut k: usize = 0;
    assert(children@.subrange(0, children.len() as int) =~= children@);
    while k < children.len()
        invariant
            k <= children.len(),
            first_runtime_named(cells_model(children@), name@) == first_runtime_named(
                cells_model(children@.subrange(k as int, children.len() as int)),
                name@,
            ),
        decreases children.len() - k,
    {
        assert(cells_model(children@.subrange(k as int, children.len() as int)).drop_first()
            =~= cells_model(children@.subrange(k + 1, children.len() as int)));
        assert(cells_model(children@.subrange(k as int, children.len() as int))[0]
            == children@[k as int]@);
        match &children[k] {
            Cell::Runtime(t) => {
                proof {
                    lemma_runtime_model(*t);
                }
                if t.identifier_is(name) {
                    return Some(copy_runtime(t));
                }
            },
            _ => {},
        }
        k += 1;
    }
    None
}

/// The first task whose name, trimmed and lower-cased, is `key`.
pub open spec fn first_with_key(tasks: Seq<Task>, key: Seq<char>, i: int) -> Option<int>
    decreases tasks.len() - i,
{
    if i < 0 || i >= tasks.len() {
        None
    } else if key_of(tasks[i].identifer.0@) == key {
        Some(i)
    } else {
        first_with_key(tasks, key, i + 1)
    }
}

/// Where in `tasks` the task named on the command line stands: the first
/// whose name, trimmed and lower-cased, equals `task_name`.
pub fn task_for_argument(tasks: &Vec<Task>, task_name: &str) -> (r: Option<usize>)
    ensures
        match first_with_key(tasks@, task_name@, 0) {
            Some(i) => r == Some(i as usize),
            None => r is None,
        },
{
    let wanted = task_name.to_owned();
    let mut i: usize = 0;
    while i < tasks.len()
        invariant
            i <= tasks.len(),
            wanted@ == task_name@,
            first_with_key(tasks@, task_name@, i as int) == first_with_key(tasks@, task_name@, 0),
        decreases tasks.len() - i,
    {
        let k = variable_key(tasks[i].identifer.0.as_str());
        if k == wanted {
            return Some(i);
        }
        i += 1;
    }
    None
}

} // verus!
