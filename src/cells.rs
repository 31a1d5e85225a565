//! Executable parsing of cells, proved equal to the grammar.
use vstd::prelude::*;
use crate::ast::{
    Assignment, Block, Cell, Identifier, Import, Package, Runtime, cells_model, lemma_runtime_model,
};
use crate::atoms::{atom_at, identifier_at, keyword_at, string_at, token_at};
use crate::grammar::{
    assignment, block, cell, cells, close_tag, import, kw_as, kw_block, kw_import,
    kw_let, kw_package, kw_runtime, kw_task, member, members, package, raw_cell, runtime,
    runtime_member, runtime_members, task,
};
use crate::scan::{body_close_at, skip_trivia_at};
use crate::text::string_from;
use crate::interp::{sub_chars, trim_chars};
use crate::interp_spec::trim;

verus! {

/// The characters `s[a..b]` without white space at either end.
pub fn trimmed_between(s: &Vec<char>, a: usize, b: usize) -> (r: String)
    requires
        a <= b <= s.len(),
    ensures
        r@ == trim(s@.subrange(a as int, b as int)),
{
    string_from(&trim_chars(&sub_chars(s, a, b)))
}

pub fn assignment_at(s: &Vec<char>, i: usize) -> (r: Option<(Assignment, usize)>)
    requires
        i <= s.len(),
    ensures
        match r {
            Some((a, e)) => assignment(s@, i as int) == Some(
                ((a.identifier.0@, a.value@), e as int),
            ) && i < e <= s.len(),
            None => assignment(s@, i as int) is None,
        },
{
    let w = vec!['l', 'e', 't'];
    assert(w@ =~= kw_let());
    let a = match keyword_at(s, i, &w) {
        Some(a) => a,
        None => return None,
    };
    let (name, b) = match identifier_at(s, a) {
        Some(x) => x,
        None => return None,
    };
    let c = match token_at(s, b, '=') {
        Some(c) => c,
        None => return None,
    };
    let (v, d) = match atom_at(s, c) {
        Some(x) => x,
        None => return None,
    };
    match token_at(s, d, ';') {
        Some(e) => Some((Assignment { identifier: Identifier(name), value: v }, e)),
        None => None,
    }
}

/// Name, body and runtime of a task or block introduced by the keyword `w`.
fn raw_cell_at(s: &Vec<char>, i: usize, w: &Vec<char>) -> (r: Option<
    ((String, String, String), usize),
>)
    requires
        i <= s.len(),
    ensures
        match r {
            Some((t, e)) => raw_cell(s@, i as int, w@) == Some(((t.0@, t.1@, t.2@), e as int))
                && i < e <= s.len(),
            None => raw_cell(s@, i as int, w@) is None,
        },
{
    let a = match keyword_at(s, i, w) {
        Some(a) => a,
        None => return None,
    };
    let (name, b) = match identifier_at(s, a) {
        Some(x) => x,
        None => return None,
    };
    if !(b < s.len() && s[b] == '{') {
        return None;
    }
    let c = match body_close_at(s, b + 1) {
        Some(c) => c,
        None => return None,
    };
    match identifier_at(s, c + 2) {
        Some((rt, e)) => Some(((name, trimmed_between(s, b + 1, c), rt), e)),
        None => None,
    }
}

pub fn task_at(s: &Vec<char>, i: usize) -> (r: Option<(crate::ast::Task, usize)>)
    requires
        i <= s.len(),
    ensures
        match r {
            Some((t, e)) => task(s@, i as int) == Some(
                ((t.identifer.0@, t.body@, t.runtime.0@), e as int),
            ) && i < e <= s.len(),
            None => task(s@, i as int) is None,
        },
{
    let w = vec!['t', 'a', 's', 'k'];
    assert(w@ =~= kw_task());
    match raw_cell_at(s, i, &w) {
        Some(((n, body, rt), e)) => Some(
            (crate::ast::Task { identifer: Identifier(n), body, runtime: Identifier(rt) }, e),
        ),
        None => None,
    }
}

pub fn block_at(s: &Vec<char>, i: usize) -> (r: Option<(Block, usize)>)
    requires
        i <= s.len(),
    ensures
        match r {
            Some((t, e)) => block(s@, i as int) == Some(
                ((t.identifer.0@, t.body@, t.runtime.0@), e as int),
            ) && i < e <= s.len(),
            None => block(s@, i as int) is None,
        },
{
    let w = vec!['b', 'l', 'o', 'c', 'k'];
    assert(w@ =~= kw_block());
    match raw_cell_at(s, i, &w) {
        Some(((n, body, rt), e)) => Some(
            (Block { identifer: Identifier(n), body, runtime: Identifier(rt) }, e),
        ),
        None => None,
    }
}

pub fn import_at(s: &Vec<char>, i: usize) -> (r: Option<(Import, usize)>)
    requires
        i <= s.len(),
    ensures
        match r {
            Some((m, e)) => import(s@, i as int) == Some(((m.path@, m.alias.0@), e as int)) && i
                < e <= s.len(),
            None => import(s@, i as int) is None,
        },
{
    let w = vec!['i', 'm', 'p', 'o', 'r', 't'];
    assert(w@ =~= kw_import());
    let a = match keyword_at(s, i, &w) {
        Some(a) => a,
        None => return None,
    };
    let (path, b) = match string_at(s, skip_trivia_at(s, a)) {
        Some(x) => x,
        None => return None,
    };
    let w2 = vec!['a', 's'];
    assert(w2@ =~= kw_as());
    let c = match keyword_at(s, b, &w2) {
        Some(c) => c,
        None => return None,
    };
    match identifier_at(s, c) {
        Some((alias, e)) => Some((Import { path, alias: Identifier(alias) }, e)),
        None => None,
    }
}

fn runtime_member_at(s: &Vec<char>, i: usize) -> (r: Option<(Cell, usize)>)
    requires
        i <= s.len(),
    ensures
        match r {
            Some((c, e)) => runtime_member(s@, i as int) == Some((c@, e as int)) && i < e
                <= s.len(),
            None => runtime_member(s@, i as int) is None,
        },
{
    match assignment_at(s, i) {
        Some((a, e)) => Some((Cell::Assignment(a), e)),
        None => match task_at(s, i) {
            Some((t, e)) => Some((Cell::Task(t), e)),
            None => None,
        },
    }
}

fn runtime_members_at(s: &Vec<char>, i: usize) -> (r: (Vec<Cell>, usize))
    requires
        i <= s.len(),
    ensures
        runtime_members(s@, i as int) == (cells_model(r.0@), r.1 as int),
        i <= r.1 <= s.len(),
{
    let mut out: Vec<Cell> = Vec::new();
    let mut k = i;
    loop
        invariant
            i <= k <= s.len(),
            runtime_members(s@, i as int).0 == cells_model(out@) + runtime_members(
                s@,
                k as int,
            ).0,
            runtime_members(s@, i as int).1 == runtime_members(s@, k as int).1,
        decreases s.len() - k,
    {
        match runtime_member_at(s, k) {
            Some((c, j)) => {
                let ghost before = out@;
                out.push(c);
                assert(cells_model(out@) =~= cells_model(before) + seq![c@]);
                assert(cells_model(out@) + runtime_members(s@, j as int).0 =~= cells_model(before)
                    + runtime_members(s@, k as int).0);
                k = j;
            },
            None => {
                assert(cells_model(out@) + runtime_members(s@, k as int).0 =~= cells_model(out@));
                return (out, k);
            },
        }
    }
}

fn close_tag_at(s: &Vec<char>, i: usize) -> (r: Option<(String, usize)>)
    requires
        i <= s.len(),
    ensures
        match r {
            Some((n, e)) => close_tag(s@, i as int) == Some((n@, e as int)) && i < e <= s.len(),
            None => close_tag(s@, i as int) is None,
        },
{
    let d = skip_trivia_at(s, i);
    if d < s.len() && s.len() - d >= 2 && s[d] == '}' && s[d + 1] == ':' {
        identifier_at(s, d + 2)
    } else {
        None
    }
}

pub fn runtime_at(s: &Vec<char>, i: usize) -> (r: Option<(Runtime, usize)>)
    requires
        i <= s.len(),
    ensures
        match r {
            Some((t, e)) => runtime(s@, i as int) == Some(
                ((t.identifer.0@, cells_model(t.children@), t.runtime.0@), e as int),
            ) && i < e <= s.len(),
            None => runtime(s@, i as int) is None,
        },
{
    let w = vec!['r', 'u', 'n', 't', 'i', 'm', 'e'];
    assert(w@ =~= kw_runtime());
    let a = match keyword_at(s, i, &w) {
        Some(a) => a,
        None => return None,
    };
    let (name, b) = match identifier_at(s, a) {
        Some(x) => x,
        None => return None,
    };
    if !(b < s.len() && s[b] == '{') {
        return None;
    }
    let (kids, c) = runtime_members_at(s, b + 1);
    match close_tag_at(s, c) {
        Some((rt, e)) => Some(
            (Runtime { identifer: Identifier(name), children: kids, runtime: Identifier(rt) }, e),
        ),
        None => None,
    }
}

fn member_at(s: &Vec<char>, i: usize) -> (r: Option<(Cell, usize)>)
    requires
        i <= s.len(),
    ensures
        match r {
            Some((c, e)) => member(s@, i as int) == Some((c@, e as int)) && i < e <= s.len(),
            None => member(s@, i as int) is None,
        },
{
    match runtime_member_at(s, i) {
        Some(x) => Some(x),
        None => match runtime_at(s, i) {
            Some((rt, e)) => {
                proof {
                    lemma_runtime_model(rt);
                }
                Some((Cell::Runtime(rt), e))
            },
            None => match block_at(s, i) {
                Some((b, e)) => Some((Cell::Block(b), e)),
                None => match import_at(s, i) {
                    Some((m, e)) => Some((Cell::Import(m), e)),
                    None => None,
                },
            },
        },
    }
}

fn members_at(s: &Vec<char>, i: usize) -> (r: (Vec<Cell>, usize))
    requires
        i <= s.len(),
    ensures
        members(s@, i as int) == (cells_model(r.0@), r.1 as int),
        i <= r.1 <= s.len(),
{
    let mut out: Vec<Cell> = Vec::new();
    let mut k = i;
    loop
        invariant
            i <= k <= s.len(),
            members(s@, i as int).0 == cells_model(out@) + members(s@, k as int).0,
            members(s@, i as int).1 == members(s@, k as int).1,
        decreases s.len() - k,
    {
        match member_at(s, k) {
            Some((c, j)) => {
                let ghost before = out@;
                out.push(c);
                assert(cells_model(out@) =~= cells_model(before) + seq![c@]);
                assert(cells_model(out@) + members(s@, j as int).0 =~= cells_model(before)
                    + members(s@, k as int).0);
                k = j;
            },
            None => {
                assert(cells_model(out@) + members(s@, k as int).0 =~= cells_model(out@));
                return (out, k);
            },
        }
    }
}

pub fn package_at(s: &Vec<char>, i: usize) -> (r: Option<(Package, usize)>)
    requires
        i <= s.len(),
    ensures
        match r {
            Some((t, e)) => package(s@, i as int) == Some(
                ((t.identifer.0@, cells_model(t.children@), t.runtime.0@), e as int),
            ) && i < e <= s.len(),
            None => package(s@, i as int) is None,
        },
{
    let w = vec!['p', 'a', 'c', 'k', 'a', 'g', 'e'];
    assert(w@ =~= kw_package());
    let a = match keyword_at(s, i, &w) {
        Some(a) => a,
        None => return None,
    };
    let (name, b) = match identifier_at(s, a) {
        Some(x) => x,
        None => return None,
    };
    if !(b < s.len() && s[b] == '{') {
        return None;
    }
    let (kids, c) = members_at(s, b + 1);
    match close_tag_at(s, c) {
        Some((rt, e)) => Some(
            (Package { identifer: Identifier(name), children: kids, runtime: Identifier(rt) }, e),
        ),
        None => None,
    }
}

pub fn cell_at(s: &Vec<char>, i: usize) -> (r: Option<(Cell, usize)>)
    requires
        i <= s.len(),
    ensures
        match r {
            Some((c, e)) => cell(s@, i as int) == Some((c@, e as int)) && i < e <= s.len(),
            None => cell(s@, i as int) is None,
        },
{
    match member_at(s, i) {
        Some((c, e)) => Some((c, skip_trivia_at(s, e))),
        None => None,
    }
}

pub fn cells_at(s: &Vec<char>, i: usize) -> (r: (Vec<Cell>, usize))
    requires
        i <= s.len(),
    ensures
        cells(s@, i as int) == (cells_model(r.0@), r.1 as int),
        i <= r.1 <= s.len(),
{
    let mut out: Vec<Cell> = Vec::new();
    let mut k = i;
    loop
        invariant
            i <= k <= s.len(),
            cells(s@, i as int).0 == cells_model(out@) + cells(s@, k as int).0,
            cells(s@, i as int).1 == cells(s@, k as int).1,
        decreases s.len() - k,
    {
        match cell_at(s, k) {
            Some((c, j)) => {
                let ghost before = out@;
                out.push(c);
                assert(cells_model(out@) =~= cells_model(before) + seq![c@]);
                assert(cells_model(out@) + cells(s@, j as int).0 =~= cells_model(before) + cells(
                    s@,
                    k as int,
                ).0);
                k = j;
            },
            None => {
                assert(cells_model(out@) + cells(s@, k as int).0 =~= cells_model(out@));
                return (out, k);
            },
        }
    }
}

} // verus!
