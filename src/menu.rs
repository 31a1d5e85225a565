//! Text shaping for the terminal front end, and reading command-line
//! arguments into a task name and variable assignments.
use vstd::prelude::*;
use crate::ast::{Atom, AtomV, Identifier, Variable};
use crate::atoms::text_between;
use crate::interp::{InterpolatedString, index_from_at, sub_chars, trim_chars};
use crate::interp_spec::{index_from, lower_of, parts_text, trim};
use crate::grammar::marker_from;
use crate::render::{decimal, push_all};
use crate::scan::marker_from_at;
use crate::text::{chars_of, lowercase, string_from};
use crate::widths::{byte_len, fit_between, fit_count, utf8_len, utf8_len_between};

verus! {

/// How many bytes of an error line go on one terminal line.
pub const ERROR_WIDTH: usize = 56;

/// The width of the rule printed under a task's output.
pub const RULE_WIDTH: usize = 57;

pub open spec fn ellipsis() -> Seq<char> {
    seq!['.', '.', '.']
}

/// The trimmed text, cut after `max_bytes` bytes of UTF-8 with `...` when it
/// is longer. The cut keeps the characters that fit in `max_bytes` bytes, so
/// it falls at exactly `max_bytes` bytes wherever that is a character
/// boundary (see `lemma_fit_at_boundary`), and never inside a character.
pub open spec fn truncated(t: Seq<char>, max_bytes: nat) -> Seq<char> {
    let u = trim(t);
    if utf8_len(u) > max_bytes {
        u.subrange(0, fit_count(u, max_bytes)) + ellipsis()
    } else {
        u
    }
}

fn truncate_chars(t: &Vec<char>, max_bytes: usize) -> (r: String)
    ensures
        r@ == truncated(t@, max_bytes as nat),
{
    let u = trim_chars(t);
    let whole = string_from(&u);
    let n = byte_len(whole.as_str());
    if n > max_bytes {
        let k = fit_between(&u, 0, u.len(), max_bytes);
        assert(u@.subrange(0, u.len() as int) =~= u@);
        let mut out = sub_chars(&u, 0, k);
        let dots = vec!['.', '.', '.'];
        push_all(&mut out, &dots);
        assert(dots@ =~= ellipsis());
        string_from(&out)
    } else {
        whole
    }
}

/// The line without surrounding white space (as `str::trim` removes it),
/// cut after `max_chars` bytes and followed by `...` when it is longer.
/// Lengths are in bytes of UTF-8, as `str::len` counts them; a cut that
/// would fall inside a character falls before it instead.
pub fn truncate_line(line: &str, max_chars: usize) -> (r: String)
    ensures
        r@ == truncated(line@, max_chars as nat),
{
    let t = chars_of(line);
    truncate_chars(&t, max_chars)
}

/// As `truncate_line`, on the source text of an interpolated line.
pub fn truncate_interpolatable_line(line: &InterpolatedString, max_chars: usize) -> (r: String)
    ensures
        r@ == truncated(parts_text(line@), max_chars as nat),
{
    let text = line.to_text();
    let t = chars_of(text.as_str());
    truncate_chars(&t, max_chars)
}

/// Elapsed time in whole seconds when at least one, else in milliseconds.
pub open spec fn elapsed_text(millis: nat) -> Seq<char> {
    if millis >= 1000 {
        decimal(millis / 1000) + seq!['s']
    } else {
        decimal(millis) + seq!['m', 's']
    }
}

/// `12s` for at least a second, `250ms` below that.
pub fn format_elapsed_time(millis: u64) -> (r: String)
    ensures
        r@ == elapsed_text(millis as nat),
{
    let mut out: Vec<char> = Vec::new();
    if millis >= 1000 {
        crate::render::push_decimal(millis / 1000, &mut out);
        out.push('s');
    } else {
        crate::render::push_decimal(millis, &mut out);
        out.push('m');
        out.push('s');
    }
    assert(out@ =~= elapsed_text(millis as nat));
    string_from(&out)
}

/// `n` copies of `c`.
pub open spec fn repeat(c: char, n: nat) -> Seq<char> {
    Seq::new(n, |i: int| c)
}

/// The closing rule of a task's output: a corner, a line that fills the
/// width left by the elapsed time (its length in bytes, as `str::len`
/// counts it), a space and the elapsed time.
pub open spec fn elapsed_line(elapsed: Seq<char>) -> Seq<char> {
    let n = utf8_len(elapsed);
    let fill = if n <= RULE_WIDTH { (RULE_WIDTH - n) as nat } else { 0 };
    seq!['╰', '─'] + repeat('─', fill) + seq![' '] + elapsed
}

/// The closing rule line for an elapsed time.
pub fn elapsed_rule(elapsed: &str) -> (r: String)
    ensures
        r@ == elapsed_line(elapsed@),
{
    let e = chars_of(elapsed);
    let n = byte_len(elapsed);
    let fill: usize = if n <= RULE_WIDTH { RULE_WIDTH - n } else { 0 };
    let mut out: Vec<char> = vec!['╰', '─'];
    let mut k: usize = 0;
    while k < fill
        invariant
            k <= fill,
            out@ == seq!['╰', '─'] + repeat('─', k as nat),
        decreases fill - k,
    {
        out.push('─');
        k += 1;
        assert(out@ =~= seq!['╰', '─'] + repeat('─', k as nat));
    }
    out.push(' ');
    push_all(&mut out, &e);
    assert(out@ =~= elapsed_line(elapsed@));
    string_from(&out)
}

/// A line cut into pieces of `ERROR_WIDTH` bytes of UTF-8: each piece but
/// the last holds the characters that fit in `ERROR_WIDTH` bytes (exactly
/// that many where it is a character boundary, never cutting a character);
/// the last piece holds the rest, and an empty line gives one empty piece.
pub open spec fn error_pieces(t: Seq<char>) -> Seq<Seq<char>>
    decreases t.len(),
{
    let k = fit_count(t, ERROR_WIDTH as nat);
    if utf8_len(t) > ERROR_WIDTH && 0 < k <= t.len() {
        seq![t.subrange(0, k)] + error_pieces(t.subrange(k, t.len() as int))
    } else {
        seq![t]
    }
}

/// The pieces in which an error line is shown.
pub fn error_lines(line: &str) -> (r: Vec<String>)
    ensures
        r@.map_values(|s: String| s@) == error_pieces(line@),
{
    let t = chars_of(line);
    let total = byte_len(line);
    let mut out: Vec<String> = Vec::new();
    let mut k: usize = 0;
    assert(t@.subrange(0, t.len() as int) =~= t@);
    assert(out@.map_values(|s: String| s@) =~= Seq::<Seq<char>>::empty());
    loop
        invariant
            k <= t.len(),
            t@ == line@,
            utf8_len(t@) <= usize::MAX,
            out@.map_values(|s: String| s@) + error_pieces(t@.subrange(k as int, t.len() as int))
                == error_pieces(t@),
        decreases t.len() - k,
    {
        let ghost prev = out@;
        let ghost rest = t@.subrange(k as int, t.len() as int);
        let n = utf8_len_between(&t, k, t.len());
        let f = fit_between(&t, k, t.len(), ERROR_WIDTH);
        if n > ERROR_WIDTH && f > 0 {
            out.push(text_between(&t, k, k + f));
            assert(rest.subrange(0, f as int) =~= t@.subrange(k as int, k + f));
            assert(rest.subrange(f as int, rest.len() as int) =~= t@.subrange(
                k + f,
                t.len() as int,
            ));
            assert(out@.map_values(|s: String| s@) =~= prev.map_values(|s: String| s@) + seq![
                rest.subrange(0, f as int),
            ]);
            assert(out@.map_values(|s: String| s@) + error_pieces(
                t@.subrange(k + f, t.len() as int),
            ) =~= prev.map_values(|s: String| s@) + error_pieces(rest));
            k = k + f;
        } else {
            out.push(text_between(&t, k, t.len()));
            assert(out@.map_values(|s: String| s@) =~= prev.map_values(|s: String| s@) + seq![
                rest,
            ]);
            assert(error_pieces(rest) == seq![rest]);
            assert(out@.map_values(|s: String| s@) =~= prev.map_values(|s: String| s@)
                + error_pieces(rest));
            return out;
        }
    }
}

/// A menu entry's name matches the search text, ignoring case.
pub open spec fn name_matches(name: Seq<char>, filter: Seq<char>) -> bool {
    exists|i: int|
        0 <= i && i + lower_of(filter).len() <= lower_of(name).len() && #[trigger] lower_of(
            name,
        ).subrange(i, i + lower_of(filter).len()) == lower_of(filter)
}

/// The search text occurs in the entry's name, ignoring case.
pub fn filter_matches(name: &str, filter: &str) -> (r: bool)
    ensures
        r == name_matches(name@, filter@),
{
    let n = lowercase(name);
    let f = lowercase(filter);
    let nc = chars_of(n.as_str());
    let fc = chars_of(f.as_str());
    if fc.len() > nc.len() {
        return false;
    }
    if fc.len() == 0 {
        assert(lower_of(name@).subrange(0int, 0int + lower_of(filter@).len()) =~= lower_of(filter@));
        return true;
    }
    let mut i: usize = 0;
    while fc.len() <= nc.len() - i
        invariant
            0 < fc.len() <= nc.len(),
            i <= nc.len(),
            nc@ == lower_of(name@),
            fc@ == lower_of(filter@),
            forall|j: int|
                0 <= j < i ==> #[trigger] nc@.subrange(j, j + fc@.len()) != fc@,
        decreases nc.len() - i,
    {
        if crate::scan::word_at_exec(&nc, i, &fc) {
            return true;
        }
        i += 1;
    }
    proof {
        assert forall|j: int|
            0 <= j && j + fc@.len() <= nc@.len() implies #[trigger] nc@.subrange(
            j,
            j + fc@.len(),
        ) != fc@ by {
            assert(j < i);
        }
    }
    false
}

/// What an argument holds: a `[:name=value]` assignment, something else in
/// brackets, or a plain word.
pub open spec fn argument_assignment(arg: Seq<char>) -> Option<Option<(Seq<char>, Seq<char>)>> {
    match marker_from(arg, 0) {
        Some(s) => match index_from(arg, s + 2, ']') {
            Some(e) => {
                let inner = arg.subrange(s + 2, e);
                match index_from(inner, 0, '=') {
                    Some(q) => Some(Some((inner.subrange(0, q), inner.subrange(q + 1, inner.len() as int)))),
                    None => Some(None),
                }
            },
            None => Some(None),
        },
        None => None,
    }
}

/// The task name and the variables given on a command line, the program name
/// first: the first plain word, lower-cased, names the task; each
/// `[:name=value]` sets a variable to the string after `=`.
pub open spec fn read_args(args: Seq<Seq<char>>) -> (Seq<char>, Seq<(Seq<char>, Seq<char>)>)
    decreases args.len(),
{
    if args.len() <= 1 {
        (Seq::empty(), Seq::empty())
    } else {
        let (name, vars) = read_args(args.drop_last());
        match argument_assignment(args.last()) {
            Some(Some(v)) => (name, vars.push(v)),
            Some(None) => (name, vars),
            None => if name.len() == 0 {
                (lower_of(args.last()), vars)
            } else {
                (name, vars)
            },
        }
    }
}

/// Reads process arguments (the program name first) into the task name and
/// the variables to set before the task runs.
pub fn parse_args(args: &Vec<String>) -> (r: (String, Vec<Variable>))
    ensures
        r.0@ == read_args(args@.map_values(|a: String| a@)).0,
        r.1@.map_values(|v: Variable| (v.identifier.0@, v.value@)) == read_args(
            args@.map_values(|a: String| a@),
        ).1.map_values(|p: (Seq<char>, Seq<char>)| (p.0, AtomV::Str(p.1))),
{
    let mut name = string_from(&Vec::new());
    let mut vars: Vec<Variable> = Vec::new();
    let ghost all = args@.map_values(|a: String| a@);
    if args.len() <= 1 {
        assert(vars@.map_values(|v: Variable| (v.identifier.0@, v.value@)) =~= Seq::empty());
        return (name, vars);
    }
    let mut k: usize = 1;
    assert(all.subrange(0, 1).len() == 1);
    assert(vars@.map_values(|v: Variable| (v.identifier.0@, v.value@)) =~= Seq::empty());
    while k < args.len()
        invariant
            1 <= k <= args.len(),
            all == args@.map_values(|a: String| a@),
            name@ == read_args(all.subrange(0, k as int)).0,
            vars@.map_values(|v: Variable| (v.identifier.0@, v.value@)) == read_args(
                all.subrange(0, k as int),
            ).1.map_values(|p: (Seq<char>, Seq<char>)| (p.0, AtomV::Str(p.1))),
        decreases args.len() - k,
    {
        assert(all.subrange(0, k + 1).drop_last() =~= all.subrange(0, k as int));
        assert(all.subrange(0, k + 1).last() == args@[k as int]@);
        let ghost prev = vars@;
        let a = chars_of(args[k].as_str());
        match marker_from_at(&a, 0) {
            Some(s) => match index_from_at(&a, s + 2, ']') {
                Some(e) => {
                    let inner = sub_chars(&a, s + 2, e);
                    match index_from_at(&inner, 0, '=') {
                        Some(q) => {
                            let vn = text_between(&inner, 0, q);
                            let vv = text_between(&inner, q + 1, inner.len());
                            vars.push(Variable { identifier: Identifier(vn), value: Atom::String(vv) });
                            assert(vars@.map_values(|v: Variable| (v.identifier.0@, v.value@))
                                =~= prev.map_values(|v: Variable| (v.identifier.0@, v.value@)).push(
                                (inner@.subrange(0, q as int), AtomV::Str(inner@.subrange(q + 1, inner@.len() as int))),
                            ));
                        },
                        None => {},
                    }
                },
                None => {},
            },
            None => {
                if name.as_str().is_empty() {
                    name = lowercase(args[k].as_str());
                }
            },
        }
        k += 1;
        assert(read_args(all.subrange(0, k as int)).1.map_values(
            |p: (Seq<char>, Seq<char>)| (p.0, AtomV::Str(p.1)),
        ) =~= read_args(all.subrange(0, k as int)).1.map_values(
            |p: (Seq<char>, Seq<char>)| (p.0, AtomV::Str(p.1)),
        ));
    }
    assert(all.subrange(0, args.len() as int) =~= all);
    (name, vars)
}

/// A key pressed in the menu.
#[derive(Debug, Clone, Copy, PartialEq, Eq)]
pub enum MenuKey {
    Up,
    Down,
    Enter,
    Escape,
    /// Ctrl-C.
    Interrupt,
    Backspace,
    Char(char),
    Other,
}

/// What the menu does after a key.
#[derive(Debug, Clone, Copy, PartialEq, Eq)]
pub enum MenuAction {
    /// Draw the menu again.
    Redraw,
    /// Nothing changed.
    Stay,
    /// The entry at this index of the active list (entries or configurations) was picked.
    Pick(usize),
    /// Leave the program.
    Exit,
    /// Leave the menu without a choice.
    Cancel,
}

/// The menu: which entries are shown (indexes into the active list), which
/// of them is selected, the search text, and whether the configurations are
/// the active list.
#[derive(Debug, Clone, PartialEq, Eq)]
pub struct MenuState {
    pub selected: usize,
    pub search: Vec<char>,
    pub config_mode: bool,
    pub visible: Vec<usize>,
}

/// The indexes of the names that match the search text, in order.
pub open spec fn matching(names: Seq<Seq<char>>, filter: Seq<char>) -> Seq<usize>
    decreases names.len(),
{
    if names.len() == 0 {
        Seq::empty()
    } else {
        matching(names.drop_last(), filter) + if name_matches(names.last(), filter) {
            seq![(names.len() - 1) as usize]
        } else {
            Seq::empty()
        }
    }
}

/// All indexes of a list of `n` entries.
pub open spec fn all_indexes(n: nat) -> Seq<usize> {
    Seq::new(n, |i: int| i as usize)
}

pub open spec fn names_of(v: Seq<String>) -> Seq<Seq<char>> {
    v.map_values(|s: String| s@)
}

/// The menu at its start: every entry shown, the first selected.
pub open spec fn start_state(n: nat) -> (nat, Seq<char>, bool, Seq<usize>) {
    (0, Seq::empty(), false, all_indexes(n))
}

/// The menu after a key: the next selection, search text, mode and shown
/// entries, and the action. Arrows move within the shown entries; enter
/// picks the selected one; `:` switches to the configurations; other
/// characters extend the search; backspace shortens it and leaves the
/// configurations when it empties; escape exits; Ctrl-C cancels.
pub open spec fn menu_next(
    st: (nat, Seq<char>, bool, Seq<usize>),
    key: MenuKey,
    names: Seq<Seq<char>>,
    config_names: Seq<Seq<char>>,
) -> ((nat, Seq<char>, bool, Seq<usize>), MenuAction) {
    let (sel, search, cfg, vis) = st;
    let active = if cfg { config_names } else { names };
    match key {
        MenuKey::Interrupt => (st, MenuAction::Cancel),
        MenuKey::Escape => (st, MenuAction::Exit),
        MenuKey::Up => if sel > 0 {
            (((sel - 1) as nat, search, cfg, vis), MenuAction::Redraw)
        } else {
            (st, MenuAction::Stay)
        },
        MenuKey::Down => if sel + 1 < vis.len() {
            ((sel + 1, search, cfg, vis), MenuAction::Redraw)
        } else {
            (st, MenuAction::Stay)
        },
        MenuKey::Enter => if sel < vis.len() {
            (st, MenuAction::Pick(vis[sel as int]))
        } else {
            (st, MenuAction::Stay)
        },
        MenuKey::Char(c) => if c == ':' {
            ((0, Seq::empty(), true, all_indexes(config_names.len())), MenuAction::Redraw)
        } else {
            let s2 = search.push(c);
            ((0, s2, cfg, matching(active, s2)), MenuAction::Redraw)
        },
        MenuKey::Backspace => {
            let s2 = if search.len() > 0 { search.drop_last() } else { search };
            if s2.len() == 0 && cfg {
                ((0, s2, false, all_indexes(names.len())), MenuAction::Redraw)
            } else {
                ((0, s2, cfg, matching(active, s2)), MenuAction::Redraw)
            }
        },
        MenuKey::Other => (st, MenuAction::Stay),
    }
}

impl MenuState {
    pub open spec fn model(&self) -> (nat, Seq<char>, bool, Seq<usize>) {
        (self.selected as nat, self.search@, self.config_mode, self.visible@)
    }

    /// The menu over `n` entries, all shown, the first selected.
    pub fn new(n: usize) -> (r: MenuState)
        ensures
            r.model() == start_state(n as nat),
    {
        MenuState { selected: 0, search: Vec::new(), config_mode: false, visible: all_up_to(n) }
    }
}

fn all_up_to(n: usize) -> (r: Vec<usize>)
    ensures
        r@ == all_indexes(n as nat),
{
    let mut v: Vec<usize> = Vec::new();
    let mut i: usize = 0;
    while i < n
        invariant
            i <= n,
            v@ == all_indexes(i as nat),
        decreases n - i,
    {
        v.push(i);
        i += 1;
        assert(v@ =~= all_indexes(i as nat));
    }
    v
}

/// The indexes of the names that match the search text.
pub fn matching_names(names: &Vec<String>, search: &Vec<char>) -> (r: Vec<usize>)
    ensures
        r@ == matching(names_of(names@), search@),
{
    let filter = crate::text::string_from(search);
    let mut v: Vec<usize> = Vec::new();
    let mut i: usize = 0;
    while i < names.len()
        invariant
            i <= names.len(),
            filter@ == search@,
            v@ == matching(names_of(names@.subrange(0, i as int)), search@),
        decreases names.len() - i,
    {
        assert(names_of(names@.subrange(0, i + 1)).drop_last() =~= names_of(
            names@.subrange(0, i as int),
        ));
        assert(names_of(names@.subrange(0, i + 1)).last() == names@[i as int]@);
        if filter_matches(names[i].as_str(), filter.as_str()) {
            v.push(i);
        }
        i += 1;
        assert(v@ =~= matching(names_of(names@.subrange(0, i as int)), search@));
    }
    assert(names@.subrange(0, names.len() as int) =~= names@);
    v
}

/// Applies a key to the menu over the entries `names` and the
/// configurations `config_names`.
pub fn menu_step(
    state: &mut MenuState,
    key: MenuKey,
    names: &Vec<String>,
    config_names: &Vec<String>,
) -> (r: MenuAction)
    ensures
        (final(state).model(), r) == menu_next(
            old(state).model(),
            key,
            names_of(names@),
            names_of(config_names@),
        ),
{
    match key {
        MenuKey::Interrupt => MenuAction::Cancel,
        MenuKey::Escape => MenuAction::Exit,
        MenuKey::Up => {
            if state.selected > 0 {
                state.selected = state.selected - 1;
                MenuAction::Redraw
            } else {
                MenuAction::Stay
            }
        },
        MenuKey::Down => {
            if state.selected < state.visible.len() && state.visible.len() - state.selected > 1 {
                state.selected = state.selected + 1;
                MenuAction::Redraw
            } else {
                MenuAction::Stay
            }
        },
        MenuKey::Enter => {
            if state.selected < state.visible.len() {
                MenuAction::Pick(state.visible[state.selected])
            } else {
                MenuAction::Stay
            }
        },
        MenuKey::Char(c) => {
            if c == ':' {
                state.config_mode = true;
                state.search = Vec::new();
                state.selected = 0;
                state.visible = all_up_to(config_names.len());
                assert(state.search@ =~= Seq::<char>::empty());
            } else {
                state.search.push(c);
                state.selected = 0;
                state.visible = if state.config_mode {
                    matching_names(config_names, &state.search)
                } else {
                    matching_names(names, &state.search)
                };
            }
            MenuAction::Redraw
        },
        MenuKey::Backspace => {
            state.search.pop();
            state.selected = 0;
            if state.search.len() == 0 && state.config_mode {
                state.config_mode = false;
                state.visible = all_up_to(names.len());
            } else {
                state.visible = if state.config_mode {
                    matching_names(config_names, &state.search)
                } else {
                    matching_names(names, &state.search)
                };
            }
            MenuAction::Redraw
        },
        MenuKey::Other => MenuAction::Stay,
    }
}

} // verus!
