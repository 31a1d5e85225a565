//! The decisions of running a task: which shell runs a runtime, which
//! lines are sent, and which output lines are shown.
use vstd::prelude::*;
use crate::interp::{index_from_at, sub_chars, trim_chars};
use crate::interp_spec::{index_from, trim};
use crate::text::{chars_of, string_from};

verus! {

/// The shell program and its flag for a runtime that runs in a shell:
/// `shell` and `sh` run in `bash -c`, `powershell` and `ps` in `pwsh -Command`.
pub open spec fn shell_of(runtime: Seq<char>) -> Option<(Seq<char>, Seq<char>)> {
    if runtime == seq!['s', 'h', 'e', 'l', 'l'] || runtime == seq!['s', 'h'] {
        Some((seq!['b', 'a', 's', 'h'], seq!['-', 'c']))
    } else if runtime == seq!['p', 'o', 'w', 'e', 'r', 's', 'h', 'e', 'l', 'l'] || runtime
        == seq!['p', 's'] {
        Some((seq!['p', 'w', 's', 'h'], seq!['-', 'C', 'o', 'm', 'm', 'a', 'n', 'd']))
    } else {
        None
    }
}

/// The shell program and flag that run `runtime`, if it is a shell runtime.
pub fn shell_for(runtime: &str) -> (r: Option<(String, String)>)
    ensures
        match shell_of(runtime@) {
            Some((p, f)) => r matches Some((a, b)) && a@ == p && b@ == f,
            None => r is None,
        },
{
    let t = chars_of(runtime);
    let shell = vec!['s', 'h', 'e', 'l', 'l'];
    let sh = vec!['s', 'h'];
    let powershell = vec!['p', 'o', 'w', 'e', 'r', 's', 'h', 'e', 'l', 'l'];
    let ps = vec!['p', 's'];
    let bash = vec!['b', 'a', 's', 'h'];
    let c = vec!['-', 'c'];
    let pwsh = vec!['p', 'w', 's', 'h'];
    let command = vec!['-', 'C', 'o', 'm', 'm', 'a', 'n', 'd'];
    assert(shell@ =~= seq!['s', 'h', 'e', 'l', 'l']);
    assert(sh@ =~= seq!['s', 'h']);
    assert(powershell@ =~= seq!['p', 'o', 'w', 'e', 'r', 's', 'h', 'e', 'l', 'l']);
    assert(ps@ =~= seq!['p', 's']);
    assert(bash@ =~= seq!['b', 'a', 's', 'h']);
    assert(c@ =~= seq!['-', 'c']);
    assert(pwsh@ =~= seq!['p', 'w', 's', 'h']);
    assert(command@ =~= seq!['-', 'C', 'o', 'm', 'm', 'a', 'n', 'd']);
    if same_chars(&t, &shell) || same_chars(&t, &sh) {
        Some((string_from(&bash), string_from(&c)))
    } else if same_chars(&t, &powershell) || same_chars(&t, &ps) {
        Some((string_from(&pwsh), string_from(&command)))
    } else {
        None
    }
}

/// `a` and `b` hold the same characters.
pub fn same_chars(a: &Vec<char>, b: &Vec<char>) -> (r: bool)
    ensures
        r == (a@ == b@),
{
    if a.len() != b.len() {
        return false;
    }
    let mut i: usize = 0;
    while i < a.len()
        invariant
            a.len() == b.len(),
            i <= a.len(),
            forall|j: int| 0 <= j < i ==> a@[j] == b@[j],
        decreases a.len() - i,
    {
        if a[i] != b[i] {
            return false;
        }
        i += 1;
    }
    assert(a@ =~= b@);
    true
}

/// A line without the `\r` that may end it.
pub open spec fn strip_cr(x: Seq<char>) -> Seq<char> {
    if x.len() > 0 && x.last() == '\r' {
        x.drop_last()
    } else {
        x
    }
}

/// The lines of `t` from `i` on: split at each `\n`, without a last empty
/// line after a final `\n`, each line without a closing `\r`.
pub open spec fn lines_from(t: Seq<char>, i: int) -> Seq<Seq<char>>
    decreases t.len() - i,
{
    if i < 0 || i >= t.len() {
        Seq::empty()
    } else {
        match index_from(t, i, '\n') {
            Some(k) => if i <= k < t.len() {
                seq![strip_cr(t.subrange(i, k))] + lines_from(t, k + 1)
            } else {
                Seq::empty()
            },
            None => seq![strip_cr(t.subrange(i, t.len() as int))],
        }
    }
}

fn strip_cr_exec(x: Vec<char>) -> (r: Vec<char>)
    ensures
        r@ == strip_cr(x@),
{
    let mut x = x;
    if x.len() > 0 && x[x.len() - 1] == '\r' {
        x.pop();
    }
    x
}

/// The lines of a body, in order.
pub fn body_lines(code: &str) -> (r: Vec<String>)
    ensures
        r@.map_values(|s: String| s@) == lines_from(code@, 0),
{
    let t = chars_of(code);
    let mut out: Vec<String> = Vec::new();
    let mut i: usize = 0;
    loop
        invariant
            i <= t.len(),
            t@ == code@,
            out@.map_values(|s: String| s@) + lines_from(t@, i as int) == lines_from(t@, 0),
        decreases t.len() - i,
    {
        let ghost prev = out@;
        if i >= t.len() {
            assert(out@.map_values(|s: String| s@) =~= out@.map_values(|s: String| s@) + lines_from(
                t@,
                i as int,
            ));
            return out;
        }
        match index_from_at(&t, i, '\n') {
            Some(k) => {
                let line = strip_cr_exec(sub_chars(&t, i, k));
                out.push(string_from(&line));
                assert(out@.map_values(|s: String| s@) =~= prev.map_values(|s: String| s@) + seq![
                    line@,
                ]);
                assert(out@.map_values(|s: String| s@) + lines_from(t@, k + 1) =~= prev.map_values(
                    |s: String| s@,
                ) + lines_from(t@, i as int));
                i = k + 1;
            },
            None => {
                let line = strip_cr_exec(sub_chars(&t, i, t.len()));
                out.push(string_from(&line));
                assert(out@.map_values(|s: String| s@) =~= prev.map_values(|s: String| s@) + seq![
                    line@,
                ]);
                return out;
            },
        }
    }
}

/// The lines after the leading empty ones.
pub open spec fn drop_leading_empty(ls: Seq<Seq<char>>) -> Seq<Seq<char>>
    decreases ls.len(),
{
    if ls.len() > 0 && ls[0].len() == 0 {
        drop_leading_empty(ls.drop_first())
    } else {
        ls
    }
}

/// The lines of a runtime's task body that are sent: its lines without the
/// leading empty ones.
pub fn task_lines(code: &str) -> (r: Vec<String>)
    ensures
        r@.map_values(|s: String| s@) == drop_leading_empty(lines_from(code@, 0)),
{
    let all = body_lines(code);
    let mut k: usize = 0;
    let ghost ls = all@.map_values(|s: String| s@);
    assert(ls.subrange(0, ls.len() as int) =~= ls);
    while k < all.len() && all[k].as_str().is_empty()
        invariant
            k <= all.len(),
            ls == all@.map_values(|s: String| s@),
            drop_leading_empty(ls) == drop_leading_empty(ls.subrange(k as int, ls.len() as int)),
        decreases all.len() - k,
    {
        assert(ls.subrange(k as int, ls.len() as int).drop_first() =~= ls.subrange(
            k + 1,
            ls.len() as int,
        ));
        k += 1;
    }
    let mut out: Vec<String> = Vec::new();
    let mut j = k;
    while j < all.len()
        invariant
            k <= j <= all.len(),
            ls == all@.map_values(|s: String| s@),
            out@.map_values(|s: String| s@) == ls.subrange(k as int, j as int),
        decreases all.len() - j,
    {
        let ghost prev = out@;
        out.push(all[j].clone());
        assert(out@.map_values(|s: String| s@) =~= prev.map_values(|s: String| s@).push(
            all@[j as int]@,
        ));
        assert(ls.subrange(k as int, j + 1) =~= ls.subrange(k as int, j as int).push(ls[j as int]));
        j += 1;
    }
    assert(ls.subrange(k as int, ls.len() as int) =~= ls.subrange(k as int, j as int));
    out
}

/// What has been seen of a running task's output: how many of the commands
/// sent have come back as the shell's echo.
#[derive(Debug, Clone, Copy, PartialEq, Eq)]
pub struct OutputFilter {
    pub echoed: usize,
}

impl OutputFilter {
    pub fn new() -> (r: OutputFilter)
        ensures
            r.echoed == 0,
    {
        OutputFilter { echoed: 0 }
    }

    /// Whether an output line is shown: a line that repeats the next command
    /// (both trimmed) is the shell's echo and is consumed; any other is shown.
    pub fn on_output(&mut self, commands: &Vec<String>, line: &str) -> (r: bool)
        ensures
            if old(self).echoed < commands.len() && trim(line@) == trim(
                commands@[old(self).echoed as int]@,
            ) {
                !r && final(self).echoed == old(self).echoed + 1
            } else {
                r && final(self).echoed == old(self).echoed
            },
    {
        if self.echoed < commands.len() {
            let a = trim_chars(&chars_of(line));
            let b = trim_chars(&chars_of(commands[self.echoed].as_str()));
            if same_chars(&a, &b) {
                self.echoed = self.echoed + 1;
                return false;
            }
        }
        true
    }

    /// Whether an error line is shown: once the first command has been echoed.
    pub fn on_error(&self) -> (r: bool)
        ensures
            r == (self.echoed > 0),
    {
        self.echoed > 0
    }
}

} // verus!
