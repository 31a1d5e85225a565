//! Laws that relate the parser and the interpolation engine, proved.
use vstd::prelude::*;
use crate::ast::{AtomV, CellV};
use crate::grammar::{
    block, block_comment_end, body_close, comment_end, ident_end, identifier, is_ident_char,
    is_ident_start, is_space, keyword, kw_block, kw_import, kw_let, kw_runtime, kw_task, line_end,
    marker_from, raw_cell, skip_trivia, task, member, cell, cells, script, word_at,
};
use crate::interp_spec::{
    PartV, classify, compute_parts, decompose_parts, has_placeholder, index_from, interpolate,
    interpolate_once, key_of, literal, parts_computable, parts_text, placeholder_from,
    resolve_part, resolve_parts, split_from,
};
use crate::parser::rest_of;
use crate::render::atom_text;

verus! {

/// Writing out two runs of parts one after the other gives the two texts
/// one after the other.
pub proof fn lemma_parts_text_concat(a: Seq<PartV>, b: Seq<PartV>)
    ensures
        parts_text(a + b) == parts_text(a) + parts_text(b),
    decreases b.len(),
{
    if b.len() == 0 {
        assert(a + b =~= a);
        assert(parts_text(b) =~= Seq::<char>::empty());
        assert(parts_text(a) + parts_text(b) =~= parts_text(a));
    } else {
        lemma_parts_text_concat(a, b.drop_last());
        assert((a + b).drop_last() =~= a + b.drop_last());
        assert((a + b).last() == b.last());
        assert(parts_text(a) + parts_text(b) =~= parts_text(a) + parts_text(b.drop_last())
            + crate::interp_spec::part_text(b.last()));
    }
}

/// Text without placeholders decomposes into itself as one literal.
pub proof fn lemma_split_plain(t: Seq<char>)
    requires
        !has_placeholder(t),
    ensures
        split_from(t, 0) == literal(t),
        parts_text(literal(t)) == t,
{
    assert(t.subrange(0, t.len() as int) =~= t);
    if t.len() == 0 {
        assert(parts_text(literal(t)) =~= t);
    } else {
        assert(literal(t).drop_last() =~= Seq::<PartV>::empty());
        assert(parts_text(literal(t).drop_last()) =~= Seq::<char>::empty());
        assert(literal(t).last() == PartV::Text(t));
        assert(parts_text(literal(t)) =~= t);
    }
}

/// Decomposing parts that hold no placeholder and writing the result out
/// gives back the text that the parts wrote out to.
pub proof fn law_round_trip_literal(parts: Seq<PartV>)
    requires
        !parts_computable(parts),
    ensures
        parts_text(decompose_parts(parts)) == parts_text(parts),
    decreases parts.len(),
{
    if parts.len() > 0 {
        let init = parts.drop_last();
        assert(!parts_computable(init)) by {
            if parts_computable(init) {
                let k = choose|k: int|
                    0 <= k < init.len() && match #[trigger] init[k] {
                        PartV::Text(t) => has_placeholder(t),
                        _ => true,
                    };
                assert(parts[k] == init[k]);
            }
        }
        law_round_trip_literal(init);
        let last = parts.last();
        assert(parts[parts.len() - 1] == last);
        match last {
            PartV::Text(t) => {
                lemma_split_plain(t);
                lemma_parts_text_concat(decompose_parts(init), literal(t));
            },
            _ => {
                assert(false);
            },
        }
    } else {
        assert(decompose_parts(parts) =~= parts);
    }
}

/// Computing parts leaves only literal text, so computing again changes
/// nothing; and parts that ask for no work are left as they are.
pub proof fn law_compute_settles(parts: Seq<PartV>, vars: Map<Seq<char>, AtomV>)
    ensures
        compute_parts(compute_parts(parts, vars), vars) == compute_parts(parts, vars),
        !parts_computable(parts) ==> compute_parts(parts, vars) == parts,
{
    assert(compute_parts(compute_parts(parts, vars), vars) =~= compute_parts(parts, vars));
    if !parts_computable(parts) {
        assert forall|k: int| 0 <= k < parts.len() implies #[trigger] compute_parts(parts, vars)[k]
            == parts[k] by {
            match parts[k] {
                PartV::Text(t) => {},
                _ => {
                    assert(match parts[k] {
                        PartV::Text(t) => has_placeholder(t),
                        _ => true,
                    });
                },
            }
        }
        assert(compute_parts(parts, vars) =~= parts);
    }
}

/// Without a `}:` after position `i`, no task or block body closes.
pub proof fn lemma_no_close(s: Seq<char>, i: int)
    requires
        forall|j: int| 0 <= j && j + 1 < s.len() ==> !(#[trigger] s[j] == '}' && s[j + 1] == ':'),
    ensures
        body_close(s, i) is None,
    decreases s.len() - i,
{
    if !(i < 0 || i + 1 >= s.len()) {
        lemma_no_close(s, i + 1);
    }
}

/// Input in which no `}:` occurs holds no task and no block: reading one
/// fails (and the reader reports an error rather than running on).
pub proof fn law_unclosed_body_fails(s: Seq<char>)
    requires
        forall|j: int| 0 <= j && j + 1 < s.len() ==> !(#[trigger] s[j] == '}' && s[j + 1] == ':'),
    ensures
        task(s, 0) is None,
        block(s, 0) is None,
{
    assert forall|i: int| #[trigger] body_close(s, i) is None by {
        lemma_no_close(s, i);
    }
}

/// Where the first `c` at or after `i` stands, when it stands at `k`.
pub proof fn lemma_index_found(t: Seq<char>, i: int, k: int, c: char)
    requires
        0 <= i <= k < t.len(),
        t[k] == c,
        forall|j: int| i <= j < k ==> #[trigger] t[j] != c,
    ensures
        index_from(t, i, c) == Some(k),
    decreases k - i,
{
    if i < k {
        lemma_index_found(t, i + 1, k, c);
    }
}

/// No `c` at or after `i`.
pub proof fn lemma_index_absent(t: Seq<char>, i: int, c: char)
    requires
        0 <= i,
        forall|j: int| i <= j < t.len() ==> #[trigger] t[j] != c,
    ensures
        index_from(t, i, c) is None,
    decreases t.len() - i,
{
    if i < t.len() {
        lemma_index_absent(t, i + 1, c);
    }
}

/// Text without `]` holds no placeholder.
pub proof fn lemma_no_bracket_no_placeholder(t: Seq<char>)
    requires
        forall|j: int| 0 <= j < t.len() ==> #[trigger] t[j] != ']',
    ensures
        !has_placeholder(t),
{
    match marker_from(t, 0) {
        Some(m) => {
            lemma_marker_bounds(t, 0);
            lemma_index_absent(t, m + 2, ']');
        },
        None => {},
    }
}

/// A marker found from `i` stands at or after `i`.
pub proof fn lemma_marker_bounds(t: Seq<char>, i: int)
    requires
        0 <= i,
    ensures
        marker_from(t, i) matches Some(m) ==> i <= m,
    decreases t.len() - i,
{
    if !(i < 0 || i + 1 >= t.len()) && !(t[i] == '[' && t[i + 1] == ':') {
        lemma_marker_bounds(t, i + 1);
    }
}

/// The placeholder `[:x=d]`.
pub open spec fn placeholder_with_fallback(x: Seq<char>, d: Seq<char>) -> Seq<char> {
    seq!['[', ':'] + x + seq!['='] + d + seq![']']
}

/// A name that can stand in a placeholder with a fallback.
pub open spec fn plain_name(x: Seq<char>) -> bool {
    forall|j: int| 0 <= j < x.len() ==> #[trigger] x[j] != ']' && x[j] != '(' && x[j] != '='
}

/// A fallback text that can stand in a placeholder: no `]` ends it early
/// and no `(` makes the placeholder a call.
pub open spec fn plain_fallback(d: Seq<char>) -> bool {
    forall|j: int| 0 <= j < d.len() ==> #[trigger] d[j] != ']' && d[j] != '('
}

/// `[:x=d]` splits into one variable part with `d` as its fallback.
pub proof fn lemma_split_fallback(x: Seq<char>, d: Seq<char>)
    requires
        plain_name(x),
        plain_fallback(d),
    ensures
        split_from(placeholder_with_fallback(x, d), 0) == seq![PartV::Var(x, AtomV::Str(d))],
{
    let t = placeholder_with_fallback(x, d);
    let c = t.len() - 1;
    assert(t[0] == '[' && t[1] == ':');
    assert(marker_from(t, 0) == Some(0int));
    assert forall|j: int| 2 <= j < c implies #[trigger] t[j] != ']' by {
        if j < 2 + x.len() {
            assert(t[j] == x[j - 2]);
        } else if j == 2 + x.len() {
            assert(t[j] == '=');
        } else {
            assert(t[j] == d[j - 3 - x.len()]);
        }
    }
    lemma_index_found(t, 2, c, ']');
    assert(placeholder_from(t, 0) == Some((0int, c)));
    let seg = t.subrange(2, c);
    assert(seg =~= x + seq!['='] + d);
    assert forall|j: int| 0 <= j < seg.len() implies #[trigger] seg[j] != '(' by {
        if j < x.len() {
            assert(seg[j] == x[j]);
        } else if j > x.len() {
            assert(seg[j] == d[j - 1 - x.len()]);
        }
    }
    lemma_index_absent(seg, 0, '(');
    assert forall|j: int| 0 <= j < x.len() implies #[trigger] seg[j] != '=' by {
        assert(seg[j] == x[j]);
    }
    lemma_index_found(seg, 0, x.len() as int, '=');
    assert(seg.subrange(0, x.len() as int) =~= x);
    assert(seg.subrange(x.len() as int + 1, seg.len() as int) =~= d);
    assert(classify(seg) == PartV::Var(x, AtomV::Str(d)));
    assert(marker_from(t, c + 1) is None);
    assert(split_from(t, c + 1) =~= Seq::<PartV>::empty());
    assert(literal(t.subrange(0, 0)) =~= Seq::<PartV>::empty());
    assert(split_from(t, 0) =~= seq![PartV::Var(x, AtomV::Str(d))]);
}

/// One literal part writes out to its text.
pub proof fn lemma_one_text(r: Seq<char>)
    ensures
        parts_text(seq![PartV::Text(r)]) == r,
{
    assert(seq![PartV::Text(r)].drop_last() =~= Seq::<PartV>::empty());
    assert(parts_text(Seq::<PartV>::empty()) =~= Seq::<char>::empty());
    assert(parts_text(seq![PartV::Text(r)]) =~= r);
}

/// Fallback precedence: while `x` has no value, `[:x=d]` resolves to `d`;
/// once `x` is set to `v`, it resolves to the text of `v` and `d` is ignored.
pub proof fn law_fallback_precedence(
    x: Seq<char>,
    d: Seq<char>,
    v: AtomV,
    vars: Map<Seq<char>, AtomV>,
    rounds: nat,
)
    requires
        rounds >= 1,
        plain_name(x),
        plain_fallback(d),
        !has_placeholder(atom_text(v)),
    ensures
        !vars.contains_key(key_of(x)) ==> interpolate(placeholder_with_fallback(x, d), vars, rounds)
            == Some(d),
        interpolate(placeholder_with_fallback(x, d), vars.insert(key_of(x), v), rounds) == Some(
            atom_text(v),
        ),
{
    let t = placeholder_with_fallback(x, d);
    lemma_split_fallback(x, d);
    assert(placeholder_from(t, 0) is Some);
    assert forall|j: int| 0 <= j < d.len() implies #[trigger] d[j] != ']' by {}
    lemma_no_bracket_no_placeholder(d);
    let parts = seq![PartV::Var(x, AtomV::Str(d))];
    if !vars.contains_key(key_of(x)) {
        assert(compute_parts(parts, vars) =~= seq![PartV::Text(d)]);
        lemma_one_text(d);
        assert(interpolate_once(t, vars) == d);
        assert(interpolate(d, vars, (rounds - 1) as nat) == Some(d));
        assert(interpolate(t, vars, rounds) == interpolate(
            interpolate_once(t, vars),
            vars,
            (rounds - 1) as nat,
        ));
    }
    let w = vars.insert(key_of(x), v);
    assert(compute_parts(parts, w) =~= seq![PartV::Text(atom_text(v))]);
    lemma_one_text(atom_text(v));
    assert(interpolate_once(t, w) == atom_text(v));
    assert(interpolate(atom_text(v), w, (rounds - 1) as nat) == Some(atom_text(v)));
    assert(interpolate(t, w, rounds) == interpolate(interpolate_once(t, w), w, (rounds - 1) as nat));
}

/// `a` from `p` on and `b` from `q` on hold the same text.
pub open spec fn same_from(a: Seq<char>, p: int, b: Seq<char>, q: int) -> bool {
    &&& 0 <= p <= a.len()
    &&& 0 <= q <= b.len()
    &&& a.len() - p == b.len() - q
    &&& forall|k: int| 0 <= k < a.len() - p ==> #[trigger] a[p + k] == b[q + k]
}

pub proof fn lemma_same_from_step(a: Seq<char>, p: int, b: Seq<char>, q: int)
    requires
        same_from(a, p, b, q),
        p < a.len(),
    ensures
        same_from(a, p + 1, b, q + 1),
        a[p] == b[q],
{
    assert(a[p + 0] == b[q + 0]);
    assert forall|k: int| 0 <= k < a.len() - (p + 1) implies #[trigger] a[(p + 1) + k] == b[(q
        + 1) + k] by {
        assert(a[p + (k + 1)] == b[q + (k + 1)]);
    }
}

pub proof fn lemma_line_end_shift(a: Seq<char>, p: int, b: Seq<char>, q: int)
    requires
        same_from(a, p, b, q),
    ensures
        line_end(a, p) - p == line_end(b, q) - q,
    decreases a.len() - p,
{
    if p < a.len() {
        lemma_same_from_step(a, p, b, q);
        if a[p] != '\n' {
            lemma_line_end_shift(a, p + 1, b, q + 1);
        }
    }
}

pub proof fn lemma_block_end_shift(a: Seq<char>, p: int, b: Seq<char>, q: int)
    requires
        same_from(a, p, b, q),
    ensures
        match (block_comment_end(a, p), block_comment_end(b, q)) {
            (Some(x), Some(y)) => x - p == y - q,
            (None, None) => true,
            _ => false,
        },
    decreases a.len() - p,
{
    if p + 1 < a.len() {
        lemma_same_from_step(a, p, b, q);
        lemma_same_from_step(a, p + 1, b, q + 1);
        if !(a[p] == '*' && a[p + 1] == '/') {
            lemma_block_end_shift(a, p + 1, b, q + 1);
        }
    }
}

pub proof fn lemma_comment_end_shift(a: Seq<char>, p: int, b: Seq<char>, q: int)
    requires
        same_from(a, p, b, q),
    ensures
        match (comment_end(a, p), comment_end(b, q)) {
            (Some(x), Some(y)) => x - p == y - q,
            (None, None) => true,
            _ => false,
        },
{
    if p + 1 < a.len() {
        lemma_same_from_step(a, p, b, q);
        lemma_same_from_step(a, p + 1, b, q + 1);
        lemma_same_from_step(a, p + 1, b, q + 1);
        assert(same_from(a, p + 2, b, q + 2)) by {
            lemma_same_from_step(a, p + 1, b, q + 1);
        }
        lemma_line_end_shift(a, p + 2, b, q + 2);
        lemma_block_end_shift(a, p + 2, b, q + 2);
    }
}

/// Skipping trivia depends only on the text from the starting position on.
pub proof fn lemma_skip_shift(a: Seq<char>, p: int, b: Seq<char>, q: int)
    requires
        same_from(a, p, b, q),
    ensures
        skip_trivia(a, p) - p == skip_trivia(b, q) - q,
    decreases a.len() - p,
{
    if p < a.len() {
        lemma_same_from_step(a, p, b, q);
        if is_space(a[p]) {
            lemma_skip_shift(a, p + 1, b, q + 1);
        } else {
            lemma_comment_end_shift(a, p, b, q);
            match comment_end(a, p) {
                Some(x) => {
                    let y = comment_end(b, q)->Some_0;
                    if p < x && x <= a.len() {
                        assert forall|k: int| 0 <= k < a.len() - x implies #[trigger] a[x + k]
                            == b[y + k] by {
                            assert(a[p + (x - p + k)] == b[q + (x - p + k)]);
                        }
                        lemma_skip_shift(a, x, b, y);
                    }
                },
                None => {},
            }
        }
    }
}

/// A well-formed comment: `/* ... */` with no `*/` inside, or `// ...`
/// through its newline.
pub open spec fn is_comment(c: Seq<char>) -> bool {
    ||| (c.len() >= 4 && c[0] == '/' && c[1] == '*' && c[c.len() - 2] == '*' && c[c.len() - 1]
        == '/' && forall|j: int| 2 <= j < c.len() - 2 ==> !(#[trigger] c[j] == '*' && c[j + 1] == '/'))
    ||| (c.len() >= 3 && c[0] == '/' && c[1] == '/' && c[c.len() - 1] == '\n' && forall|j: int|
        2 <= j < c.len() - 1 ==> #[trigger] c[j] != '\n')
}

/// `s` with `c` put in at position `i`.
pub open spec fn insert_at(s: Seq<char>, i: int, c: Seq<char>) -> Seq<char> {
    s.subrange(0, i) + c + s.subrange(i, s.len() as int)
}

pub proof fn lemma_block_end_found(t: Seq<char>, p: int, k: int)
    requires
        0 <= p <= k,
        k + 1 < t.len(),
        t[k] == '*' && t[k + 1] == '/',
        forall|j: int| p <= j < k ==> !(#[trigger] t[j] == '*' && t[j + 1] == '/'),
    ensures
        block_comment_end(t, p) == Some(k + 2),
    decreases k - p,
{
    if p < k {
        lemma_block_end_found(t, p + 1, k);
    }
}

pub proof fn lemma_line_end_found(t: Seq<char>, p: int, k: int)
    requires
        0 <= p <= k < t.len(),
        t[k] == '\n',
        forall|j: int| p <= j < k ==> #[trigger] t[j] != '\n',
    ensures
        line_end(t, p) == k,
    decreases k - p,
{
    if p < k {
        lemma_line_end_found(t, p + 1, k);
    }
}

/// Comment insensitivity of the trivia skipper: a comment put in at a
/// position where whitespace and comments are skipped leaves the same text
/// after the skip.
pub proof fn law_comment_skipped(s: Seq<char>, i: int, c: Seq<char>)
    requires
        0 <= i <= s.len(),
        is_comment(c),
    ensures
        rest_of(insert_at(s, i, c), skip_trivia(insert_at(s, i, c), i)) == rest_of(
            s,
            skip_trivia(s, i),
        ),
{
    let t = insert_at(s, i, c);
    let n = c.len() as int;
    assert forall|j: int| 0 <= j < n implies #[trigger] t[i + j] == c[j] by {}
    assert(t[i + 0] == c[0] && t[i + 1] == c[1]);
    if c.len() >= 4 && c[0] == '/' && c[1] == '*' && c[c.len() - 2] == '*' && c[c.len() - 1] == '/'
        && forall|j: int| 2 <= j < c.len() - 2 ==> !(#[trigger] c[j] == '*' && c[j + 1] == '/') {
        assert(t[i + (n - 2)] == '*' && t[i + (n - 1)] == '/');
        assert forall|j: int| i + 2 <= j < i + n - 2 implies !(#[trigger] t[j] == '*' && t[j + 1]
            == '/') by {
            assert(t[i + (j - i)] == c[j - i]);
            assert(t[i + (j - i + 1)] == c[j - i + 1]);
        }
        lemma_block_end_found(t, i + 2, i + n - 2);
        assert(comment_end(t, i) == Some(i + n));
    } else {
        assert(t[i + (n - 1)] == '\n');
        assert forall|j: int| i + 2 <= j < i + n - 1 implies #[trigger] t[j] != '\n' by {
            assert(t[i + (j - i)] == c[j - i]);
        }
        lemma_line_end_found(t, i + 2, i + n - 1);
        assert(comment_end(t, i) == Some(i + n));
    }
    assert(!is_space(t[i]));
    assert(skip_trivia(t, i) == skip_trivia(t, i + n));
    assert forall|k: int| 0 <= k < s.len() - i implies #[trigger] t[(i + n) + k] == s[i + k] by {}
    lemma_skip_shift(t, i + n, s, i);
    lemma_skip_bounds(s, i);
    let e = skip_trivia(s, i);
    assert(rest_of(t, skip_trivia(t, i)) =~= rest_of(s, e)) by {
        assert forall|k: int| 0 <= k < s.len() - e implies #[trigger] rest_of(t, skip_trivia(t, i))[k]
            == rest_of(s, e)[k] by {
            assert(t[(i + n) + (e - i + k)] == s[i + (e - i + k)]);
        }
    }
}

/// Skipping trivia stays within the text.
pub proof fn lemma_skip_bounds(s: Seq<char>, i: int)
    requires
        0 <= i <= s.len(),
    ensures
        i <= skip_trivia(s, i) <= s.len(),
    decreases s.len() - i,
{
    if i < s.len() {
        if is_space(s[i]) {
            lemma_skip_bounds(s, i + 1);
        } else {
            match comment_end(s, i) {
                Some(j) => if i < j && j <= s.len() {
                    lemma_skip_bounds(s, j);
                },
                None => {},
            }
        }
    }
}

/// Resolving plain text as an interpolated string gives what interpolating
/// the text gives.
pub proof fn law_resolve_text_agrees(t: Seq<char>, vars: Map<Seq<char>, AtomV>, rounds: nat)
    ensures
        resolve_parts(literal(t), vars, rounds) == interpolate(t, vars, rounds),
{
    if t.len() == 0 {
        assert(!parts_computable(literal(t)));
        assert(literal(t) =~= Seq::<PartV>::empty());
        assert(parts_text(literal(t)) =~= t);
        assert(placeholder_from(t, 0) is None);
    } else {
        let parts = literal(t);
        assert(parts[0] == PartV::Text(t));
        assert(parts_computable(parts) == has_placeholder(t)) by {
            if has_placeholder(t) {
                assert(match parts[0] {
                    PartV::Text(u) => has_placeholder(u),
                    _ => true,
                });
            }
        }
        assert(parts.drop_last() =~= Seq::<PartV>::empty());
        assert(decompose_parts(parts.drop_last()) =~= Seq::<PartV>::empty());
        assert(decompose_parts(parts) =~= split_from(t, 0));
        if !has_placeholder(t) {
            lemma_split_plain(t);
        }
    }
}

/// `a` and `b` agree before position `n`.
pub open spec fn agree_before(a: Seq<char>, b: Seq<char>, n: int) -> bool {
    &&& 0 <= n <= a.len()
    &&& n <= b.len()
    &&& forall|k: int| 0 <= k < n ==> #[trigger] a[k] == b[k]
}

pub proof fn lemma_line_end_prefix(a: Seq<char>, b: Seq<char>, p: int, n: int)
    requires
        agree_before(a, b, n),
        0 <= p,
        line_end(a, p) < n,
    ensures
        line_end(b, p) == line_end(a, p),
    decreases a.len() - p,
{
    lemma_line_end_bounds(a, p);
    if p < a.len() {
        assert(a[p] == b[p]);
        if a[p] != '\n' {
            lemma_line_end_prefix(a, b, p + 1, n);
        }
    }
}

pub proof fn lemma_block_end_prefix(a: Seq<char>, b: Seq<char>, p: int, n: int)
    requires
        agree_before(a, b, n),
        0 <= p,
        block_comment_end(a, p) matches Some(y) && y <= n,
    ensures
        block_comment_end(b, p) == block_comment_end(a, p),
    decreases a.len() - p,
{
    lemma_block_end_bounds(a, p);
    if !(p + 1 >= a.len()) {
        assert(a[p] == b[p] && a[p + 1] == b[p + 1]);
        if !(a[p] == '*' && a[p + 1] == '/') {
            lemma_block_end_prefix(a, b, p + 1, n);
        }
    }
}

pub proof fn lemma_block_end_bounds(a: Seq<char>, p: int)
    ensures
        block_comment_end(a, p) matches Some(y) ==> p + 2 <= y <= a.len(),
    decreases a.len() - p,
{
    if !(p < 0 || p + 1 >= a.len()) && !(a[p] == '*' && a[p + 1] == '/') {
        lemma_block_end_bounds(a, p + 1);
    }
}

/// A comment that ends by position `n` in `a` ends at the same place in `b`.
pub proof fn lemma_comment_prefix(a: Seq<char>, b: Seq<char>, p: int, n: int)
    requires
        agree_before(a, b, n),
        n < a.len(),
        0 <= p < n,
        comment_end(a, p) matches Some(x) && p < x <= n,
    ensures
        comment_end(b, p) == comment_end(a, p),
{
    lemma_line_end_bounds(a, p + 2);
    lemma_block_end_bounds(a, p + 2);
    assert(a[p] == b[p]);
    if p + 1 < a.len() && a[p] == '/' && a[p + 1] == '/' {
        assert(a[p + 1] == b[p + 1]);
        let e = line_end(a, p + 2);
        assert(e < a.len());
        lemma_line_end_prefix(a, b, p + 2, n);
    } else if p + 1 < a.len() && a[p] == '/' && a[p + 1] == '*' {
        assert(a[p + 1] == b[p + 1]);
        lemma_block_end_prefix(a, b, p + 2, n);
    }
}

pub proof fn lemma_line_end_bounds(a: Seq<char>, p: int)
    ensures
        p <= a.len() ==> p <= line_end(a, p) <= a.len(),
        line_end(a, p) < a.len() ==> a[line_end(a, p)] == '\n',
    decreases a.len() - p,
{
    if p < a.len() && a[p] != '\n' {
        lemma_line_end_bounds(a, p + 1);
    }
}

/// Trivia from `p` that `a` skips up to exactly `n` is skipped the same way
/// in `b`, which agrees with `a` before `n`.
pub proof fn lemma_skip_walk(a: Seq<char>, b: Seq<char>, p: int, n: int)
    requires
        agree_before(a, b, n),
        n < a.len(),
        0 <= p <= n,
        skip_trivia(a, p) == n,
    ensures
        skip_trivia(b, p) == skip_trivia(b, n),
    decreases n - p,
{
    if p < n {
        assert(a[p] == b[p]);
        if is_space(a[p]) {
            lemma_skip_walk(a, b, p + 1, n);
        } else {
            let x = comment_end(a, p)->Some_0;
            lemma_skip_bounds(a, x);
            lemma_comment_prefix(a, b, p, n);
            lemma_skip_walk(a, b, x, n);
        }
    }
}

/// Trivia from `p` that `a` skips up to a position before `n`, where no
/// comment starts, is skipped the same way in `b`.
pub proof fn lemma_skip_prefix(a: Seq<char>, b: Seq<char>, p: int, n: int)
    requires
        agree_before(a, b, n),
        n < a.len(),
        0 <= p,
        p <= skip_trivia(a, p),
        skip_trivia(a, p) < n,
        a[skip_trivia(a, p)] != '/',
    ensures
        skip_trivia(b, p) == skip_trivia(a, p),
    decreases n - p,
{
    let j = skip_trivia(a, p);
    assert(a[p] == b[p]);
    if is_space(a[p]) {
        lemma_skip_bounds(a, p + 1);
        lemma_skip_prefix(a, b, p + 1, n);
    } else if p < j {
        let x = comment_end(a, p)->Some_0;
        assert(p < x && x <= a.len());
        lemma_skip_bounds(a, x);
        lemma_comment_prefix(a, b, p, n);
        lemma_skip_prefix(a, b, x, n);
    } else {
        assert(comment_end(b, p) is None);
    }
}

pub proof fn lemma_ident_end_prefix(a: Seq<char>, b: Seq<char>, p: int, n: int)
    requires
        agree_before(a, b, n),
        0 <= p <= ident_end(a, p) <= n,
        ident_end(a, p) == n ==> (n < b.len() ==> !is_ident_char(b[n])),
    ensures
        ident_end(b, p) == ident_end(a, p),
    decreases a.len() - p,
{
    if 0 <= p < a.len() && is_ident_char(a[p]) {
        lemma_ident_end_bounds(a, p + 1);
        lemma_ident_end_prefix(a, b, p + 1, n);
    }
}

pub proof fn lemma_ident_end_bounds(a: Seq<char>, p: int)
    requires
        0 <= p,
    ensures
        p <= ident_end(a, p),
        p <= a.len() ==> ident_end(a, p) <= a.len(),
        ident_end(a, p) < a.len() ==> !is_ident_char(a[ident_end(a, p)]),
    decreases a.len() - p,
{
    if 0 <= p < a.len() && is_ident_char(a[p]) {
        lemma_ident_end_bounds(a, p + 1);
    }
}

pub proof fn lemma_ident_end_shift(a: Seq<char>, p: int, b: Seq<char>, q: int)
    requires
        same_from(a, p, b, q),
    ensures
        ident_end(a, p) - p == ident_end(b, q) - q,
    decreases a.len() - p,
{
    if p < a.len() {
        lemma_same_from_step(a, p, b, q);
        if is_ident_char(a[p]) {
            lemma_ident_end_shift(a, p + 1, b, q + 1);
        }
    }
}

pub proof fn lemma_body_close_shift(a: Seq<char>, p: int, b: Seq<char>, q: int)
    requires
        same_from(a, p, b, q),
    ensures
        match (body_close(a, p), body_close(b, q)) {
            (Some(x), Some(y)) => x - p == y - q,
            (None, None) => true,
            _ => false,
        },
    decreases a.len() - p,
{
    if p + 1 < a.len() {
        lemma_same_from_step(a, p, b, q);
        lemma_same_from_step(a, p + 1, b, q + 1);
        if !(a[p] == '}' && a[p + 1] == ':') {
            lemma_body_close_shift(a, p + 1, b, q + 1);
        }
    }
}

/// The same text from `p` and from `q` holds the same text from any later
/// point on, and the same stretches.
pub proof fn lemma_same_from_advance(a: Seq<char>, p: int, b: Seq<char>, q: int, k: int)
    requires
        same_from(a, p, b, q),
        0 <= k <= a.len() - p,
    ensures
        same_from(a, p + k, b, q + k),
        forall|x: int, y: int|
            0 <= x <= y <= a.len() - p ==> #[trigger] a.subrange(p + x, p + y) == b.subrange(
                q + x,
                q + y,
            ),
{
    assert forall|i: int| 0 <= i < a.len() - (p + k) implies #[trigger] a[(p + k) + i] == b[(q
        + k) + i] by {
        assert(a[p + (k + i)] == b[q + (k + i)]);
    }
    assert forall|x: int, y: int| 0 <= x <= y <= a.len() - p implies #[trigger] a.subrange(
        p + x,
        p + y,
    ) == b.subrange(q + x, q + y) by {
        assert forall|i: int| 0 <= i < y - x implies #[trigger] a.subrange(p + x, p + y)[i]
            == b.subrange(q + x, q + y)[i] by {
            assert(a[p + (x + i)] == b[q + (x + i)]);
        }
        assert(a.subrange(p + x, p + y) =~= b.subrange(q + x, q + y));
    }
}

/// An identifier read from the same text gives the same name, its end
/// shifted as the start is.
pub proof fn lemma_identifier_shift(a: Seq<char>, p: int, b: Seq<char>, q: int)
    requires
        same_from(a, p, b, q),
    ensures
        match (identifier(a, p), identifier(b, q)) {
            (Some((n, x)), Some((m, y))) => n == m && x - p == y - q,
            (None, None) => true,
            _ => false,
        },
{
    lemma_skip_shift(a, p, b, q);
    lemma_skip_bounds(a, p);
    let j = skip_trivia(a, p);
    let k = skip_trivia(b, q);
    lemma_same_from_advance(a, p, b, q, j - p);
    if 0 <= j < a.len() {
        assert(a[j] == b[k]) by {
            assert(a[j + 0] == b[k + 0]);
        }
        if is_ident_start(a[j]) {
            lemma_same_from_advance(a, p, b, q, j + 1 - p);
            lemma_ident_end_shift(a, j + 1, b, k + 1);
            lemma_ident_end_bounds(a, j + 1);
            let e = ident_end(a, j + 1);
            lemma_same_from_advance(a, p, b, q, e - p);
            assert(a.subrange(p + (j - p), p + (e - p)) == b.subrange(q + (j - p), q + (e - p)));
            lemma_skip_shift(a, e, b, k + (e - j));
        }
    }
}

/// Text that holds a comment at `b` skips past it.
pub proof fn lemma_comment_jump(t: Seq<char>, b: int, c: Seq<char>)
    requires
        is_comment(c),
        0 <= b,
        b + c.len() <= t.len(),
        forall|k: int| 0 <= k < c.len() ==> #[trigger] t[b + k] == c[k],
    ensures
        skip_trivia(t, b) == skip_trivia(t, b + c.len()),
{
    let n = c.len() as int;
    if c.len() >= 4 && c[0] == '/' && c[1] == '*' && c[c.len() - 2] == '*' && c[c.len() - 1] == '/'
        && forall|j: int| 2 <= j < c.len() - 2 ==> !(#[trigger] c[j] == '*' && c[j + 1] == '/') {
        assert forall|j: int| b + 2 <= j < b + n - 2 implies !(#[trigger] t[j] == '*' && t[j + 1]
            == '/') by {
            assert(t[b + (j - b)] == c[j - b]);
            assert(t[b + (j - b + 1)] == c[j - b + 1]);
        }
        assert(t[b + (n - 2)] == '*' && t[b + (n - 1)] == '/');
        lemma_block_end_found(t, b + 2, b + n - 2);
    } else {
        assert(t[b + (n - 1)] == '\n');
        assert forall|j: int| b + 2 <= j < b + n - 1 implies #[trigger] t[j] != '\n' by {
            assert(t[b + (j - b)] == c[j - b]);
        }
        lemma_line_end_found(t, b + 2, b + n - 1);
    }
    assert(t[b + 0] == c[0] && t[b + 1] == c[1]);
}

/// The keyword and the name of a task or block read the same with a comment
/// put in just before its `{`; the name's trivia then runs past the comment.
#[verifier::rlimit(60)]
pub proof fn lemma_brace_head(s: Seq<char>, c: Seq<char>, w: Seq<char>)
    requires
        is_comment(c),
        w == kw_task() || w == kw_block(),
        raw_cell(s, 0, w) is Some,
    ensures
        ({
            let a = keyword(s, 0, w)->Some_0;
            let (name, b) = identifier(s, a)->Some_0;
            let t = insert_at(s, b, c);
            &&& keyword(t, 0, w) == Some(a)
            &&& identifier(t, a) == Some((name, b + c.len()))
            &&& 0 <= b < s.len() && s[b] == '{'
        }),
{
    let a = keyword(s, 0, w)->Some_0;
    let (name, b) = identifier(s, a)->Some_0;
    let n = c.len() as int;
    let t = insert_at(s, b, c);
    let j0 = skip_trivia(s, 0);
    lemma_skip_bounds(s, 0);
    let ja = skip_trivia(s, a);
    lemma_skip_bounds(s, a);
    let e = ident_end(s, ja + 1);
    lemma_ident_end_bounds(s, ja + 1);
    lemma_skip_bounds(s, e);
    assert(s[b] == '{');
    assert(agree_before(s, t, b)) by {
        assert forall|k: int| 0 <= k < b implies #[trigger] s[k] == t[k] by {}
    }
    let m = w.len() as int;
    assert(s.subrange(j0, j0 + m) == w);
    assert(s[j0] == w[0]);
    assert(w[0] == 't' || w[0] == 'b');
    lemma_skip_prefix(s, t, 0, b);
    assert(t.subrange(j0, j0 + m) =~= s.subrange(j0, j0 + m));
    assert(keyword(t, 0, w) == Some(a));
    lemma_skip_prefix(s, t, a, b);
    assert(t[b] == c[0]);
    lemma_ident_end_prefix(s, t, ja + 1, b);
    assert(t.subrange(ja, e) =~= s.subrange(ja, e));
    lemma_skip_walk(s, t, e, b);
    assert forall|k: int| 0 <= k < c.len() implies #[trigger] t[b + k] == c[k] by {}
    lemma_comment_jump(t, b, c);
    assert forall|k: int| 0 <= k < s.len() - b implies #[trigger] t[(b + n) + k] == s[b + k] by {}
    lemma_skip_shift(t, b + n, s, b);
}

/// Comment insensitivity before the `{` of a task or block: putting a
/// comment in just before the `{` leaves the cell read unchanged; only its
/// end moves by the comment's length. `w` is the keyword that opens the cell.
pub proof fn law_comment_before_brace(s: Seq<char>, c: Seq<char>, w: Seq<char>)
    requires
        is_comment(c),
        w == kw_task() || w == kw_block(),
        raw_cell(s, 0, w) is Some,
    ensures
        ({
            let a = keyword(s, 0, w)->Some_0;
            let b = identifier(s, a)->Some_0.1;
            let t = insert_at(s, b, c);
            &&& raw_cell(t, 0, w) is Some
            &&& raw_cell(t, 0, w)->Some_0.0 == raw_cell(s, 0, w)->Some_0.0
            &&& raw_cell(t, 0, w)->Some_0.1 == raw_cell(s, 0, w)->Some_0.1 + c.len()
        }),
{
    let a = keyword(s, 0, w)->Some_0;
    let (name, b) = identifier(s, a)->Some_0;
    let n = c.len() as int;
    let t = insert_at(s, b, c);
    lemma_brace_head(s, c, w);
    assert forall|k: int| 0 <= k < s.len() - b implies #[trigger] t[(b + n) + k] == s[b + k] by {}
    assert(same_from(t, b + n, s, b));
    assert(t[b + n] == '{') by {
        assert(t[(b + n) + 0] == s[b + 0]);
    }
    lemma_same_from_advance(t, b + n, s, b, 1);
    lemma_body_close_shift(t, b + n + 1, s, b + 1);
    let cl = body_close(s, b + 1)->Some_0;
    lemma_body_close_bounds(s, b + 1);
    lemma_same_from_advance(t, b + n, s, b, cl + 2 - b);
    lemma_identifier_shift(t, cl + 2 + n, s, cl + 2);
    lemma_same_from_advance(t, b + n, s, b, 0);
    assert(t.subrange((b + n) + 1, (b + n) + (cl - b)) == s.subrange(b + 1, b + (cl - b)));
}

pub proof fn lemma_body_close_bounds(a: Seq<char>, p: int)
    ensures
        body_close(a, p) matches Some(x) ==> p <= x && x + 1 < a.len(),
    decreases a.len() - p,
{
    if !(p < 0 || p + 1 >= a.len()) && !(a[p] == '}' && a[p + 1] == ':') {
        lemma_body_close_bounds(a, p + 1);
    }
}

/// A keyword found at `i` starts with its first letter.
pub proof fn lemma_keyword_differs(s: Seq<char>, i: int, w: Seq<char>, v: Seq<char>)
    requires
        keyword(s, i, w) is Some,
        w.len() > 0,
        v.len() > 0,
        w[0] != v[0],
    ensures
        keyword(s, i, v) is None,
{
    let j = skip_trivia(s, i);
    assert(s.subrange(j, j + w.len())[0] == s[j]);
    if word_at(s, j, v) {
        assert(s.subrange(j, j + v.len())[0] == s[j]);
    }
}

/// No cell starts where a task starts whose body is never closed.
pub proof fn lemma_no_member(s: Seq<char>)
    requires
        task(s, 0) is None,
        block(s, 0) is None,
        keyword(s, 0, kw_let()) is None,
        keyword(s, 0, kw_runtime()) is None,
        keyword(s, 0, kw_import()) is None,
    ensures
        member(s, 0) is None,
{
    assert(crate::grammar::assignment(s, 0) is None);
    assert(crate::grammar::runtime_member(s, 0) is None);
    assert(crate::grammar::runtime(s, 0) is None);
    assert(crate::grammar::import(s, 0) is None);
}

/// Where a keyword is found, text is left after the trivia.
pub proof fn lemma_keyword_left(s: Seq<char>, w: Seq<char>)
    requires
        keyword(s, 0, w) is Some,
    ensures
        skip_trivia(s, 0) < s.len(),
{
}

/// No cell starts at a task whose body is never closed, and text is left.
#[verifier::rlimit(100)]
pub proof fn lemma_unclosed_start(s: Seq<char>)
    requires
        task(s, 0) is None,
        block(s, 0) is None,
        keyword(s, 0, kw_task()) is Some,
    ensures
        member(s, 0) is None,
        skip_trivia(s, 0) < s.len(),
{
    lemma_keyword_differs(s, 0, kw_task(), kw_let());
    lemma_keyword_differs(s, 0, kw_task(), kw_runtime());
    lemma_keyword_differs(s, 0, kw_task(), kw_import());
    lemma_no_member(s);
    lemma_keyword_left(s, kw_task());
}

/// A script that opens with a task whose body is never closed is rejected as
/// a whole: reading it gives a `ParseError`, not the cells before the fault.
pub proof fn law_unclosed_task_script_fails(s: Seq<char>)
    requires
        forall|j: int| 0 <= j && j + 1 < s.len() ==> !(#[trigger] s[j] == '}' && s[j + 1] == ':'),
        keyword(s, 0, kw_task()) is Some,
    ensures
        script(s) is Err,
{
    law_unclosed_body_fails(s);
    lemma_unclosed_start(s);
    assert(cell(s, 0) is None);
    assert(cells(s, 0) == (Seq::<CellV>::empty(), 0int));
}

/// `t` holds no `[:`.
pub open spec fn no_marker(t: Seq<char>) -> bool {
    forall|i: int| 0 <= i && i + 1 < t.len() ==> !(#[trigger] t[i] == '[' && t[i + 1] == ':')
}

/// The first `[:` from `i` on stands at `k` when none stands before it.
pub proof fn lemma_marker_found(t: Seq<char>, i: int, k: int)
    requires
        0 <= i <= k,
        k + 1 < t.len(),
        t[k] == '[' && t[k + 1] == ':',
        forall|j: int| i <= j < k ==> !(#[trigger] t[j] == '[' && t[j + 1] == ':'),
    ensures
        marker_from(t, i) == Some(k),
    decreases k - i,
{
    if i < k {
        lemma_marker_found(t, i + 1, k);
    }
}

/// No `[:` from `i` on.
pub proof fn lemma_marker_absent(t: Seq<char>, i: int)
    requires
        0 <= i,
        forall|j: int| i <= j && j + 1 < t.len() ==> !(#[trigger] t[j] == '[' && t[j + 1] == ':'),
    ensures
        marker_from(t, i) is None,
    decreases t.len() - i,
{
    if !(i + 1 >= t.len()) {
        lemma_marker_absent(t, i + 1);
    }
}

/// `x=d` stands for the variable `x` with fallback `d`.
pub proof fn lemma_classify_fallback(x: Seq<char>, d: Seq<char>)
    requires
        plain_name(x),
        plain_fallback(d),
    ensures
        classify(x + seq!['='] + d) == PartV::Var(x, AtomV::Str(d)),
{
    let seg = x + seq!['='] + d;
    assert forall|j: int| 0 <= j < seg.len() implies #[trigger] seg[j] != '(' by {
        if j < x.len() {
            assert(seg[j] == x[j]);
        } else if j > x.len() {
            assert(seg[j] == d[j - 1 - x.len()]);
        }
    }
    lemma_index_absent(seg, 0, '(');
    assert forall|j: int| 0 <= j < x.len() implies #[trigger] seg[j] != '=' by {
        assert(seg[j] == x[j]);
    }
    lemma_index_found(seg, 0, x.len() as int, '=');
    assert(seg.subrange(0, x.len() as int) =~= x);
    assert(seg.subrange(x.len() as int + 1, seg.len() as int) =~= d);
}

/// Computing two runs of parts computes each.
pub proof fn lemma_compute_concat(p: Seq<PartV>, q: Seq<PartV>, vars: Map<Seq<char>, AtomV>)
    ensures
        compute_parts(p + q, vars) == compute_parts(p, vars) + compute_parts(q, vars),
{
    assert(compute_parts(p + q, vars) =~= compute_parts(p, vars) + compute_parts(q, vars));
}

/// Literal text computes to itself and writes out to itself.
pub proof fn lemma_literal_text(t: Seq<char>, vars: Map<Seq<char>, AtomV>)
    ensures
        parts_text(compute_parts(literal(t), vars)) == t,
{
    if t.len() == 0 {
        assert(compute_parts(literal(t), vars) =~= Seq::<PartV>::empty());
        assert(t =~= Seq::<char>::empty());
    } else {
        assert(compute_parts(literal(t), vars) =~= seq![PartV::Text(t)]);
        lemma_one_text(t);
    }
}

/// `a [:x=d] b` splits into the literal `a`, the variable `x` with fallback
/// `d`, and the literal `b`.
pub proof fn lemma_split_in_text(a: Seq<char>, x: Seq<char>, d: Seq<char>, b: Seq<char>)
    requires
        plain_name(x),
        plain_fallback(d),
        no_marker(a),
        no_marker(b),
    ensures
        split_from(a + placeholder_with_fallback(x, d) + b, 0) == literal(a) + seq![
            PartV::Var(x, AtomV::Str(d)),
        ] + literal(b),
        has_placeholder(a + placeholder_with_fallback(x, d) + b),
{
    let p = placeholder_with_fallback(x, d);
    let t = a + p + b;
    let m = a.len() as int;
    let c = m + p.len() - 1;
    assert(t[m] == '[' && t[m + 1] == ':');
    assert forall|j: int| 0 <= j < m implies !(#[trigger] t[j] == '[' && t[j + 1] == ':') by {
        assert(t[j] == a[j]);
        if j + 1 < m {
            assert(t[j + 1] == a[j + 1]);
        } else {
            assert(t[j + 1] == '[');
        }
    }
    lemma_marker_found(t, 0, m);
    assert forall|j: int| m + 2 <= j < c implies #[trigger] t[j] != ']' by {
        assert(t[j] == p[j - m]);
        if j - m < 2 + x.len() {
            assert(p[j - m] == x[j - m - 2]);
        } else if j - m > 2 + x.len() {
            assert(p[j - m] == d[j - m - 3 - x.len()]);
        }
    }
    assert(t[c] == ']');
    lemma_index_found(t, m + 2, c, ']');
    assert(t.subrange(m + 2, c) =~= x + seq!['='] + d);
    lemma_classify_fallback(x, d);
    assert forall|j: int| c + 1 <= j && j + 1 < t.len() implies !(#[trigger] t[j] == '['
        && t[j + 1] == ':') by {
        assert(t[j] == b[j - c - 1]);
        assert(t[j + 1] == b[j + 1 - c - 1]);
    }
    lemma_marker_absent(t, c + 1);
    assert(t.subrange(0, m) =~= a);
    assert(t.subrange(c + 1, t.len() as int) =~= b);
    assert(placeholder_from(t, 0) == Some((m, c)));
    assert(placeholder_from(t, c + 1) is None);
    assert(split_from(t, c + 1) == literal(b));
    assert(split_from(t, 0) == literal(t.subrange(0, m)) + seq![classify(t.subrange(m + 2, c))]
        + split_from(t, c + 1));
}

/// One round on `a [:x=d] b` replaces the placeholder by what it resolves to.
pub proof fn lemma_once_in_text(
    a: Seq<char>,
    x: Seq<char>,
    d: Seq<char>,
    b: Seq<char>,
    w: Map<Seq<char>, AtomV>,
)
    requires
        plain_name(x),
        plain_fallback(d),
        no_marker(a),
        no_marker(b),
    ensures
        interpolate_once(a + placeholder_with_fallback(x, d) + b, w) == a + resolve_part(
            PartV::Var(x, AtomV::Str(d)),
            w,
        ) + b,
{
    lemma_split_in_text(a, x, d, b);
    let var = seq![PartV::Var(x, AtomV::Str(d))];
    let r = resolve_part(PartV::Var(x, AtomV::Str(d)), w);
    lemma_compute_concat(literal(a) + var, literal(b), w);
    lemma_compute_concat(literal(a), var, w);
    assert(compute_parts(var, w) =~= seq![PartV::Text(r)]);
    lemma_parts_text_concat(
        compute_parts(literal(a), w) + compute_parts(var, w),
        compute_parts(literal(b), w),
    );
    lemma_parts_text_concat(compute_parts(literal(a), w), compute_parts(var, w));
    lemma_literal_text(a, w);
    lemma_literal_text(b, w);
    lemma_one_text(r);
}

/// Fallback precedence inside text: in `a [:x=d] b`, while `x` has no value
/// the placeholder resolves to `d`, and once `x` is set to `v` to the text
/// of `v`; the text around it stays. The text around holds no `[:`, and the
/// joined result holds no placeholder (else further rounds expand it).
pub proof fn law_fallback_in_text(
    a: Seq<char>,
    x: Seq<char>,
    d: Seq<char>,
    b: Seq<char>,
    v: AtomV,
    vars: Map<Seq<char>, AtomV>,
    rounds: nat,
)
    requires
        rounds >= 1,
        plain_name(x),
        plain_fallback(d),
        no_marker(a),
        no_marker(b),
        !has_placeholder(a + d + b),
        !has_placeholder(a + atom_text(v) + b),
    ensures
        !vars.contains_key(key_of(x)) ==> interpolate(
            a + placeholder_with_fallback(x, d) + b,
            vars,
            rounds,
        ) == Some(a + d + b),
        interpolate(a + placeholder_with_fallback(x, d) + b, vars.insert(key_of(x), v), rounds)
            == Some(a + atom_text(v) + b),
{
    let t = a + placeholder_with_fallback(x, d) + b;
    lemma_split_in_text(a, x, d, b);
    lemma_once_in_text(a, x, d, b, vars);
    lemma_once_in_text(a, x, d, b, vars.insert(key_of(x), v));
    if !vars.contains_key(key_of(x)) {
        assert(interpolate_once(t, vars) == a + d + b);
        assert(interpolate(a + d + b, vars, (rounds - 1) as nat) == Some(a + d + b));
    }
    let w = vars.insert(key_of(x), v);
    assert(interpolate_once(t, w) == a + atom_text(v) + b);
    assert(interpolate(a + atom_text(v) + b, w, (rounds - 1) as nat) == Some(a + atom_text(v) + b));
}

} // verus!
