//! Executable scanners for the lexical rules of the grammar.
use vstd::prelude::*;
use crate::grammar::{
    block_comment_end, body_close, comment_end, digit_value, digits_end, digits_value, ident_end,
    is_digit, is_ident_char, is_ident_start, is_space, is_white_space, line_end, marker_from, quote_at_or_after,
    skip_trivia, word_at,
};

verus! {

/// A position result seen as an integer position.
pub open spec fn pos(o: Option<usize>) -> Option<int> {
    match o {
        Some(x) => Some(x as int),
        None => None,
    }
}

pub fn is_space_char(c: char) -> (r: bool)
    ensures
        r == is_space(c),
{
    c == ' ' || c == '\t' || c == '\n' || c == '\r'
}

pub fn is_white_space_char(c: char) -> (r: bool)
    ensures
        r == is_white_space(c),
{
    ('\u{9}' <= c && c <= '\u{d}') || c == ' ' || c == '\u{85}' || c == '\u{a0}' || c
        == '\u{1680}' || ('\u{2000}' <= c && c <= '\u{200a}') || c == '\u{2028}' || c
        == '\u{2029}' || c == '\u{202f}' || c == '\u{205f}' || c == '\u{3000}'
}

pub fn is_ident_start_char(c: char) -> (r: bool)
    ensures
        r == is_ident_start(c),
{
    ('a' <= c && c <= 'z') || ('A' <= c && c <= 'Z') || c == '_'
}

pub fn is_digit_char(c: char) -> (r: bool)
    ensures
        r == is_digit(c),
{
    '0' <= c && c <= '9'
}

pub fn is_ident_char_exec(c: char) -> (r: bool)
    ensures
        r == is_ident_char(c),
{
    is_ident_start_char(c) || is_digit_char(c)
}

pub fn word_at_exec(s: &Vec<char>, i: usize, w: &Vec<char>) -> (r: bool)
    requires
        i <= s.len(),
    ensures
        r == word_at(s@, i as int, w@),
{
    if w.len() > s.len() - i {
        return false;
    }
    let mut k: usize = 0;
    while k < w.len()
        invariant
            i + w.len() <= s.len(),
            k <= w.len(),
            forall|m: int| 0 <= m < k ==> s@[i + m] == w@[m],
        decreases w.len() - k,
    {
        if s[i + k] != w[k] {
            assert(s@.subrange(i as int, i + w.len())[k as int] != w@[k as int]);
            return false;
        }
        k += 1;
    }
    assert(s@.subrange(i as int, i + w.len()) =~= w@);
    true
}

pub fn line_end_at(s: &Vec<char>, i: usize) -> (r: usize)
    requires
        i <= s.len(),
    ensures
        r == line_end(s@, i as int),
        i <= r <= s.len(),
{
    let mut k = i;
    while k < s.len() && s[k] != '\n'
        invariant
            i <= k <= s.len(),
            line_end(s@, k as int) == line_end(s@, i as int),
        decreases s.len() - k,
    {
        k += 1;
    }
    k
}

pub fn block_comment_end_at(s: &Vec<char>, i: usize) -> (r: Option<usize>)
    requires
        i <= s.len(),
    ensures
        pos(r) == block_comment_end(s@, i as int),
        r matches Some(e) ==> i + 2 <= e <= s.len(),
{
    let mut k = i;
    while k < s.len() && s.len() - k >= 2
        invariant
            i <= k <= s.len(),
            block_comment_end(s@, k as int) == block_comment_end(s@, i as int),
        decreases s.len() - k,
    {
        if s[k] == '*' && s[k + 1] == '/' {
            return Some(k + 2);
        }
        k += 1;
    }
    None
}

pub fn comment_end_at(s: &Vec<char>, i: usize) -> (r: Option<usize>)
    requires
        i <= s.len(),
    ensures
        pos(r) == comment_end(s@, i as int),
        r matches Some(e) ==> i < e <= s.len(),
{
    if i < s.len() && s.len() - i >= 2 && s[i] == '/' && s[i + 1] == '/' {
        let e = line_end_at(s, i + 2);
        if e < s.len() {
            Some(e + 1)
        } else {
            Some(e)
        }
    } else if i < s.len() && s.len() - i >= 2 && s[i] == '/' && s[i + 1] == '*' {
        block_comment_end_at(s, i + 2)
    } else {
        None
    }
}

pub fn skip_trivia_at(s: &Vec<char>, i: usize) -> (r: usize)
    requires
        i <= s.len(),
    ensures
        r == skip_trivia(s@, i as int),
        i <= r <= s.len(),
{
    let mut k = i;
    while k < s.len()
        invariant
            i <= k <= s.len(),
            skip_trivia(s@, k as int) == skip_trivia(s@, i as int),
        decreases s.len() - k,
    {
        if is_space_char(s[k]) {
            k += 1;
        } else {
            match comment_end_at(s, k) {
                Some(j) => {
                    k = j;
                },
                None => {
                    return k;
                },
            }
        }
    }
    k
}

pub fn ident_end_at(s: &Vec<char>, i: usize) -> (r: usize)
    requires
        i <= s.len(),
    ensures
        r == ident_end(s@, i as int),
        i <= r <= s.len(),
{
    let mut k = i;
    while k < s.len() && is_ident_char_exec(s[k])
        invariant
            i <= k <= s.len(),
            ident_end(s@, k as int) == ident_end(s@, i as int),
        decreases s.len() - k,
    {
        k += 1;
    }
    k
}

pub fn digits_end_at(s: &Vec<char>, i: usize) -> (r: usize)
    requires
        i <= s.len(),
    ensures
        r == digits_end(s@, i as int),
        i <= r <= s.len(),
{
    let mut k = i;
    while k < s.len() && is_digit_char(s[k])
        invariant
            i <= k <= s.len(),
            digits_end(s@, k as int) == digits_end(s@, i as int),
        decreases s.len() - k,
    {
        k += 1;
    }
    k
}

pub fn quote_at_or_after_at(s: &Vec<char>, i: usize) -> (r: Option<usize>)
    requires
        i <= s.len(),
    ensures
        pos(r) == quote_at_or_after(s@, i as int),
        r matches Some(e) ==> i <= e < s.len(),
{
    let mut k = i;
    while k < s.len()
        invariant
            i <= k <= s.len(),
            quote_at_or_after(s@, k as int) == quote_at_or_after(s@, i as int),
        decreases s.len() - k,
    {
        if s[k] == '"' {
            return Some(k);
        }
        k += 1;
    }
    None
}

pub fn body_close_at(s: &Vec<char>, i: usize) -> (r: Option<usize>)
    requires
        i <= s.len(),
    ensures
        pos(r) == body_close(s@, i as int),
        r matches Some(e) ==> i <= e && e + 2 <= s.len(),
{
    let mut k = i;
    while k < s.len() && s.len() - k >= 2
        invariant
            i <= k <= s.len(),
            body_close(s@, k as int) == body_close(s@, i as int),
        decreases s.len() - k,
    {
        if s[k] == '}' && s[k + 1] == ':' {
            return Some(k);
        }
        k += 1;
    }
    None
}

/// The value of the digits in `s[i..e]`, if it fits in 64 bits.
pub fn digits_value_of(s: &Vec<char>, i: usize, e: usize) -> (r: Option<u64>)
    requires
        i <= e <= s.len(),
        forall|m: int| i <= m < e ==> is_digit(s@[m]),
    ensures
        r matches Some(v) ==> v as nat == digits_value(s@.subrange(i as int, e as int)),
        r is None ==> digits_value(s@.subrange(i as int, e as int)) > u64::MAX,
{
    let mut v: u64 = 0;
    let mut k = i;
    while k < e
        invariant
            i <= k <= e <= s.len(),
            forall|m: int| i <= m < e ==> is_digit(s@[m]),
            v as nat == digits_value(s@.subrange(i as int, k as int)),
        decreases e - k,
    {
        let c = s[k];
        let d = (c as u32 - '0' as u32) as u64;
        assert(s@.subrange(i as int, k + 1).drop_last() =~= s@.subrange(i as int, k as int));
        if v > (u64::MAX - d) / 10 {
            assert(digits_value(s@.subrange(i as int, k + 1)) > u64::MAX) by (nonlinear_arith)
                requires
                    digits_value(s@.subrange(i as int, k + 1)) == v * 10 + d,
                    v > (u64::MAX - d) / 10,
                    d <= 9,
            ;
            proof {
                lemma_digits_grow(s@.subrange(i as int, e as int), (k + 1 - i) as int);
                assert(s@.subrange(i as int, e as int).subrange(0, k + 1 - i) =~= s@.subrange(
                    i as int,
                    k + 1,
                ));
            }
            return None;
        }
        v = v * 10 + d;
        k += 1;
    }
    Some(v)
}

/// A longer run of digits is worth at least as much as its prefix.
pub proof fn lemma_digits_grow(d: Seq<char>, n: int)
    requires
        0 <= n <= d.len(),
    ensures
        digits_value(d) >= digits_value(d.subrange(0, n)),
    decreases d.len() - n,
{
    if n < d.len() {
        lemma_digits_grow(d, n + 1);
        assert(d.subrange(0, n + 1).drop_last() =~= d.subrange(0, n));
        assert(digits_value(d.subrange(0, n + 1)) >= digits_value(d.subrange(0, n))) by (nonlinear_arith)
            requires
                digits_value(d.subrange(0, n + 1)) == digits_value(d.subrange(0, n)) * 10
                    + digit_value(d.subrange(0, n + 1).last()),
        ;
    } else {
        assert(d.subrange(0, n) =~= d);
    }
}

/// Every character before the end of a run of digits is a digit.
pub proof fn lemma_digits_end(s: Seq<char>, i: int)
    requires
        0 <= i <= s.len(),
    ensures
        i <= digits_end(s, i) <= s.len(),
        forall|m: int| i <= m < digits_end(s, i) ==> is_digit(s[m]),
    decreases s.len() - i,
{
    if i < s.len() && is_digit(s[i]) {
        lemma_digits_end(s, i + 1);
    }
}

pub fn marker_from_at(s: &Vec<char>, i: usize) -> (r: Option<usize>)
    requires
        i <= s.len(),
    ensures
        pos(r) == marker_from(s@, i as int),
        r matches Some(e) ==> i <= e && e + 2 <= s.len(),
{
    let mut k = i;
    while k < s.len() && s.len() - k >= 2
        invariant
            i <= k <= s.len(),
            marker_from(s@, k as int) == marker_from(s@, i as int),
        decreases s.len() - k,
    {
        if s[k] == '[' && s[k + 1] == ':' {
            return Some(k);
        }
        k += 1;
    }
    None
}

} // verus!
