//! Byte lengths of text in UTF-8, for offsets and widths counted in bytes.
use vstd::prelude::*;
use vstd::utf8::{encode_scalar, encode_utf8};

verus! {

broadcast use vstd::utf8::char_is_scalar, vstd::slice::axiom_spec_len;

/// The number of bytes of `s` in UTF-8, as `str::len` counts them.
pub open spec fn utf8_len(s: Seq<char>) -> nat {
    encode_utf8(s).len()
}

/// The number of bytes of one character in UTF-8.
pub open spec fn char_width(c: char) -> nat {
    encode_scalar(c as u32).len()
}

/// The longest prefix of `s` from `k` on whose UTF-8 encoding has at most
/// `max` bytes: its number of characters.
pub open spec fn fit_from(s: Seq<char>, k: int, max: nat) -> int
    decreases s.len() - k,
{
    if 0 <= k < s.len() && utf8_len(s.subrange(0, k + 1)) <= max {
        fit_from(s, k + 1, max)
    } else {
        k
    }
}

/// How many characters of `s` fit in `max` bytes.
pub open spec fn fit_count(s: Seq<char>, max: nat) -> int {
    fit_from(s, 0, max)
}

/// Encoding two texts one after the other gives their encodings one after the other.
pub proof fn lemma_encode_concat(a: Seq<char>, b: Seq<char>)
    ensures
        encode_utf8(a + b) == encode_utf8(a) + encode_utf8(b),
    decreases a.len(),
{
    if a.len() == 0 {
        assert(a + b =~= b);
        assert(encode_utf8(a) + encode_utf8(b) =~= encode_utf8(b));
    } else {
        assert((a + b).drop_first() =~= a.drop_first() + b);
        assert((a + b)[0] == a[0]);
        lemma_encode_concat(a.drop_first(), b);
        assert(encode_utf8(a + b) =~= encode_utf8(a) + encode_utf8(b));
    }
}

/// One more character adds its width.
pub proof fn lemma_utf8_push(a: Seq<char>, c: char)
    ensures
        utf8_len(a.push(c)) == utf8_len(a) + char_width(c),
        1 <= char_width(c) <= 4,
{
    assert(a.push(c) =~= a + seq![c]);
    lemma_encode_concat(a, seq![c]);
    assert(seq![c].drop_first() =~= Seq::<char>::empty());
    assert(encode_utf8(Seq::<char>::empty()) == Seq::<u8>::empty());
    assert(seq![c][0] == c);
    assert(encode_utf8(seq![c]) == encode_scalar(c as u32) + encode_utf8(seq![c].drop_first()));
    assert(encode_utf8(seq![c]) =~= encode_scalar(c as u32));
}

/// Bytes grow strictly with every character of a prefix.
pub proof fn lemma_prefix_grows(s: Seq<char>, i: int, j: int)
    requires
        0 <= i <= j <= s.len(),
    ensures
        utf8_len(s.subrange(0, i)) + (j - i) <= utf8_len(s.subrange(0, j)),
    decreases j - i,
{
    if i < j {
        lemma_prefix_grows(s, i, j - 1);
        assert(s.subrange(0, j) =~= s.subrange(0, j - 1).push(s[j - 1]));
        lemma_utf8_push(s.subrange(0, j - 1), s[j - 1]);
    }
}

/// A stretch of a text has no more bytes than the text.
pub proof fn lemma_utf8_subrange(s: Seq<char>, a: int, b: int)
    requires
        0 <= a <= b <= s.len(),
    ensures
        utf8_len(s.subrange(a, b)) <= utf8_len(s),
{
    assert(s =~= s.subrange(0, a) + s.subrange(a, b) + s.subrange(b, s.len() as int));
    lemma_encode_concat(s.subrange(0, a) + s.subrange(a, b), s.subrange(b, s.len() as int));
    lemma_encode_concat(s.subrange(0, a), s.subrange(a, b));
}

/// The characters counted by `fit_count` fit in `max` bytes, and one more
/// would not.
pub proof fn lemma_fit(s: Seq<char>, k: int, max: nat)
    requires
        0 <= k <= s.len(),
        utf8_len(s.subrange(0, k)) <= max,
    ensures
        k <= fit_from(s, k, max) <= s.len(),
        utf8_len(s.subrange(0, fit_from(s, k, max))) <= max,
        fit_from(s, k, max) < s.len() ==> utf8_len(s.subrange(0, fit_from(s, k, max) + 1)) > max,
    decreases s.len() - k,
{
    if k < s.len() && utf8_len(s.subrange(0, k + 1)) <= max {
        lemma_fit(s, k + 1, max);
    }
}

/// Where `max` bytes end between two characters, the cut falls exactly
/// there: the characters that fit are those that make up `max` bytes.
pub proof fn lemma_fit_at_boundary(s: Seq<char>, max: nat, j: int)
    requires
        0 <= j <= s.len(),
        utf8_len(s.subrange(0, j)) == max,
    ensures
        fit_count(s, max) == j,
{
    assert(s.subrange(0, 0) =~= Seq::<char>::empty());
    lemma_fit(s, 0, max);
    let k = fit_count(s, max);
    if k < j {
        lemma_prefix_grows(s, k + 1, j);
    } else if k > j {
        lemma_prefix_grows(s, j, k);
    }
}

/// The width in bytes of a character.
pub fn width_of(c: char) -> (r: usize)
    ensures
        r == char_width(c),
        1 <= r <= 4,
{
    let u = c as u32;
    if u <= 0x7f {
        1
    } else if u <= 0x7ff {
        2
    } else if u <= 0xffff {
        3
    } else {
        4
    }
}

/// The byte length of `s[a..b]`, when the whole of `s` fits in `usize` bytes.
pub fn utf8_len_between(s: &Vec<char>, a: usize, b: usize) -> (r: usize)
    requires
        a <= b <= s.len(),
        utf8_len(s@) <= usize::MAX,
    ensures
        r == utf8_len(s@.subrange(a as int, b as int)),
{
    let ghost u = s@.subrange(a as int, b as int);
    let mut acc: usize = 0;
    let mut k = a;
    assert(u.subrange(0, 0) =~= Seq::<char>::empty());
    while k < b
        invariant
            a <= k <= b <= s.len(),
            u == s@.subrange(a as int, b as int),
            utf8_len(s@) <= usize::MAX,
            acc == utf8_len(u.subrange(0, k - a)),
        decreases b - k,
    {
        let w = width_of(s[k]);
        proof {
            assert(u.subrange(0, k - a + 1) =~= u.subrange(0, k - a).push(s@[k as int]));
            lemma_utf8_push(u.subrange(0, k - a), s@[k as int]);
            lemma_utf8_subrange(u, 0, k - a + 1);
            lemma_utf8_subrange(s@, a as int, b as int);
        }
        acc = acc + w;
        k += 1;
    }
    assert(u.subrange(0, b - a) =~= u);
    acc
}

/// How many characters of `s[a..b]` fit in `max` bytes.
pub fn fit_between(s: &Vec<char>, a: usize, b: usize, max: usize) -> (r: usize)
    requires
        a <= b <= s.len(),
    ensures
        r == fit_count(s@.subrange(a as int, b as int), max as nat),
        r <= b - a,
{
    let ghost u = s@.subrange(a as int, b as int);
    let mut acc: usize = 0;
    let mut k: usize = 0;
    assert(u.subrange(0, 0) =~= Seq::<char>::empty());
    while k < b - a
        invariant
            a <= b <= s.len(),
            u == s@.subrange(a as int, b as int),
            k <= b - a,
            acc <= max,
            acc == utf8_len(u.subrange(0, k as int)),
            fit_from(u, k as int, max as nat) == fit_count(u, max as nat),
        decreases b - a - k,
    {
        let w = width_of(s[a + k]);
        proof {
            assert(u.subrange(0, k + 1) =~= u.subrange(0, k as int).push(u[k as int]));
            lemma_utf8_push(u.subrange(0, k as int), u[k as int]);
        }
        if w > max - acc {
            return k;
        }
        acc = acc + w;
        k += 1;
    }
    k
}

/// The byte length of a text, which always fits in `usize`.
pub fn byte_len(s: &str) -> (r: usize)
    ensures
        r == utf8_len(s@),
{
    s.as_bytes().len()
}

} // verus!
