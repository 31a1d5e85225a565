//! Executable parsing of tokens and atoms, proved equal to the grammar.
use vstd::prelude::*;
use crate::ast::{
    Array, Atom, BinaryOperation, Function, Identifier, Object, Operator, atoms_model,
    lemma_array_model, lemma_function_model, lemma_object_model, pairs_model,
};
use crate::grammar::{
    array, atom, boolean, function, identifier, is_one_char_operator, is_two_char_operator, items,
    key, keyword, kw_false, kw_true, list, number, object, operator, pairs, primary, string_lit,
    token,
};
use crate::scan::{
    digits_end_at, digits_value_of, ident_end_at, is_digit_char, is_ident_start_char, is_space_char,
    pos, quote_at_or_after_at, skip_trivia_at, word_at_exec,
};
use crate::text::string_from;

verus! {

/// The characters `s[a..b]` as a string.
pub fn text_between(s: &Vec<char>, a: usize, b: usize) -> (r: String)
    requires
        a <= b <= s.len(),
    ensures
        r@ == s@.subrange(a as int, b as int),
{
    let mut v: Vec<char> = Vec::new();
    let mut k = a;
    while k < b
        invariant
            a <= k <= b <= s.len(),
            v@ == s@.subrange(a as int, k as int),
        decreases b - k,
    {
        v.push(s[k]);
        k += 1;
        assert(v@ =~= s@.subrange(a as int, k as int));
    }
    string_from(&v)
}

pub fn keyword_at(s: &Vec<char>, i: usize, w: &Vec<char>) -> (r: Option<usize>)
    requires
        i <= s.len(),
    ensures
        pos(r) == keyword(s@, i as int, w@),
        r matches Some(e) ==> i <= e <= s.len(),
{
    let j = skip_trivia_at(s, i);
    if word_at_exec(s, j, w) && w.len() < s.len() - j && is_space_char(s[j + w.len()]) {
        Some(j + w.len())
    } else {
        None
    }
}

pub fn token_at(s: &Vec<char>, i: usize, c: char) -> (r: Option<usize>)
    requires
        i <= s.len(),
    ensures
        pos(r) == token(s@, i as int, c),
        r matches Some(e) ==> i < e <= s.len(),
{
    let j = skip_trivia_at(s, i);
    if j < s.len() && s[j] == c {
        Some(j + 1)
    } else {
        None
    }
}

pub fn identifier_at(s: &Vec<char>, i: usize) -> (r: Option<(String, usize)>)
    requires
        i <= s.len(),
    ensures
        match r {
            Some((n, e)) => identifier(s@, i as int) == Some((n@, e as int)) && i < e <= s.len(),
            None => identifier(s@, i as int) is None,
        },
{
    let j = skip_trivia_at(s, i);
    if j < s.len() && is_ident_start_char(s[j]) {
        let e = ident_end_at(s, j + 1);
        let name = text_between(s, j, e);
        Some((name, skip_trivia_at(s, e)))
    } else {
        None
    }
}

pub fn number_at(s: &Vec<char>, i: usize) -> (r: Option<(u64, usize)>)
    requires
        i <= s.len(),
    ensures
        match r {
            Some((n, e)) => number(s@, i as int) == Some((n, e as int)) && i < e <= s.len(),
            None => number(s@, i as int) is None,
        },
{
    if i < s.len() && is_digit_char(s[i]) {
        let e = digits_end_at(s, i);
        proof {
            crate::scan::lemma_digits_end(s@, i as int);
            crate::scan::lemma_digits_end(s@, i + 1);
        }
        match digits_value_of(s, i, e) {
            Some(v) => Some((v, e)),
            None => None,
        }
    } else {
        None
    }
}

pub fn string_at(s: &Vec<char>, i: usize) -> (r: Option<(String, usize)>)
    requires
        i <= s.len(),
    ensures
        match r {
            Some((t, e)) => string_lit(s@, i as int) == Some((t@, e as int)) && i < e <= s.len(),
            None => string_lit(s@, i as int) is None,
        },
{
    if i < s.len() && s[i] == '"' {
        match quote_at_or_after_at(s, i + 1) {
            Some(e) => Some((text_between(s, i + 1, e), e + 1)),
            None => None,
        }
    } else {
        None
    }
}

pub fn boolean_at(s: &Vec<char>, i: usize) -> (r: Option<(bool, usize)>)
    requires
        i <= s.len(),
    ensures
        match r {
            Some((b, e)) => boolean(s@, i as int) == Some((b, e as int)) && i < e <= s.len(),
            None => boolean(s@, i as int) is None,
        },
{
    let t = vec!['t', 'r', 'u', 'e'];
    let f = vec!['f', 'a', 'l', 's', 'e'];
    assert(t@ =~= kw_true());
    assert(f@ =~= kw_false());
    if word_at_exec(s, i, &t) {
        Some((true, i + 4))
    } else if word_at_exec(s, i, &f) {
        Some((false, i + 5))
    } else {
        None
    }
}

pub fn operator_at(s: &Vec<char>, i: usize) -> (r: Option<(String, usize)>)
    requires
        i <= s.len(),
    ensures
        match r {
            Some((o, e)) => operator(s@, i as int) == Some((o@, e as int)) && i < e <= s.len(),
            None => operator(s@, i as int) is None,
        },
{
    if i < s.len() && s.len() - i >= 2 && is_two_char_op(s[i], s[i + 1]) {
        Some((text_between(s, i, i + 2), i + 2))
    } else if i < s.len() && is_one_char_op(s[i]) {
        Some((text_between(s, i, i + 1), i + 1))
    } else {
        None
    }
}

fn is_two_char_op(a: char, b: char) -> (r: bool)
    ensures
        r == is_two_char_operator(a, b),
{
    (a == '=' && b == '=') || (a == '!' && b == '=') || (a == '>' && b == '=') || (a == '<' && b
        == '=') || (a == '&' && b == '&') || (a == '|' && b == '|')
}

fn is_one_char_op(a: char) -> (r: bool)
    ensures
        r == is_one_char_operator(a),
{
    a == '+' || a == '-' || a == '*' || a == '/' || a == '>' || a == '<'
}

pub fn atom_at(s: &Vec<char>, i: usize) -> (r: Option<(Atom, usize)>)
    requires
        i <= s.len(),
    ensures
        match r {
            Some((a, e)) => atom(s@, i as int) == Some((a@, e as int)) && i < e <= s.len(),
            None => atom(s@, i as int) is None,
        },
    decreases s.len() - i, 3int,
{
    let j = skip_trivia_at(s, i);
    match primary_at(s, j) {
        None => None,
        Some((a, k)) => {
            let k2 = skip_trivia_at(s, k);
            match operator_at(s, k2) {
                Some((op, m)) => {
                    match atom_at(s, m) {
                        Some((b, e)) => {
                            let bin = BinaryOperation {
                                left: a,
                                operator: Operator { value: op },
                                right: b,
                            };
                            Some((Atom::BinaryOperation(Box::new(bin)), e))
                        },
                        None => Some((a, k)),
                    }
                },
                None => Some((a, k)),
            }
        },
    }
}

pub fn primary_at(s: &Vec<char>, j: usize) -> (r: Option<(Atom, usize)>)
    requires
        j <= s.len(),
    ensures
        match r {
            Some((a, e)) => primary(s@, j as int) == Some((a@, e as int)) && j < e <= s.len(),
            None => primary(s@, j as int) is None,
        },
    decreases s.len() - j, 2int,
{
    if j >= s.len() {
        None
    } else if is_digit_char(s[j]) {
        match number_at(s, j) {
            Some((n, e)) => Some((Atom::Number(n), e)),
            None => None,
        }
    } else if s[j] == '"' {
        match string_at(s, j) {
            Some((t, e)) => Some((Atom::String(t), e)),
            None => None,
        }
    } else if s[j] == 't' || s[j] == 'f' {
        match boolean_at(s, j) {
            Some((b, e)) => Some((Atom::Boolean(b), e)),
            None => None,
        }
    } else if s[j] == '[' && s.len() - j >= 2 && s[j + 1] == ':' {
        match function_at(s, j) {
            Some((f, e)) => {
                let b = Box::new(f);
                proof {
                    lemma_function_model(b);
                }
                Some((Atom::Function(b), e))
            },
            None => None,
        }
    } else if s[j] == '[' {
        match array_at(s, j) {
            Some((v, e)) => {
                let b = Box::new(Array { values: v });
                proof {
                    lemma_array_model(b);
                }
                Some((Atom::Array(b), e))
            },
            None => None,
        }
    } else if s[j] == '{' {
        match object_at(s, j) {
            Some((v, e)) => {
                let b = Box::new(Object { values: v });
                proof {
                    lemma_object_model(b);
                }
                Some((Atom::Object(b), e))
            },
            None => None,
        }
    } else {
        None
    }
}

pub fn items_at(s: &Vec<char>, i: usize) -> (r: Option<(Vec<Atom>, usize)>)
    requires
        i <= s.len(),
    ensures
        match r {
            Some((v, e)) => items(s@, i as int) == Some((atoms_model(v@), e as int)) && i < e
                <= s.len(),
            None => items(s@, i as int) is None,
        },
    decreases s.len() - i, 4int,
{
    match atom_at(s, i) {
        None => None,
        Some((a, j)) => {
            let k = skip_trivia_at(s, j);
            if k < s.len() && s[k] == ',' {
                match items_at(s, k + 1) {
                    Some((rest, m)) => {
                        let ghost old_rest = rest@;
                        let mut rest = rest;
                        rest.insert(0, a);
                        assert(atoms_model(rest@) =~= seq![atoms_model(rest@)[0]] + atoms_model(
                            old_rest,
                        ));
                        Some((rest, m))
                    },
                    None => None,
                }
            } else {
                let v = vec![a];
                assert(atoms_model(v@) =~= seq![atoms_model(v@)[0]]);
                Some((v, j))
            }
        },
    }
}

pub fn list_at(s: &Vec<char>, i: usize, close: char) -> (r: Option<(Vec<Atom>, usize)>)
    requires
        i <= s.len(),
    ensures
        match r {
            Some((v, e)) => list(s@, i as int, close) == Some((atoms_model(v@), e as int)) && i
                < e <= s.len(),
            None => list(s@, i as int, close) is None,
        },
    decreases s.len() - i, 5int,
{
    let k = skip_trivia_at(s, i);
    if k < s.len() && s[k] == close {
        let v: Vec<Atom> = Vec::new();
        assert(atoms_model(v@) =~= Seq::empty());
        Some((v, k + 1))
    } else {
        match items_at(s, k) {
            Some((v, m)) => match token_at(s, m, close) {
                Some(e) => Some((v, e)),
                None => None,
            },
            None => None,
        }
    }
}

pub fn array_at(s: &Vec<char>, j: usize) -> (r: Option<(Vec<Atom>, usize)>)
    requires
        j <= s.len(),
    ensures
        match r {
            Some((v, e)) => array(s@, j as int) == Some((atoms_model(v@), e as int)) && j < e
                <= s.len(),
            None => array(s@, j as int) is None,
        },
    decreases s.len() - j, 1int,
{
    if j < s.len() && s[j] == '[' {
        list_at(s, j + 1, ']')
    } else {
        None
    }
}

pub fn function_at(s: &Vec<char>, j: usize) -> (r: Option<(Function, usize)>)
    requires
        j <= s.len(),
    ensures
        match r {
            Some((f, e)) => function(s@, j as int) == Some(
                ((f.identifier.0@, atoms_model(f.arguments@)), e as int),
            ) && j < e <= s.len(),
            None => function(s@, j as int) is None,
        },
    decreases s.len() - j, 1int,
{
    if j < s.len() && s.len() - j >= 2 && s[j] == '[' && s[j + 1] == ':' {
        match identifier_at(s, j + 2) {
            Some((name, k)) => if k < s.len() && s[k] == '(' {
                match list_at(s, k + 1, ')') {
                    Some((args, m)) => match token_at(s, m, ']') {
                        Some(e) => Some((Function { identifier: Identifier(name), arguments: args }, e)),
                        None => None,
                    },
                    None => None,
                }
            } else {
                None
            },
            None => None,
        }
    } else {
        None
    }
}

pub fn key_at(s: &Vec<char>, i: usize) -> (r: Option<(String, usize)>)
    requires
        i <= s.len(),
    ensures
        match r {
            Some((k, e)) => key(s@, i as int) == Some((k@, e as int)) && i < e <= s.len(),
            None => key(s@, i as int) is None,
        },
{
    let j = skip_trivia_at(s, i);
    if j < s.len() && s[j] == '"' {
        match string_at(s, j) {
            Some((k, e)) => Some((k, skip_trivia_at(s, e))),
            None => None,
        }
    } else {
        identifier_at(s, j)
    }
}

pub fn pairs_at(s: &Vec<char>, i: usize) -> (r: Option<(Vec<(String, Atom)>, usize)>)
    requires
        i <= s.len(),
    ensures
        match r {
            Some((v, e)) => pairs(s@, i as int) == Some((pairs_model(v@), e as int)) && i < e
                <= s.len(),
            None => pairs(s@, i as int) is None,
        },
    decreases s.len() - i, 0int,
{
    match key_at(s, i) {
        None => None,
        Some((k, j)) => if j < s.len() && s[j] == ':' {
            match atom_at(s, j + 1) {
                None => None,
                Some((v, m)) => {
                    let c = skip_trivia_at(s, m);
                    if c < s.len() && s[c] == ',' {
                        match pairs_at(s, c + 1) {
                            Some((rest, e)) => {
                                let ghost old_rest = rest@;
                                let mut rest = rest;
                                rest.insert(0, (k, v));
                                assert(pairs_model(rest@) =~= seq![pairs_model(rest@)[0]]
                                    + pairs_model(old_rest));
                                Some((rest, e))
                            },
                            None => None,
                        }
                    } else {
                        let out = vec![(k, v)];
                        assert(pairs_model(out@) =~= seq![pairs_model(out@)[0]]);
                        Some((out, m))
                    }
                },
            }
        } else {
            None
        },
    }
}

pub fn object_at(s: &Vec<char>, j: usize) -> (r: Option<(Vec<(String, Atom)>, usize)>)
    requires
        j <= s.len(),
    ensures
        match r {
            Some((v, e)) => object(s@, j as int) == Some((pairs_model(v@), e as int)) && j < e
                <= s.len(),
            None => object(s@, j as int) is None,
        },
    decreases s.len() - j, 1int,
{
    if j < s.len() && s[j] == '{' {
        let k = skip_trivia_at(s, j + 1);
        if k < s.len() && s[k] == '}' {
            let v: Vec<(String, Atom)> = Vec::new();
            assert(pairs_model(v@) =~= Seq::empty());
            Some((v, k + 1))
        } else {
            match pairs_at(s, k) {
                Some((v, m)) => match token_at(s, m, '}') {
                    Some(e) => Some((v, e)),
                    None => None,
                },
                None => None,
            }
        }
    } else {
        None
    }
}

} // verus!
