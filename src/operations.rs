//! Homework arithmetic: sums and products of single numbers and
//! parenthesized groups, evaluated left to right with equal precedence, or
//! with additions before multiplications.

use vstd::prelude::*;
use vstd::string::StringSliceAdditionalSpecFns;
use crate::text::{pieces_of, split};

verus! {

/// The bytes of an expression without its spaces.
pub open spec fn compact(s: Seq<u8>) -> Seq<u8>
    decreases s.len(),
{
    if s.len() == 0 {
        s
    } else if s.last() == 32 {
        compact(s.drop_last())
    } else {
        compact(s.drop_last()).push(s.last())
    }
}

/// Whether `c` is an operator of a chain of `kind`: both `+` and `*` in
/// a chain of equal precedence (0), `*` in a product of sums (1), `+` in a
/// sum (2).
pub open spec fn is_op(c: u8, kind: int) -> bool {
    if kind == 0 {
        c == 43 || c == 42
    } else if kind == 1 {
        c == 42
    } else {
        c == 43
    }
}

/// Applies an operator; `None` where the value overflows.
pub open spec fn apply_spec(c: u8, a: u64, w: u64) -> Option<u64> {
    let v = if c == 43 { a + w } else { a * w };
    if v <= u64::MAX {
        Some(v as u64)
    } else {
        None
    }
}

/// The kind of chain a whole expression is.
pub open spec fn top_kind(add_first: bool) -> int {
    if add_first {
        1
    } else {
        0
    }
}

/// A term at `i`: a digit, or an expression in parentheses. Its value and
/// the position after it.
pub open spec fn term_spec(t: Seq<u8>, i: int, af: bool) -> Option<(u64, int)>
    decreases t.len() - i, 1int,
{
    if i < 0 || i >= t.len() {
        None
    } else if 48 <= t[i] <= 57 {
        Some(((t[i] - 48) as u64, i + 1))
    } else if t[i] == 40 {
        match chain_spec(t, i + 1, top_kind(af), af) {
            Some((v, j)) => if i + 1 <= j < t.len() && t[j] == 41 { Some((v, j + 1)) } else { None },
            None => None,
        }
    } else {
        None
    }
}

/// An operand of a chain of `kind` at `i`: a sum in a product of sums, a
/// term elsewhere.
pub open spec fn operand_spec(t: Seq<u8>, i: int, kind: int, af: bool) -> Option<(u64, int)>
    decreases t.len() - i, if kind == 1 { 4int } else { 2int },
{
    if i < 0 || i > t.len() {
        None
    } else if kind == 1 {
        chain_spec(t, i, 2, af)
    } else {
        term_spec(t, i, af)
    }
}

/// A chain of operands of `kind` at `i`, evaluated left to right.
pub open spec fn chain_spec(t: Seq<u8>, i: int, kind: int, af: bool) -> Option<(u64, int)>
    decreases t.len() - i, if kind == 1 { 5int } else { 3int },
{
    if i < 0 || i > t.len() {
        None
    } else {
        match operand_spec(t, i, kind, af) {
            None => None,
            Some((v, j)) => if j <= i || j > t.len() { None } else { rest_spec(t, j, v, kind, af) },
        }
    }
}

/// The rest of a chain from `j`, with `acc` the value so far.
pub open spec fn rest_spec(t: Seq<u8>, j: int, acc: u64, kind: int, af: bool) -> Option<(u64, int)>
    decreases t.len() - j, 0int,
{
    if j < 0 || j > t.len() {
        None
    } else if j < t.len() && is_op(t[j], kind) {
        match operand_spec(t, j + 1, kind, af) {
            None => None,
            Some((w, k)) => match apply_spec(t[j], acc, w) {
                None => None,
                Some(a) => if k <= j || k > t.len() { None } else { rest_spec(t, k, a, kind, af) },
            },
        }
    } else {
        Some((acc, j))
    }
}

/// The value of an expression: `+` and `*` with equal precedence from left
/// to right, or additions before multiplications where `af` is set;
/// parentheses first. `None` where it is malformed or a value overflows.
pub open spec fn eval_spec(line: Seq<u8>, af: bool) -> Option<u64> {
    let t = compact(line);
    match chain_spec(t, 0, top_kind(af), af) {
        Some((v, j)) => if j == t.len() { Some(v) } else { None },
        None => None,
    }
}

/// Whether an executable result is the one specified.
pub open spec fn same(r: Option<(u64, usize)>, s: Option<(u64, int)>) -> bool {
    match r {
        None => s is None,
        Some((v, j)) => s == Some((v, j as int)),
    }
}

fn term(t: &Vec<u8>, i: usize, af: bool) -> (r: Option<(u64, usize)>)
    ensures
        same(r, term_spec(t@, i as int, af)),
    decreases t@.len() - i, 1int,
{
    if i >= t.len() {
        return None;
    }
    let c = t[i];
    if c >= 48 && c <= 57 {
        Some(((c - 48) as u64, i + 1))
    } else if c == 40 {
        let kind: u8 = if af { 1 } else { 0 };
        match chain(t, i + 1, kind, af) {
            Some((v, j)) => if i + 1 <= j && j < t.len() && t[j] == 41 { Some((v, j + 1)) } else { None },
            None => None,
        }
    } else {
        None
    }
}

fn operand(t: &Vec<u8>, i: usize, kind: u8, af: bool) -> (r: Option<(u64, usize)>)
    ensures
        same(r, operand_spec(t@, i as int, kind as int, af)),
    decreases t@.len() - i, if kind == 1 { 4int } else { 2int },
{
    if i > t.len() {
        None
    } else if kind == 1 {
        chain(t, i, 2, af)
    } else {
        term(t, i, af)
    }
}

fn chain(t: &Vec<u8>, i: usize, kind: u8, af: bool) -> (r: Option<(u64, usize)>)
    ensures
        same(r, chain_spec(t@, i as int, kind as int, af)),
    decreases t@.len() - i, if kind == 1 { 5int } else { 3int },
{
    if i > t.len() {
        return None;
    }
    match operand(t, i, kind, af) {
        None => None,
        Some((v, j)) => if j <= i || j > t.len() { None } else { rest(t, j, v, kind, af) },
    }
}

fn rest(t: &Vec<u8>, j: usize, acc: u64, kind: u8, af: bool) -> (r: Option<(u64, usize)>)
    ensures
        same(r, rest_spec(t@, j as int, acc, kind as int, af)),
    decreases t@.len() - j, 0int,
{
    if j > t.len() {
        return None;
    }
    if j < t.len() && (if kind == 0 { t[j] == 43 || t[j] == 42 } else if kind == 1 { t[j] == 42 } else { t[j] == 43 }) {
        let c = t[j];
        match operand(t, j + 1, kind, af) {
            None => None,
            Some((w, k)) => {
                let applied = if c == 43 { acc.checked_add(w) } else { acc.checked_mul(w) };
                match applied {
                    None => None,
                    Some(a) => if k <= j || k > t.len() { None } else { rest(t, k, a, kind, af) },
                }
            },
        }
    } else {
        Some((acc, j))
    }
}

/// The bytes of `line` without its spaces.
fn strip_spaces(line: &[u8]) -> (r: Vec<u8>)
    ensures
        r@ == compact(line@),
{
    let mut r: Vec<u8> = Vec::new();
    let mut i: usize = 0;
    while i < line.len()
        invariant
            i <= line@.len(),
            r@ == compact(line@.subrange(0, i as int)),
        decreases line@.len() - i,
    {
        proof {
            assert(line@.subrange(0, i + 1).drop_last() =~= line@.subrange(0, i as int));
        }
        if line[i] != 32 {
            r.push(line[i]);
        }
        i = i + 1;
    }
    proof {
        assert(line@.subrange(0, i as int) =~= line@);
    }
    r
}

/// Evaluates one expression of digits, `+`, `*`, parentheses and spaces:
/// with equal precedence from left to right, or additions first where
/// `add_first` is set. `None` where it is malformed or a value overflows.
pub fn evaluate(line: &[u8], add_first: bool) -> (r: Option<u64>)
    ensures
        r == eval_spec(line@, add_first),
{
    let t = strip_spaces(line);
    let kind: u8 = if add_first { 1 } else { 0 };
    match chain(&t, 0, kind, add_first) {
        Some((v, j)) => if j == t.len() { Some(v) } else { None },
        None => None,
    }
}

/// Evaluates every line of the homework.
pub fn evaluate_lines(text: &str, add_first: bool) -> (r: Option<Vec<u64>>)
    ensures
        r is Some ==> r->Some_0@.len() == pieces_of(text.spec_bytes(), 10).len(),
{
    let lines = split(text.as_bytes(), 10);
    let mut results: Vec<u64> = Vec::new();
    let mut k: usize = 0;
    while k < lines.len()
        invariant
            k <= lines@.len(),
            results@.len() == k,
            lines@.len() == pieces_of(text.spec_bytes(), 10).len(),
        decreases lines@.len() - k,
    {
        results.push(evaluate(lines[k].as_slice(), add_first)?);
        k = k + 1;
    }
    Some(results)
}

} // verus!
