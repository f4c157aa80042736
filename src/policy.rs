//! Password policies of the form `1-3 a: abcde`.

use vstd::prelude::*;
use crate::text::{parse_unsigned, slice_range, value_of, all_digits};

verus! {

/// The two numbers of a policy.
#[derive(Debug, Clone, Copy, PartialEq, Eq, Structural)]
pub struct Bounds {
    pub min: usize,
    pub max: usize,
}

/// A policy: two numbers and the letter they constrain.
#[derive(Debug, Clone, Copy, PartialEq, Eq, Structural)]
pub struct Policy {
    pub bounds: Bounds,
    pub constraint: u8,
}

/// A line of the database: a policy and the password it applies to.
#[derive(Debug)]
pub struct Entry {
    pub policy: Policy,
    pub password: Vec<u8>,
}

/// How many times `c` occurs in `s`.
pub open spec fn occurrences(s: Seq<u8>, c: u8) -> nat
    decreases s.len(),
{
    if s.len() == 0 {
        0
    } else {
        occurrences(s.drop_last(), c) + if s.last() == c { 1nat } else { 0 }
    }
}

/// Whether the password holds the letter between `min` and `max` times.
pub open spec fn counts_fit(e: Entry) -> bool {
    let n = occurrences(e.password@, e.policy.constraint);
    e.policy.bounds.min <= n <= e.policy.bounds.max
}

/// Whether exactly one of the two positions (counted from one) holds the
/// letter.
pub open spec fn positions_fit(e: Entry) -> bool {
    let p = e.password@;
    let c = e.policy.constraint;
    let first = 1 <= e.policy.bounds.min <= p.len() && p[e.policy.bounds.min - 1] == c;
    let second = 1 <= e.policy.bounds.max <= p.len() && p[e.policy.bounds.max - 1] == c;
    first != second
}

/// Whether `line` writes entry `e` with its dash at `d` and the space
/// before the letter at `s`.
pub open spec fn reads_as(line: Seq<u8>, d: int, s: int, e: Entry) -> bool {
    &&& 0 < d < s && s + 4 <= line.len()
    &&& all_digits(line.subrange(0, d)) && all_digits(line.subrange(d + 1, s))
    &&& line[d] == 45 && line[s] == 32 && line[s + 2] == 58 && line[s + 3] == 32
    &&& e.policy.bounds.min == value_of(line.subrange(0, d))
    &&& e.policy.bounds.max == value_of(line.subrange(d + 1, s))
    &&& e.policy.constraint == line[s + 1]
    &&& e.password@ == line.subrange(s + 4, line.len() as int)
}

/// The first position of `c` in `s` at or after `from`, if any.
fn find_byte(s: &[u8], c: u8, from: usize) -> (r: Option<usize>)
    ensures
        r is Some ==> from <= r->Some_0 < s@.len() && s@[r->Some_0 as int] == c && forall|j: int|
            from <= j < r->Some_0 ==> s@[j] != c,
        r is None ==> forall|j: int| from <= j < s@.len() ==> s@[j] != c,
{
    let mut i = from;
    while i < s.len()
        invariant
            from <= i || i == from,
            forall|j: int| from <= j < i ==> s@[j] != c,
        decreases s@.len() - i,
    {
        if s[i] == c {
            return Some(i);
        }
        i = i + 1;
    }
    None
}

impl Entry {
    /// Reads `min-max c: password`; `None` for any other text.
    pub fn parse(line: &[u8]) -> (r: Option<Entry>)
        ensures
            r is Some ==> exists|d: int, s: int| #[trigger] reads_as(line@, d, s, r->Some_0),
    {
        let dash = match find_byte(line, 45, 0) {
            Some(d) => d,
            None => return None,
        };
        let space = match find_byte(line, 32, dash) {
            Some(s) => s,
            None => return None,
        };
        if dash == 0 || space <= dash + 1 || line.len() - space < 4 {
            return None;
        }
        if line[space + 2] != 58 || line[space + 3] != 32 {
            return None;
        }
        let low = slice_range(line, 0, dash);
        let high = slice_range(line, dash + 1, space);
        let min = match parse_unsigned(low.as_slice()) {
            Some(v) => v,
            None => return None,
        };
        let max = match parse_unsigned(high.as_slice()) {
            Some(v) => v,
            None => return None,
        };
        if min > usize::MAX as u64 || max > usize::MAX as u64 {
            return None;
        }
        let password = slice_range(line, space + 4, line.len());
        let entry = Entry {
            policy: Policy { bounds: Bounds { min: min as usize, max: max as usize }, constraint: line[space + 1] },
            password,
        };
        assert(reads_as(line@, dash as int, space as int, entry));
        let r = Some(entry);
        assert(reads_as(line@, dash as int, space as int, r->Some_0));
        r
    }

    /// Whether the password holds the letter a number of times within the
    /// bounds.
    pub fn check(&self) -> (r: bool)
        ensures
            r == counts_fit(*self),
    {
        let p = &self.password;
        let c = self.policy.constraint;
        let mut count: usize = 0;
        let mut i: usize = 0;
        while i < p.len()
            invariant
                i <= p@.len(),
                count == occurrences(p@.subrange(0, i as int), c),
                count <= i,
            decreases p@.len() - i,
        {
            proof {
                assert(p@.subrange(0, i + 1).drop_last() =~= p@.subrange(0, i as int));
            }
            if p[i] == c {
                count = count + 1;
            }
            i = i + 1;
        }
        proof {
            assert(p@.subrange(0, i as int) =~= p@);
        }
        count >= self.policy.bounds.min && count <= self.policy.bounds.max
    }

    /// Whether exactly one of the two positions that the bounds name,
    /// counted from one, holds the letter.
    pub fn check_positional(&self) -> (r: bool)
        ensures
            r == positions_fit(*self),
    {
        let p = &self.password;
        let c = self.policy.constraint;
        let min = self.policy.bounds.min;
        let max = self.policy.bounds.max;
        let first = min >= 1 && min <= p.len() && p[min - 1] == c;
        let second = max >= 1 && max <= p.len() && p[max - 1] == c;
        first != second
    }
}

/// The entries among `lines` that can be read and whose password meets
/// its policy: by count, or by position where `positional` is set.
pub fn filter_valid_entries(lines: &[&str], positional: bool) -> (r: Vec<Entry>)
    ensures
        forall|k: int| 0 <= k < r@.len() ==> if positional {
            positions_fit(#[trigger] r@[k])
        } else {
            counts_fit(r@[k])
        },
        r@.len() <= lines@.len(),
{
    let mut valid: Vec<Entry> = Vec::new();
    let mut i: usize = 0;
    while i < lines.len()
        invariant
            i <= lines@.len(),
            valid@.len() <= i,
            forall|k: int| 0 <= k < valid@.len() ==> if positional {
                positions_fit(#[trigger] valid@[k])
            } else {
                counts_fit(valid@[k])
            },
        decreases lines@.len() - i,
    {
        let line: &str = lines[i];
        match Entry::parse(line.as_bytes()) {
            Some(entry) => {
                let ok = if positional { entry.check_positional() } else { entry.check() };
                if ok {
                    valid.push(entry);
                }
            },
            None => {},
        }
        i = i + 1;
    }
    valid
}

} // verus!
