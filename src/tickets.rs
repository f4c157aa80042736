//! Ticket translation: fields checked against named ranges, and the order
//! of the fields worked out from the tickets that are valid.

use vstd::prelude::*;
use crate::text::same_bytes;
use crate::text::{parse_unsigned, slice_range, split};

verus! {

/// A rule: its name and the ranges, both ends included, that its field
/// takes values in.
#[derive(Debug, Clone)]
pub struct Rule {
    pub name: Vec<u8>,
    pub ranges: Vec<(usize, usize)>,
}

/// A ticket: its field values in order.
#[derive(Debug, Clone)]
pub struct Ticket {
    pub fields: Vec<usize>,
}

/// The notes: the rules, my ticket, and the nearby tickets.
#[derive(Debug)]
pub struct Notes {
    pub rules: Vec<Rule>,
    pub ticket: Ticket,
    pub tickets: Vec<Ticket>,
}

/// Whether `v` lies in one of the ranges.
pub open spec fn in_ranges(ranges: Seq<(usize, usize)>, v: usize) -> bool {
    exists|k: int| 0 <= k < ranges.len() && (#[trigger] ranges[k]).0 <= v <= ranges[k].1
}

/// Whether `v` lies in a range of some rule.
pub open spec fn valid_for_some(rules: Seq<Rule>, v: usize) -> bool {
    exists|i: int| 0 <= i < rules.len() && in_ranges((#[trigger] rules[i]).ranges@, v)
}

/// Whether `v` lies in one of `ranges`.
fn fits(ranges: &Vec<(usize, usize)>, v: usize) -> (r: bool)
    ensures
        r == in_ranges(ranges@, v),
{
    let mut k: usize = 0;
    while k < ranges.len()
        invariant
            k <= ranges@.len(),
            forall|j: int| 0 <= j < k ==> !((#[trigger] ranges@[j]).0 <= v <= ranges@[j].1),
        decreases ranges@.len() - k,
    {
        if ranges[k].0 <= v && v <= ranges[k].1 {
            return true;
        }
        k = k + 1;
    }
    false
}

/// Whether a value is valid for some rule.
pub fn is_valid_field(rules: &Vec<Rule>, field: usize) -> (r: bool)
    ensures
        r == valid_for_some(rules@, field),
{
    let mut i: usize = 0;
    while i < rules.len()
        invariant
            i <= rules@.len(),
            forall|j: int| 0 <= j < i ==> !in_ranges(#[trigger] rules@[j].ranges@, field),
        decreases rules@.len() - i,
    {
        if fits(&rules[i].ranges, field) {
            return true;
        }
        i = i + 1;
    }
    false
}

impl Ticket {
    /// Whether every field is valid for some rule.
    pub fn is_valid(&self, rules: &Vec<Rule>) -> (r: bool)
        ensures
            r == forall|k: int| 0 <= k < self.fields@.len() ==> valid_for_some(rules@, #[trigger] self.fields@[k]),
    {
        let mut k: usize = 0;
        while k < self.fields.len()
            invariant
                k <= self.fields@.len(),
                forall|j: int| 0 <= j < k ==> valid_for_some(rules@, #[trigger] self.fields@[j]),
            decreases self.fields@.len() - k,
        {
            if !is_valid_field(rules, self.fields[k]) {
                return false;
            }
            k = k + 1;
        }
        true
    }

    /// The fields that no rule accepts, in order.
    pub fn invalid_fields(&self, rules: &Vec<Rule>) -> (r: Vec<usize>)
        ensures
            forall|k: int| 0 <= k < r@.len() ==> !valid_for_some(rules@, #[trigger] r@[k]),
    {
        let mut out: Vec<usize> = Vec::new();
        let mut k: usize = 0;
        while k < self.fields.len()
            invariant
                k <= self.fields@.len(),
                forall|j: int| 0 <= j < out@.len() ==> !valid_for_some(rules@, #[trigger] out@[j]),
            decreases self.fields@.len() - k,
        {
            if !is_valid_field(rules, self.fields[k]) {
                out.push(self.fields[k]);
            }
            k = k + 1;
        }
        out
    }

    /// Reads comma-separated numbers.
    pub fn parse(line: &[u8]) -> (r: Option<Ticket>)
        ensures
            r is Some ==> r->Some_0.fields@.len() == crate::text::pieces_of(line@, 44).len(),
    {
        let parts = split(line, 44);
        let mut fields: Vec<usize> = Vec::new();
        let mut i: usize = 0;
        while i < parts.len()
            invariant
                i <= parts@.len(),
                fields@.len() == i,
                parts@.len() == crate::text::pieces_of(line@, 44).len(),
            decreases parts@.len() - i,
        {
            let v = parse_unsigned(parts[i].as_slice())?;
            if v > usize::MAX as u64 {
                return None;
            }
            fields.push(v as usize);
            i = i + 1;
        }
        Some(Ticket { fields })
    }
}

/// The first position at or after `from` of `pattern` in `s`.
fn position_of(s: &[u8], pattern: &[u8]) -> (r: Option<usize>)
    ensures
        r is Some ==> r->Some_0 + pattern@.len() <= s@.len(),
{
    let n = s.len();
    let m = pattern.len();
    if m > n {
        return None;
    }
    let mut i: usize = 0;
    while i <= n - m
        invariant
            n == s@.len(),
            m == pattern@.len(),
            m <= n,
        decreases n - m + 1 - i,
    {
        let piece = slice_range(s, i, i + m);
        if same_bytes(piece.as_slice(), pattern) {
            return Some(i);
        }
        if i == n - m {
            return None;
        }
        i = i + 1;
    }
    None
}

impl Rule {
    /// Reads `NAME: A-B or C-D`, with any number of ranges.
    pub fn parse(line: &[u8]) -> (r: Option<Rule>)
    {
        let colon = [58u8, 32];
        let at = position_of(line, &colon)?;
        if line.len() - at < 2 {
            return None;
        }
        let name = slice_range(line, 0, at);
        let rest = slice_range(line, at + 2, line.len());
        let pieces = split(rest.as_slice(), 32);
        let mut ranges: Vec<(usize, usize)> = Vec::new();
        let mut i: usize = 0;
        while i < pieces.len()
            invariant
                i <= pieces@.len(),
            decreases pieces@.len() - i,
        {
            let or_word = [111u8, 114];
            if i % 2 == 1 {
                if !same_bytes(pieces[i].as_slice(), &or_word) {
                    return None;
                }
            } else {
                let bounds = split(pieces[i].as_slice(), 45);
                if bounds.len() != 2 {
                    return None;
                }
                let low = parse_unsigned(bounds[0].as_slice())?;
                let high = parse_unsigned(bounds[1].as_slice())?;
                if low > usize::MAX as u64 || high > usize::MAX as u64 {
                    return None;
                }
                ranges.push((low as usize, high as usize));
            }
            i = i + 1;
        }
        Some(Rule { name, ranges })
    }
}

/// The non-empty lines of `text` between `start` and `end`.
fn lines_in(lines: &Vec<Vec<u8>>, start: usize, end: usize) -> (r: Vec<Vec<u8>>)
{
    let mut out: Vec<Vec<u8>> = Vec::new();
    let mut i = start;
    while i < end && i < lines.len()
        invariant
            start <= i || i == start,
        decreases lines@.len() - i,
    {
        if lines[i].len() > 0 {
            out.push(lines[i].clone());
        }
        i = i + 1;
    }
    out
}

impl Notes {
    /// Reads the notes: the rules, an empty line, `your ticket:` and my
    /// ticket, an empty line, `nearby tickets:` and one ticket a line.
    pub fn parse(text: &str) -> (r: Option<Notes>)
    {
        let lines = split(text.as_bytes(), 10);
        let mut first_blank: usize = 0;
        while first_blank < lines.len() && lines[first_blank].len() > 0
            invariant
                first_blank <= lines@.len(),
            decreases lines@.len() - first_blank,
        {
            first_blank = first_blank + 1;
        }
        if lines.len() - first_blank < 5 {
            return None;
        }
        let rule_lines = lines_in(&lines, 0, first_blank);
        let mut rules: Vec<Rule> = Vec::new();
        let mut i: usize = 0;
        while i < rule_lines.len()
            invariant
                i <= rule_lines@.len(),
            decreases rule_lines@.len() - i,
        {
            rules.push(Rule::parse(rule_lines[i].as_slice())?);
            i = i + 1;
        }
        let ticket = Ticket::parse(lines[first_blank + 2].as_slice())?;
        let nearby = lines_in(&lines, first_blank + 5, lines.len());
        let mut tickets: Vec<Ticket> = Vec::new();
        let mut k: usize = 0;
        while k < nearby.len()
            invariant
                k <= nearby@.len(),
            decreases nearby@.len() - k,
        {
            tickets.push(Ticket::parse(nearby[k].as_slice())?);
            k = k + 1;
        }
        Some(Notes { rules, ticket, tickets })
    }

    /// The fields of the nearby tickets that no rule accepts; `None` where
    /// their sum overflows. Returns the fields and their sum.
    pub fn invalid_fields(&self) -> (r: Option<(Vec<usize>, usize)>)
        ensures
            r is Some ==> forall|k: int| 0 <= k < r->Some_0.0@.len() ==> !valid_for_some(self.rules@, #[trigger] r->Some_0.0@[k]),
    {
        let mut out: Vec<usize> = Vec::new();
        let mut sum: usize = 0;
        let mut t: usize = 0;
        while t < self.tickets.len()
            invariant
                t <= self.tickets@.len(),
                forall|j: int| 0 <= j < out@.len() ==> !valid_for_some(self.rules@, #[trigger] out@[j]),
            decreases self.tickets@.len() - t,
        {
            let bad = self.tickets[t].invalid_fields(&self.rules);
            let mut k: usize = 0;
            while k < bad.len()
                invariant
                    k <= bad@.len(),
                    forall|j: int| 0 <= j < bad@.len() ==> !valid_for_some(self.rules@, #[trigger] bad@[j]),
                    forall|j: int| 0 <= j < out@.len() ==> !valid_for_some(self.rules@, #[trigger] out@[j]),
                decreases bad@.len() - k,
            {
                out.push(bad[k]);
                sum = sum.checked_add(bad[k])?;
                k = k + 1;
            }
            t = t + 1;
        }
        Some((out, sum))
    }

    /// The rule of each field, by position: a rule fits a position where
    /// every valid nearby ticket's value there is in its ranges, and a rule
    /// that fits a single position left takes it. `None` where that does
    /// not settle every rule.
    pub fn identify_fields(&self) -> (r: Option<Vec<usize>>)
        ensures
            r is Some ==> r->Some_0@.len() == self.rules@.len(),
            r is Some ==> forall|k: int| 0 <= k < r->Some_0@.len() ==> #[trigger] r->Some_0@[k] < self.rules@.len(),
    {
        let n = self.rules.len();
        let mut valid: Vec<usize> = Vec::new();
        let mut t: usize = 0;
        while t < self.tickets.len()
            invariant
                t <= self.tickets@.len(),
                forall|j: int| 0 <= j < valid@.len() ==> #[trigger] valid@[j] < self.tickets@.len(),
            decreases self.tickets@.len() - t,
        {
            if self.tickets[t].is_valid(&self.rules) {
                valid.push(t);
            }
            t = t + 1;
        }
        let mut candidates: Vec<Vec<bool>> = Vec::new();
        let mut r: usize = 0;
        while r < n
            invariant
                n == self.rules@.len(),
                r <= n,
                candidates@.len() == r,
                forall|j: int| 0 <= j < r ==> (#[trigger] candidates@[j])@.len() == n,
                forall|j: int| 0 <= j < valid@.len() ==> #[trigger] valid@[j] < self.tickets@.len(),
            decreases n - r,
        {
            let mut row: Vec<bool> = Vec::new();
            let mut f: usize = 0;
            while f < n
                invariant
                    n == self.rules@.len(),
                    r < n,
                    f <= n,
                    row@.len() == f,
                    forall|j: int| 0 <= j < valid@.len() ==> #[trigger] valid@[j] < self.tickets@.len(),
                decreases n - f,
            {
                let mut all = true;
                let mut v: usize = 0;
                while v < valid.len() && all
                    invariant
                        n == self.rules@.len(),
                        r < n,
                        v <= valid@.len(),
                        forall|j: int| 0 <= j < valid@.len() ==> #[trigger] valid@[j] < self.tickets@.len(),
                    decreases valid@.len() - v,
                {
                    let ticket = &self.tickets[valid[v]];
                    if f >= ticket.fields.len() || !fits(&self.rules[r].ranges, ticket.fields[f]) {
                        all = false;
                    }
                    v = v + 1;
                }
                row.push(all);
                f = f + 1;
            }
            candidates.push(row);
            r = r + 1;
        }
        let mut order: Vec<usize> = Vec::new();
        let mut settled: Vec<bool> = Vec::new();
        let mut f: usize = 0;
        while f < n
            invariant
                f <= n,
                order@.len() == f,
                settled@.len() == f,
                forall|j: int| 0 <= j < f ==> #[trigger] order@[j] < n || order@[j] == n,
            decreases n - f,
        {
            order.push(n);
            settled.push(false);
            f = f + 1;
        }
        let mut rounds: usize = n;
        while rounds > 0
            invariant
                n == self.rules@.len(),
                order@.len() == n,
                candidates@.len() == n,
                forall|j: int| 0 <= j < n ==> (#[trigger] candidates@[j])@.len() == n,
                forall|j: int| 0 <= j < n ==> #[trigger] order@[j] <= n,
            decreases rounds,
        {
            rounds = rounds - 1;
            let mut r: usize = 0;
            while r < n
                invariant
                    n == self.rules@.len(),
                    r <= n,
                    order@.len() == n,
                    candidates@.len() == n,
                    forall|j: int| 0 <= j < n ==> (#[trigger] candidates@[j])@.len() == n,
                    forall|j: int| 0 <= j < n ==> #[trigger] order@[j] <= n,
                decreases n - r,
            {
                let mut count: usize = 0;
                let mut only: usize = 0;
                let mut f: usize = 0;
                while f < n
                    invariant
                        n == self.rules@.len(),
                        r < n,
                        f <= n,
                        count <= f,
                        only < n || count == 0,
                        candidates@.len() == n,
                        forall|j: int| 0 <= j < n ==> (#[trigger] candidates@[j])@.len() == n,
                    decreases n - f,
                {
                    if candidates[r][f] {
                        count = count + 1;
                        only = f;
                    }
                    f = f + 1;
                }
                if count == 1 {
                    order.set(only, r);
                    let mut other: usize = 0;
                    while other < n
                        invariant
                            n == self.rules@.len(),
                            other <= n,
                            only < n,
                            candidates@.len() == n,
                            forall|j: int| 0 <= j < n ==> (#[trigger] candidates@[j])@.len() == n,
                        decreases n - other,
                    {
                        let mut row = candidates[other].clone();
                        row.set(only, false);
                        candidates.set(other, row);
                        other = other + 1;
                    }
                }
                r = r + 1;
            }
        }
        let mut k: usize = 0;
        while k < n
            invariant
                k <= n,
                order@.len() == n,
                forall|j: int| 0 <= j < k ==> #[trigger] order@[j] < n,
            decreases n - k,
        {
            if order[k] >= n {
                return None;
            }
            k = k + 1;
        }
        Some(order)
    }

    /// My ticket's fields whose rule name starts with `departure`; `None`
    /// where the fields cannot be identified.
    pub fn my_departure_fields(&self) -> (r: Option<Vec<usize>>)
        ensures
            r is Some ==> r->Some_0@.len() <= self.rules@.len(),
    {
        let order = self.identify_fields()?;
        let prefix = [100u8, 101, 112, 97, 114, 116, 117, 114, 101];
        let mut out: Vec<usize> = Vec::new();
        let mut k: usize = 0;
        while k < order.len() && k < self.ticket.fields.len()
            invariant
                order@.len() == self.rules@.len(),
                forall|j: int| 0 <= j < order@.len() ==> #[trigger] order@[j] < self.rules@.len(),
                out@.len() <= k,
                k <= order@.len(),
            decreases order@.len() - k,
        {
            let name = &self.rules[order[k]].name;
            if name.len() >= 9 {
                let head = slice_range(name.as_slice(), 0, 9);
                if same_bytes(head.as_slice(), &prefix) {
                    out.push(self.ticket.fields[k]);
                }
            }
            k = k + 1;
        }
        Some(out)
    }
}

} // verus!
