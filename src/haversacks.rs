//! Luggage rules: which bags each bag must hold, which bags can end up
//! holding a given one, and how many bags a given one holds.

use vstd::prelude::*;
use crate::text::same_bytes;
use crate::text::{parse_unsigned, slice_range, split, words};

verus! {

/// A bag's kind, its tint and color as in `shiny gold`.
#[derive(Debug, Clone, PartialEq, Eq)]
pub struct Bag {
    pub tint: Vec<u8>,
    pub color: Vec<u8>,
}

/// What a bag of one kind must hold: kinds and how many of each.
#[derive(Debug, Clone)]
pub struct Rule {
    pub bag: Bag,
    pub contains: Vec<(Bag, usize)>,
}

/// Whether two kinds are the same.
fn same_bag(a: &Bag, b: &Bag) -> (r: bool)
    ensures
        r == (a.tint@ == b.tint@ && a.color@ == b.color@),
{
    same_bytes(a.tint.as_slice(), b.tint.as_slice()) && same_bytes(a.color.as_slice(), b.color.as_slice())
}

/// The first position at or after `from` where `pattern` starts in `s`.
fn find_pattern(s: &[u8], pattern: &[u8], from: usize) -> (r: Option<usize>)
    ensures
        r is Some ==> r->Some_0 + pattern@.len() <= s@.len() && s@.subrange(r->Some_0 as int, r->Some_0 + pattern@.len()) == pattern@,
{
    let n = s.len();
    let m = pattern.len();
    if m > n {
        return None;
    }
    let mut i = from;
    while i <= n - m
        invariant
            n == s@.len(),
            m == pattern@.len(),
            m <= n,
        decreases n - m + 1 - i,
    {
        let mut k: usize = 0;
        let mut matched = true;
        while k < m
            invariant
                n == s@.len(),
                m == pattern@.len(),
                i + m <= n,
                k <= m,
                matched ==> forall|j: int| 0 <= j < k ==> s@[i + j] == pattern@[j],
            decreases m - k,
        {
            if s[i + k] != pattern[k] {
                matched = false;
            }
            k = k + 1;
        }
        if matched {
            assert(s@.subrange(i as int, i + m) =~= pattern@);
            return Some(i);
        }
        if i == n - m {
            return None;
        }
        i = i + 1;
    }
    None
}

/// Reads a kind from the first two words of `words`.
fn bag_of(ws: &Vec<Vec<u8>>, first: usize) -> (r: Option<Bag>)
{
    if first >= ws.len() || ws.len() - first < 2 {
        return None;
    }
    Some(Bag { tint: ws[first].clone(), color: ws[first + 1].clone() })
}

impl Rule {
    /// Reads `TINT COLOR bags contain N TINT COLOR bag(s), ... .` or
    /// `... contain no other bags.`; `None` for other text.
    pub fn parse(line: &[u8]) -> (r: Option<Rule>)
    {
        let marker = [32u8, 98, 97, 103, 115, 32, 99, 111, 110, 116, 97, 105, 110, 32];
        let at = find_pattern(line, &marker, 0)?;
        let head = slice_range(line, 0, at);
        let head_words = words(head.as_slice());
        let bag = bag_of(&head_words, 0)?;
        if line.len() - at < 14 {
            return None;
        }
        let rest = slice_range(line, at + 14, line.len());
        let mut contains: Vec<(Bag, usize)> = Vec::new();
        let items = split(rest.as_slice(), 44);
        let mut i: usize = 0;
        while i < items.len()
            invariant
                i <= items@.len(),
            decreases items@.len() - i,
        {
            let ws = words(items[i].as_slice());
            if ws.len() == 0 {
                return None;
            }
            let no = [110u8, 111];
            if same_bytes(ws[0].as_slice(), &no) {
                break;
            }
            let quantity = parse_unsigned(ws[0].as_slice())?;
            if quantity > usize::MAX as u64 {
                return None;
            }
            let kind = bag_of(&ws, 1)?;
            contains.push((kind, quantity as usize));
            i = i + 1;
        }
        Some(Rule { bag, contains })
    }
}

/// Reads one rule per line; `None` where a line is no rule.
pub fn parse_rules(text: &str) -> (r: Option<Vec<Rule>>)
{
    let lines = split(text.as_bytes(), 10);
    let mut rules: Vec<Rule> = Vec::new();
    let mut i: usize = 0;
    while i < lines.len()
        invariant
            i <= lines@.len(),
        decreases lines@.len() - i,
    {
        let rule = Rule::parse(lines[i].as_slice())?;
        rules.push(rule);
        i = i + 1;
    }
    Some(rules)
}

/// Whether `bags` lists `bag`.
fn listed(bags: &Vec<Bag>, bag: &Bag) -> (r: bool)
    ensures
        r == exists|k: int| 0 <= k < bags@.len() && bags@[k].tint@ == bag.tint@ && bags@[k].color@ == bag.color@,
{
    let mut i: usize = 0;
    while i < bags.len()
        invariant
            i <= bags@.len(),
            forall|k: int| 0 <= k < i ==> !(bags@[k].tint@ == bag.tint@ && bags@[k].color@ == bag.color@),
        decreases bags@.len() - i,
    {
        if same_bag(&bags[i], bag) {
            return true;
        }
        i = i + 1;
    }
    false
}

/// Every kind that can hold `bag`, directly or through other bags, each
/// once, in the order in which the search finds them.
pub fn contains_bag(rules: &Vec<Rule>, bag: &Bag) -> (r: Vec<Bag>)
{
    let mut wrappers: Vec<Bag> = Vec::new();
    let mut taken: Vec<bool> = Vec::new();
    let mut k: usize = 0;
    while k < rules.len()
        invariant
            k <= rules@.len(),
            taken@.len() == k,
        decreases rules@.len() - k,
    {
        taken.push(false);
        k = k + 1;
    }
    let mut changed = true;
    let mut rounds: usize = rules.len();
    while changed
        invariant
            taken@.len() == rules@.len(),
        decreases rounds + (if changed { 1int } else { 0 }),
    {
        changed = false;
        let mut i: usize = 0;
        while i < rules.len()
            invariant
                taken@.len() == rules@.len(),
                i <= rules@.len(),
            decreases rules@.len() - i,
        {
            if !taken[i] {
                let rule = &rules[i];
                let mut holds = false;
                let mut j: usize = 0;
                while j < rule.contains.len() && !holds
                    invariant
                        j <= rule.contains@.len(),
                    decreases rule.contains@.len() - j,
                {
                    let inner = &rule.contains[j].0;
                    if same_bag(inner, bag) || listed(&wrappers, inner) {
                        holds = true;
                    }
                    j = j + 1;
                }
                if holds {
                    taken.set(i, true);
                    wrappers.push(rule.bag.clone());
                    changed = true;
                }
            }
            i = i + 1;
        }
        if changed {
            if rounds == 0 {
                return wrappers;
            }
            rounds = rounds - 1;
        }
    }
    wrappers
}

/// The rule for kind `bag`, if there is one.
fn rule_for(rules: &Vec<Rule>, bag: &Bag) -> (r: Option<usize>)
    ensures
        r is Some ==> r->Some_0 < rules@.len(),
{
    let mut i: usize = 0;
    while i < rules.len()
        invariant
            i <= rules@.len(),
        decreases rules@.len() - i,
    {
        if same_bag(&rules[i].bag, bag) {
            return Some(i);
        }
        i = i + 1;
    }
    None
}

/// How many bags a bag of kind `bag` holds, counting the bags inside the
/// bags it holds; `None` where a kind has no rule, the rules nest deeper
/// than `depth`, or the count overflows.
pub fn bags_in(rules: &Vec<Rule>, bag: &Bag, depth: usize) -> (r: Option<usize>)
    decreases depth,
{
    if depth == 0 {
        return None;
    }
    let index = rule_for(rules, bag)?;
    let rule = &rules[index];
    let mut total: usize = 0;
    let mut j: usize = 0;
    while j < rule.contains.len()
        invariant
            depth > 0,
            j <= rule.contains@.len(),
        decreases rule.contains@.len() - j,
    {
        let (inner, quantity) = (&rule.contains[j].0, rule.contains[j].1);
        let each = bags_in(rules, inner, depth - 1)?;
        let per = each.checked_add(1)?;
        let all = per.checked_mul(quantity)?;
        total = total.checked_add(all)?;
        j = j + 1;
    }
    Some(total)
}

} // verus!
