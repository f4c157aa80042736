//! Monster messages: a grammar of numbered rules, expanded into every
//! message that rule 0 matches, and the check of received messages.

use vstd::prelude::*;
use vstd::string::StringSliceAdditionalSpecFns;
use crate::text::same_bytes;
use crate::text::{parse_unsigned, slice_range, split, words};

verus! {

/// A rule: one character, or alternatives of sequences of rule numbers.
#[derive(Debug, Clone)]
pub enum Rule {
    Char(u8),
    Sequences(Vec<Vec<usize>>),
}

/// `main` followed by `sub`.
pub fn add_sub_to_main(main_sequence: Vec<u8>, sub_sequence: Vec<u8>) -> (r: Vec<u8>)
    ensures
        r@ == main_sequence@ + sub_sequence@,
{
    let mut r = main_sequence;
    let ghost start = r@;
    let mut k: usize = 0;
    while k < sub_sequence.len()
        invariant
            k <= sub_sequence@.len(),
            r@ == start + sub_sequence@.subrange(0, k as int),
        decreases sub_sequence@.len() - k,
    {
        r.push(sub_sequence[k]);
        proof {
            assert(start + sub_sequence@.subrange(0, k + 1) =~= (start + sub_sequence@.subrange(0, k as int)).push(sub_sequence@[k as int]));
        }
        k = k + 1;
    }
    proof {
        assert(sub_sequence@.subrange(0, k as int) =~= sub_sequence@);
    }
    r
}

/// Whether `set` holds the sequence `s`.
pub open spec fn holds(set: Seq<Vec<u8>>, s: Seq<u8>) -> bool {
    exists|k: int| 0 <= k < set.len() && set[k]@ == s
}

/// Whether `set` holds `s`.
fn member(set: &Vec<Vec<u8>>, s: &Vec<u8>) -> (r: bool)
    ensures
        r == holds(set@, s@),
{
    let mut k: usize = 0;
    while k < set.len()
        invariant
            k <= set@.len(),
            forall|j: int| 0 <= j < k ==> set@[j]@ != s@,
        decreases set@.len() - k,
    {
        if same_bytes(set[k].as_slice(), s.as_slice()) {
            return true;
        }
        k = k + 1;
    }
    false
}

/// Adds `s` to the set unless it is there.
fn insert(set: &mut Vec<Vec<u8>>, s: Vec<u8>)
    ensures
        holds(final(set)@, s@),
        forall|t: Seq<u8>| holds(final(set)@, t) <==> holds(old(set)@, t) || t == s@,
{
    if !member(set, &s) {
        let ghost before = set@;
        let ghost sv = s@;
        set.push(s);
        proof {
            assert(set@[set@.len() - 1]@ == sv);
            assert forall|t: Seq<u8>| holds(set@, t) <==> holds(before, t) || t == sv by {
                if holds(set@, t) {
                    let k = choose|k: int| 0 <= k < set@.len() && set@[k]@ == t;
                    if k < before.len() {
                        assert(before[k]@ == t);
                    }
                }
                if holds(before, t) {
                    let k = choose|k: int| 0 <= k < before.len() && before[k]@ == t;
                    assert(set@[k]@ == t);
                }
            }
        }
    }
}

/// `main` followed by each of the `subs`, each result once.
pub fn add_subs_to_main(main_sequence: &Vec<u8>, sub_sequences: &Vec<Vec<u8>>) -> (r: Vec<Vec<u8>>)
    ensures
        forall|t: Seq<u8>| holds(r@, t) <==> exists|k: int| 0 <= k < sub_sequences@.len() && t == main_sequence@ + #[trigger] sub_sequences@[k]@,
{
    let mut r: Vec<Vec<u8>> = Vec::new();
    let mut k: usize = 0;
    while k < sub_sequences.len()
        invariant
            k <= sub_sequences@.len(),
            forall|t: Seq<u8>| holds(r@, t) <==> exists|j: int| 0 <= j < k && t == main_sequence@ + #[trigger] sub_sequences@[j]@,
        decreases sub_sequences@.len() - k,
    {
        let joined = add_sub_to_main(main_sequence.clone(), sub_sequences[k].clone());
        proof {
            assert(joined@ == main_sequence@ + sub_sequences@[k as int]@);
        }
        insert(&mut r, joined);
        k = k + 1;
    }
    r
}

/// Each of the `mains` followed by each of the `subs`, each result once.
pub fn add_subs_to_mains(main_sequences: &Vec<Vec<u8>>, sub_sequences: &Vec<Vec<u8>>) -> (r: Vec<Vec<u8>>)
    ensures
        forall|t: Seq<u8>| holds(r@, t) <==> exists|i: int, k: int|
            0 <= i < main_sequences@.len() && 0 <= k < sub_sequences@.len() && t == #[trigger] main_sequences@[i]@
                + #[trigger] sub_sequences@[k]@,
{
    let mut r: Vec<Vec<u8>> = Vec::new();
    let mut i: usize = 0;
    while i < main_sequences.len()
        invariant
            i <= main_sequences@.len(),
            forall|t: Seq<u8>| holds(r@, t) <==> exists|a: int, k: int|
                0 <= a < i && 0 <= k < sub_sequences@.len() && t == #[trigger] main_sequences@[a]@ + #[trigger] sub_sequences@[k]@,
        decreases main_sequences@.len() - i,
    {
        let ghost before = r@;
        assert(forall|t: Seq<u8>| holds(before, t) <==> exists|a: int, k: int|
            0 <= a < i && 0 <= k < sub_sequences@.len() && t == #[trigger] main_sequences@[a]@ + #[trigger] sub_sequences@[k]@);
        let more = add_subs_to_main(&main_sequences[i], sub_sequences);
        let mut k: usize = 0;
        while k < more.len()
            invariant
                k <= more@.len(),
                forall|t: Seq<u8>| holds(r@, t) <==> holds(before, t) || holds(more@.subrange(0, k as int), t),
            decreases more@.len() - k,
        {
            let s = more[k].clone();
            assert(s@ =~= more@[k as int]@);
            let ghost r0 = r@;
            assert(forall|t: Seq<u8>| holds(r0, t) <==> holds(before, t) || holds(more@.subrange(0, k as int), t));
            insert(&mut r, s);
            proof {
                let p0 = more@.subrange(0, k as int);
                let p1 = more@.subrange(0, k + 1);
                assert forall|t: Seq<u8>| holds(r@, t) <==> holds(before, t) || holds(p1, t) by {
                    assert(holds(r@, t) <==> holds(r0, t) || t == more@[k as int]@);
                    assert(holds(r0, t) <==> holds(before, t) || holds(p0, t));
                    if holds(p1, t) {
                        let j = choose|j: int| 0 <= j < p1.len() && p1[j]@ == t;
                        if j < k {
                            assert(p0[j]@ == t);
                        }
                    }
                    if holds(p0, t) {
                        let j = choose|j: int| 0 <= j < p0.len() && p0[j]@ == t;
                        assert(p1[j]@ == t);
                    }
                    if t == more@[k as int]@ {
                        assert(p1[k as int]@ == t);
                    }
                }
            }
            k = k + 1;
        }
        proof {
            assert(more@.subrange(0, k as int) =~= more@);
            assert forall|t: Seq<u8>| holds(r@, t) <==> exists|a: int, j: int|
                0 <= a < i + 1 && 0 <= j < sub_sequences@.len() && t == #[trigger] main_sequences@[a]@ + #[trigger] sub_sequences@[j]@ by {
                assert(holds(r@, t) <==> holds(before, t) || holds(more@, t));
                if holds(more@, t) {
                    let j = choose|j: int| 0 <= j < sub_sequences@.len() && t == main_sequences@[i as int]@ + #[trigger] sub_sequences@[j]@;
                    assert(0 <= i < i + 1 && t == main_sequences@[i as int]@ + sub_sequences@[j]@);
                }
                if exists|a: int, j: int|
                    0 <= a < i + 1 && 0 <= j < sub_sequences@.len() && t == #[trigger] main_sequences@[a]@ + #[trigger] sub_sequences@[j]@ {
                    let (a, j) = choose|a: int, j: int|
                        0 <= a < i + 1 && 0 <= j < sub_sequences@.len() && t == #[trigger] main_sequences@[a]@ + #[trigger] sub_sequences@[j]@;
                    if a == i {
                        assert(exists|jj: int| 0 <= jj < sub_sequences@.len() && t == main_sequences@[i as int]@ + #[trigger] sub_sequences@[jj]@);
                        assert(holds(more@, t));
                    } else {
                        assert(holds(before, t));
                    }
                }
            }
        }
        i = i + 1;
    }
    r
}

/// Where rule `index` stands among the numbered rules.
fn rule_at(rules: &Vec<(usize, Rule)>, index: usize) -> (r: Option<usize>)
    ensures
        r is Some ==> r->Some_0 < rules@.len(),
{
    let mut k: usize = 0;
    while k < rules.len()
        invariant
            k <= rules@.len(),
        decreases rules@.len() - k,
    {
        if rules[k].0 == index {
            return Some(k);
        }
        k = k + 1;
    }
    None
}

/// Every message that a rule matches, each once; `None` where a rule is
/// missing or the rules nest deeper than `depth`.
pub fn get_chars(rules: &Vec<(usize, Rule)>, rule: &Rule, depth: usize) -> (r: Option<Vec<Vec<u8>>>)
    decreases depth,
{
    if depth == 0 {
        return None;
    }
    match rule {
        Rule::Char(c) => Some(vec![vec![*c]]),
        Rule::Sequences(sequences) => {
            let mut all: Vec<Vec<u8>> = Vec::new();
            let mut k: usize = 0;
            while k < sequences.len()
                invariant
                    depth > 0,
                    k <= sequences@.len(),
                decreases sequences@.len() - k,
            {
                let more = expand_sequence(&sequences[k], rules, depth - 1)?;
                let mut j: usize = 0;
                while j < more.len()
                    invariant
                        j <= more@.len(),
                    decreases more@.len() - j,
                {
                    insert(&mut all, more[j].clone());
                    j = j + 1;
                }
                k = k + 1;
            }
            Some(all)
        },
    }
}

/// Every message that a sequence of rules matches, one rule after the
/// other, each once; `None` where a rule is missing or the rules nest
/// deeper than `depth`.
pub fn expand_sequence(sequence: &Vec<usize>, rules: &Vec<(usize, Rule)>, depth: usize) -> (r: Option<Vec<Vec<u8>>>)
    decreases depth,
{
    if depth == 0 {
        return None;
    }
    let mut acc: Vec<Vec<u8>> = Vec::new();
    let mut k: usize = 0;
    while k < sequence.len()
        invariant
            depth > 0,
            k <= sequence@.len(),
        decreases sequence@.len() - k,
    {
        let at = rule_at(rules, sequence[k])?;
        let chars = get_chars(rules, &rules[at].1, depth - 1)?;
        acc = if acc.len() == 0 { chars } else { add_subs_to_mains(&acc, &chars) };
        k = k + 1;
    }
    Some(acc)
}

impl Rule {
    /// Reads `"c"` for one character, or numbers separated by spaces, with
    /// `|` between alternatives.
    pub fn parse(s: &[u8]) -> (r: Option<Rule>)
    {
        if s.len() == 3 && s[0] == 34 && s[2] == 34 {
            return Some(Rule::Char(s[1]));
        }
        let alternatives = split(s, 124);
        let mut sequences: Vec<Vec<usize>> = Vec::new();
        let mut k: usize = 0;
        while k < alternatives.len()
            invariant
                k <= alternatives@.len(),
            decreases alternatives@.len() - k,
        {
            let ws = words(alternatives[k].as_slice());
            let mut seq_rules: Vec<usize> = Vec::new();
            let mut j: usize = 0;
            while j < ws.len()
                invariant
                    j <= ws@.len(),
                decreases ws@.len() - j,
            {
                let v = parse_unsigned(ws[j].as_slice())?;
                if v > usize::MAX as u64 {
                    return None;
                }
                seq_rules.push(v as usize);
                j = j + 1;
            }
            sequences.push(seq_rules);
            k = k + 1;
        }
        Some(Rule::Sequences(sequences))
    }
}

/// The messages that rule 0 matches.
#[derive(Debug)]
pub struct Rules {
    pub constraints: Vec<Vec<u8>>,
}

impl Rules {
    /// Reads the rules, `N: RULE` a line, and expands rule 0; `None` where
    /// a line is no rule or the expansion fails.
    pub fn parse(text: &str) -> (r: Option<Rules>)
    {
        let lines = split(text.as_bytes(), 10);
        let mut rules: Vec<(usize, Rule)> = Vec::new();
        let mut k: usize = 0;
        while k < lines.len()
            invariant
                k <= lines@.len(),
            decreases lines@.len() - k,
        {
            let parts = split(lines[k].as_slice(), 58);
            if parts.len() != 2 {
                return None;
            }
            let index = parse_unsigned(parts[0].as_slice())?;
            if index > usize::MAX as u64 {
                return None;
            }
            let body = &parts[1];
            if body.len() < 1 || body[0] != 32 {
                return None;
            }
            let text_rule = slice_range(body.as_slice(), 1, body.len());
            let rule = Rule::parse(text_rule.as_slice())?;
            rules.push((index as usize, rule));
            k = k + 1;
        }
        let root = rule_at(&rules, 0)?;
        let depth = rules.len().checked_add(2)?;
        let constraints = get_chars(&rules, &rules[root].1, depth)?;
        Some(Rules { constraints })
    }

    /// Whether a message is as long as the first message of the rules and
    /// agrees with one of them on every character that both have.
    pub fn is_valid(&self, message: &str) -> (r: bool)
        ensures
            r ==> self.constraints@.len() > 0 && message.spec_bytes().len() == self.constraints@[0]@.len(),
    {
        let m = message.as_bytes();
        if self.constraints.len() == 0 || m.len() != self.constraints[0].len() {
            return false;
        }
        let mut k: usize = 0;
        while k < self.constraints.len()
            invariant
                k <= self.constraints@.len(),
                self.constraints@.len() > 0,
                m@ == message.spec_bytes(),
                m@.len() == self.constraints@[0]@.len(),
            decreases self.constraints@.len() - k,
        {
            let c = &self.constraints[k];
            let n = if c.len() < m.len() { c.len() } else { m.len() };
            let mut i: usize = 0;
            let mut all = true;
            while i < n && all
                invariant
                    i <= n,
                    n <= c@.len(),
                    n <= m@.len(),
                decreases n - i,
            {
                if c[i] != m[i] {
                    all = false;
                }
                i = i + 1;
            }
            if all {
                return true;
            }
            k = k + 1;
        }
        false
    }
}

} // verus!
