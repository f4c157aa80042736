//! Nanofactory reactions: how much of a raw chemical a product needs, with
//! leftovers kept for later reactions, and how much product a stock buys.

use vstd::prelude::*;
use crate::text::same_bytes;
use crate::text::{parse_unsigned, slice_range, split, value_of, all_digits};

verus! {

/// A quantity of a named chemical.
#[derive(Debug, Clone)]
pub struct Chemical {
    pub name: Vec<u8>,
    pub quantity: usize,
}

/// A reaction: its inputs, and the output that one run of it gives.
#[derive(Debug, Clone)]
pub struct Reaction {
    pub inputs: Vec<Chemical>,
    pub output: Chemical,
}

/// The bytes of `s` without the spaces at both ends.
fn trim_spaces(s: &[u8]) -> (r: Vec<u8>)
    ensures
        r@.len() <= s@.len(),
        r@.len() > 0 ==> r@[0] != 32 && r@.last() != 32,
{
    let mut start: usize = 0;
    while start < s.len() && s[start] == 32
        invariant
            start <= s@.len(),
        decreases s@.len() - start,
    {
        start = start + 1;
    }
    let mut end: usize = s.len();
    while end > start && s[end - 1] == 32
        invariant
            start <= end <= s@.len(),
        decreases end,
    {
        end = end - 1;
    }
    slice_range(s, start, end)
}

impl Chemical {
    /// Reads `QUANTITY NAME`, one space between; `None` for other text.
    pub fn parse(s: &[u8]) -> (r: Option<Chemical>)
        ensures
            r is Some ==> exists|k: int| 0 < k < s@.len() && s@[k] == 32 && all_digits(#[trigger] s@.subrange(0, k))
                && r->Some_0.quantity == value_of(s@.subrange(0, k)) && r->Some_0.name@ == s@.subrange(k + 1, s@.len() as int),
    {
        let parts = split(s, 32);
        if parts.len() != 2 {
            return None;
        }
        let k = parts[0].len();
        let quantity = match parse_unsigned(parts[0].as_slice()) {
            Some(q) => q,
            None => return None,
        };
        if quantity > usize::MAX as u64 {
            return None;
        }
        if k >= s.len() || s[k] != 32 {
            return None;
        }
        let name = slice_range(s, k + 1, s.len());
        let head = slice_range(s, 0, k);
        if !same_bytes(head.as_slice(), parts[0].as_slice()) {
            return None;
        }
        assert(all_digits(s@.subrange(0, k as int)));
        Some(Chemical { name, quantity: quantity as usize })
    }
}

impl Reaction {
    /// Reads `Q A, Q B => Q C`: one or more inputs, an arrow and one
    /// output; `None` for other text.
    pub fn parse(s: &[u8]) -> (r: Option<Reaction>)
        ensures
            r is Some ==> r->Some_0.inputs@.len() >= 1,
    {
        let mut arrow: usize = 0;
        let n = s.len();
        if n == 0 {
            return None;
        }
        while arrow < n - 1 && !(s[arrow] == 61 && s[arrow + 1] == 62)
            invariant
                n == s@.len(),
                n > 0,
                arrow <= n,
            decreases n - arrow,
        {
            arrow = arrow + 1;
        }
        if arrow >= n - 1 {
            return None;
        }
        let left = slice_range(s, 0, arrow);
        let right = slice_range(s, arrow + 2, n);
        let fields = split(left.as_slice(), 44);
        let mut inputs: Vec<Chemical> = Vec::new();
        let mut i: usize = 0;
        while i < fields.len()
            invariant
                i <= fields@.len(),
                inputs@.len() == i,
            decreases fields@.len() - i,
        {
            let text = trim_spaces(fields[i].as_slice());
            match Chemical::parse(text.as_slice()) {
                Some(c) => inputs.push(c),
                None => return None,
            }
            i = i + 1;
        }
        if inputs.len() < 1 {
            return None;
        }
        let output_text = trim_spaces(right.as_slice());
        let output = match Chemical::parse(output_text.as_slice()) {
            Some(c) => c,
            None => return None,
        };
        Some(Reaction { inputs, output })
    }
}

/// The reactions by the chemical they make, and the leftovers of the
/// reactions run so far.
#[derive(Debug)]
pub struct Reactions {
    pub reactions: Vec<Reaction>,
    pub waste: Vec<Chemical>,
}

impl Reactions {
    /// The reactions, with no leftovers yet.
    pub fn new(reactions: Vec<Reaction>) -> (r: Reactions)
        ensures
            r.reactions@ == reactions@,
            r.waste@.len() == 0,
    {
        Reactions { reactions, waste: Vec::new() }
    }

    /// Reads one reaction per entry; `None` where one is no reaction.
    pub fn parse(lines: &[&str]) -> (r: Option<Reactions>)
        ensures
            r is Some ==> r->Some_0.reactions@.len() == lines@.len() && r->Some_0.waste@.len() == 0,
    {
        let mut reactions: Vec<Reaction> = Vec::new();
        let mut i: usize = 0;
        while i < lines.len()
            invariant
                i <= lines@.len(),
                reactions@.len() == i,
            decreases lines@.len() - i,
        {
            let line: &str = lines[i];
            let text = trim_spaces(line.as_bytes());
            match Reaction::parse(text.as_slice()) {
                Some(r) => reactions.push(r),
                None => return None,
            }
            i = i + 1;
        }
        Some(Reactions { reactions, waste: Vec::new() })
    }

    /// The reaction that makes `name`.
    fn reaction_for(&self, name: &[u8]) -> (r: Option<usize>)
        ensures
            r is Some ==> r->Some_0 < self.reactions@.len(),
    {
        let mut i: usize = 0;
        while i < self.reactions.len()
            invariant
                i <= self.reactions@.len(),
            decreases self.reactions@.len() - i,
        {
            if same_bytes(self.reactions[i].output.name.as_slice(), name) {
                return Some(i);
            }
            i = i + 1;
        }
        None
    }

    /// Takes up to `needed` of `name` from the leftovers; returns how much
    /// is still needed.
    fn use_waste(&mut self, name: &[u8], needed: usize) -> (r: usize)
        ensures
            r <= needed,
            final(self).reactions@ == old(self).reactions@,
    {
        let mut i: usize = 0;
        while i < self.waste.len()
            invariant
                i <= self.waste@.len(),
                self.reactions@ == old(self).reactions@,
            decreases self.waste@.len() - i,
        {
            if same_bytes(self.waste[i].name.as_slice(), name) {
                let stock = self.waste[i].quantity;
                if stock <= needed {
                    self.waste.remove(i);
                    return needed - stock;
                } else {
                    let name_copy = self.waste[i].name.clone();
                    self.waste.set(i, Chemical { name: name_copy, quantity: stock - needed });
                    return 0;
                }
            }
            i = i + 1;
        }
        needed
    }

    /// Puts `extra` of `name` with the leftovers; false where the stock
    /// would overflow.
    fn add_waste(&mut self, name: &[u8], extra: usize) -> (r: bool)
        ensures
            final(self).reactions@ == old(self).reactions@,
    {
        let mut i: usize = 0;
        while i < self.waste.len()
            invariant
                i <= self.waste@.len(),
                self.reactions@ == old(self).reactions@,
            decreases self.waste@.len() - i,
        {
            if same_bytes(self.waste[i].name.as_slice(), name) {
                let stock = self.waste[i].quantity;
                if stock > usize::MAX - extra {
                    return false;
                }
                let name_copy = self.waste[i].name.clone();
                self.waste.set(i, Chemical { name: name_copy, quantity: stock + extra });
                return true;
            }
            i = i + 1;
        }
        self.waste.push(Chemical { name: crate::text::slice_from(name, 0), quantity: extra });
        true
    }

    /// How much of `from` making `into` takes, running whole reactions and
    /// using leftovers of earlier runs first; the leftovers of these runs
    /// are kept. `depth` bounds how deep reactions may chain. `None` where
    /// a chemical has no reaction, the chain is deeper than `depth`, or a
    /// number overflows.
    pub fn produce_from(&mut self, into: &Chemical, from: &[u8], depth: usize) -> (r: Option<Chemical>)
        ensures
            final(self).reactions@ == old(self).reactions@,
            r is Some ==> r->Some_0.name@ == from@,
        decreases depth,
    {
        if depth == 0 {
            return None;
        }
        let index = self.reaction_for(into.name.as_slice())?;
        let reaction = self.reactions[index].clone();
        let unit = reaction.output.quantity;
        if unit == 0 {
            return None;
        }
        let whole = into.quantity / unit;
        let count = if into.quantity % unit == 0 { whole } else { whole.checked_add(1)? };
        let mut quantity: usize = 0;
        let mut k: usize = 0;
        while k < reaction.inputs.len()
            invariant
                self.reactions@ == old(self).reactions@,
                depth > 0,
                k <= reaction.inputs@.len(),
            decreases reaction.inputs@.len() - k,
        {
            let input = &reaction.inputs[k];
            let needed = count.checked_mul(input.quantity)?;
            let needed = self.use_waste(input.name.as_slice(), needed);
            if same_bytes(input.name.as_slice(), from) {
                quantity = quantity.checked_add(needed)?;
            } else {
                let chemical = Chemical { name: input.name.clone(), quantity: needed };
                let made = self.produce_from(&chemical, from, depth - 1)?;
                quantity = quantity.checked_add(made.quantity)?;
            }
            k = k + 1;
        }
        let produced = count.checked_mul(unit)?;
        if produced > into.quantity {
            if !self.add_waste(into.name.as_slice(), produced - into.quantity) {
                return None;
            }
        }
        Some(Chemical { name: crate::text::slice_from(from, 0), quantity })
    }

    /// How much of `from`, from scratch, making `quantity` of `into` takes.
    fn cost(&mut self, into: &[u8], quantity: usize, from: &[u8]) -> (r: Option<usize>)
        ensures
            final(self).reactions@ == old(self).reactions@,
    {
        self.waste = Vec::new();
        let chemical = Chemical { name: crate::text::slice_from(into, 0), quantity };
        let depth = self.reactions.len().checked_add(1)?;
        match self.produce_from(&chemical, from, depth) {
            Some(c) => Some(c.quantity),
            None => None,
        }
    }

    /// The most of `into` that the stock `from` can make, found by doubling
    /// then halving the amount tried; `None` where a cost cannot be
    /// computed.
    pub fn produce_with(&mut self, into: &[u8], from: &Chemical) -> (r: Option<Chemical>)
        ensures
            r is Some ==> r->Some_0.name@ == into@,
    {
        let mut quantity: usize = 1;
        let mut has_capped = false;
        let mut increment: usize = 1;
        let mut rounds: usize = 256;
        while increment != 0 && rounds > 0
            invariant
                rounds <= 256,
            decreases rounds,
        {
            rounds = rounds - 1;
            let cost = self.cost(into, quantity, from.name.as_slice())?;
            if !has_capped {
                if cost <= from.quantity {
                    increment = increment.checked_mul(2)?;
                    quantity = increment;
                } else {
                    has_capped = true;
                }
            } else {
                increment = increment / 2;
                if cost <= from.quantity {
                    quantity = quantity.checked_add(increment)?;
                } else {
                    quantity = quantity.checked_sub(increment)?;
                }
            }
        }
        if increment != 0 {
            return None;
        }
        let cost = self.cost(into, quantity, from.name.as_slice())?;
        let made = if cost <= from.quantity { quantity } else { quantity.checked_sub(1)? };
        Some(Chemical { name: crate::text::slice_from(into, 0), quantity: made })
    }
}

} // verus!
