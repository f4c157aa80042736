//! The docking program: 36-bit values written to memory through a bit
//! mask, either on the value or, in the second version, on the address.

use vstd::prelude::*;
use vstd::arithmetic::div_mod::lemma_div_denominator;
use crate::boarding::pow2;
use crate::text::{parse_unsigned, slice_range, split};

verus! {

/// The width of a value.
pub const WIDTH: usize = 36;

/// One bit of a mask.
#[derive(Debug, Clone, Copy, PartialEq, Eq, Structural)]
pub enum MaskBit {
    False,
    True,
    Neutral,
}

impl MaskBit {
    /// `0` and `1` force a bit, anything else leaves it.
    pub fn from_char(c: u8) -> (r: MaskBit)
        ensures
            r == if c == 48 {
                MaskBit::False
            } else if c == 49 {
                MaskBit::True
            } else {
                MaskBit::Neutral
            },
    {
        if c == 48 {
            MaskBit::False
        } else if c == 49 {
            MaskBit::True
        } else {
            MaskBit::Neutral
        }
    }
}

/// Thirty-six bits, the most significant first.
#[derive(Debug, Clone, Copy, PartialEq, Eq)]
pub struct Bits {
    pub bits: [bool; 36],
}

/// The number that the first `k` bits write, the most significant first.
pub open spec fn bits_value(bits: Seq<bool>, k: int) -> nat
    decreases k,
{
    if k <= 0 {
        0
    } else {
        bits_value(bits, k - 1) * 2 + if bits[k - 1] { 1nat } else { 0 }
    }
}

/// Bit `i` of a value written on thirty-six bits, the most significant
/// first.
pub open spec fn bit_of(value: nat, i: int) -> bool {
    (value / pow2((35 - i) as nat)) % 2 == 1
}

pub proof fn lemma_pow2_positive(k: nat)
    ensures
        pow2(k) > 0,
    decreases k,
{
    if k > 0 {
        lemma_pow2_positive((k - 1) as nat);
    }
}

pub proof fn lemma_bits_value_bounded(bits: Seq<bool>, k: int)
    requires
        k >= 0,
    ensures
        bits_value(bits, k) < pow2(k as nat),
    decreases k,
{
    if k > 0 {
        lemma_bits_value_bounded(bits, k - 1);
        assert(pow2(k as nat) == 2 * pow2((k - 1) as nat));
    }
}

impl Bits {
    /// The thirty-six low bits of `value`.
    pub fn from_value(value: usize) -> (r: Bits)
        ensures
            forall|i: int| 0 <= i < 36 ==> #[trigger] r.bits@[i] == bit_of(value as nat, i),
    {
        let mut bits = [false; 36];
        let mut v = value;
        let mut i: usize = 36;
        assert(pow2(0) == 1);
        assert(value as nat / pow2(0) == value as nat) by (nonlinear_arith)
            requires
                pow2(0) == 1,
        ;
        while i > 0
            invariant
                i <= 36,
                v == value as nat / pow2((36 - i) as nat),
                forall|j: int| i <= j < 36 ==> #[trigger] bits@[j] == bit_of(value as nat, j),
            decreases i,
        {
            i = i - 1;
            bits[i] = v % 2 == 1;
            proof {
                lemma_pow2_positive((35 - i) as nat);
                lemma_div_denominator(value as int, pow2((35 - i) as nat) as int, 2);
                assert(pow2((36 - i) as nat) == 2 * pow2((35 - i) as nat));
                assert(pow2((35 - i) as nat) * 2 == 2 * pow2((35 - i) as nat));
            }
            v = v / 2;
        }
        Bits { bits }
    }

    /// The number that the bits write.
    pub fn value(&self) -> (r: usize)
        requires
            pow2(36) <= usize::MAX + 1,
        ensures
            r == bits_value(self.bits@, 36),
    {
        let mut result: usize = 0;
        let mut i: usize = 0;
        while i < 36
            invariant
                i <= 36,
                pow2(36) <= usize::MAX + 1,
                result == bits_value(self.bits@, i as int),
            decreases 36 - i,
        {
            proof {
                lemma_bits_value_bounded(self.bits@, i as int + 1);
                crate::boarding::lemma_pow2_grows(i as nat + 1, 36);
            }
            result = result * 2 + if self.bits[i] { 1 } else { 0 };
            i = i + 1;
        }
        result
    }
}

/// One line of the program: a new mask, or a write to memory.
#[derive(Debug)]
pub enum MaskPatch {
    Mask(Vec<MaskBit>),
    Mem { offset: usize, value: usize },
}

/// Whether `s` starts with `prefix`.
fn starts_with(s: &[u8], prefix: &[u8]) -> (r: bool)
    ensures
        r == (prefix@.len() <= s@.len() && s@.subrange(0, prefix@.len() as int) == prefix@),
{
    if prefix.len() > s.len() {
        return false;
    }
    let mut i: usize = 0;
    while i < prefix.len()
        invariant
            prefix@.len() <= s@.len(),
            i <= prefix@.len(),
            forall|j: int| 0 <= j < i ==> s@[j] == prefix@[j],
        decreases prefix@.len() - i,
    {
        if s[i] != prefix[i] {
            assert(s@.subrange(0, prefix@.len() as int)[i as int] != prefix@[i as int]);
            return false;
        }
        i = i + 1;
    }
    assert(s@.subrange(0, prefix@.len() as int) =~= prefix@);
    true
}

impl MaskPatch {
    /// Reads `mask = ...` with at most thirty-six mask characters, or
    /// `mem[offset] = value`; `None` for any other line.
    pub fn parse(line: &[u8]) -> (r: Option<MaskPatch>)
        ensures
            r is Some && r->Some_0 is Mask ==> r->Some_0->Mask_0@.len() <= 36,
    {
        let mask_prefix = [109u8, 97, 115, 107, 32, 61, 32];
        if starts_with(line, &mask_prefix) {
            if line.len() - 7 > 36 {
                return None;
            }
            let mut bits: Vec<MaskBit> = Vec::new();
            let mut i: usize = 7;
            while i < line.len()
                invariant
                    7 <= i <= line@.len(),
                    line@.len() - 7 <= 36,
                    bits@.len() == i - 7,
                decreases line@.len() - i,
            {
                bits.push(MaskBit::from_char(line[i]));
                i = i + 1;
            }
            return Some(MaskPatch::Mask(bits));
        }
        let mem_prefix = [109u8, 101, 109, 91];
        if !starts_with(line, &mem_prefix) {
            return None;
        }
        let mut close: usize = 4;
        while close < line.len() && line[close] != 93
            invariant
                4 <= close <= line@.len(),
            decreases line@.len() - close,
        {
            close = close + 1;
        }
        if close >= line.len() || line.len() - close < 4 {
            return None;
        }
        let offset_text = slice_range(line, 4, close);
        let value_text = slice_range(line, close + 4, line.len());
        let offset = match parse_unsigned(offset_text.as_slice()) {
            Some(v) => v,
            None => return None,
        };
        let value = match parse_unsigned(value_text.as_slice()) {
            Some(v) => v,
            None => return None,
        };
        if offset > usize::MAX as u64 || value > usize::MAX as u64 {
            return None;
        }
        Some(MaskPatch::Mem { offset: offset as usize, value: value as usize })
    }
}

/// Reads the program, one line each; `None` where a line is neither.
pub fn parse_patches(text: &str) -> (r: Option<Vec<MaskPatch>>)
    ensures
        r is Some ==> forall|k: int| 0 <= k < r->Some_0@.len() && #[trigger] r->Some_0@[k] is Mask
            ==> r->Some_0@[k]->Mask_0@.len() <= 36,
{
    let lines = split(text.as_bytes(), 10);
    let mut patches: Vec<MaskPatch> = Vec::new();
    let mut i: usize = 0;
    while i < lines.len()
        invariant
            i <= lines@.len(),
            forall|k: int| 0 <= k < patches@.len() && #[trigger] patches@[k] is Mask ==> patches@[k]->Mask_0@.len() <= 36,
        decreases lines@.len() - i,
    {
        match MaskPatch::parse(lines[i].as_slice()) {
            Some(p) => patches.push(p),
            None => return None,
        }
        i = i + 1;
    }
    Some(patches)
}

/// Whether no address occurs twice in the memory.
pub open spec fn unique_addresses(memory: Seq<(usize, usize)>) -> bool {
    forall|i: int, j: int| 0 <= i < j < memory.len() ==> memory[i].0 != memory[j].0
}

/// Writes `value` at `address`, over any value there before.
fn store(memory: &mut Vec<(usize, usize)>, address: usize, value: usize)
    requires
        unique_addresses(old(memory)@),
    ensures
        unique_addresses(final(memory)@),
        exists|k: int| 0 <= k < final(memory)@.len() && #[trigger] final(memory)@[k] == (address, value),
        forall|a: usize, v: usize| a != address ==> (old(memory)@.contains((a, v)) <==> #[trigger] final(memory)@.contains((a, v))),
{
    let mut i: usize = 0;
    while i < memory.len()
        invariant
            memory@ == old(memory)@,
            unique_addresses(old(memory)@),
            i <= memory@.len(),
            forall|j: int| 0 <= j < i ==> memory@[j].0 != address,
        decreases memory@.len() - i,
    {
        if memory[i].0 == address {
            let ghost before = memory@;
            memory.set(i, (address, value));
            proof {
                assert(memory@[i as int] == (address, value));
                assert(forall|j: int| 0 <= j < memory@.len() && j != i ==> memory@[j] == before[j]);
                assert(before[i as int].0 == address);
                assert(unique_addresses(before));
                assert forall|a: int, b: int| 0 <= a < b < memory@.len() implies memory@[a].0 != memory@[b].0 by {
                    if a != i && b != i {
                        assert(before[a].0 != before[b].0);
                    } else if a == i {
                        assert(before[a].0 != before[b].0);
                    } else {
                        assert(before[a].0 != before[b].0);
                    }
                }
                assert forall|a: usize, v: usize| a != address implies (before.contains((a, v)) <==> #[trigger] memory@.contains((a, v))) by {
                    if before.contains((a, v)) {
                        let k = choose|k: int| 0 <= k < before.len() && before[k] == (a, v);
                        assert(memory@[k] == (a, v));
                    }
                    if memory@.contains((a, v)) {
                        let k = choose|k: int| 0 <= k < memory@.len() && memory@[k] == (a, v);
                        assert(before[k] == (a, v));
                    }
                }
            }
            return;
        }
        i = i + 1;
    }
    let ghost before = memory@;
    memory.push((address, value));
    proof {
        assert(memory@[memory@.len() - 1] == (address, value));
        assert forall|a: usize, v: usize| a != address implies (before.contains((a, v)) <==> #[trigger] memory@.contains((a, v))) by {
            if before.contains((a, v)) {
                let k = choose|k: int| 0 <= k < before.len() && before[k] == (a, v);
                assert(memory@[k] == (a, v));
            }
            if memory@.contains((a, v)) {
                let k = choose|k: int| 0 <= k < memory@.len() && memory@[k] == (a, v);
                assert(before[k] == (a, v));
            }
        }
    }
}

/// The value written through the mask: forced bits take the mask's value.
fn masked(value: usize, mask: &Vec<MaskBit>) -> (r: Bits)
    requires
        mask@.len() <= 36,
    ensures
        forall|i: int| 0 <= i < 36 ==> #[trigger] r.bits@[i] == if i < mask@.len() && mask@[i] == MaskBit::True {
            true
        } else if i < mask@.len() && mask@[i] == MaskBit::False {
            false
        } else {
            bit_of(value as nat, i)
        },
{
    let mut bits = Bits::from_value(value);
    let mut i: usize = 0;
    while i < 36
        invariant
            i <= 36,
            mask@.len() <= 36,
            forall|j: int| 0 <= j < 36 ==> #[trigger] bits.bits@[j] == if j < i && j < mask@.len() && mask@[j]
                == MaskBit::True {
                true
            } else if j < i && j < mask@.len() && mask@[j] == MaskBit::False {
                false
            } else {
                bit_of(value as nat, j)
            },
        decreases 36 - i,
    {
        if i < mask.len() {
            match mask[i] {
                MaskBit::True => bits.bits[i] = true,
                MaskBit::False => bits.bits[i] = false,
                MaskBit::Neutral => {},
            }
        }
        i = i + 1;
    }
    bits
}

/// The mask after a new one: its bits replace the old ones at the same
/// positions.
fn merge_mask(mask: &Vec<MaskBit>, new_bits: &Vec<MaskBit>) -> (r: Vec<MaskBit>)
    requires
        mask@.len() <= 36,
        new_bits@.len() <= 36,
    ensures
        r@.len() == if mask@.len() > new_bits@.len() { mask@.len() } else { new_bits@.len() },
        r@.len() <= 36,
        forall|i: int| 0 <= i < r@.len() ==> #[trigger] r@[i] == if i < new_bits@.len() { new_bits@[i] } else { mask@[i] },
{
    let mut r: Vec<MaskBit> = Vec::new();
    let mut i: usize = 0;
    let n = if mask.len() > new_bits.len() { mask.len() } else { new_bits.len() };
    while i < n
        invariant
            n == if mask@.len() > new_bits@.len() { mask@.len() } else { new_bits@.len() },
            i <= n,
            r@.len() == i,
            forall|j: int| 0 <= j < i ==> #[trigger] r@[j] == if j < new_bits@.len() { new_bits@[j] } else { mask@[j] },
        decreases n - i,
    {
        r.push(if i < new_bits.len() { new_bits[i] } else { mask[i] });
        i = i + 1;
    }
    r
}

/// Every address that the mask makes of `offset`: forced ones set a bit,
/// zeros keep it, floating bits take both values.
fn floating_addresses(offset: usize, mask: &Vec<MaskBit>) -> (r: Vec<Bits>)
    requires
        mask@.len() == 36,
{
    let mut addresses: Vec<Bits> = vec![Bits::from_value(offset)];
    let mut i: usize = 0;
    while i < 36
        invariant
            i <= 36,
            mask@.len() == 36,
        decreases 36 - i,
    {
        let mut next: Vec<Bits> = Vec::new();
        let mut k: usize = 0;
        while k < addresses.len()
            invariant
                k <= addresses@.len(),
                i < 36,
                mask@.len() == 36,
            decreases addresses@.len() - k,
        {
            let mut address = addresses[k];
            match mask[i] {
                MaskBit::False => next.push(address),
                MaskBit::True => {
                    address.bits[i] = true;
                    next.push(address);
                },
                MaskBit::Neutral => {
                    let mut other = address;
                    address.bits[i] = true;
                    next.push(address);
                    other.bits[i] = false;
                    next.push(other);
                },
            }
            k = k + 1;
        }
        addresses = next;
        i = i + 1;
    }
    addresses
}

/// Runs the program and returns the sum of the values left in memory;
/// the second version (`v2`) masks addresses rather than values. `None`
/// where the sum overflows, or where the second version writes before a
/// full mask is set.
pub fn apply(patches: &Vec<MaskPatch>, v2: bool) -> (r: Option<usize>)
    requires
        pow2(36) <= usize::MAX + 1,
        forall|k: int| 0 <= k < patches@.len() && #[trigger] patches@[k] is Mask ==> patches@[k]->Mask_0@.len() <= 36,
{
    let mut memory: Vec<(usize, usize)> = Vec::new();
    let mut mask: Vec<MaskBit> = Vec::new();
    let mut p: usize = 0;
    while p < patches.len()
        invariant
            p <= patches@.len(),
            pow2(36) <= usize::MAX + 1,
            forall|k: int| 0 <= k < patches@.len() && #[trigger] patches@[k] is Mask ==> patches@[k]->Mask_0@.len() <= 36,
            mask@.len() <= 36,
            unique_addresses(memory@),
        decreases patches@.len() - p,
    {
        match &patches[p] {
            MaskPatch::Mask(bits) => {
                mask = merge_mask(&mask, bits);
            },
            MaskPatch::Mem { offset, value } => {
                if v2 {
                    if mask.len() != 36 {
                        return None;
                    }
                    let addresses = floating_addresses(*offset, &mask);
                    let mut k: usize = 0;
                    while k < addresses.len()
                        invariant
                            k <= addresses@.len(),
                            pow2(36) <= usize::MAX + 1,
                            unique_addresses(memory@),
                        decreases addresses@.len() - k,
                    {
                        store(&mut memory, addresses[k].value(), *value);
                        k = k + 1;
                    }
                } else {
                    let bits = masked(*value, &mask);
                    store(&mut memory, *offset, bits.value());
                }
            },
        }
        p = p + 1;
    }
    let mut sum: usize = 0;
    let mut k: usize = 0;
    while k < memory.len()
        invariant
            k <= memory@.len(),
        decreases memory@.len() - k,
    {
        sum = match sum.checked_add(memory[k].1) {
            Some(s) => s,
            None => return None,
        };
        k = k + 1;
    }
    Some(sum)
}

} // verus!
