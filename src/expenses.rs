//! Finding the expense entries that sum to 2020.

use vstd::prelude::*;

verus! {

/// The sum that the entries are looked for by.
pub const TARGET: u32 = 2020;

/// Whether entries `i` and `j` (possibly the same one) make up the target.
pub open spec fn pair_at(e: Seq<u32>, i: int, j: int) -> bool {
    0 <= i <= j < e.len() && e[i] + e[j] == TARGET
}

/// Whether three distinct entries make up the target.
pub open spec fn triple_at(e: Seq<u32>, i: int, j: int, k: int) -> bool {
    0 <= i < e.len() && 0 <= j < e.len() && 0 <= k < e.len() && i != j && i != k && j != k && e[i] + e[j]
        + e[k] == TARGET
}

/// Two entries, in the order they stand, that sum to the target: the first
/// such pair by the position of its first entry, then of its second.
/// `None` where no pair does.
pub fn fix_expense_report(entries: &[u32]) -> (r: Option<(u32, u32)>)
    ensures
        match r {
            Some((a, b)) => exists|i: int, j: int|
                #[trigger] pair_at(entries@, i, j) && entries@[i] == a && entries@[j] == b,
            None => forall|i: int, j: int| !#[trigger] pair_at(entries@, i, j),
        },
{
    let n = entries.len();
    let mut i: usize = 0;
    while i < n
        invariant
            n == entries@.len(),
            i <= n,
            forall|a: int, b: int| 0 <= a < i ==> !#[trigger] pair_at(entries@, a, b),
        decreases n - i,
    {
        let mut j: usize = i;
        while j < n
            invariant
                n == entries@.len(),
                i <= j <= n,
                i < n,
                forall|a: int, b: int| 0 <= a < i ==> !#[trigger] pair_at(entries@, a, b),
                forall|b: int| i <= b < j ==> !#[trigger] pair_at(entries@, i as int, b),
            decreases n - j,
        {
            if entries[i] as u64 + entries[j] as u64 == TARGET as u64 {
                assert(pair_at(entries@, i as int, j as int));
                return Some((entries[i], entries[j]));
            }
            j = j + 1;
        }
        i = i + 1;
    }
    None
}

/// Three distinct entries that sum to the target, in the order of the
/// search: by the first position, then the second, then the third. `None`
/// where no three do.
pub fn fix_expense_report_three(entries: &[u32]) -> (r: Option<(u32, u32, u32)>)
    ensures
        match r {
            Some((a, b, c)) => exists|i: int, j: int, k: int|
                #[trigger] triple_at(entries@, i, j, k) && entries@[i] == a && entries@[j] == b && entries@[k] == c,
            None => forall|i: int, j: int, k: int| !#[trigger] triple_at(entries@, i, j, k),
        },
{
    let n = entries.len();
    let mut i: usize = 0;
    while i < n
        invariant
            n == entries@.len(),
            i <= n,
            forall|a: int, b: int, c: int| 0 <= a < i ==> !#[trigger] triple_at(entries@, a, b, c),
        decreases n - i,
    {
        let mut j: usize = 0;
        while j < n
            invariant
                n == entries@.len(),
                j <= n,
                i < n,
                forall|a: int, b: int, c: int| 0 <= a < i ==> !#[trigger] triple_at(entries@, a, b, c),
                forall|b: int, c: int| 0 <= b < j ==> !#[trigger] triple_at(entries@, i as int, b, c),
            decreases n - j,
        {
            let mut k: usize = 0;
            while k < n
                invariant
                    n == entries@.len(),
                    k <= n,
                    i < n,
                    j < n,
                    forall|a: int, b: int, c: int| 0 <= a < i ==> !#[trigger] triple_at(entries@, a, b, c),
                    forall|b: int, c: int| 0 <= b < j ==> !#[trigger] triple_at(entries@, i as int, b, c),
                    forall|c: int| 0 <= c < k ==> !#[trigger] triple_at(entries@, i as int, j as int, c),
                decreases n - k,
            {
                if k != i && k != j && j != i && entries[i] as u64 + entries[j] as u64 + entries[k] as u64
                    == TARGET as u64 {
                    assert(triple_at(entries@, i as int, j as int, k as int));
                    return Some((entries[i], entries[j], entries[k]));
                }
                k = k + 1;
            }
            j = j + 1;
        }
        i = i + 1;
    }
    None
}

} // verus!
