//! Six-digit passwords whose digits never decrease and that hold a pair of
//! equal adjacent digits.

use vstd::prelude::*;

verus! {

/// Digit `k` of a six-digit number, the most significant first.
pub open spec fn digit(n: int, k: int) -> int {
    if k == 0 {
        (n / 100000) % 10
    } else if k == 1 {
        (n / 10000) % 10
    } else if k == 2 {
        (n / 1000) % 10
    } else if k == 3 {
        (n / 100) % 10
    } else if k == 4 {
        (n / 10) % 10
    } else {
        n % 10
    }
}

/// Whether the digits of `n` never decrease from left to right.
pub open spec fn never_decreases(n: int) -> bool {
    forall|k: int| 0 <= k < 5 ==> #[trigger] digit(n, k) <= digit(n, k + 1)
}

/// Whether two adjacent digits of `n` are equal.
pub open spec fn has_pair(n: int) -> bool {
    exists|k: int| 0 <= k < 5 && #[trigger] digit(n, k) == digit(n, k + 1)
}

/// Whether two adjacent digits of `n` are equal and are not part of a
/// longer run of that digit.
pub open spec fn has_exact_pair(n: int) -> bool {
    exists|k: int|
        0 <= k < 5 && #[trigger] digit(n, k) == digit(n, k + 1) && (k == 0 || digit(n, k - 1) != digit(n, k))
            && (k == 4 || digit(n, k + 2) != digit(n, k))
}

/// Whether `n` is a six-digit number.
pub open spec fn six_digits(n: int) -> bool {
    100000 <= n <= 999999
}

/// The six digits of `n`, the most significant first.
fn digits(n: usize) -> (r: [usize; 6])
    requires
        six_digits(n as int),
    ensures
        forall|k: int| 0 <= k < 6 ==> r@[k] == digit(n as int, k),
{
    [(n / 100000) % 10, (n / 10000) % 10, (n / 1000) % 10, (n / 100) % 10, (n / 10) % 10, n % 10]
}

/// Whether `n` is a password: digits that never decrease, and a pair of
/// equal adjacent digits.
pub fn is_valid_password(n: usize) -> (r: bool)
    requires
        six_digits(n as int),
    ensures
        r == (never_decreases(n as int) && has_pair(n as int)),
{
    let d = digits(n);
    let mut k: usize = 0;
    let mut pair = false;
    while k < 5
        invariant
            k <= 5,
            forall|j: int| 0 <= j < 6 ==> d@[j] == digit(n as int, j),
            forall|j: int| 0 <= j < k ==> #[trigger] digit(n as int, j) <= digit(n as int, j + 1),
            pair ==> exists|j: int| 0 <= j < k && #[trigger] digit(n as int, j) == digit(n as int, j + 1),
            !pair ==> forall|j: int| 0 <= j < k ==> #[trigger] digit(n as int, j) != digit(n as int, j + 1),
        decreases 5 - k,
    {
        if d[k + 1] < d[k] {
            assert(!never_decreases(n as int)) by {
                assert(!(digit(n as int, k as int) <= digit(n as int, k + 1)));
            }
            return false;
        }
        if d[k] == d[k + 1] {
            pair = true;
            assert(digit(n as int, k as int) == digit(n as int, k + 1));
        }
        k = k + 1;
    }
    pair
}

/// Whether `n` is a password under the stricter rule: digits that never
/// decrease, and a pair of equal adjacent digits that no third one joins.
pub fn is_valid_password_strict(n: usize) -> (r: bool)
    requires
        six_digits(n as int),
    ensures
        r == (never_decreases(n as int) && has_exact_pair(n as int)),
{
    let d = digits(n);
    let mut k: usize = 0;
    while k < 5
        invariant
            k <= 5,
            forall|j: int| 0 <= j < 6 ==> d@[j] == digit(n as int, j),
            forall|j: int| 0 <= j < k ==> #[trigger] digit(n as int, j) <= digit(n as int, j + 1),
        decreases 5 - k,
    {
        if d[k + 1] < d[k] {
            assert(!never_decreases(n as int)) by {
                assert(!(digit(n as int, k as int) <= digit(n as int, k + 1)));
            }
            return false;
        }
        k = k + 1;
    }
    let mut k: usize = 0;
    while k < 5
        invariant
            k <= 5,
            never_decreases(n as int),
            forall|j: int| 0 <= j < 6 ==> d@[j] == digit(n as int, j),
            forall|j: int|
                0 <= j < k ==> !(#[trigger] digit(n as int, j) == digit(n as int, j + 1) && (j == 0 || digit(
                    n as int,
                    j - 1,
                ) != digit(n as int, j)) && (j == 4 || digit(n as int, j + 2) != digit(n as int, j))),
        decreases 5 - k,
    {
        if d[k] == d[k + 1] && (k == 0 || d[k - 1] != d[k]) && (k == 4 || d[k + 2] != d[k]) {
            let ghost m = n as int;
            let ghost kk = k as int;
            assert(digit(m, kk) == digit(m, kk + 1) && (kk == 0 || digit(m, kk - 1) != digit(m, kk)) && (kk == 4
                || digit(m, kk + 2) != digit(m, kk)));
            return true;
        }
        k = k + 1;
    }
    false
}

/// Every password from `start` to `end`, both included, in increasing order;
/// the bounds may come in either order. A bound that is not a six-digit
/// number is refused and returned as the error.
pub fn valid_passwords(start: usize, end: usize, strict: bool) -> (r: Result<Vec<usize>, usize>)
    ensures
        !six_digits(start as int) ==> r == Err::<Vec<usize>, usize>(start),
        six_digits(start as int) && !six_digits(end as int) ==> r == Err::<Vec<usize>, usize>(end),
        six_digits(start as int) && six_digits(end as int) ==> r is Ok,
        r is Ok ==> ({
            let lo = if start < end { start as int } else { end as int };
            let hi = if start < end { end as int } else { start as int };
            let v = r->Ok_0@;
            &&& forall|i: int, j: int| 0 <= i < j < v.len() ==> v[i] < v[j]
            &&& forall|n: int| #[trigger] v.contains(n as usize) && 0 <= n <= usize::MAX <==> lo <= n <= hi
                && never_decreases(n) && if strict { has_exact_pair(n) } else { has_pair(n) }
        }),
{
    if !(start >= 100000 && start <= 999999) {
        return Err(start);
    }
    if !(end >= 100000 && end <= 999999) {
        return Err(end);
    }
    let (lo, hi) = if start < end { (start, end) } else { (end, start) };
    let mut found: Vec<usize> = Vec::new();
    let mut n = lo;
    while n <= hi
        invariant
            six_digits(lo as int),
            six_digits(hi as int),
            lo <= n <= hi + 1,
            forall|i: int, j: int| 0 <= i < j < found@.len() ==> found@[i] < found@[j],
            forall|i: int| 0 <= i < found@.len() ==> lo <= #[trigger] found@[i] < n,
            forall|m: int| #[trigger] found@.contains(m as usize) && 0 <= m <= usize::MAX <==> lo <= m < n
                && never_decreases(m) && if strict { has_exact_pair(m) } else { has_pair(m) },
        decreases hi + 1 - n,
    {
        let ok = if strict { is_valid_password_strict(n) } else { is_valid_password(n) };
        let ghost before = found@;
        if ok {
            found.push(n);
        }
        proof {
            assert forall|m: int| #[trigger] found@.contains(m as usize) && 0 <= m <= usize::MAX <==> lo <= m < n + 1
                && never_decreases(m) && if strict { has_exact_pair(m) } else { has_pair(m) } by {
                if ok && m == n {
                    assert(found@[found@.len() - 1] == n);
                }
                if found@.contains(m as usize) && 0 <= m <= usize::MAX && m != n {
                    let i = choose|i: int| 0 <= i < found@.len() && found@[i] == m as usize;
                    assert(before[i] == m as usize);
                }
                if lo <= m < n && 0 <= m <= usize::MAX && before.contains(m as usize) {
                    let i = choose|i: int| 0 <= i < before.len() && before[i] == m as usize;
                    assert(found@[i] == m as usize);
                }
            }
        }
        n = n + 1;
    }
    Ok(found)
}

} // verus!
