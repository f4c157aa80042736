//! Chains of joltage adapters, from the outlet (0) to the device (three
//! above the largest adapter).

use vstd::prelude::*;

verus! {

/// Whether a sequence is in increasing order, equal values allowed.
pub open spec fn sorted(s: Seq<usize>) -> bool {
    forall|i: int, j: int| 0 <= i < j < s.len() ==> s[i] <= s[j]
}

/// `values` in increasing order.
pub fn sort(values: &Vec<usize>) -> (r: Vec<usize>)
    ensures
        sorted(r@),
        r@.len() == values@.len(),
        forall|x: usize| r@.contains(x) <==> values@.contains(x),
{
    let mut r: Vec<usize> = Vec::new();
    let mut i: usize = 0;
    while i < values.len()
        invariant
            i <= values@.len(),
            sorted(r@),
            r@.len() == i,
            forall|x: usize| r@.contains(x) <==> values@.subrange(0, i as int).contains(x),
        decreases values@.len() - i,
    {
        let x = values[i];
        let mut p: usize = 0;
        while p < r.len() && r[p] <= x
            invariant
                p <= r@.len(),
                forall|j: int| 0 <= j < p ==> r@[j] <= x,
            decreases r@.len() - p,
        {
            p = p + 1;
        }
        let ghost before = r@;
        assert(forall|y: usize| before.contains(y) <==> values@.subrange(0, i as int).contains(y));
        r.insert(p, x);
        proof {
            assert(r@ == before.insert(p as int, x));
            before.insert_ensures(p as int, x);
            assert(values@.subrange(0, i + 1) =~= values@.subrange(0, i as int).push(x));
            assert forall|a: int, b: int| 0 <= a < b < r@.len() implies r@[a] <= r@[b] by {
                if a < p && b > p {
                    assert(before[a] <= x);
                }
            }
            assert forall|y: usize| r@.contains(y) <==> values@.subrange(0, i + 1).contains(y) by {
                let s0 = values@.subrange(0, i as int);
                let s1 = values@.subrange(0, i + 1);
                if r@.contains(y) {
                    let k = choose|k: int| 0 <= k < r@.len() && r@[k] == y;
                    if k == p {
                        assert(s1[i as int] == y);
                    } else if k < p {
                        assert(before[k] == y);
                        assert(before.contains(y));
                        let m = choose|m: int| 0 <= m < s0.len() && s0[m] == y;
                        assert(s1[m] == y);
                    } else {
                        assert(before[k - 1] == y);
                        assert(before.contains(y));
                        let m = choose|m: int| 0 <= m < s0.len() && s0[m] == y;
                        assert(s1[m] == y);
                    }
                }
                if s1.contains(y) {
                    let m = choose|m: int| 0 <= m < s1.len() && s1[m] == y;
                    if m == i {
                        assert(r@[p as int] == y);
                    } else {
                        assert(s0[m] == y);
                        assert(s0.contains(y));
                        assert(before.contains(y));
                        let k = choose|k: int| 0 <= k < before.len() && before[k] == y;
                        if k < p {
                            assert(r@[k] == y);
                        } else {
                            assert(r@[k + 1] == y);
                        }
                    }
                }
            }
        }
        i = i + 1;
    }
    proof {
        assert(values@.subrange(0, i as int) =~= values@);
    }
    r
}

/// The adapters in a chain, the outlet first and the device last.
#[derive(Debug)]
pub struct Adapters {
    adapters: Vec<usize>,
}

impl View for Adapters {
    type V = Seq<usize>;

    closed spec fn view(&self) -> Seq<usize> {
        self.adapters@
    }
}

/// How many of the steps between neighbours are exactly `d` apart, over
/// the first `k` steps.
pub open spec fn gaps_of(a: Seq<usize>, k: int, d: int) -> nat
    decreases k,
{
    if k <= 0 {
        0
    } else {
        gaps_of(a, k - 1, d) + if a[k] - a[k - 1] == d { 1nat } else { 0 }
    }
}

pub proof fn lemma_gaps_bounded(a: Seq<usize>, k: int, d: int)
    requires
        k >= 0,
    ensures
        gaps_of(a, k, d) <= k,
    decreases k,
{
    if k > 0 {
        lemma_gaps_bounded(a, k - 1, d);
    }
}

/// The number of ways to reach adapter `i` from the outlet, each step
/// rising by one to three.
pub open spec fn ways(a: Seq<usize>, i: int) -> nat
    decreases i, i + 1,
{
    if i <= 0 {
        1
    } else {
        ways_from(a, i, i - 1)
    }
}

/// The ways to reach adapter `i` through one of the adapters `0..=j`.
pub open spec fn ways_from(a: Seq<usize>, i: int, j: int) -> nat
    decreases i, j + 1,
{
    if j < 0 || i <= 0 || j >= i {
        0
    } else {
        ways_from(a, i, j - 1) + if a[i] <= a[j] + 3 { ways(a, j) } else { 0 }
    }
}

impl Adapters {
    /// The chain of the given adapters: sorted, after the outlet, and
    /// followed by the device, three above the largest.
    pub fn new(values: Vec<usize>) -> (r: Option<Adapters>)
        ensures
            r is Some <==> forall|k: int| 0 <= k < values@.len() ==> values@[k] <= usize::MAX - 3,
            r is Some ==> ({
                let a = r->Some_0@;
                &&& sorted(a)
                &&& a.len() == values@.len() + 2
                &&& a[0] == 0
                &&& a.last() == a[a.len() - 2] + 3
                &&& forall|x: usize| a.subrange(1, a.len() - 1).contains(x) <==> values@.contains(x)
            }),
    {
        let mut i: usize = 0;
        while i < values.len()
            invariant
                i <= values@.len(),
                forall|k: int| 0 <= k < i ==> values@[k] <= usize::MAX - 3,
            decreases values@.len() - i,
        {
            if values[i] > usize::MAX - 3 {
                return None;
            }
            i = i + 1;
        }
        let sorted_values = sort(&values);
        let mut adapters: Vec<usize> = vec![0];
        let mut k: usize = 0;
        while k < sorted_values.len()
            invariant
                k <= sorted_values@.len(),
                adapters@ == seq![0usize] + sorted_values@.subrange(0, k as int),
            decreases sorted_values@.len() - k,
        {
            adapters.push(sorted_values[k]);
            proof {
                assert(seq![0usize] + sorted_values@.subrange(0, k + 1) =~= (seq![0usize] + sorted_values@.subrange(0, k as int)).push(sorted_values@[k as int]));
            }
            k = k + 1;
        }
        proof {
            assert(sorted_values@.subrange(0, k as int) =~= sorted_values@);
            assert forall|x: usize| sorted_values@.contains(x) implies x <= usize::MAX - 3 by {
                assert(values@.contains(x));
            }
            if sorted_values@.len() > 0 {
                assert(sorted_values@.contains(sorted_values@.last()));
            }
        }
        let last = adapters[adapters.len() - 1];
        adapters.push(last + 3);
        proof {
            let a = adapters@;
            assert(a.subrange(1, a.len() - 1) =~= sorted_values@);
            assert forall|p: int, q: int| 0 <= p < q < a.len() implies a[p] <= a[q] by {
                if p > 0 && q < a.len() - 1 {
                    assert(sorted_values@[p - 1] <= sorted_values@[q - 1]);
                }
                if q == a.len() - 1 && p > 0 && p < a.len() - 2 {
                    assert(sorted_values@[p - 1] <= sorted_values@[a.len() - 3]);
                }
            }
        }
        Some(Adapters { adapters })
    }

    /// The adapters of the chain, the outlet and device included.
    pub fn adapters(&self) -> (r: &Vec<usize>)
        ensures
            r@ == self@,
    {
        &self.adapters
    }

    /// How many steps along the chain rise by one, two and three; `None`
    /// where a step rises by zero or by more than three, which breaks the
    /// chain.
    pub fn differences(&self) -> (r: Option<(usize, usize, usize)>)
        requires
            sorted(self@),
        ensures
            r is Some <==> forall|k: int| 1 <= k < self@.len() ==> 1 <= #[trigger] self@[k] - self@[k - 1] <= 3,
            r is Some ==> ({
                let n = self@.len() as int - 1;
                r->Some_0 == (gaps_of(self@, n, 1) as usize, gaps_of(self@, n, 2) as usize, gaps_of(self@, n, 3) as usize)
            }),
    {
        let a = &self.adapters;
        let mut one: usize = 0;
        let mut two: usize = 0;
        let mut three: usize = 0;
        if a.len() == 0 {
            return Some((0, 0, 0));
        }
        let mut k: usize = 1;
        while k < a.len()
            invariant
                a@ == self@,
                sorted(a@),
                1 <= k <= a@.len(),
                forall|j: int| 1 <= j < k ==> 1 <= #[trigger] a@[j] - a@[j - 1] <= 3,
                one == gaps_of(a@, k - 1, 1),
                two == gaps_of(a@, k - 1, 2),
                three == gaps_of(a@, k - 1, 3),
            decreases a@.len() - k,
        {
            proof {
                lemma_gaps_bounded(a@, k - 1, 1);
                lemma_gaps_bounded(a@, k - 1, 2);
                lemma_gaps_bounded(a@, k - 1, 3);
            }
            let d = a[k] - a[k - 1];
            if d == 1 {
                one = one + 1;
            } else if d == 2 {
                two = two + 1;
            } else if d == 3 {
                three = three + 1;
            } else {
                return None;
            }
            k = k + 1;
        }
        Some((one, two, three))
    }

    /// The number of distinct chains from the outlet to the device that use
    /// some of the adapters, each step rising by one to three; `None` where
    /// the number does not fit.
    pub fn arrangements(&self) -> (r: Option<usize>)
        requires
            sorted(self@),
        ensures
            self@.len() > 0 && r is Some ==> r->Some_0 == ways(self@, self@.len() - 1),
    {
        let a = &self.adapters;
        let n = a.len();
        if n == 0 {
            return Some(1);
        }
        let mut counts: Vec<usize> = vec![1];
        let mut i: usize = 1;
        while i < n
            invariant
                a@ == self@,
                sorted(a@),
                n == a@.len(),
                1 <= i <= n,
                counts@.len() == i,
                forall|k: int| 0 <= k < i ==> #[trigger] counts@[k] == ways(a@, k),
            decreases n - i,
        {
            let mut total: usize = 0;
            let mut j: usize = 0;
            while j < i
                invariant
                    a@ == self@,
                    n == a@.len(),
                    1 <= i < n,
                    sorted(a@),
                    j <= i,
                    counts@.len() == i,
                    forall|k: int| 0 <= k < i ==> #[trigger] counts@[k] == ways(a@, k),
                    total == ways_from(a@, i as int, j - 1),
                decreases i - j,
            {
                if a[i] - a[j] <= 3 {
                    match total.checked_add(counts[j]) {
                        Some(t) => total = t,
                        None => return None,
                    }
                }
                j = j + 1;
            }
            counts.push(total);
            i = i + 1;
        }
        Some(counts[n - 1])
    }
}

} // verus!
