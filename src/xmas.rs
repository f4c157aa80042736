//! The XMAS cipher: after a preamble, every number must be the sum of two
//! different numbers among the ones just before it.

use vstd::prelude::*;

verus! {

/// What the cipher says of one number.
#[derive(Debug, Clone, Copy, PartialEq, Eq, Structural)]
pub enum Xmas {
    /// Part of the preamble.
    Buffer(usize),
    /// The sum of the two numbers that follow it.
    Valid(usize, usize, usize),
    /// The sum of no two different numbers of the window.
    NotValid(usize),
}

/// Whether the window holds two different numbers, at `i` and `j`, that
/// sum to `number`.
pub open spec fn sums_to(w: Seq<usize>, i: int, j: int, number: int) -> bool {
    0 <= i < w.len() && 0 <= j < w.len() && w[i] != w[j] && w[i] + w[j] == number
}

/// A reader of the cipher over a list of numbers, with the window of the
/// last `capacity` numbers that were accepted.
#[derive(Debug)]
pub struct XmasIterator {
    numbers: Vec<usize>,
    position: usize,
    capacity: usize,
    buffer: Vec<usize>,
}

impl XmasIterator {
    /// A reader at the start of `numbers`, with a preamble of `capacity`.
    pub fn new(numbers: Vec<usize>, capacity: usize) -> (r: XmasIterator)
        ensures
            r.wf(),
            r.window() == Seq::<usize>::empty(),
            r.position() == 0,
    {
        XmasIterator { numbers, position: 0, capacity, buffer: Vec::new() }
    }

    /// The window never exceeds the capacity, and the position stays within
    /// the numbers.
    pub closed spec fn wf(&self) -> bool {
        self.buffer@.len() <= self.capacity && self.position <= self.numbers@.len()
    }

    /// The numbers in the window, oldest first.
    pub closed spec fn window(&self) -> Seq<usize> {
        self.buffer@
    }

    /// The numbers to read.
    pub closed spec fn input(&self) -> Seq<usize> {
        self.numbers@
    }

    /// The size of the preamble and of the window.
    pub closed spec fn capacity_spec(&self) -> int {
        self.capacity as int
    }

    /// How many numbers have been read.
    pub closed spec fn position(&self) -> int {
        self.position as int
    }

    /// Two different numbers of the window that sum to `number`, the first
    /// pair by the position of the first, then of the second.
    pub fn check(&self, number: usize) -> (r: Option<(usize, usize)>)
        ensures
            match r {
                Some((a, b)) => exists|i: int, j: int|
                    #[trigger] sums_to(self.window(), i, j, number as int) && self.window()[i] == a && self.window()[j] == b,
                None => forall|i: int, j: int| !#[trigger] sums_to(self.window(), i, j, number as int),
            },
    {
        let w = &self.buffer;
        let mut i: usize = 0;
        while i < w.len()
            invariant
                w@ == self.window(),
                i <= w@.len(),
                forall|a: int, b: int| 0 <= a < i ==> !#[trigger] sums_to(w@, a, b, number as int),
            decreases w@.len() - i,
        {
            let mut j: usize = 0;
            while j < w.len()
                invariant
                    w@ == self.window(),
                    i < w@.len(),
                    j <= w@.len(),
                    forall|a: int, b: int| 0 <= a < i ==> !#[trigger] sums_to(w@, a, b, number as int),
                    forall|b: int| 0 <= b < j ==> !#[trigger] sums_to(w@, i as int, b, number as int),
                decreases w@.len() - j,
            {
                if w[i] != w[j] && w[i] as u128 + w[j] as u128 == number as u128 {
                    assert(sums_to(w@, i as int, j as int, number as int));
                    return Some((w[i], w[j]));
                }
                j = j + 1;
            }
            i = i + 1;
        }
        None
    }

    /// Reads the next number: while the window fills it is preamble; then
    /// it is valid, and joins the window in place of the oldest, or not
    /// valid, and leaves the window as it is. `None` at the end.
    pub fn next(&mut self) -> (r: Option<Xmas>)
        requires
            old(self).wf(),
        ensures
            final(self).wf(),
            r is None <==> old(self).position() == old(self).input().len(),
            match r {
                None => final(self).window() == old(self).window(),
                Some(Xmas::Buffer(n)) => n == old(self).input()[old(self).position()]
                    && final(self).window() == old(self).window().push(n),
                Some(Xmas::Valid(n, a, b)) => n == old(self).input()[old(self).position()]
                    && (exists|i: int, j: int| #[trigger] sums_to(old(self).window(), i, j, n as int)
                        && old(self).window()[i] == a && old(self).window()[j] == b)
                    && final(self).window() == old(self).window().push(n).drop_first(),
                Some(Xmas::NotValid(n)) => n == old(self).input()[old(self).position()]
                    && (forall|i: int, j: int| !#[trigger] sums_to(old(self).window(), i, j, n as int))
                    && final(self).window() == old(self).window(),
            },
            r is Some ==> final(self).position() == old(self).position() + 1,
            final(self).input() == old(self).input(),
            final(self).capacity_spec() == old(self).capacity_spec(),
    {
        if self.position >= self.numbers.len() {
            return None;
        }
        let number = self.numbers[self.position];
        self.position = self.position + 1;
        if self.buffer.len() < self.capacity {
            self.buffer.push(number);
            return Some(Xmas::Buffer(number));
        }
        assert(self.window() == old(self).window());
        let found = self.check(number);
        match found {
            Some((a, b)) => {
                self.buffer.push(number);
                self.buffer.remove(0);
                proof {
                    assert(self.buffer@ =~= old(self).buffer@.push(number).drop_first());
                }
                Some(Xmas::Valid(number, a, b))
            },
            None => Some(Xmas::NotValid(number)),
        }
    }

    /// The first number that is not valid, and a run of two or more
    /// contiguous accepted numbers before it, or of one, that sums to it:
    /// the first such run by its start. `None` where every number is valid
    /// or no run sums to the first invalid one.
    pub fn xmas_number(self) -> (r: Option<(usize, Vec<usize>)>)
        requires
            self.wf(),
        ensures
            r is Some ==> sum_of(r->Some_0.1@) == r->Some_0.0 as int && r->Some_0.1@.len() > 0,
    {
        let mut reader = self;
        let mut valid_numbers: Vec<usize> = Vec::new();
        let mut invalid: Option<usize> = None;
        let mut steps: usize = reader.numbers.len() - reader.position;
        while steps > 0
            invariant_except_break
                steps == reader.numbers@.len() - reader.position,
            invariant
                reader.wf(),
            decreases steps,
        {
            match reader.next() {
                None => break,
                Some(Xmas::NotValid(n)) => {
                    invalid = Some(n);
                    break;
                },
                Some(Xmas::Valid(n, _, _)) => valid_numbers.push(n),
                Some(Xmas::Buffer(n)) => valid_numbers.push(n),
            }
            steps = steps - 1;
        }
        let target = match invalid {
            Some(n) => n,
            None => return None,
        };
        let mut low: usize = 0;
        while low < valid_numbers.len()
            invariant
                low <= valid_numbers@.len(),
            decreases valid_numbers@.len() - low,
        {
            let mut sum: u128 = 0;
            let mut up: usize = low;
            while up < valid_numbers.len()
                invariant_except_break
                    sum == sum_of(valid_numbers@.subrange(low as int, up as int)),
                    sum <= usize::MAX as u128,
                invariant
                    low <= up <= valid_numbers@.len(),
                decreases valid_numbers@.len() - up,
            {
                proof {
                    assert(valid_numbers@.subrange(low as int, up + 1).drop_last() =~= valid_numbers@.subrange(low as int, up as int));
                }
                sum = sum + valid_numbers[up] as u128;
                if sum == target as u128 {
                    let run = crate::xmas::copy_run(&valid_numbers, low, up + 1);
                    return Some((target, run));
                }
                if sum > usize::MAX as u128 {
                    break;
                }
                up = up + 1;
            }
            low = low + 1;
        }
        None
    }
}

/// The sum of a sequence of numbers.
pub open spec fn sum_of(s: Seq<usize>) -> int
    decreases s.len(),
{
    if s.len() == 0 {
        0
    } else {
        sum_of(s.drop_last()) + s.last()
    }
}

/// The numbers of `v` from `start` up to `end`, not included.
fn copy_run(v: &Vec<usize>, start: usize, end: usize) -> (r: Vec<usize>)
    requires
        start <= end <= v@.len(),
    ensures
        r@ == v@.subrange(start as int, end as int),
{
    let mut r: Vec<usize> = Vec::new();
    let mut i = start;
    while i < end
        invariant
            start <= i <= end <= v@.len(),
            r@ == v@.subrange(start as int, i as int),
        decreases end - i,
    {
        r.push(v[i]);
        proof {
            assert(v@.subrange(start as int, i + 1) =~= v@.subrange(start as int, i as int).push(v@[i as int]));
        }
        i = i + 1;
    }
    r
}

} // verus!
