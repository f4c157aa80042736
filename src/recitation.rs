//! The elves' memory game: after the starting numbers, each number spoken
//! is how many turns apart the previous number was last spoken, or zero
//! where it was new.

use vstd::prelude::*;

verus! {

/// The position of the last `v` in `s`, or -1 where there is none.
pub open spec fn last_index(s: Seq<usize>, v: usize) -> int
    decreases s.len(),
{
    if s.len() == 0 {
        -1
    } else if s.last() == v {
        s.len() - 1
    } else {
        last_index(s.drop_last(), v)
    }
}

/// The number spoken after the numbers of `s`, the game having started
/// with `start`.
pub open spec fn next_spoken(start: Seq<usize>, s: Seq<usize>) -> int {
    if s.len() < start.len() {
        start[s.len() as int] as int
    } else if s.len() == 0 {
        0
    } else {
        let j = last_index(s.drop_last(), s.last());
        if j >= 0 {
            s.len() - 1 - j
        } else {
            0
        }
    }
}

/// Whether `s` is the game's first numbers, each following from the ones
/// before.
pub open spec fn is_game(start: Seq<usize>, s: Seq<usize>) -> bool {
    forall|k: int| 0 <= k < s.len() ==> #[trigger] s[k] as int == next_spoken(start, s.subrange(0, k))
}

pub proof fn lemma_last_index_bounded(s: Seq<usize>, v: usize)
    ensures
        -1 <= last_index(s, v) < s.len(),
        last_index(s, v) >= 0 ==> s[last_index(s, v)] == v,
    decreases s.len(),
{
    if s.len() > 0 && s.last() != v {
        lemma_last_index_bounded(s.drop_last(), v);
    }
}

/// A game in progress.
pub struct Recitation {
    start: Vec<usize>,
    spoken: Ghost<Seq<usize>>,
    turn: usize,
    last_number: usize,
    cache: Vec<usize>,
}

impl Recitation {
    /// The game with these starting numbers, before its first turn.
    pub fn new(start: Vec<usize>) -> (r: Recitation)
        ensures
            r.wf(),
            r.start_numbers() == start@,
            r.spoken_numbers() == Seq::<usize>::empty(),
    {
        Recitation { start, spoken: Ghost(Seq::empty()), turn: 0, last_number: 0, cache: Vec::new() }
    }

    /// The starting numbers.
    pub closed spec fn start_numbers(&self) -> Seq<usize> {
        self.start@
    }

    /// The numbers spoken so far.
    pub closed spec fn spoken_numbers(&self) -> Seq<usize> {
        self.spoken@
    }

    /// The numbers so far follow the rules, and the cache holds, for each
    /// number, one more than where it was last spoken before the latest
    /// turn, or zero.
    pub closed spec fn wf(&self) -> bool {
        &&& is_game(self.start@, self.spoken@)
        &&& self.turn == self.spoken@.len()
        &&& self.turn > 0 ==> self.last_number == self.spoken@.last()
        &&& forall|v: int| 0 <= v < self.cache@.len() ==> #[trigger] self.cache@[v] == last_index(self.earlier(), v as usize) + 1
        &&& forall|v: usize| v >= self.cache@.len() ==> #[trigger] last_index(self.earlier(), v) == -1
    }

    /// The numbers spoken before the latest one.
    pub closed spec fn earlier(&self) -> Seq<usize> {
        if self.spoken@.len() == 0 {
            self.spoken@
        } else {
            self.spoken@.drop_last()
        }
    }

    /// Speaks the next number; `None` where the turn count is exhausted.
    pub fn next(&mut self) -> (r: Option<usize>)
        requires
            old(self).wf(),
        ensures
            final(self).wf(),
            final(self).start_numbers() == old(self).start_numbers(),
            r is Some ==> r->Some_0 as int == next_spoken(old(self).start_numbers(), old(self).spoken_numbers())
                && final(self).spoken_numbers() == old(self).spoken_numbers().push(r->Some_0),
    {
        if self.turn == usize::MAX {
            return None;
        }
        let ghost all = self.spoken@;
        let ghost prev = self.earlier();
        let ghost expected = next_spoken(self.start@, all);
        proof {
            lemma_last_index_bounded(prev, self.last_number);
            if all.len() > 0 {
                assert(prev == all.drop_last());
            }
        }
        let number: usize = if self.turn < self.start.len() {
            self.start[self.turn]
        } else if self.turn == 0 {
            0
        } else {
            let last = self.last_number;
            let seen = if last < self.cache.len() { self.cache[last] } else { 0 };
            proof {
                if last < self.cache@.len() {
                    assert(seen == last_index(prev, last) + 1);
                } else {
                    assert(last_index(prev, last) == -1);
                }
            }
            if seen > 0 {
                self.turn - seen
            } else {
                0
            }
        };
        assert(number as int == expected);
        if self.turn > 0 {
            let last = self.last_number;
            while self.cache.len() <= last
                invariant
                    forall|v: int| 0 <= v < self.cache@.len() ==> #[trigger] self.cache@[v] == last_index(prev, v as usize) + 1,
                    forall|v: usize| v >= self.cache@.len() ==> #[trigger] last_index(prev, v) == -1,
                    self.spoken@ == all,
                    self.start@ == old(self).start@,
                    self.turn == old(self).turn,
                    self.last_number == last,
                decreases last + 1 - self.cache@.len(),
            {
                let ghost k = self.cache@.len();
                assert(last_index(prev, k as usize) == -1);
                self.cache.push(0);
            }
            self.cache.set(last, self.turn);
            proof {
                assert(all.drop_last() == prev);
                assert(all =~= prev.push(last));
                assert forall|v: int| 0 <= v < self.cache@.len() implies #[trigger] self.cache@[v] == last_index(all, v as usize) + 1 by {
                    if v != last {
                        assert(last_index(all, v as usize) == last_index(prev, v as usize));
                    }
                }
                assert forall|v: usize| v >= self.cache@.len() implies #[trigger] last_index(all, v) == -1 by {
                    assert(last_index(all, v) == last_index(prev, v));
                }
            }
        } else {
            proof {
                assert(all.len() == 0);
                assert forall|v: usize| v >= self.cache@.len() implies #[trigger] last_index(all, v) == -1 by {}
                assert forall|v: int| 0 <= v < self.cache@.len() implies #[trigger] self.cache@[v] == last_index(all, v as usize) + 1 by {
                    assert(prev == all);
                }
            }
        }
        proof {
            self.spoken = Ghost(all.push(number));
            assert(self.spoken@.drop_last() =~= all);
            assert forall|k: int| 0 <= k < self.spoken@.len() implies #[trigger] self.spoken@[k] as int == next_spoken(
                self.start@,
                self.spoken@.subrange(0, k),
            ) by {
                if k < all.len() {
                    assert(self.spoken@.subrange(0, k) =~= all.subrange(0, k));
                    assert(all[k] as int == next_spoken(self.start@, all.subrange(0, k)));
                } else {
                    assert(self.spoken@.subrange(0, k) =~= all);
                }
            }
        }
        self.turn = self.turn + 1;
        self.last_number = number;
        Some(number)
    }

    /// The number spoken on turn `n`, counted from one; `None` where `n`
    /// is zero or the turn count is exhausted.
    pub fn nth(start: Vec<usize>, n: usize) -> (r: Option<usize>)
        ensures
            n > 0 && r is Some ==> exists|s: Seq<usize>| #[trigger] is_game(start@, s) && s.len() == n && s.last() == r->Some_0,
    {
        if n == 0 {
            return None;
        }
        let mut game = Recitation::new(start);
        let mut k: usize = 0;
        let mut last: usize = 0;
        while k < n
            invariant
                game.wf(),
                game.start_numbers() == start@,
                game.spoken_numbers().len() == k,
                k <= n,
                k > 0 ==> game.spoken_numbers().last() == last,
            decreases n - k,
        {
            last = game.next()?;
            k = k + 1;
        }
        proof {
            assert(is_game(start@, game.spoken_numbers()));
        }
        Some(last)
    }
}

} // verus!
