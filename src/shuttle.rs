//! Shuttle buses that leave every `id` minutes from time zero.

use vstd::prelude::*;
use vstd::string::StringSliceAdditionalSpecFns;
use vstd::arithmetic::div_mod::{lemma_fundamental_div_mod, lemma_mod_multiples_basic, lemma_mod_self_0};
use crate::text::{parse_unsigned, split, value_of, pieces_of};

verus! {

/// The notes: the earliest time of departure, and the buses in service
/// (`None` for one out of service), in order.
#[derive(Debug)]
pub struct ShuttleSearch {
    pub arrival_time: usize,
    pub buses: Vec<Option<usize>>,
}

/// How long after `arrival` bus `id` next leaves, strictly after an
/// earlier departure.
pub open spec fn wait_for(arrival: int, id: int) -> int {
    (arrival / id) * id + id - arrival
}

impl ShuttleSearch {
    /// Reads the notes: the time on the first line, then the buses
    /// separated by commas, `x` for one out of service; `None` for any
    /// other text.
    pub fn parse(text: &str) -> (r: Option<ShuttleSearch>)
        ensures
            r is Some ==> pieces_of(text.spec_bytes(), 10).len() >= 2 && r->Some_0.arrival_time == value_of(
                pieces_of(text.spec_bytes(), 10)[0],
            ),
    {
        let lines = split(text.as_bytes(), 10);
        if lines.len() < 2 {
            return None;
        }
        let arrival = match parse_unsigned(lines[0].as_slice()) {
            Some(v) => v,
            None => return None,
        };
        if arrival > usize::MAX as u64 {
            return None;
        }
        let fields = split(lines[1].as_slice(), 44);
        let mut buses: Vec<Option<usize>> = Vec::new();
        let mut i: usize = 0;
        while i < fields.len()
            invariant
                i <= fields@.len(),
            decreases fields@.len() - i,
        {
            let f = &fields[i];
            if f.len() == 1 && f[0] == 120 {
                buses.push(None);
            } else {
                match parse_unsigned(f.as_slice()) {
                    Some(v) => {
                        if v == 0 || v > usize::MAX as u64 {
                            return None;
                        }
                        buses.push(Some(v as usize));
                    },
                    None => return None,
                }
            }
            i = i + 1;
        }
        Some(ShuttleSearch { arrival_time: arrival as usize, buses })
    }

    /// The bus in service that leaves first after the arrival time, with
    /// how long it is to wait for it: the first such bus where several
    /// tie. `None` where no bus is in service.
    pub fn next_bus(&self) -> (r: Option<(usize, usize)>)
        requires
            forall|k: int| 0 <= k < self.buses@.len() && #[trigger] self.buses@[k] is Some ==> self.buses@[k]->Some_0 > 0,
        ensures
            r is None <==> forall|k: int| 0 <= k < self.buses@.len() ==> #[trigger] self.buses@[k] is None,
            r is Some ==> ({
                let (id, wait) = r->Some_0;
                &&& wait == wait_for(self.arrival_time as int, id as int)
                &&& exists|k: int| 0 <= k < self.buses@.len() && #[trigger] self.buses@[k] == Some(id)
                &&& forall|k: int| 0 <= k < self.buses@.len() && #[trigger] self.buses@[k] is Some ==> wait_for(
                    self.arrival_time as int,
                    self.buses@[k]->Some_0 as int,
                ) >= wait
            }),
    {
        let arrival = self.arrival_time;
        let mut best: Option<(usize, usize)> = None;
        let mut i: usize = 0;
        while i < self.buses.len()
            invariant
                arrival == self.arrival_time,
                i <= self.buses@.len(),
                forall|k: int| 0 <= k < self.buses@.len() && #[trigger] self.buses@[k] is Some ==> self.buses@[k]->Some_0 > 0,
                best is None <==> forall|k: int| 0 <= k < i ==> #[trigger] self.buses@[k] is None,
                best is Some ==> ({
                    let (id, wait) = best->Some_0;
                    &&& wait == wait_for(arrival as int, id as int)
                    &&& exists|k: int| 0 <= k < i && #[trigger] self.buses@[k] == Some(id)
                    &&& forall|k: int| 0 <= k < i && #[trigger] self.buses@[k] is Some ==> wait_for(
                        arrival as int,
                        self.buses@[k]->Some_0 as int,
                    ) >= wait
                }),
            decreases self.buses@.len() - i,
        {
            match self.buses[i] {
                Some(id) => {
                    proof {
                        lemma_fundamental_div_mod(arrival as int, id as int);
                        assert(0 <= (arrival as int) % (id as int) < id);
                        assert((arrival / id) * id <= arrival) by (nonlinear_arith)
                            requires
                                arrival == id * (arrival / id) + arrival % id,
                                0 <= arrival % id,
                        ;
                    }
                    let previous = (arrival / id) * id;
                    let wait = id - (arrival - previous);
                    let better = match best {
                        None => true,
                        Some((_, w)) => wait < w,
                    };
                    if better {
                        best = Some((id, wait));
                    }
                },
                None => {},
            }
            i = i + 1;
        }
        best
    }

    /// The earliest time at which each bus in service leaves as many
    /// minutes after it as its rank in the list, found by sieving bus after
    /// bus; the step between candidates grows by each bus's number, which
    /// finds the earliest time only where the numbers are pairwise coprime. `None` where the
    /// sieve finds no time for a bus or a number overflows.
    pub fn golden_timestamp(&self) -> (r: Option<usize>)
        ensures
            r is Some ==> forall|k: int| 0 <= k < self.buses@.len() && #[trigger] self.buses@[k] is Some
                ==> self.buses@[k]->Some_0 > 0 && (r->Some_0 + k) % (self.buses@[k]->Some_0 as int) == 0,
    {
        let mut solution: usize = 0;
        let mut increment: usize = 1;
        let mut i: usize = 0;
        while i < self.buses.len()
            invariant
                i <= self.buses@.len(),
                increment > 0,
                forall|k: int| 0 <= k < i && #[trigger] self.buses@[k] is Some ==> self.buses@[k]->Some_0 > 0
                    && (solution + k) % (self.buses@[k]->Some_0 as int) == 0,
                forall|k: int| 0 <= k < i && #[trigger] self.buses@[k] is Some ==> (increment as int) % (self.buses@[k]->Some_0 as int) == 0,
            decreases self.buses@.len() - i,
        {
            match self.buses[i] {
                None => {},
                Some(id) => {
                    if id == 0 {
                        return None;
                    }
                    let mut v: usize = 0;
                    let mut found = false;
                    while v < id
                        invariant_except_break
                            !found,
                        invariant
                            found ==> (solution + i) % (id as int) == 0,
                            id > 0,
                            v <= id,
                            i < self.buses@.len(),
                            self.buses@[i as int] == Some(id),
                            increment > 0,
                            forall|k: int| 0 <= k < i && #[trigger] self.buses@[k] is Some ==> self.buses@[k]->Some_0 > 0
                                && (solution + k) % (self.buses@[k]->Some_0 as int) == 0,
                            forall|k: int| 0 <= k < i && #[trigger] self.buses@[k] is Some ==> (increment as int) % (
                            self.buses@[k]->Some_0 as int) == 0,
                        decreases id - v,
                    {
                        let candidate = match increment.checked_mul(v) {
                            Some(m) => match solution.checked_add(m) {
                                Some(c) => c,
                                None => return None,
                            },
                            None => return None,
                        };
                        let shifted = match candidate.checked_add(i) {
                            Some(c) => c,
                            None => return None,
                        };
                        if shifted % id == 0 {
                            proof {
                                assert forall|k: int| 0 <= k < i && #[trigger] self.buses@[k] is Some implies (candidate + k) % (
                                self.buses@[k]->Some_0 as int) == 0 by {
                                    let b = self.buses@[k]->Some_0 as int;
                                    lemma_sieve_step(solution as int, k, increment as int, v as int, b);
                                }
                            }
                            solution = candidate;
                            found = true;
                            break;
                        }
                        v = v + 1;
                    }
                    if !found {
                        return None;
                    }
                    let next = match increment.checked_mul(id) {
                        Some(n) => n,
                        None => return None,
                    };
                    proof {
                        assert forall|k: int| 0 <= k < i + 1 && #[trigger] self.buses@[k] is Some implies (next as int) % (
                        self.buses@[k]->Some_0 as int) == 0 by {
                            let b = self.buses@[k]->Some_0 as int;
                            if k < i {
                                lemma_multiple_of_multiple(increment as int, id as int, b);
                            } else {
                                lemma_mod_self_0(id as int);
                                lemma_multiple_of_multiple(id as int, increment as int, b);
                                assert(increment * id == id * increment) by (nonlinear_arith);
                            }
                        }
                        assert(next > 0) by (nonlinear_arith)
                            requires
                                next == increment * id,
                                increment > 0,
                                id > 0,
                        ;
                    }
                    increment = next;
                },
            }
            i = i + 1;
        }
        Some(solution)
    }
}

/// Adding a multiple of `b` keeps the remainder by `b`.
pub proof fn lemma_sieve_step(s: int, k: int, inc: int, v: int, b: int)
    requires
        b > 0,
        (s + k) % b == 0,
        inc % b == 0,
    ensures
        (s + inc * v + k) % b == 0,
{
    lemma_fundamental_div_mod(s + k, b);
    lemma_fundamental_div_mod(inc, b);
    let p = (s + k) / b;
    let q = inc / b;
    assert(s + inc * v + k == (p + q * v) * b) by (nonlinear_arith)
        requires
            s + k == b * p,
            inc == b * q,
    ;
    lemma_mod_multiples_basic(p + q * v, b);
}

/// A multiple of a multiple of `b` is a multiple of `b`.
pub proof fn lemma_multiple_of_multiple(a: int, c: int, b: int)
    requires
        b > 0,
        a % b == 0,
    ensures
        (a * c) % b == 0,
{
    lemma_fundamental_div_mod(a, b);
    let q = a / b;
    assert(a * c == (q * c) * b) by (nonlinear_arith)
        requires
            a == b * q,
    ;
    lemma_mod_multiples_basic(q * c, b);
}

} // verus!
