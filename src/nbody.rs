//! Moons that pull on each other axis by axis: their motion, their energy,
//! and the period after which the whole system repeats.

use vstd::prelude::*;
use vstd::string::StringSliceAdditionalSpecFns;
use crate::text::{parse_signed, same_bytes, signed_value_of, slice_range};

verus! {

/// A point or a velocity in three dimensions.
pub type Triple = (i64, i64, i64);

/// A moon: where it is and how it moves.
#[derive(Debug, Clone, Copy, PartialEq, Eq)]
pub struct Moon {
    pub position: Triple,
    pub velocity: Triple,
}

/// The pull along one axis of a body at `q` on a body at `p`.
pub open spec fn sign(p: int, q: int) -> int {
    if p < q {
        1
    } else if p > q {
        -1
    } else {
        0
    }
}

/// Coordinate `axis` (0, 1 or 2) of a triple.
pub open spec fn coord(t: Triple, axis: int) -> int {
    if axis == 0 {
        t.0 as int
    } else if axis == 1 {
        t.1 as int
    } else {
        t.2 as int
    }
}

/// The absolute value.
pub open spec fn abs(x: int) -> int {
    if x < 0 {
        -x
    } else {
        x
    }
}

/// The sum of the absolute values of the coordinates.
pub open spec fn norm(t: Triple) -> int {
    abs(t.0 as int) + abs(t.1 as int) + abs(t.2 as int)
}

/// Whether an integer fits in `i64`.
pub open spec fn fits(x: int) -> bool {
    i64::MIN <= x <= i64::MAX
}

/// The value of `v` moved one step towards `q` from `p`, where it fits.
fn nudge(v: i64, p: i64, q: i64) -> (r: Option<i64>)
    ensures
        r is Some <==> fits(v + sign(p as int, q as int)),
        r is Some ==> r->Some_0 == v + sign(p as int, q as int),
{
    if p < q {
        v.checked_add(1)
    } else if p > q {
        v.checked_sub(1)
    } else {
        Some(v)
    }
}

/// The absolute value, where it fits.
fn checked_abs(x: i64) -> (r: Option<i64>)
    ensures
        r is Some <==> fits(abs(x as int)),
        r is Some ==> r->Some_0 == abs(x as int),
{
    if x == i64::MIN {
        None
    } else if x < 0 {
        Some(-x)
    } else {
        Some(x)
    }
}

/// The sum of the absolute values of a triple's coordinates, where it fits.
fn checked_norm(t: Triple) -> (r: Option<i64>)
    ensures
        r is Some ==> r->Some_0 == norm(t),
        fits(abs(t.0 as int)) && fits(abs(t.1 as int)) && fits(abs(t.2 as int)) && fits(norm(t)) ==> r is Some,
{
    let a = checked_abs(t.0)?;
    let b = checked_abs(t.1)?;
    let c = checked_abs(t.2)?;
    let ab = a.checked_add(b)?;
    ab.checked_add(c)
}

/// Reads the number between `start` and the first byte of `line` at or
/// after it that is `end`.
fn field(line: &[u8], start: usize, end: u8) -> (r: Option<(i64, usize)>)
    ensures
        r is Some ==> start < r->Some_0.1 < line@.len() && line@[r->Some_0.1 as int] == end
            && signed_value_of(line@.subrange(start as int, r->Some_0.1 as int)) == Some(r->Some_0.0 as int),
{
    let mut i = start;
    while i < line.len() && line[i] != end
        invariant
            start <= i <= line@.len() || i == start,
        decreases line@.len() - i,
    {
        i = i + 1;
    }
    if i >= line.len() || i == start {
        return None;
    }
    let text = slice_range(line, start, i);
    match parse_signed(text.as_slice()) {
        Some(v) => Some((v, i)),
        None => None,
    }
}

/// Whether `line` holds the bytes of `word` from position `at`.
fn has_at(line: &[u8], at: usize, word: &[u8]) -> (r: bool)
    ensures
        r == (at + word@.len() <= line@.len() && line@.subrange(at as int, at + word@.len()) == word@),
{
    if at > line.len() || word.len() > line.len() - at {
        return false;
    }
    let n = line.len();
    let mut k: usize = 0;
    while k < word.len()
        invariant
            n == line@.len(),
            at + word@.len() <= line@.len(),
            k <= word@.len(),
            forall|j: int| 0 <= j < k ==> line@[at + j] == word@[j],
        decreases word@.len() - k,
    {
        if line[at + k] != word[k] {
            assert(line@.subrange(at as int, at + word@.len())[k as int] != word@[k as int]);
            return false;
        }
        k = k + 1;
    }
    assert(line@.subrange(at as int, at + word@.len()) =~= word@);
    true
}

impl Moon {
    /// A moon at rest at `position`.
    pub fn from_position(position: Triple) -> (r: Moon)
        ensures
            r.position == position && r.velocity == (0i64, 0i64, 0i64),
    {
        Moon { position, velocity: (0, 0, 0) }
    }

    /// Reads `<x=X, y=Y, z=Z>` into a moon at rest; `None` for other text.
    pub fn parse(line: &str) -> (r: Option<Moon>)
        ensures
            r is Some ==> r->Some_0.velocity == (0i64, 0i64, 0i64) && line.spec_bytes().len() > 0
                && line.spec_bytes().last() == 62,
    {
        let bytes = line.as_bytes();
        let n = bytes.len();
        let head = [60u8, 120, 61];
        let ysep = [32u8, 121, 61];
        let zsep = [32u8, 122, 61];
        if !has_at(bytes, 0, &head) {
            return None;
        }
        let (x, a) = field(bytes, 3, 44)?;
        if !has_at(bytes, a + 1, &ysep) {
            return None;
        }
        let (y, b) = field(bytes, a + 4, 44)?;
        if !has_at(bytes, b + 1, &zsep) {
            return None;
        }
        let (z, c) = field(bytes, b + 4, 62)?;
        if c + 1 != bytes.len() {
            return None;
        }
        Some(Moon::from_position((x, y, z)))
    }

    /// Changes the velocity by one step towards `moon` on each axis where
    /// they differ. Returns false, with the moon unchanged, where a
    /// velocity would overflow.
    pub fn gravity(&mut self, moon: &Moon) -> (r: bool)
        ensures
            final(self).position == old(self).position,
            r ==> forall|a: int| 0 <= a < 3 ==> #[trigger] coord(final(self).velocity, a) == coord(old(self).velocity, a)
                + sign(coord(old(self).position, a), coord(moon.position, a)),
            !r ==> *final(self) == *old(self),
    {
        let vx = match nudge(self.velocity.0, self.position.0, moon.position.0) {
            Some(v) => v,
            None => return false,
        };
        let vy = match nudge(self.velocity.1, self.position.1, moon.position.1) {
            Some(v) => v,
            None => return false,
        };
        let vz = match nudge(self.velocity.2, self.position.2, moon.position.2) {
            Some(v) => v,
            None => return false,
        };
        self.velocity = (vx, vy, vz);
        true
    }

    /// Moves the moon by its velocity. Returns false, with the moon
    /// unchanged, where a position would overflow.
    pub fn step(&mut self) -> (r: bool)
        ensures
            final(self).velocity == old(self).velocity,
            r ==> forall|a: int| 0 <= a < 3 ==> #[trigger] coord(final(self).position, a) == coord(old(self).position, a)
                + coord(old(self).velocity, a),
            !r ==> *final(self) == *old(self),
    {
        let x = match self.position.0.checked_add(self.velocity.0) {
            Some(v) => v,
            None => return false,
        };
        let y = match self.position.1.checked_add(self.velocity.1) {
            Some(v) => v,
            None => return false,
        };
        let z = match self.position.2.checked_add(self.velocity.2) {
            Some(v) => v,
            None => return false,
        };
        self.position = (x, y, z);
        true
    }

    /// The sum of the absolute coordinates of the position; `None` where
    /// it overflows.
    pub fn potential_energy(&self) -> (r: Option<i64>)
        ensures
            r is Some ==> r->Some_0 == norm(self.position),
    {
        checked_norm(self.position)
    }

    /// The sum of the absolute coordinates of the velocity; `None` where
    /// it overflows.
    pub fn kinetic_energy(&self) -> (r: Option<i64>)
        ensures
            r is Some ==> r->Some_0 == norm(self.velocity),
    {
        checked_norm(self.velocity)
    }

    /// The potential energy times the kinetic energy; `None` where it
    /// overflows.
    pub fn energy(&self) -> (r: Option<i64>)
        ensures
            r is Some ==> r->Some_0 == norm(self.position) * norm(self.velocity),
    {
        let p = self.potential_energy()?;
        let k = self.kinetic_energy()?;
        p.checked_mul(k)
    }
}

/// The pull along axis `a` of the first `k` moons on moon `i`.
pub open spec fn pull(ms: Seq<Moon>, i: int, a: int, k: int) -> int
    decreases k,
{
    if k <= 0 {
        0
    } else {
        pull(ms, i, a, k - 1) + sign(coord(ms[i].position, a), coord(ms[k - 1].position, a))
    }
}

/// Whether `next` is the moons of `ms` one time step later: each
/// velocity changed by the pull of all moons, then each position moved by
/// its new velocity.
pub open spec fn stepped(ms: Seq<Moon>, next: Seq<Moon>) -> bool {
    &&& next.len() == ms.len()
    &&& forall|i: int, a: int| 0 <= i < ms.len() && 0 <= a < 3 ==> {
        &&& #[trigger] coord(next[i].velocity, a) == coord(ms[i].velocity, a) + pull(ms, i, a, ms.len() as int)
        &&& coord(next[i].position, a) == coord(ms[i].position, a) + coord(next[i].velocity, a)
    }
}

/// Moons by name.
#[derive(Debug)]
pub struct System {
    names: Vec<Vec<u8>>,
    moons: Vec<Moon>,
}

impl View for System {
    type V = Seq<Moon>;

    closed spec fn view(&self) -> Seq<Moon> {
        self.moons@
    }
}

impl System {
    /// A system without moons.
    pub fn new() -> (r: System)
        ensures
            r.wf(),
            r@.len() == 0,
    {
        System { names: Vec::new(), moons: Vec::new() }
    }

    /// One name per moon.
    pub closed spec fn wf(&self) -> bool {
        self.names@.len() == self.moons@.len()
    }

    /// The position of the moon called `name`, if there is one.
    fn find(&self, name: &str) -> (r: Option<usize>)
        requires
            self.wf(),
        ensures
            r is Some ==> r->Some_0 < self@.len(),
    {
        let bytes = name.as_bytes();
        let mut i: usize = 0;
        while i < self.names.len()
            invariant
                self.wf(),
                i <= self.names@.len(),
            decreases self.names@.len() - i,
        {
            if same_bytes(self.names[i].as_slice(), bytes) {
                return Some(i);
            }
            i = i + 1;
        }
        None
    }

    /// Adds a moon under `name`, or puts it in the place of the moon that
    /// had that name.
    pub fn insert(&mut self, name: &str, moon: Moon)
        requires
            old(self).wf(),
        ensures
            final(self).wf(),
            final(self)@.contains(moon),
            final(self)@.len() == old(self)@.len() || final(self)@.len() == old(self)@.len() + 1,
    {
        match self.find(name) {
            Some(i) => {
                self.moons.set(i, moon);
                assert(self@[i as int] == moon);
            },
            None => {
                self.names.push(crate::text::slice_from(name.as_bytes(), 0));
                self.moons.push(moon);
                assert(self@[self@.len() - 1] == moon);
            },
        }
    }

    /// The moon called `name`, if there is one.
    pub fn get(&self, name: &str) -> (r: Option<Moon>)
        requires
            self.wf(),
        ensures
            r is Some ==> self@.contains(r->Some_0),
    {
        match self.find(name) {
            Some(i) => {
                assert(self@[i as int] == self.moons@[i as int]);
                Some(self.moons[i])
            },
            None => None,
        }
    }

    /// One time step: gravity between every pair of moons changes their
    /// velocities, then every moon moves by its velocity. Returns false,
    /// with the system unchanged, where a number would overflow.
    pub fn step(&mut self) -> (r: bool)
        requires
            old(self).wf(),
        ensures
            final(self).wf(),
            r ==> stepped(old(self)@, final(self)@),
            !r ==> final(self)@ == old(self)@,
    {
        let n = self.moons.len();
        let mut next = self.moons.clone();
        let mut i: usize = 0;
        while i < n
            invariant
                n == self.moons@.len(),
                self.wf(),
                next@.len() == n,
                i <= n,
                forall|k: int| i <= k < n ==> next@[k] == self.moons@[k],
                forall|k: int, a: int| 0 <= k < i && 0 <= a < 3 ==> #[trigger] coord(next@[k].velocity, a)
                    == coord(self.moons@[k].velocity, a) + pull(self.moons@, k, a, n as int),
                forall|k: int| 0 <= k < i ==> (#[trigger] next@[k]).position == self.moons@[k].position,
            decreases n - i,
        {
            let mut moon = next[i];
            let mut j: usize = 0;
            while j < n
                invariant
                    n == self.moons@.len(),
                    self.wf(),
                    i < n,
                    j <= n,
                    moon.position == self.moons@[i as int].position,
                    forall|a: int| 0 <= a < 3 ==> #[trigger] coord(moon.velocity, a) == coord(self.moons@[i as int].velocity, a)
                        + pull(self.moons@, i as int, a, j as int),
                decreases n - j,
            {
                let other = self.moons[j];
                if !moon.gravity(&other) {
                    return false;
                }
                j = j + 1;
            }
            next.set(i, moon);
            i = i + 1;
        }
        let mut k: usize = 0;
        while k < n
            invariant
                n == self.moons@.len(),
                self.wf(),
                next@.len() == n,
                k <= n,
                forall|m: int, a: int| 0 <= m < n && 0 <= a < 3 ==> #[trigger] coord(next@[m].velocity, a)
                    == coord(self.moons@[m].velocity, a) + pull(self.moons@, m, a, n as int),
                forall|m: int, a: int| 0 <= m < k && 0 <= a < 3 ==> #[trigger] coord(next@[m].position, a)
                    == coord(self.moons@[m].position, a) + coord(next@[m].velocity, a),
                forall|m: int| k <= m < n ==> (#[trigger] next@[m]).position == self.moons@[m].position,
            decreases n - k,
        {
            let mut moon = next[k];
            if !moon.step() {
                return false;
            }
            next.set(k, moon);
            k = k + 1;
        }
        self.moons = next;
        true
    }

    /// Takes `count` time steps; false where one would overflow, the
    /// system then standing after the steps that could be taken.
    pub fn steps(&mut self, count: usize) -> (r: bool)
        requires
            old(self).wf(),
        ensures
            final(self).wf(),
            count == 0 ==> r && final(self)@ == old(self)@,
    {
        let mut k: usize = 0;
        while k < count
            invariant
                self.wf(),
                k <= count,
                k == 0 ==> self@ == old(self)@,
            decreases count - k,
        {
            if !self.step() {
                return false;
            }
            k = k + 1;
        }
        true
    }

    /// The total energy of the moons; `None` where it overflows.
    pub fn energy(&self) -> (r: Option<i64>)
        ensures
            r is Some ==> r->Some_0 == total_energy(self@, self@.len() as int),
    {
        let mut total: i64 = 0;
        let mut i: usize = 0;
        while i < self.moons.len()
            invariant
                i <= self.moons@.len(),
                total == total_energy(self@, i as int),
            decreases self.moons@.len() - i,
        {
            let e = self.moons[i].energy()?;
            total = total.checked_add(e)?;
            i = i + 1;
        }
        Some(total)
    }
}

/// The sum of the energies of the first `k` moons.
pub open spec fn total_energy(ms: Seq<Moon>, k: int) -> int
    decreases k,
{
    if k <= 0 {
        0
    } else {
        total_energy(ms, k - 1) + norm(ms[k - 1].position) * norm(ms[k - 1].velocity)
    }
}

/// The pull along one axis of the first `k` bodies on body `i`, each body
/// a position and a velocity.
pub open spec fn axis_pull(s: Seq<(i64, i64)>, i: int, k: int) -> int
    decreases k,
{
    if k <= 0 {
        0
    } else {
        axis_pull(s, i, k - 1) + sign(s[i].0 as int, s[k - 1].0 as int)
    }
}

/// Whether `next` is the bodies of `s` one step later along one axis.
pub open spec fn axis_next(s: Seq<(i64, i64)>, next: Seq<(i64, i64)>) -> bool {
    &&& next.len() == s.len()
    &&& forall|i: int| 0 <= i < s.len() ==> {
        &&& (#[trigger] next[i]).1 == s[i].1 + axis_pull(s, i, s.len() as int)
        &&& next[i].0 == s[i].0 + next[i].1
    }
}

/// Whether `trace` is a run of steps along one axis, each state following
/// from the one before.
pub open spec fn is_trace(trace: Seq<Seq<(i64, i64)>>) -> bool {
    forall|k: int| 0 <= k < trace.len() - 1 ==> #[trigger] axis_next(trace[k], trace[k + 1])
}

/// The bodies one step later along one axis; `None` where a number
/// overflows.
fn axis_step(state: &Vec<(i64, i64)>) -> (r: Option<Vec<(i64, i64)>>)
    ensures
        r is Some ==> axis_next(state@, r->Some_0@),
{
    let n = state.len();
    let mut next: Vec<(i64, i64)> = Vec::new();
    let mut i: usize = 0;
    while i < n
        invariant
            n == state@.len(),
            i <= n,
            next@.len() == i,
            forall|k: int| 0 <= k < i ==> {
                &&& (#[trigger] next@[k]).1 == state@[k].1 + axis_pull(state@, k, n as int)
                &&& next@[k].0 == state@[k].0 + next@[k].1
            },
        decreases n - i,
    {
        let (position, mut velocity) = state[i];
        let mut j: usize = 0;
        while j < n
            invariant
                n == state@.len(),
                i < n,
                j <= n,
                position == state@[i as int].0,
                velocity == state@[i as int].1 + axis_pull(state@, i as int, j as int),
            decreases n - j,
        {
            velocity = nudge(velocity, position, state[j].0)?;
            j = j + 1;
        }
        let moved = position.checked_add(velocity)?;
        next.push((moved, velocity));
        i = i + 1;
    }
    Some(next)
}

/// Whether two states are equal.
fn same_state(a: &Vec<(i64, i64)>, b: &Vec<(i64, i64)>) -> (r: bool)
    ensures
        r == (a@ == b@),
{
    if a.len() != b.len() {
        return false;
    }
    let mut i: usize = 0;
    while i < a.len()
        invariant
            a@.len() == b@.len(),
            i <= a@.len(),
            forall|j: int| 0 <= j < i ==> a@[j] == b@[j],
        decreases a@.len() - i,
    {
        if a[i].0 != b[i].0 || a[i].1 != b[i].1 {
            return false;
        }
        i = i + 1;
    }
    assert(a@ =~= b@);
    true
}

/// How many steps along one axis may be taken in search of a cycle.
pub const CYCLE_BUDGET: u64 = 100_000_000;

/// The number of steps after which the bodies along one axis first come
/// back to their initial state; `None` where that takes more than
/// `CYCLE_BUDGET` steps or a number overflows.
pub fn cycle(init: Vec<(i64, i64)>) -> (r: Option<u64>)
    ensures
        r is Some ==> r->Some_0 > 0 && exists|trace: Seq<Seq<(i64, i64)>>|
            #[trigger] is_trace(trace) && trace.len() == r->Some_0 + 1 && trace[0] == init@ && trace.last() == init@
                && forall|k: int| 0 < k < trace.len() - 1 ==> trace[k] != init@,
{
    let mut state = axis_step(&init)?;
    let mut steps: u64 = 1;
    let ghost mut trace: Seq<Seq<(i64, i64)>> = seq![init@, state@];
    while steps < CYCLE_BUDGET
        invariant
            1 <= steps <= CYCLE_BUDGET,
            is_trace(trace),
            trace.len() == steps + 1,
            trace[0] == init@,
            trace.last() == state@,
            forall|k: int| 0 < k < trace.len() - 1 ==> trace[k] != init@,
        decreases CYCLE_BUDGET - steps,
    {
        if same_state(&state, &init) {
            return Some(steps);
        }
        let next = axis_step(&state)?;
        proof {
            let old_trace = trace;
            trace = trace.push(next@);
            assert forall|k: int| 0 <= k < trace.len() - 1 implies #[trigger] axis_next(trace[k], trace[k + 1]) by {
                if k < old_trace.len() - 1 {
                    assert(axis_next(old_trace[k], old_trace[k + 1]));
                }
            }
        }
        state = next;
        steps = steps + 1;
    }
    if same_state(&state, &init) {
        return Some(steps);
    }
    None
}

impl System {
    /// The bodies along axis `a`: each moon's coordinate and velocity.
    fn axis(&self, a: usize) -> (r: Vec<(i64, i64)>)
        requires
            a < 3,
        ensures
            r@.len() == self@.len(),
            forall|i: int| 0 <= i < r@.len() ==> #[trigger] r@[i] == (coord(self@[i].position, a as int) as i64, coord(
                self@[i].velocity,
                a as int,
            ) as i64),
    {
        let mut r: Vec<(i64, i64)> = Vec::new();
        let mut i: usize = 0;
        while i < self.moons.len()
            invariant
                a < 3,
                i <= self.moons@.len(),
                r@.len() == i,
                forall|k: int| 0 <= k < i ==> #[trigger] r@[k] == (coord(self@[k].position, a as int) as i64, coord(
                    self@[k].velocity,
                    a as int,
                ) as i64),
            decreases self.moons@.len() - i,
        {
            let m = self.moons[i];
            let pair = if a == 0 {
                (m.position.0, m.velocity.0)
            } else if a == 1 {
                (m.position.1, m.velocity.1)
            } else {
                (m.position.2, m.velocity.2)
            };
            r.push(pair);
            i = i + 1;
        }
        r
    }

    /// The number of steps after which the whole system first comes back
    /// to its state: the least common multiple of the periods of the three
    /// axes, which move independently. `None` where a period is not found
    /// or a number overflows.
    pub fn next_cycle(&self) -> (r: Option<u64>)
        ensures
            r is Some ==> r->Some_0 > 0,
    {
        let cx = cycle(self.axis(0))?;
        let cy = cycle(self.axis(1))?;
        let cz = cycle(self.axis(2))?;
        let xy = ppcm(cx, cy)?;
        ppcm(xy, cz)
    }
}

/// Whether `d` divides `n`.
pub open spec fn divides(d: int, n: int) -> bool {
    d != 0 && n % d == 0
}

/// Whether `p` is a prime number.
pub open spec fn is_prime(p: int) -> bool {
    p >= 2 && forall|d: int| 2 <= d < p ==> !#[trigger] divides(d, p)
}

/// The product of a sequence of numbers.
pub open spec fn product(s: Seq<u64>) -> int
    decreases s.len(),
{
    if s.len() == 0 {
        1
    } else {
        product(s.drop_last()) * s.last()
    }
}

/// The greatest common divisor of two numbers, by Euclid's algorithm.
fn gcd(a: u64, b: u64) -> (r: u64)
    requires
        a > 0,
    ensures
        r > 0,
        divides(r as int, a as int),
        divides(r as int, b as int),
{
    let mut x = a;
    let mut y = b;
    while y != 0
        invariant
            x > 0,
            forall|d: int| d > 0 && divides(d, x as int) && divides(d, y as int) ==> divides(d, a as int) && divides(d, b as int),
        decreases y,
    {
        let z = x % y;
        proof {
            assert forall|d: int| d > 0 && divides(d, y as int) && divides(d, z as int) implies divides(d, x as int) by {
                lemma_divides_sum(d, y as int, z as int, x as int);
            }
        }
        x = y;
        y = z;
    }
    proof {
        assert(divides(x as int, x as int)) by {
            vstd::arithmetic::div_mod::lemma_mod_self_0(x as int);
        }
        assert(divides(x as int, 0));
    }
    x
}

/// A common divisor of `y` and of `x % y` divides `x`.
pub proof fn lemma_divides_sum(d: int, y: int, z: int, x: int)
    requires
        d > 0,
        y > 0,
        x >= 0,
        z == x % y,
        divides(d, y),
        divides(d, z),
    ensures
        divides(d, x),
{
    vstd::arithmetic::div_mod::lemma_fundamental_div_mod(x, y);
    vstd::arithmetic::div_mod::lemma_fundamental_div_mod(y, d);
    vstd::arithmetic::div_mod::lemma_fundamental_div_mod(z, d);
    let q = x / y;
    let a = y / d;
    let b = z / d;
    assert(x == d * (a * q + b)) by (nonlinear_arith)
        requires
            x == y * q + z,
            y == d * a,
            z == d * b,
    ;
    vstd::arithmetic::div_mod::lemma_mod_multiples_basic(a * q + b, d);
    assert((a * q + b) * d == d * (a * q + b)) by (nonlinear_arith);
}

/// The least common multiple of two positive numbers; `None` where it
/// overflows.
pub fn ppcm(num1: u64, num2: u64) -> (r: Option<u64>)
    requires
        num1 > 0,
        num2 > 0,
    ensures
        r is Some ==> r->Some_0 > 0 && divides(num1 as int, r->Some_0 as int) && divides(num2 as int, r->Some_0 as int),
{
    let g = gcd(num1, num2);
    let q = num1 / g;
    proof {
        vstd::arithmetic::div_mod::lemma_fundamental_div_mod(num1 as int, g as int);
        vstd::arithmetic::div_mod::lemma_fundamental_div_mod(num2 as int, g as int);
    }
    let m = q.checked_mul(num2)?;
    proof {
        let b = num2 as int / g as int;
        assert(q > 0) by (nonlinear_arith)
            requires
                num1 == g * q,
                num1 > 0,
                g > 0,
        ;
        assert(m == num1 * b) by (nonlinear_arith)
            requires
                m == q * num2,
                num1 == g * q,
                num2 == g * b,
        ;
        assert(m > 0) by (nonlinear_arith)
            requires
                m == q * num2,
                q > 0,
                num2 > 0,
        ;
        vstd::arithmetic::div_mod::lemma_mod_multiples_basic(b, num1 as int);
        assert(b * num1 == num1 * b) by (nonlinear_arith);
        vstd::arithmetic::div_mod::lemma_mod_multiples_basic(q as int, num2 as int);
    }
    Some(m)
}

/// The prime factors of a positive number, smallest first, each as often
/// as it divides the number.
pub fn prime_factors(number: u64) -> (r: Vec<u64>)
    requires
        number > 0,
    ensures
        product(r@) == number,
        forall|i: int| 0 <= i < r@.len() ==> is_prime(#[trigger] r@[i] as int),
        forall|i: int, j: int| 0 <= i < j < r@.len() ==> r@[i] <= r@[j],
{
    let mut factors: Vec<u64> = Vec::new();
    let mut n = number;
    let mut d: u64 = 2;
    while n > 1
        invariant
            n >= 1,
            2 <= d,
            product(factors@) * n == number,
            forall|i: int| 0 <= i < factors@.len() ==> is_prime(#[trigger] factors@[i] as int),
            forall|i: int, j: int| 0 <= i < j < factors@.len() ==> factors@[i] <= factors@[j],
            n > 1 ==> forall|i: int| 0 <= i < factors@.len() ==> #[trigger] factors@[i] <= d,
            forall|e: int| 2 <= e < d ==> !#[trigger] divides(e, n as int),
            n > 1 ==> d <= n,
        decreases n, n - d,
    {
        if d > n / d {
            proof {
                lemma_no_small_divisor_prime(n as int, d as int);
                assert(product(factors@.push(n)) == product(factors@) * n) by {
                    assert(factors@.push(n).drop_last() =~= factors@);
                }
            }
            factors.push(n);
            n = 1;
            proof {
                assert forall|e: int| 2 <= e < d implies !#[trigger] divides(e, n as int) by {
                    vstd::arithmetic::div_mod::lemma_small_mod(1, e as nat);
                }
            }
        } else if n % d == 0 {
            proof {
                assert(is_prime(d as int)) by {
                    assert forall|e: int| 2 <= e < d implies !#[trigger] divides(e, d as int) by {
                        if divides(e, d as int) {
                            lemma_divides_trans(e, d as int, n as int);
                        }
                    }
                }
                assert(product(factors@.push(d)) == product(factors@) * d) by {
                    assert(factors@.push(d).drop_last() =~= factors@);
                }
                vstd::arithmetic::div_mod::lemma_fundamental_div_mod(n as int, d as int);
                let m = n as int / d as int;
                assert(product(factors@) * d * m == number) by (nonlinear_arith)
                    requires
                        product(factors@) * n == number,
                        n == d * m,
                ;
                vstd::arithmetic::div_mod::lemma_mod_multiples_basic(d as int, m);
                assert((d as int) * m == n);
                assert(divides(m, n as int));
                assert forall|e: int| 2 <= e < d implies !#[trigger] divides(e, m) by {
                    if divides(e, m) {
                        lemma_divides_trans(e, m, n as int);
                    }
                }
                assert(m >= 1 && m < n) by (nonlinear_arith)
                    requires
                        n == d * m,
                        d >= 2,
                        n > 1,
                ;
                assert(m > 1 ==> d <= m) by {
                    if m > 1 && d > m {
                        lemma_small_cofactor(n as int, d as int, m);
                    }
                }
            }
            factors.push(d);
            n = n / d;
        } else {
            proof {
                assert(d * d <= n) by (nonlinear_arith)
                    requires
                        d <= n / d,
                        d > 0,
                ;
                assert(d + 1 <= n) by (nonlinear_arith)
                    requires
                        d * d <= n,
                        d >= 2,
                ;
            }
            d = d + 1;
        }
    }
    proof {
        assert(product(factors@) == number) by (nonlinear_arith)
            requires
                product(factors@) * n == number,
                n == 1,
        ;
    }
    factors
}

/// A divisor of a divisor of `n` divides `n`.
pub proof fn lemma_divides_trans(e: int, d: int, n: int)
    requires
        e > 0,
        d > 0,
        divides(e, d),
        divides(d, n),
    ensures
        divides(e, n),
{
    vstd::arithmetic::div_mod::lemma_fundamental_div_mod(d, e);
    vstd::arithmetic::div_mod::lemma_fundamental_div_mod(n, d);
    let a = d / e;
    let b = n / d;
    assert(n == (a * b) * e) by (nonlinear_arith)
        requires
            d == e * a,
            n == d * b,
    ;
    vstd::arithmetic::div_mod::lemma_mod_multiples_basic(a * b, e);
}

/// Where `n = d * m` with `d > m > 1`, `m` is a divisor of `n` below `d`.
pub proof fn lemma_small_cofactor(n: int, d: int, m: int)
    requires
        d > m > 1,
        n == d * m,
    ensures
        divides(m, n),
{
    vstd::arithmetic::div_mod::lemma_mod_multiples_basic(d, m);
}

/// A number above one with no divisor from 2 up to `d`, where `d * d`
/// exceeds it, is prime.
pub proof fn lemma_no_small_divisor_prime(n: int, d: int)
    requires
        n > 1,
        d >= 2,
        d > n / d,
        forall|e: int| 2 <= e < d ==> !#[trigger] divides(e, n),
    ensures
        is_prime(n),
{
    assert forall|e: int| 2 <= e < n implies !#[trigger] divides(e, n) by {
        if divides(e, n) && e >= d {
            vstd::arithmetic::div_mod::lemma_fundamental_div_mod(n, e);
            let m = n / e;
            assert(2 <= m < d) by (nonlinear_arith)
                requires
                    n == e * m,
                    e >= d,
                    e < n,
                    d > n / d,
                    d >= 2,
                    n > 1,
            ;
            vstd::arithmetic::div_mod::lemma_mod_multiples_basic(e, m);
            assert(e * m == m * e) by (nonlinear_arith);
            assert(divides(m, n));
        }
    }
}

} // verus!
