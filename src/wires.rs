//! Crossed wires: two paths on a grid from a common origin, and where they
//! cross nearest the origin, by distance or by steps along the wires.

use vstd::prelude::*;
use crate::text::{parse_unsigned, slice_from, split};

verus! {

/// A point of the grid.
pub type Position = (i64, i64);

/// A direction of a wire segment.
#[derive(Debug, Clone, Copy, PartialEq, Eq, Structural)]
pub enum Direction {
    Up,
    Down,
    Left,
    Right,
}

/// A segment: a direction and a length.
#[derive(Debug, Clone, Copy, PartialEq, Eq, Structural)]
pub struct Directive {
    pub direction: Direction,
    pub length: i64,
}

impl Directive {
    /// Reads a letter among `UDLR` followed by a length.
    pub fn parse(s: &[u8]) -> (r: Option<Directive>)
        ensures
            r is Some ==> r->Some_0.length >= 0,
    {
        if s.len() < 2 {
            return None;
        }
        let direction = if s[0] == 85 {
            Direction::Up
        } else if s[0] == 68 {
            Direction::Down
        } else if s[0] == 76 {
            Direction::Left
        } else if s[0] == 82 {
            Direction::Right
        } else {
            return None;
        };
        let digits = slice_from(s, 1);
        let length = parse_unsigned(digits.as_slice())?;
        if length > i64::MAX as u64 {
            return None;
        }
        Some(Directive { direction, length: length as i64 })
    }

    /// The points the segment passes, one step at a time from `init`
    /// (which is left out); `None` where a coordinate overflows.
    pub fn positions_from(&self, init: Position) -> (r: Option<Vec<Position>>)
        ensures
            r is Some && self.length >= 0 ==> r->Some_0@.len() == self.length,
    {
        let mut positions: Vec<Position> = Vec::new();
        let mut last = init;
        let mut k: i64 = 0;
        while k < self.length
            invariant
                0 <= k,
                k <= self.length || self.length < 0,
                positions@.len() == k,
            decreases self.length - k,
        {
            last = match self.direction {
                Direction::Up => (last.0, last.1.checked_add(1)?),
                Direction::Down => (last.0, last.1.checked_sub(1)?),
                Direction::Left => (last.0.checked_sub(1)?, last.1),
                Direction::Right => (last.0.checked_add(1)?, last.1),
            };
            positions.push(last);
            k = k + 1;
        }
        Some(positions)
    }
}

/// Reads a wire: segments separated by commas, a line break allowed at
/// the end.
pub fn wire_directives(wire_path: &str) -> (r: Option<Vec<Directive>>)
    ensures
        r is Some ==> forall|k: int| 0 <= k < r->Some_0@.len() ==> (#[trigger] r->Some_0@[k]).length >= 0,
{
    let bytes = wire_path.as_bytes();
    let mut end = bytes.len();
    while end > 0 && (bytes[end - 1] == 10 || bytes[end - 1] == 13 || bytes[end - 1] == 32)
        invariant
            end <= bytes@.len(),
        decreases end,
    {
        end = end - 1;
    }
    let body = crate::text::slice_range(bytes, 0, end);
    let parts = split(body.as_slice(), 44);
    let mut directives: Vec<Directive> = Vec::new();
    let mut i: usize = 0;
    while i < parts.len()
        invariant
            i <= parts@.len(),
            forall|k: int| 0 <= k < directives@.len() ==> (#[trigger] directives@[k]).length >= 0,
        decreases parts@.len() - i,
    {
        directives.push(Directive::parse(parts[i].as_slice())?);
        i = i + 1;
    }
    Some(directives)
}

/// Every point a wire passes, in order, the origin left out; `None` where
/// a coordinate overflows.
pub fn wire_positions(directives: &Vec<Directive>) -> (r: Option<Vec<Position>>)
{
    let mut positions: Vec<Position> = Vec::new();
    let mut last: Position = (0, 0);
    let mut i: usize = 0;
    while i < directives.len()
        invariant
            i <= directives@.len(),
        decreases directives@.len() - i,
    {
        let more = directives[i].positions_from(last)?;
        let mut k: usize = 0;
        while k < more.len()
            invariant
                k <= more@.len(),
            decreases more@.len() - k,
        {
            positions.push(more[k]);
            k = k + 1;
        }
        if more.len() > 0 {
            last = more[more.len() - 1];
        }
        i = i + 1;
    }
    Some(positions)
}

/// The distance of a point from the origin along the grid.
pub open spec fn manhattan(p: Position) -> int {
    (if p.0 < 0 { -p.0 } else { p.0 as int }) + (if p.1 < 0 { -p.1 } else { p.1 as int })
}

/// The distance from the origin along the grid; `None` where it does not
/// fit.
fn manhattan_distance(p: Position) -> (r: Option<i64>)
    ensures
        r is Some ==> r->Some_0 == manhattan(p),
{
    if p.0 == i64::MIN || p.1 == i64::MIN {
        return None;
    }
    let x = if p.0 < 0 { -p.0 } else { p.0 };
    let y = if p.1 < 0 { -p.1 } else { p.1 };
    x.checked_add(y)
}

/// The smallest distance from the origin of a point that both wires pass;
/// `None` where they never cross or a distance does not fit.
pub fn closest_crossing(wire1: &Vec<Position>, wire2: &Vec<Position>) -> (r: Option<i64>)
    ensures
        r is Some ==> exists|i: int, j: int|
            0 <= i < wire1@.len() && 0 <= j < wire2@.len() && wire1@[i] == wire2@[j] && manhattan(wire1@[i]) == r->Some_0,
        r is Some ==> forall|i: int, j: int| #![trigger wire1@[i], wire2@[j]]
            0 <= i < wire1@.len() && 0 <= j < wire2@.len() && wire1@[i] == wire2@[j] ==> r->Some_0 <= manhattan(wire1@[i]),
{
    let mut best: Option<i64> = None;
    let mut i: usize = 0;
    while i < wire1.len()
        invariant
            i <= wire1@.len(),
            best is Some ==> exists|a: int, b: int|
                0 <= a < wire1@.len() && 0 <= b < wire2@.len() && wire1@[a] == wire2@[b] && manhattan(wire1@[a]) == best->Some_0,
            best is Some ==> forall|a: int, b: int| #![trigger wire1@[a], wire2@[b]]
                0 <= a < i && 0 <= b < wire2@.len() && wire1@[a] == wire2@[b] ==> best->Some_0 <= manhattan(wire1@[a]),
            best is None ==> forall|a: int, b: int| #![trigger wire1@[a], wire2@[b]]
                0 <= a < i && 0 <= b < wire2@.len() ==> wire1@[a] != wire2@[b],
        decreases wire1@.len() - i,
    {
        let p = wire1[i];
        let mut j: usize = 0;
        while j < wire2.len()
            invariant
                i < wire1@.len(),
                p == wire1@[i as int],
                j <= wire2@.len(),
                best is Some ==> exists|a: int, b: int|
                    0 <= a < wire1@.len() && 0 <= b < wire2@.len() && wire1@[a] == wire2@[b] && manhattan(wire1@[a]) == best->Some_0,
                best is Some ==> forall|a: int, b: int| #![trigger wire1@[a], wire2@[b]]
                    ((0 <= a < i && 0 <= b < wire2@.len()) || (a == i && 0 <= b < j)) && wire1@[a] == wire2@[b]
                        ==> best->Some_0 <= manhattan(wire1@[a]),
                best is None ==> forall|a: int, b: int| #![trigger wire1@[a], wire2@[b]]
                    ((0 <= a < i && 0 <= b < wire2@.len()) || (a == i && 0 <= b < j)) ==> wire1@[a] != wire2@[b],
            decreases wire2@.len() - j,
        {
            let q = wire2[j];
            if p.0 == q.0 && p.1 == q.1 {
                let d = manhattan_distance(p)?;
                let better = match best {
                    None => true,
                    Some(b) => d < b,
                };
                if better {
                    best = Some(d);
                }
            }
            j = j + 1;
        }
        i = i + 1;
    }
    best
}

/// The smallest total of steps along both wires to a point that both
/// pass, each wire counted to its first visit; `None` where they never
/// cross.
pub fn fewest_steps(wire1: &Vec<Position>, wire2: &Vec<Position>) -> (r: Option<usize>)
    ensures
        r is Some ==> exists|i: int, j: int|
            0 <= i < wire1@.len() && 0 <= j < wire2@.len() && wire1@[i] == wire2@[j] && r->Some_0 == i + j + 2,
{
    let mut best: Option<usize> = None;
    let mut i: usize = 0;
    while i < wire1.len()
        invariant
            i <= wire1@.len(),
            best is Some ==> exists|a: int, b: int|
                0 <= a < wire1@.len() && 0 <= b < wire2@.len() && wire1@[a] == wire2@[b] && best->Some_0 == a + b + 2,
        decreases wire1@.len() - i,
    {
        let p = wire1[i];
        let mut j: usize = 0;
        while j < wire2.len()
            invariant
                i < wire1@.len(),
                p == wire1@[i as int],
                j <= wire2@.len(),
                best is Some ==> exists|a: int, b: int|
                    0 <= a < wire1@.len() && 0 <= b < wire2@.len() && wire1@[a] == wire2@[b] && best->Some_0 == a + b + 2,
            decreases wire2@.len() - j,
        {
            let q = wire2[j];
            if p.0 == q.0 && p.1 == q.1 {
                if i <= usize::MAX - 2 && j <= usize::MAX - 2 - i {
                    let total = i + j + 2;
                    let better = match best {
                        None => true,
                        Some(b) => total < b,
                    };
                    if better {
                        best = Some(total);
                    }
                }
                break;
            }
            j = j + 1;
        }
        i = i + 1;
    }
    best
}

/// Where the wires cross nearest the origin: by distance, or by steps
/// along the wires where `shortest` is set.
pub fn optimized_crossed_wires(wire1: &Vec<Directive>, wire2: &Vec<Directive>, shortest: bool) -> (r: Option<i64>)
    ensures
        r is Some ==> r->Some_0 >= 0,
{
    let p1 = wire_positions(wire1)?;
    let p2 = wire_positions(wire2)?;
    if shortest {
        let steps = fewest_steps(&p1, &p2)?;
        if steps > i64::MAX as usize {
            return None;
        }
        Some(steps as i64)
    } else {
        closest_crossing(&p1, &p2)
    }
}

} // verus!
