//! Navigating a ferry by actions: moves, turns and moves forward, either
//! of the ship itself or of a waypoint that it follows.

use vstd::prelude::*;
use vstd::arithmetic::div_mod::{lemma_add_mod_noop, lemma_mod_add_multiples_vanish};
use crate::text::{parse_signed, signed_value_of, slice_from, words};

verus! {

/// A side to turn to, or straight on.
#[derive(Debug, Clone, Copy, PartialEq, Eq, Structural)]
pub enum Direction {
    Forward,
    Left,
    Right,
}

/// A point of the compass.
#[derive(Debug, Clone, Copy, PartialEq, Eq, Structural)]
pub enum Cardinal {
    North,
    East,
    South,
    West,
}

/// One navigation action; turns count quarter turns.
#[derive(Debug, Clone, Copy, PartialEq, Eq, Structural)]
pub enum Action {
    North(i64),
    East(i64),
    South(i64),
    West(i64),
    Left(i64),
    Right(i64),
    Forward(i64),
}

/// The quarter turns clockwise from north.
pub open spec fn quarter(c: Cardinal) -> int {
    match c {
        Cardinal::North => 0,
        Cardinal::East => 1,
        Cardinal::South => 2,
        Cardinal::West => 3,
    }
}

impl Cardinal {
    /// The point reached by a quarter turn to the given side.
    pub fn turn(&self, direction: Direction) -> (r: Cardinal)
        ensures
            quarter(r) == (quarter(*self) + match direction {
                Direction::Forward => 0int,
                Direction::Right => 1,
                Direction::Left => 3,
            }) % 4,
    {
        match (*self, direction) {
            (Cardinal::North, Direction::Left) | (Cardinal::South, Direction::Right) | (
                Cardinal::West,
                Direction::Forward,
            ) => Cardinal::West,
            (Cardinal::North, Direction::Right) | (Cardinal::South, Direction::Left) | (
                Cardinal::East,
                Direction::Forward,
            ) => Cardinal::East,
            (Cardinal::North, Direction::Forward) | (Cardinal::West, Direction::Right) | (
                Cardinal::East,
                Direction::Left,
            ) => Cardinal::North,
            (Cardinal::South, Direction::Forward) | (Cardinal::West, Direction::Left) | (
                Cardinal::East,
                Direction::Right,
            ) => Cardinal::South,
        }
    }
}

impl Action {
    /// Reads one action: a letter among `NESWLRF` and a number; turns are
    /// given in degrees and kept as quarter turns.
    pub fn parse(word: &[u8]) -> (r: Option<Action>)
        ensures
            r is Some ==> word@.len() >= 2 && signed_value_of(word@.drop_first()) is Some,
    {
        if word.len() < 2 {
            return None;
        }
        let rest = slice_from(word, 1);
        proof {
            assert(rest@ =~= word@.drop_first());
        }
        let value = match parse_signed(rest.as_slice()) {
            Some(v) => v,
            None => return None,
        };
        let c = word[0];
        if c == 78 {
            Some(Action::North(value))
        } else if c == 69 {
            Some(Action::East(value))
        } else if c == 83 {
            Some(Action::South(value))
        } else if c == 87 {
            Some(Action::West(value))
        } else if c == 76 {
            Some(Action::Left(value / 90))
        } else if c == 82 {
            Some(Action::Right(value / 90))
        } else if c == 70 {
            Some(Action::Forward(value))
        } else {
            None
        }
    }
}

/// Reads the actions separated by blanks; `None` where a word is no action.
pub fn parse_actions(text: &str) -> (r: Option<Vec<Action>>)
{
    let ws = words(text.as_bytes());
    let mut actions: Vec<Action> = Vec::new();
    let mut i: usize = 0;
    while i < ws.len()
        invariant
            i <= ws@.len(),
        decreases ws@.len() - i,
    {
        match Action::parse(ws[i].as_slice()) {
            Some(a) => actions.push(a),
            None => return None,
        }
        i = i + 1;
    }
    Some(actions)
}

/// The ship: where it is, where it faces, and its waypoint.
#[derive(Debug, Clone, Copy)]
pub struct Boat {
    pub position: (i64, i64),
    pub facing: Cardinal,
    pub waypoint: (i64, i64),
}

/// Whether an integer fits in `i64`.
pub open spec fn fits(x: int) -> bool {
    i64::MIN <= x <= i64::MAX
}

/// The ship moved by `(dx, dy)`, where that fits.
pub open spec fn moved(b: Boat, dx: int, dy: int) -> Option<Boat> {
    let x = b.position.0 + dx;
    let y = b.position.1 + dy;
    if fits(x) && fits(y) {
        Some(Boat { position: (x as i64, y as i64), ..b })
    } else {
        None
    }
}

/// The quarter turns from north after `n` quarter turns from `q`, to the
/// right or to the left; no turn where `n` is not positive.
pub open spec fn turned_quarter(q: int, right: bool, n: int) -> int {
    let k = if n > 0 { n } else { 0 };
    if right {
        (q + k) % 4
    } else {
        (q - k) % 4
    }
}

/// The ship with its waypoint moved by `(dx, dy)`, where that fits.
pub open spec fn waypoint_moved(b: Boat, dx: int, dy: int) -> Option<Boat> {
    let x = b.waypoint.0 + dx;
    let y = b.waypoint.1 + dy;
    if fits(x) && fits(y) {
        Some(Boat { waypoint: (x as i64, y as i64), ..b })
    } else {
        None
    }
}

impl Boat {
    /// Whether `next` is this ship after it takes `action` itself.
    pub open spec fn step_spec(self, action: Action, next: Boat) -> bool {
        match action {
            Action::North(n) => moved(self, 0, n as int) == Some(next),
            Action::East(n) => moved(self, n as int, 0) == Some(next),
            Action::South(n) => moved(self, 0, -n) == Some(next),
            Action::West(n) => moved(self, -n, 0) == Some(next),
            Action::Forward(n) => Some(next) == match self.facing {
                Cardinal::North => moved(self, 0, n as int),
                Cardinal::East => moved(self, n as int, 0),
                Cardinal::South => moved(self, 0, -n),
                Cardinal::West => moved(self, -n, 0),
            },
            Action::Left(n) => next.position == self.position && next.waypoint == self.waypoint && quarter(next.facing)
                == turned_quarter(quarter(self.facing), false, n as int),
            Action::Right(n) => next.position == self.position && next.waypoint == self.waypoint && quarter(next.facing)
                == turned_quarter(quarter(self.facing), true, n as int),
        }
    }

    /// Whether `next` is this ship after it takes `action` with its
    /// waypoint; of a turn, only that the ship stays where it is.
    pub open spec fn step_waypoint_spec(self, action: Action, next: Boat) -> bool {
        match action {
            Action::North(n) => waypoint_moved(self, 0, n as int) == Some(next),
            Action::East(n) => waypoint_moved(self, n as int, 0) == Some(next),
            Action::South(n) => waypoint_moved(self, 0, -n) == Some(next),
            Action::West(n) => waypoint_moved(self, -n, 0) == Some(next),
            Action::Forward(n) => {
                let dx = (self.waypoint.0 - self.position.0) * n;
                let dy = (self.waypoint.1 - self.position.1) * n;
                next.position.0 == self.position.0 + dx && next.position.1 == self.position.1 + dy && next.waypoint.0
                    == self.waypoint.0 + dx && next.waypoint.1 == self.waypoint.1 + dy
            },
            _ => next.position == self.position,
        }
    }

    /// A ship at the origin facing east, with its waypoint ten east and one
    /// north.
    pub fn new() -> (r: Boat)
        ensures
            r.position == (0i64, 0i64) && r.facing == Cardinal::East && r.waypoint == (10i64, 1i64),
    {
        Boat { position: (0, 0), facing: Cardinal::East, waypoint: (10, 1) }
    }

    /// Moves the ship by `(dx, dy)`; `None` where a coordinate overflows.
    fn shift(self, dx: i128, dy: i128) -> (r: Option<Boat>)
        requires
            -0x1_0000_0000_0000_0000 <= dx <= 0x1_0000_0000_0000_0000,
            -0x1_0000_0000_0000_0000 <= dy <= 0x1_0000_0000_0000_0000,
        ensures
            r == moved(self, dx as int, dy as int),
    {
        let x = self.position.0 as i128 + dx;
        let y = self.position.1 as i128 + dy;
        if x < i64::MIN as i128 || x > i64::MAX as i128 || y < i64::MIN as i128 || y > i64::MAX as i128 {
            return None;
        }
        Some(Boat { position: (x as i64, y as i64), ..self })
    }

    /// Takes one action with the ship itself: compass actions move it,
    /// turns turn it a number of quarter turns, forward moves it where it
    /// faces. `None` where a coordinate overflows.
    pub fn step(self, action: Action) -> (r: Option<Boat>)
        ensures
            r is Some ==> self.step_spec(action, r->Some_0),
            match action {
                Action::North(n) => r == moved(self, 0, n as int),
                Action::East(n) => r == moved(self, n as int, 0),
                Action::South(n) => r == moved(self, 0, -n),
                Action::West(n) => r == moved(self, -n, 0),
                Action::Forward(n) => r == match self.facing {
                    Cardinal::North => moved(self, 0, n as int),
                    Cardinal::East => moved(self, n as int, 0),
                    Cardinal::South => moved(self, 0, -n),
                    Cardinal::West => moved(self, -n, 0),
                },
                Action::Left(n) => r is Some && r->Some_0.position == self.position && quarter(r->Some_0.facing)
                    == turned_quarter(quarter(self.facing), false, n as int),
                Action::Right(n) => r is Some && r->Some_0.position == self.position && quarter(r->Some_0.facing)
                    == turned_quarter(quarter(self.facing), true, n as int),
            },
    {
        match action {
            Action::North(n) => self.shift(0, n as i128),
            Action::East(n) => self.shift(n as i128, 0),
            Action::South(n) => self.shift(0, -(n as i128)),
            Action::West(n) => self.shift(-(n as i128), 0),
            Action::Forward(n) => match self.facing {
                Cardinal::North => self.shift(0, n as i128),
                Cardinal::East => self.shift(n as i128, 0),
                Cardinal::South => self.shift(0, -(n as i128)),
                Cardinal::West => self.shift(-(n as i128), 0),
            },
            Action::Left(n) => Some(self.turned(Direction::Left, n)),
            Action::Right(n) => Some(self.turned(Direction::Right, n)),
        }
    }

    /// Takes one action with the waypoint: compass actions move the
    /// waypoint, turns rotate it about the ship a number of quarter turns,
    /// and forward moves ship and waypoint together `n` times by the
    /// waypoint's offset from the ship. `None` where a coordinate overflows.
    pub fn step_waypoint(self, action: Action) -> (r: Option<Boat>)
        ensures
            r is Some ==> self.step_waypoint_spec(action, r->Some_0),
            match action {
                Action::North(n) => r == waypoint_moved(self, 0, n as int),
                Action::East(n) => r == waypoint_moved(self, n as int, 0),
                Action::South(n) => r == waypoint_moved(self, 0, -n),
                Action::West(n) => r == waypoint_moved(self, -n, 0),
                Action::Forward(n) => {
                    let dx = (self.waypoint.0 - self.position.0) * n;
                    let dy = (self.waypoint.1 - self.position.1) * n;
                    r is Some ==> r->Some_0.position.0 == self.position.0 + dx && r->Some_0.position.1
                        == self.position.1 + dy && r->Some_0.waypoint.0 == self.waypoint.0 + dx
                        && r->Some_0.waypoint.1 == self.waypoint.1 + dy
                },
                _ => r is Some ==> r->Some_0.position == self.position,
            },
    {
        match action {
            Action::North(n) => self.shift_waypoint(0, n as i128),
            Action::East(n) => self.shift_waypoint(n as i128, 0),
            Action::South(n) => self.shift_waypoint(0, -(n as i128)),
            Action::West(n) => self.shift_waypoint(-(n as i128), 0),
            Action::Left(n) => self.rotate_waypoint(false, n),
            Action::Right(n) => self.rotate_waypoint(true, n),
            Action::Forward(n) => {
                let x = self.waypoint.0 as i128 - self.position.0 as i128;
                let y = self.waypoint.1 as i128 - self.position.1 as i128;
                let dx = match x.checked_mul(n as i128) {
                    Some(d) => d,
                    None => return None,
                };
                let dy = match y.checked_mul(n as i128) {
                    Some(d) => d,
                    None => return None,
                };
                if dx < i64::MIN as i128 * 2 || dx > i64::MAX as i128 * 2 || dy < i64::MIN as i128 * 2 || dy > i64::MAX as i128 * 2 {
                    return None;
                }
                let px = self.position.0 as i128 + dx;
                let py = self.position.1 as i128 + dy;
                let wx = self.waypoint.0 as i128 + dx;
                let wy = self.waypoint.1 as i128 + dy;
                if px < i64::MIN as i128 || px > i64::MAX as i128 || py < i64::MIN as i128 || py > i64::MAX as i128
                    || wx < i64::MIN as i128 || wx > i64::MAX as i128 || wy < i64::MIN as i128 || wy > i64::MAX as i128 {
                    return None;
                }
                Some(Boat { position: (px as i64, py as i64), facing: self.facing, waypoint: (wx as i64, wy as i64) })
            },
        }
    }

    /// Moves the waypoint by `(dx, dy)`; `None` where a coordinate overflows.
    fn shift_waypoint(self, dx: i128, dy: i128) -> (r: Option<Boat>)
        requires
            -0x1_0000_0000_0000_0000 <= dx <= 0x1_0000_0000_0000_0000,
            -0x1_0000_0000_0000_0000 <= dy <= 0x1_0000_0000_0000_0000,
        ensures
            r == waypoint_moved(self, dx as int, dy as int),
    {
        let x = self.waypoint.0 as i128 + dx;
        let y = self.waypoint.1 as i128 + dy;
        if x < i64::MIN as i128 || x > i64::MAX as i128 || y < i64::MIN as i128 || y > i64::MAX as i128 {
            return None;
        }
        Some(Boat { waypoint: (x as i64, y as i64), ..self })
    }

    /// Rotates the waypoint about the ship `n` quarter turns; `None` where
    /// a coordinate overflows.
    fn rotate_waypoint(self, right: bool, n: i64) -> (r: Option<Boat>)
        ensures
            r is Some ==> r->Some_0.position == self.position,
    {
        let mut b = self;
        let mut k: i64 = 0;
        while k < n
            invariant
                b.position == self.position,
                0 <= k,
                n > 0 ==> k <= n,
            decreases n - k,
        {
            let x = b.waypoint.0 as i128 - b.position.0 as i128;
            let y = b.waypoint.1 as i128 - b.position.1 as i128;
            let (nx, ny) = if right {
                (b.position.0 as i128 + y, b.position.1 as i128 - x)
            } else {
                (b.position.0 as i128 - y, b.position.1 as i128 + x)
            };
            if nx < i64::MIN as i128 || nx > i64::MAX as i128 || ny < i64::MIN as i128 || ny > i64::MAX as i128 {
                return None;
            }
            b = Boat { waypoint: (nx as i64, ny as i64), ..b };
            k = k + 1;
        }
        Some(b)
    }

    /// The ship turned `n` quarter turns to one side.
    fn turned(self, direction: Direction, n: i64) -> (r: Boat)
        requires
            direction != Direction::Forward,
        ensures
            r.position == self.position,
            r.waypoint == self.waypoint,
            quarter(r.facing) == turned_quarter(quarter(self.facing), direction == Direction::Right, n as int),
    {
        let mut b = self;
        let mut k: i64 = 0;
        while k < n
            invariant
                direction != Direction::Forward,
                b.position == self.position,
                b.waypoint == self.waypoint,
                0 <= k,
                n > 0 ==> k <= n,
                n <= 0 ==> k == 0,
                quarter(b.facing) == turned_quarter(quarter(self.facing), direction == Direction::Right, k as int),
            decreases n - k,
        {
            let ghost q = quarter(self.facing);
            proof {
                lemma_add_mod_noop(q + k, 1, 4);
                lemma_add_mod_noop(q - k, 3, 4);
                lemma_mod_add_multiples_vanish(q - k - 1, 4);
            }
            b = Boat { facing: b.facing.turn(direction), ..b };
            k = k + 1;
        }
        b
    }

    /// The Manhattan distance of the ship from the origin; `None` where it
    /// overflows.
    pub fn manhattan(&self) -> (r: Option<i64>)
        ensures
            r is Some ==> r->Some_0 == abs(self.position.0 as int) + abs(self.position.1 as int),
    {
        let (x, y) = self.position;
        if x == i64::MIN || y == i64::MIN {
            return None;
        }
        let ax = if x < 0 { -x } else { x };
        let ay = if y < 0 { -y } else { y };
        ax.checked_add(ay)
    }
}

/// The absolute value.
pub open spec fn abs(x: int) -> int {
    if x < 0 {
        -x
    } else {
        x
    }
}

/// Whether `next` is the ship after `b` takes `action`.
pub open spec fn takes(b: Boat, action: Action, waypoint: bool, next: Boat) -> bool {
    if waypoint {
        b.step_waypoint_spec(action, next)
    } else {
        b.step_spec(action, next)
    }
}

/// Whether each ship of `boats` follows from the one before by the action
/// of the same rank, from a fresh ship.
pub open spec fn follows(boats: Seq<Boat>, actions: Seq<Action>, waypoint: bool) -> bool {
    &&& boats.len() == actions.len() + 1
    &&& boats[0].position == (0i64, 0i64) && boats[0].facing == Cardinal::East && boats[0].waypoint == (10i64, 1i64)
    &&& forall|k: int| 0 <= k < actions.len() ==> #[trigger] takes(boats[k], actions[k], waypoint, boats[k + 1])
}

/// Takes every action in turn, from a fresh ship, with the ship itself or
/// with the waypoint where `waypoint` is set; `None` where a coordinate
/// overflows.
pub fn execute(actions: &Vec<Action>, waypoint: bool) -> (r: Option<Boat>)
    ensures
        r is Some ==> exists|boats: Seq<Boat>| #[trigger] boats.len() == actions@.len() + 1 && follows(boats, actions@, waypoint) && boats.last() == r->Some_0,
{
    let mut boat = Boat::new();
    let ghost mut boats: Seq<Boat> = seq![boat];
    let mut i: usize = 0;
    while i < actions.len()
        invariant
            i <= actions@.len(),
            boats.len() == i + 1,
            follows(boats, actions@.subrange(0, i as int), waypoint),
            boats.last() == boat,
        decreases actions@.len() - i,
    {
        let next = if waypoint { boat.step_waypoint(actions[i]) } else { boat.step(actions[i]) };
        boat = match next {
            Some(b) => b,
            None => return None,
        };
        proof {
            let old_boats = boats;
            boats = boats.push(boat);
            assert forall|k: int| 0 <= k < i + 1 implies #[trigger] takes(boats[k], actions@.subrange(0, i + 1)[k], waypoint, boats[k + 1]) by {
                if k < i {
                    assert(takes(old_boats[k], actions@.subrange(0, i as int)[k], waypoint, old_boats[k + 1]));
                }
            }
        }
        i = i + 1;
    }
    proof {
        assert(actions@.subrange(0, i as int) =~= actions@);
    }
    Some(boat)
}

} // verus!
