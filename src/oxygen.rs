//! The map that the repair droid explores, and how oxygen spreads through
//! it minute by minute.

use vstd::prelude::*;
use crate::intcode::{run_spec, Error, Program, State, Stop, STEP_BUDGET};

verus! {

/// A square of the area.
pub type Position = (i64, i64);

/// What a square holds: open floor with its distance from the start, a
/// wall, or oxygen with the distance at which it was found.
#[derive(Debug, Clone, Copy, PartialEq, Eq, Structural)]
pub enum Tile {
    Empty(usize),
    Wall,
    Oxygen(usize),
}

impl Tile {
    /// The tile that the droid reports: 0 a wall, 2 the oxygen system,
    /// anything else open floor, all at an unknown distance.
    pub fn from_status(status: i64) -> (r: Tile)
        ensures
            r == if status == 0 {
                Tile::Wall
            } else if status == 2 {
                Tile::Oxygen(UNKNOWN)
            } else {
                Tile::Empty(UNKNOWN)
            },
    {
        if status == 0 {
            Tile::Wall
        } else if status == 2 {
            Tile::Oxygen(UNKNOWN)
        } else {
            Tile::Empty(UNKNOWN)
        }
    }
}

/// The distance of a square that has not been measured.
pub const UNKNOWN: usize = 999;

/// A movement command of the droid.
#[derive(Debug, Clone, Copy, PartialEq, Eq, Structural)]
pub enum Command {
    North,
    South,
    West,
    East,
}

/// The square next to `p` in the direction of `c`, where the coordinates
/// hold it.
pub open spec fn next_spec(c: Command, p: Position) -> Option<Position> {
    let (x, y) = match c {
        Command::North => (p.0 as int, p.1 + 1),
        Command::South => (p.0 as int, p.1 - 1),
        Command::West => (p.0 - 1, p.1 as int),
        Command::East => (p.0 + 1, p.1 as int),
    };
    if i64::MIN <= x <= i64::MAX && i64::MIN <= y <= i64::MAX {
        Some((x as i64, y as i64))
    } else {
        None
    }
}

/// The code that the droid's program reads for a command.
pub open spec fn code_spec(c: Command) -> i64 {
    match c {
        Command::North => 1,
        Command::South => 2,
        Command::West => 3,
        Command::East => 4,
    }
}

/// Where `position` is recorded among the squares, or -1.
pub open spec fn area_index(t: Seq<(Position, Tile)>, position: Position) -> int {
    if exists|i: int| 0 <= i < t.len() && t[i].0 == position {
        choose|i: int| 0 <= i < t.len() && t[i].0 == position
    } else {
        -1
    }
}

/// The tile recorded at `position`, if any.
pub open spec fn area_get(t: Seq<(Position, Tile)>, position: Position) -> Option<Tile> {
    if area_index(t, position) >= 0 {
        Some(t[area_index(t, position)].1)
    } else {
        None
    }
}

/// The squares with `tile` recorded at `position`, over what was there.
pub open spec fn area_insert(t: Seq<(Position, Tile)>, position: Position, tile: Tile) -> Seq<(Position, Tile)> {
    if area_index(t, position) >= 0 {
        t.update(area_index(t, position), (position, tile))
    } else {
        t.push((position, tile))
    }
}

/// Whether no position is recorded twice.
pub open spec fn distinct_positions(t: Seq<(Position, Tile)>) -> bool {
    forall|i: int, j: int| 0 <= i < j < t.len() ==> t[i].0 != t[j].0
}

impl Command {
    /// The number that the droid's program reads for the command.
    pub fn code(&self) -> (r: i64)
        ensures
            r == match *self {
                Command::North => 1i64,
                Command::South => 2,
                Command::West => 3,
                Command::East => 4,
            },
    {
        match *self {
            Command::North => 1,
            Command::South => 2,
            Command::West => 3,
            Command::East => 4,
        }
    }

    /// The square next to `position` in the command's direction; `None`
    /// at the edge of the coordinates.
    pub fn next(&self, position: &Position) -> (r: Option<Position>)
        ensures
            r == next_spec(*self, *position),
            r is Some ==> r->Some_0 == match *self {
                Command::North => (position.0, (position.1 + 1) as i64),
                Command::South => (position.0, (position.1 - 1) as i64),
                Command::West => ((position.0 - 1) as i64, position.1),
                Command::East => ((position.0 + 1) as i64, position.1),
            },
    {
        match *self {
            Command::North => match position.1.checked_add(1) {
                Some(y) => Some((position.0, y)),
                None => None,
            },
            Command::South => match position.1.checked_sub(1) {
                Some(y) => Some((position.0, y)),
                None => None,
            },
            Command::West => match position.0.checked_sub(1) {
                Some(x) => Some((x, position.1)),
                None => None,
            },
            Command::East => match position.0.checked_add(1) {
                Some(x) => Some((x, position.1)),
                None => None,
            },
        }
    }
}

/// How many tiles of the first `k` are open floor.
pub open spec fn empties(tiles: Seq<(Position, Tile)>, k: int) -> nat
    decreases k,
{
    if k <= 0 {
        0
    } else {
        empties(tiles, k - 1) + if tiles[k - 1].1 is Empty { 1nat } else { 0 }
    }
}

/// Filling one open square with oxygen leaves one open square fewer.
pub proof fn lemma_fill_one(tiles: Seq<(Position, Tile)>, i: int, t: (Position, Tile), k: int)
    requires
        0 <= i < tiles.len(),
        tiles[i].1 is Empty,
        !(t.1 is Empty),
        0 <= k <= tiles.len(),
    ensures
        empties(tiles.update(i, t), k) + (if i < k { 1int } else { 0 }) == empties(tiles, k),
    decreases k,
{
    if k > 0 {
        lemma_fill_one(tiles, i, t, k - 1);
    }
}

/// The known squares of the area, no position twice.
#[derive(Debug)]
pub struct Area {
    tiles: Vec<(Position, Tile)>,
}

impl View for Area {
    type V = Seq<(Position, Tile)>;

    closed spec fn view(&self) -> Seq<(Position, Tile)> {
        self.tiles@
    }
}

impl Area {
    /// An area with no known square.
    pub fn new() -> (r: Area)
        ensures
            r@.len() == 0,
            r.wf(),
    {
        Area { tiles: Vec::new() }
    }

    /// Where `position` stands among the known squares.
    fn find(&self, position: Position) -> (r: Option<usize>)
        ensures
            r is Some ==> r->Some_0 < self@.len() && self@[r->Some_0 as int].0 == position,
            r is None ==> forall|i: int| 0 <= i < self@.len() ==> self@[i].0 != position,
    {
        let mut i: usize = 0;
        while i < self.tiles.len()
            invariant
                i <= self.tiles@.len(),
                forall|j: int| 0 <= j < i ==> self.tiles@[j].0 != position,
            decreases self.tiles@.len() - i,
        {
            if self.tiles[i].0.0 == position.0 && self.tiles[i].0.1 == position.1 {
                return Some(i);
            }
            i = i + 1;
        }
        None
    }

    /// No position is recorded twice.
    pub closed spec fn wf(&self) -> bool {
        distinct_positions(self.tiles@)
    }

    /// Records the tile at `position`, over what was known of it.
    pub fn insert(&mut self, position: Position, tile: Tile)
        requires
            old(self).wf(),
        ensures
            final(self).wf(),
            final(self)@ == area_insert(old(self)@, position, tile),
            exists|i: int| 0 <= i < final(self)@.len() && final(self)@[i] == (position, tile),
            forall|i: int| 0 <= i < old(self)@.len() && old(self)@[i].0 != position ==> final(self)@.contains(old(self)@[i]),
    {
        let ghost before = self.tiles@;
        match self.find(position) {
            Some(i) => {
                proof {
                    assert(area_index(before, position) == i) by {
                        let j = choose|j: int| 0 <= j < before.len() && before[j].0 == position;
                        if j != i {
                            assert(before[j].0 != before[i as int].0);
                        }
                    }
                }
                self.tiles.set(i, (position, tile));
                proof {
                    assert(self@[i as int] == (position, tile));
                    assert forall|k: int| 0 <= k < before.len() && before[k].0 != position implies self.tiles@.contains(before[k]) by {
                        assert(self.tiles@[k] == before[k]);
                    }
                }
            },
            None => {
                assert(area_index(before, position) == -1);
                self.tiles.push((position, tile));
                proof {
                    assert(self@[self@.len() - 1] == (position, tile));
                    assert forall|k: int| 0 <= k < before.len() && before[k].0 != position implies self.tiles@.contains(before[k]) by {
                        assert(self.tiles@[k] == before[k]);
                    }
                }
            },
        }
    }

    /// Every known square with its tile.
    pub fn tiles(&self) -> (r: &Vec<(Position, Tile)>)
        ensures
            r@ == self@,
    {
        &self.tiles
    }

    /// The tile at `position`, if it is known.
    pub fn get(&self, position: Position) -> (r: Option<Tile>)
        requires
            self.wf(),
        ensures
            r == area_get(self@, position),
            r is Some ==> exists|i: int| 0 <= i < self@.len() && self@[i] == (position, r->Some_0),
            r is None ==> forall|i: int| 0 <= i < self@.len() ==> self@[i].0 != position,
    {
        match self.find(position) {
            Some(i) => {
                proof {
                    assert(area_index(self@, position) == i) by {
                        let j = choose|j: int| 0 <= j < self@.len() && self@[j].0 == position;
                        if j != i {
                            assert(self@[j].0 != self@[i as int].0);
                        }
                    }
                }
                Some(self.tiles[i].1)
            },
            None => None,
        }
    }

    /// How many minutes oxygen takes to fill every open square that it can
    /// reach: each minute it spreads from every square that it reached the
    /// minute before (at first, every square that holds oxygen) to the open
    /// squares next to them, north, south, west and east in turn.
    pub fn time_to_oxygenize(&mut self) -> (r: usize)
        requires
            old(self).wf(),
        ensures
            final(self).wf(),
            r <= old(self)@.len(),
            final(self)@.len() == old(self)@.len(),
            minutes_spec(old(self)@, oxygen_start(old(self)@, old(self)@.len() as int), 0, (old(self)@.len() + 1) as nat)
                == (r as nat, final(self)@),
    {
        let n = self.tiles.len();
        let mut oxygen: Vec<Position> = Vec::new();
        let mut i: usize = 0;
        while i < n
            invariant
                n == self.tiles@.len(),
                i <= n,
                oxygen@ == oxygen_start(self.tiles@, i as int),
            decreases n - i,
        {
            match self.tiles[i].1 {
                Tile::Oxygen(_) => oxygen.push(self.tiles[i].0),
                _ => {},
            }
            proof {
                assert(oxygen_start(self.tiles@, i + 1) =~= oxygen@);
            }
            i = i + 1;
        }
        let mut minutes: usize = 0;
        let ghost start = self.tiles@;
        proof {
            lemma_empties_bounded(start, n as int);
        }
        loop
            invariant
                start == old(self)@,
                self.wf(),
                n == self.tiles@.len(),
                n == start.len(),
                minutes + empties(self.tiles@, n as int) <= empties(start, n as int),
                empties(start, n as int) <= n,
                minutes_spec(start, oxygen_start(start, n as int), 0, (n + 1) as nat)
                    == minutes_spec(self.tiles@, oxygen@, minutes as nat, (n + 1 - minutes) as nat),
            decreases empties(self.tiles@, n as int),
        {
            let mut fresh: Vec<Position> = Vec::new();
            let ghost before = empties(self.tiles@, n as int);
            let ghost round_start = self.tiles@;
            assert(fresh@ =~= Seq::<Position>::empty());
            let mut k: usize = 0;
            while k < oxygen.len()
                invariant
                    self.wf(),
                    n == self.tiles@.len(),
                    k <= oxygen@.len(),
                    empties(self.tiles@, n as int) + fresh@.len() <= before,
                    spread_list(round_start, seq![], oxygen@, 0) == spread_list(self.tiles@, fresh@, oxygen@, k as int),
                decreases oxygen@.len() - k,
            {
                let from = oxygen[k];
                let ghost from_start = self.tiles@;
                let ghost fresh_start = fresh@;
                let directions = [Command::North, Command::South, Command::West, Command::East];
                assert(directions@ =~= seq![Command::North, Command::South, Command::West, Command::East]);
                let mut d: usize = 0;
                while d < 4
                    invariant
                        directions@ == seq![Command::North, Command::South, Command::West, Command::East],
                        self.wf(),
                        n == self.tiles@.len(),
                        d <= 4,
                        empties(self.tiles@, n as int) + fresh@.len() <= before,
                        spread_dirs(from_start, fresh_start, from, 0) == spread_dirs(self.tiles@, fresh@, from, d as int),
                    decreases 4 - d,
                {
                    let ghost t0 = self.tiles@;
                    let ghost f0 = fresh@;
                    assert(directions[d as int] == forward_command(d as int));
                    match directions[d].next(&from) {
                        Some(neighbour) => match self.find(neighbour) {
                            Some(j) => {
                                proof {
                                    lemma_area_index_at(t0, j as int, neighbour);
                                }
                                match self.tiles[j].1 {
                                    Tile::Empty(distance) => {
                                        proof {
                                            lemma_fill_one(self.tiles@, j as int, (neighbour, Tile::Oxygen(distance)), n as int);
                                        }
                                        self.tiles.set(j, (neighbour, Tile::Oxygen(distance)));
                                        fresh.push(neighbour);
                                        proof {
                                            assert(f0 + seq![neighbour] =~= fresh@);
                                            assert forall|a: int, b: int| 0 <= a < b < self.tiles@.len() implies self.tiles@[a].0
                                                != self.tiles@[b].0 by {
                                                assert(t0[a].0 != t0[b].0);
                                            }
                                        }
                                    },
                                    _ => {
                                        assert(f0 + seq![] =~= f0);
                                    },
                                }
                            },
                            None => {
                                assert(f0 + seq![] =~= f0);
                            },
                        },
                        None => {
                            assert(f0 + seq![] =~= f0);
                        },
                    }
                    d = d + 1;
                }
                k = k + 1;
            }
            if fresh.len() == 0 {
                proof {
                    lemma_empties_bounded(start, n as int);
                }
                return minutes;
            }
            oxygen = fresh;
            minutes = minutes + 1;
        }
    }
}

/// Where a position is recorded, if the squares are distinct.
pub proof fn lemma_area_index_at(t: Seq<(Position, Tile)>, i: int, p: Position)
    requires
        distinct_positions(t),
        0 <= i < t.len(),
        t[i].0 == p,
    ensures
        area_index(t, p) == i,
{
    let j = choose|j: int| 0 <= j < t.len() && t[j].0 == p;
    if j != i {
        assert(t[j].0 != t[i].0);
    }
}

/// The positions of the squares holding oxygen among the first `k`.
pub open spec fn oxygen_start(t: Seq<(Position, Tile)>, k: int) -> Seq<Position>
    decreases k,
{
    if k <= 0 {
        seq![]
    } else if t[k - 1].1 is Oxygen {
        oxygen_start(t, k - 1).push(t[k - 1].0)
    } else {
        oxygen_start(t, k - 1)
    }
}

/// Oxygen spreading from `from` in direction `d`: the open square there,
/// if any, holds oxygen and joins `fresh`.
pub open spec fn spread_dir(t: Seq<(Position, Tile)>, fresh: Seq<Position>, from: Position, d: int) -> (Seq<(Position, Tile)>, Seq<Position>) {
    match next_spec(forward_command(d), from) {
        None => (t, fresh + seq![]),
        Some(nb) => {
            let j = area_index(t, nb);
            if j >= 0 && t[j].1 is Empty {
                (t.update(j, (nb, Tile::Oxygen(t[j].1->Empty_0))), fresh + seq![nb])
            } else {
                (t, fresh + seq![])
            }
        },
    }
}

/// Oxygen spreading from `from` in the directions from `d` on.
pub open spec fn spread_dirs(t: Seq<(Position, Tile)>, fresh: Seq<Position>, from: Position, d: int) -> (Seq<(Position, Tile)>, Seq<Position>)
    decreases 4 - d,
{
    if d >= 4 {
        (t, fresh)
    } else {
        let (t1, f1) = spread_dir(t, fresh, from, d);
        spread_dirs(t1, f1, from, d + 1)
    }
}

/// Oxygen spreading from the squares of `list` from `k` on.
pub open spec fn spread_list(t: Seq<(Position, Tile)>, fresh: Seq<Position>, list: Seq<Position>, k: int) -> (Seq<(Position, Tile)>, Seq<Position>)
    decreases list.len() - k,
{
    if k >= list.len() || k < 0 {
        (t, fresh)
    } else {
        let (t1, f1) = spread_dirs(t, fresh, list[k], 0);
        spread_list(t1, f1, list, k + 1)
    }
}

/// Minute after minute of spreading from `list`, at most `fuel` of them:
/// the minutes counted when a minute reaches no new square, and the area.
pub open spec fn minutes_spec(t: Seq<(Position, Tile)>, list: Seq<Position>, minutes: nat, fuel: nat) -> (nat, Seq<(Position, Tile)>)
    decreases fuel,
{
    if fuel == 0 {
        (minutes, t)
    } else {
        let (t1, fresh) = spread_list(t, seq![], list, 0);
        if fresh.len() == 0 {
            (minutes, t1)
        } else {
            minutes_spec(t1, fresh, minutes + 1, (fuel - 1) as nat)
        }
    }
}

pub proof fn lemma_empties_bounded(tiles: Seq<(Position, Tile)>, k: int)
    requires
        k >= 0,
    ensures
        empties(tiles, k) <= k,
    decreases k,
{
    if k > 0 {
        lemma_empties_bounded(tiles, k - 1);
    }
}

/// The reply to one command: the program runs on that command until it
/// asks for the next one; the first value it outputs is the reply. An
/// error where it fails, or halts before it takes the command or replies.
pub open spec fn exchange_spec(m: State, code: i64) -> Result<(i64, State), Error> {
    if m.mem.len() == 0 {
        Err(Error::ProgramEmpty)
    } else {
        let (res, st, c, o) = run_spec(m, seq![code], STEP_BUDGET as nat);
        match res {
            Err(e) => Err(e),
            Ok(stop) => if c == 0 {
                Err(if stop == Stop::Paused { Error::StepLimit } else { Error::MissingOutput })
            } else if o.len() == 0 {
                Err(if stop == Stop::Paused { Error::StepLimit } else { Error::MissingInput })
            } else {
                Ok((o[0], st))
            },
        }
    }
}

/// The explorer between moves: the droid's program, the map, where the
/// droid stands and how far it has walked from the start.
pub struct ExploreState {
    pub machine: State,
    pub map: Seq<(Position, Tile)>,
    pub position: Position,
    pub current: int,
}

/// The commands tried going forward, and going back.
pub open spec fn forward_command(c: int) -> Command {
    if c == 0 {
        Command::North
    } else if c == 1 {
        Command::South
    } else if c == 2 {
        Command::West
    } else {
        Command::East
    }
}

pub open spec fn backward_command(b: int) -> Command {
    if b == 0 {
        Command::East
    } else if b == 1 {
        Command::West
    } else if b == 2 {
        Command::South
    } else {
        Command::North
    }
}

/// Whether the droid tries the square: unknown, or open at a distance that
/// differs from its own by two or more.
pub open spec fn worth_trying(known: Option<Tile>, current: int) -> bool {
    match known {
        None => true,
        Some(Tile::Empty(d)) => current - d >= 2 || d - current >= 2,
        Some(_) => false,
    }
}

/// The first command from `c` on that is worth trying, sent, and the
/// reply recorded: a wall, or a move onto open floor or oxygen one step
/// farther. Whether a command was sent.
pub open spec fn forward_spec(es: ExploreState, c: int) -> Result<(ExploreState, bool), Error>
    decreases 4 - c,
{
    if c >= 4 {
        Ok((es, false))
    } else {
        let cmd = forward_command(c);
        match next_spec(cmd, es.position) {
            None => forward_spec(es, c + 1),
            Some(next) => if !worth_trying(area_get(es.map, next), es.current) {
                forward_spec(es, c + 1)
            } else {
                match exchange_spec(es.machine, code_spec(cmd)) {
                    Err(e) => Err(e),
                    Ok((reply, st)) => {
                        let d = (es.current + 1) as usize;
                        if reply == 0 {
                            Ok((ExploreState { machine: st, map: area_insert(es.map, next, Tile::Wall), ..es }, true))
                        } else if reply == 2 {
                            Ok((ExploreState { machine: st, map: area_insert(es.map, next, Tile::Oxygen(d)), position: next, current: es.current + 1 }, true))
                        } else {
                            Ok((ExploreState { machine: st, map: area_insert(es.map, next, Tile::Empty(d)), position: next, current: es.current + 1 }, true))
                        }
                    },
                }
            },
        }
    }
}

/// The first command from `b` on that leads back to open floor no farther
/// from the start, sent. Whether the droid is then back at the start.
pub open spec fn backward_spec(es: ExploreState, b: int) -> Result<(ExploreState, bool), Error>
    decreases 4 - b,
{
    if b >= 4 {
        Ok((es, false))
    } else {
        let cmd = backward_command(b);
        match next_spec(cmd, es.position) {
            None => backward_spec(es, b + 1),
            Some(next) => match area_get(es.map, next) {
                Some(Tile::Empty(d)) => if d <= es.current {
                    match exchange_spec(es.machine, code_spec(cmd)) {
                        Err(e) => Err(e),
                        Ok((reply, st)) => {
                            let back = ExploreState { machine: st, position: next, current: d as int, ..es };
                            Ok((back, next == (0i64, 0i64)))
                        },
                    }
                } else {
                    backward_spec(es, b + 1)
                },
                _ => backward_spec(es, b + 1),
            },
        }
    }
}

/// At most `fuel` rounds of exploration: a move forward where one is worth
/// trying, else a step back; the map once the droid is back at the start.
pub open spec fn explore_spec(es: ExploreState, fuel: nat) -> Result<Seq<(Position, Tile)>, Error>
    decreases fuel,
{
    if fuel == 0 {
        Err(Error::StepLimit)
    } else {
        match forward_spec(es, 0) {
            Err(e) => Err(e),
            Ok((es1, true)) => explore_spec(es1, (fuel - 1) as nat),
            Ok((es1, false)) => match backward_spec(es1, 0) {
                Err(e) => Err(e),
                Ok((es2, true)) => Ok(es2.map),
                Ok((es2, false)) => explore_spec(es2, (fuel - 1) as nat),
            },
        }
    }
}

/// The explorer at the start: open floor at distance 0 under the droid.
pub open spec fn explore_start(opcodes: Seq<i64>) -> ExploreState {
    ExploreState {
        machine: State { mem: opcodes, pc: 0, base: 0 },
        map: seq![((0i64, 0i64), Tile::Empty(0))],
        position: (0, 0),
        current: 0,
    }
}

/// Sends one command to the droid's program and returns its status reply.
fn exchange(program: &mut Program, command: Command) -> (r: Result<i64, Error>)
    ensures
        match exchange_spec(old(program)@, code_spec(command)) {
            Ok((v, st)) => r == Ok::<i64, Error>(v) && final(program)@ == st,
            Err(e) => r == Err::<i64, Error>(e),
        },
{
    let mut outputs: Vec<i64> = Vec::new();
    let input = [command.code()];
    assert(input@ =~= seq![code_spec(command)]);
    let ran = program.run(&input, &mut outputs, STEP_BUDGET);
    assert(outputs@ =~= Seq::<i64>::empty() + outputs@);
    let (stop, used) = match ran {
        Ok(x) => x,
        Err(e) => return Err(e),
    };
    if used == 0 {
        return Err(match stop {
            Stop::Paused => Error::StepLimit,
            _ => Error::MissingOutput,
        });
    }
    if outputs.len() == 0 {
        return Err(match stop {
            Stop::Paused => Error::StepLimit,
            _ => Error::MissingInput,
        });
    }
    Ok(outputs[0])
}

/// The droid, its map, where it stands and how far it has walked.
struct Explorer {
    program: Program,
    map: Area,
    position: Position,
    current: usize,
}

impl View for Explorer {
    type V = ExploreState;

    closed spec fn view(&self) -> ExploreState {
        ExploreState { machine: self.program@, map: self.map@, position: self.position, current: self.current as int }
    }
}

impl Explorer {
    fn forward(&mut self, c: usize) -> (r: Result<bool, Error>)
        requires
            old(self).map.wf(),
            old(self).current < usize::MAX,
        ensures
            final(self).map.wf(),
            final(self).current <= old(self).current + 1,
            match forward_spec(old(self)@, c as int) {
                Ok((es, moved)) => r == Ok::<bool, Error>(moved) && final(self)@ == es,
                Err(e) => r == Err::<bool, Error>(e),
            },
        decreases 4 - c,
    {
        if c >= 4 {
            return Ok(false);
        }
        let commands = [Command::North, Command::South, Command::West, Command::East];
        let cmd = commands[c];
        assert(cmd == forward_command(c as int));
        let next = match cmd.next(&self.position) {
            Some(p) => p,
            None => return self.forward(c + 1),
        };
        let known = self.map.get(next);
        let worth = match known {
            None => true,
            Some(Tile::Empty(d)) => {
                let diff = if self.current > d { self.current - d } else { d - self.current };
                diff >= 2
            },
            Some(_) => false,
        };
        if !worth {
            return self.forward(c + 1);
        }
        let reply = exchange(&mut self.program, cmd)?;
        let d = self.current + 1;
        if reply == 0 {
            self.map.insert(next, Tile::Wall);
        } else if reply == 2 {
            self.map.insert(next, Tile::Oxygen(d));
            self.position = next;
            self.current = d;
        } else {
            self.map.insert(next, Tile::Empty(d));
            self.position = next;
            self.current = d;
        }
        Ok(true)
    }

    fn backward(&mut self, b: usize) -> (r: Result<bool, Error>)
        requires
            old(self).map.wf(),
        ensures
            final(self).map.wf(),
            final(self).current <= old(self).current,
            match backward_spec(old(self)@, b as int) {
                Ok((es, home)) => r == Ok::<bool, Error>(home) && final(self)@ == es,
                Err(e) => r == Err::<bool, Error>(e),
            },
        decreases 4 - b,
    {
        if b >= 4 {
            return Ok(false);
        }
        let commands = [Command::East, Command::West, Command::South, Command::North];
        let cmd = commands[b];
        assert(cmd == backward_command(b as int));
        let next = match cmd.next(&self.position) {
            Some(p) => p,
            None => return self.backward(b + 1),
        };
        match self.map.get(next) {
            Some(Tile::Empty(d)) => {
                if d <= self.current {
                    exchange(&mut self.program, cmd)?;
                    self.current = d;
                    self.position = next;
                    Ok(next.0 == 0 && next.1 == 0)
                } else {
                    self.backward(b + 1)
                }
            },
            _ => self.backward(b + 1),
        }
    }
}

/// Explores the area with the repair droid, depth first: from each square
/// it tries north, south, west and east, skipping walls, oxygen and open
/// squares whose recorded distance is within one of its own, and records
/// what the droid reports with the distance walked; with nothing left to
/// try it steps back to a neighbour no farther from the start, and stops
/// on coming back to the start.
pub fn find_oxygen(opcodes: Vec<i64>) -> (r: Result<Area, Error>)
    ensures
        r is Ok ==> r->Ok_0.wf(),
        match explore_spec(explore_start(opcodes@), STEP_BUDGET as nat) {
            Ok(m) => r is Ok && r->Ok_0@ == m,
            Err(e) => r is Err && r->Err_0 == e,
        },
{
    let ghost start = explore_start(opcodes@);
    let mut map = Area::new();
    map.insert((0, 0), Tile::Empty(0));
    assert(map@ =~= seq![((0i64, 0i64), Tile::Empty(0))]);
    let mut ex = Explorer { program: Program::new(opcodes), map, position: (0, 0), current: 0 };
    let mut rounds: usize = STEP_BUDGET;
    while rounds > 0
        invariant
            start == explore_start(opcodes@),
            ex.map.wf(),
            ex.current <= STEP_BUDGET - rounds,
            explore_spec(start, STEP_BUDGET as nat) == explore_spec(ex@, rounds as nat),
        decreases rounds,
    {
        rounds = rounds - 1;
        let moved = match ex.forward(0) {
            Ok(m) => m,
            Err(e) => return Err(e),
        };
        if !moved {
            let home = match ex.backward(0) {
                Ok(h) => h,
                Err(e) => return Err(e),
            };
            if home {
                return Ok(ex.map);
            }
        }
    }
    Err(Error::StepLimit)
}

} // verus!
