//! The arcade cabinet: a program draws tiles and the score three outputs at
//! a time, and with quarters in it plays against a joystick that follows
//! the ball.

use vstd::prelude::*;
use crate::intcode::{run_spec, Error, Program, State, Stop, STEP_BUDGET};

verus! {

/// A square of the screen.
pub type Position = (i64, i64);

/// What a square of the screen shows.
#[derive(Debug, Clone, Copy, PartialEq, Eq, Structural)]
pub enum Tile {
    Empty,
    Wall,
    Block,
    Paddle,
    Ball,
}

/// The tile that a code draws; unknown codes draw nothing.
pub open spec fn tile_spec(code: i64) -> Tile {
    if code == 1 {
        Tile::Wall
    } else if code == 2 {
        Tile::Block
    } else if code == 3 {
        Tile::Paddle
    } else if code == 4 {
        Tile::Ball
    } else {
        Tile::Empty
    }
}

impl Tile {
    /// The tile that a code draws; unknown codes draw nothing.
    pub fn from_code(code: i64) -> (r: Tile)
        ensures
            r == tile_spec(code),
    {
        if code == 1 {
            Tile::Wall
        } else if code == 2 {
            Tile::Block
        } else if code == 3 {
            Tile::Paddle
        } else if code == 4 {
            Tile::Ball
        } else {
            Tile::Empty
        }
    }
}

/// The screen and the score.
#[derive(Debug)]
pub struct Game {
    pub tiles: Vec<(Position, Tile)>,
    pub score: i64,
}

/// Whether no square is listed twice.
pub open spec fn distinct_squares(tiles: Seq<(Position, Tile)>) -> bool {
    forall|i: int, j: int| 0 <= i < j < tiles.len() ==> tiles[i].0 != tiles[j].0
}

/// The tile shown at `q` by a list of squares: the one listed last there.
pub open spec fn tile_at(tiles: Seq<(Position, Tile)>, q: Position) -> Option<Tile>
    decreases tiles.len(),
{
    if tiles.len() == 0 {
        None
    } else if tiles.last().0 == q {
        Some(tiles.last().1)
    } else {
        tile_at(tiles.drop_last(), q)
    }
}

/// The tile that the first `i` outputs (three a square) last draw at `q`,
/// if any; the score triple `-1, 0, score` draws nothing.
pub open spec fn screen_at(o: Seq<i64>, i: int, q: Position) -> Option<Tile>
    decreases i,
{
    if i < 3 {
        None
    } else if o[i - 3] == q.0 && o[i - 2] == q.1 && !(o[i - 3] == -1 && o[i - 2] == 0) {
        Some(tile_spec(o[i - 1]))
    } else {
        screen_at(o, i - 3, q)
    }
}

/// The score after the first `i` outputs, `old` where they set none.
pub open spec fn score_at(o: Seq<i64>, i: int, old: i64) -> i64
    decreases i,
{
    if i < 3 {
        old
    } else if o[i - 3] == -1 && o[i - 2] == 0 {
        o[i - 1]
    } else {
        score_at(o, i - 3, old)
    }
}

/// Drawing over the square of entry `i` changes that square only.
pub proof fn lemma_tile_at_update(t: Seq<(Position, Tile)>, i: int, p: Position, x: Tile, q: Position)
    requires
        distinct_squares(t),
        0 <= i < t.len(),
        t[i].0 == p,
    ensures
        tile_at(t.update(i, (p, x)), q) == if q == p { Some(x) } else { tile_at(t, q) },
    decreases t.len(),
{
    let u = t.update(i, (p, x));
    if i == t.len() - 1 {
        assert(u.drop_last() =~= t.drop_last());
    } else {
        assert(u.drop_last() =~= t.drop_last().update(i, (p, x)));
        assert(t.last().0 != p);
        lemma_tile_at_update(t.drop_last(), i, p, x, q);
    }
}

/// How many of the squares show `tile`.
pub open spec fn count_of(tiles: Seq<(Position, Tile)>, tile: Tile) -> nat
    decreases tiles.len(),
{
    if tiles.len() == 0 {
        0
    } else {
        count_of(tiles.drop_last(), tile) + if tiles.last().1 == tile { 1nat } else { 0 }
    }
}

impl Game {
    /// An empty screen with no score.
    pub fn new() -> (r: Game)
        ensures
            r.tiles@.len() == 0,
            r.score == 0,
    {
        Game { tiles: Vec::new(), score: 0 }
    }

    /// Draws `tile` at `position`, over what was there.
    pub fn draw(&mut self, position: Position, tile: Tile)
        requires
            distinct_squares(old(self).tiles@),
        ensures
            distinct_squares(final(self).tiles@),
            final(self).tiles@.contains((position, tile)),
            final(self).score == old(self).score,
            forall|q: Position| #[trigger] tile_at(final(self).tiles@, q) == if q == position {
                Some(tile)
            } else {
                tile_at(old(self).tiles@, q)
            },
    {
        let mut i: usize = 0;
        while i < self.tiles.len()
            invariant
                i <= self.tiles@.len(),
                self.tiles@ == old(self).tiles@,
                self.score == old(self).score,
                distinct_squares(old(self).tiles@),
                forall|j: int| 0 <= j < i ==> self.tiles@[j].0 != position,
            decreases self.tiles@.len() - i,
        {
            if self.tiles[i].0.0 == position.0 && self.tiles[i].0.1 == position.1 {
                let ghost before = self.tiles@;
                self.tiles.set(i, (position, tile));
                proof {
                    assert(self.tiles@[i as int] == (position, tile));
                    assert forall|a: int, b: int| 0 <= a < b < self.tiles@.len() implies self.tiles@[a].0 != self.tiles@[b].0 by {
                        assert(before[a].0 != before[b].0);
                    }
                    assert forall|q: Position| #[trigger] tile_at(self.tiles@, q) == if q == position {
                        Some(tile)
                    } else {
                        tile_at(before, q)
                    } by {
                        lemma_tile_at_update(before, i as int, position, tile, q);
                    }
                }
                return;
            }
            i = i + 1;
        }
        let ghost before = self.tiles@;
        self.tiles.push((position, tile));
        assert(self.tiles@[self.tiles@.len() - 1] == (position, tile));
        assert(self.tiles@.drop_last() =~= before);
    }

    /// How many squares show `tile`.
    pub fn count(&self, tile: Tile) -> (r: usize)
        ensures
            r <= self.tiles@.len(),
            r == count_of(self.tiles@, tile),
    {
        let mut n: usize = 0;
        let mut i: usize = 0;
        while i < self.tiles.len()
            invariant
                i <= self.tiles@.len(),
                n <= i,
                n == count_of(self.tiles@.subrange(0, i as int), tile),
            decreases self.tiles@.len() - i,
        {
            proof {
                assert(self.tiles@.subrange(0, i + 1).drop_last() =~= self.tiles@.subrange(0, i as int));
            }
            if self.tiles[i].1 == tile {
                n = n + 1;
            }
            i = i + 1;
        }
        assert(self.tiles@.subrange(0, i as int) =~= self.tiles@);
        n
    }

    /// The column of the first square that shows `tile`.
    pub fn column_of(&self, tile: Tile) -> (r: Option<i64>)
        ensures
            r is Some ==> exists|i: int| 0 <= i < self.tiles@.len() && self.tiles@[i].1 == tile && self.tiles@[i].0.0 == r->Some_0,
            r is None ==> forall|i: int| 0 <= i < self.tiles@.len() ==> self.tiles@[i].1 != tile,
    {
        let mut i: usize = 0;
        while i < self.tiles.len()
            invariant
                i <= self.tiles@.len(),
                forall|j: int| 0 <= j < i ==> self.tiles@[j].1 != tile,
            decreases self.tiles@.len() - i,
        {
            if self.tiles[i].1 == tile {
                return Some(self.tiles[i].0.0);
            }
            i = i + 1;
        }
        None
    }

    /// Takes the program's outputs three at a time: `-1, 0, score` sets the
    /// score, `x, y, code` draws a tile. Returns how many outputs it used.
    pub fn apply_outputs(&mut self, outputs: &Vec<i64>) -> (r: usize)
        requires
            distinct_squares(old(self).tiles@),
        ensures
            distinct_squares(final(self).tiles@),
            r <= outputs@.len(),
            r % 3 == 0,
            outputs@.len() - r < 3,
            forall|q: Position| #[trigger] tile_at(final(self).tiles@, q) == match screen_at(outputs@, r as int, q) {
                Some(t) => Some(t),
                None => tile_at(old(self).tiles@, q),
            },
            final(self).score == score_at(outputs@, r as int, old(self).score),
    {
        let mut i: usize = 0;
        while outputs.len() - i >= 3
            invariant
                i <= outputs@.len(),
                i % 3 == 0,
                distinct_squares(self.tiles@),
                forall|q: Position| #[trigger] tile_at(self.tiles@, q) == match screen_at(outputs@, i as int, q) {
                    Some(t) => Some(t),
                    None => tile_at(old(self).tiles@, q),
                },
                self.score == score_at(outputs@, i as int, old(self).score),
            decreases outputs@.len() - i,
        {
            let x = outputs[i];
            let y = outputs[i + 1];
            let v = outputs[i + 2];
            let ghost before = self.tiles@;
            if x == -1 && y == 0 {
                self.score = v;
            } else {
                self.draw((x, y), Tile::from_code(v));
            }
            proof {
                assert forall|q: Position| #[trigger] tile_at(self.tiles@, q) == match screen_at(outputs@, i + 3, q) {
                    Some(t) => Some(t),
                    None => tile_at(old(self).tiles@, q),
                } by {
                    assert(screen_at(outputs@, i + 3, q) == if x == q.0 && y == q.1 && !(x == -1 && y == 0) {
                        Some(tile_spec(v))
                    } else {
                        screen_at(outputs@, i as int, q)
                    });
                    assert(tile_at(before, q) == match screen_at(outputs@, i as int, q) {
                        Some(t) => Some(t),
                        None => tile_at(old(self).tiles@, q),
                    });
                }
            }
            i = i + 3;
        }
        i
    }
}

/// The joystick move that brings the paddle under the ball: -1 left, 1
/// right, 0 stay.
pub fn joystick(paddle: i64, ball: i64) -> (r: i64)
    ensures
        r == if paddle < ball { 1i64 } else if paddle > ball { -1i64 } else { 0i64 },
{
    if paddle < ball {
        1
    } else if paddle > ball {
        -1
    } else {
        0
    }
}

/// Runs the game program. Without quarters the program draws the screen
/// and the run ends when it halts or asks for the joystick. With quarters
/// (`free`, which sets the first cell to 2) each request for the joystick
/// is answered by moving the paddle towards the ball, until the program
/// halts; a request with no ball or paddle on screen is an input that
/// cannot come.
pub fn arcade_cabinet(opcodes: Vec<i64>, free: bool) -> (r: Result<Game, Error>)
    ensures
        r is Ok ==> distinct_squares(r->Ok_0.tiles@),
        !free ==> ({
            let (res, st, c, o) = run_spec(State { mem: opcodes@, pc: 0, base: 0 }, seq![], STEP_BUDGET as nat);
            let drawn = (o.len() as int / 3) * 3;
            &&& opcodes@.len() == 0 ==> r == Err::<Game, Error>(Error::ProgramEmpty)
            &&& opcodes@.len() > 0 ==> match res {
                Err(e) => r == Err::<Game, Error>(e),
                Ok(Stop::Paused) => r == Err::<Game, Error>(Error::StepLimit),
                Ok(_) => r is Ok && r->Ok_0.score == score_at(o, drawn, 0) && forall|q: Position|
                    #[trigger] tile_at(r->Ok_0.tiles@, q) == screen_at(o, drawn, q),
            }
        }),
{
    if !free {
        let mut program = Program::new(opcodes);
        let mut outputs: Vec<i64> = Vec::new();
        let inputs: Vec<i64> = Vec::new();
        assert(inputs@ =~= seq![]);
        let ran = program.run(inputs.as_slice(), &mut outputs, STEP_BUDGET);
        assert(outputs@ =~= Seq::<i64>::empty() + outputs@);
        let stop = match ran {
            Ok((stop, _)) => stop,
            Err(e) => return Err(e),
        };
        match stop {
            Stop::Paused => return Err(Error::StepLimit),
            _ => {},
        }
        let mut game = Game::new();
        let used = game.apply_outputs(&outputs);
        proof {
            let n = outputs@.len() as int;
            assert(used as int == (n / 3) * 3) by (nonlinear_arith)
                requires
                    used % 3 == 0,
                    0 <= n - used < 3,
                    used >= 0,
            ;
            assert forall|q: Position| #[trigger] tile_at(game.tiles@, q) == screen_at(outputs@, used as int, q) by {
                assert(tile_at(Seq::<(Position, Tile)>::empty(), q) is None);
            }
        }
        return Ok(game);
    }
    let mut opcodes = opcodes;
    if free && opcodes.len() > 0 {
        opcodes.set(0, 2);
    }
    let mut program = Program::new(opcodes);
    let mut game = Game::new();
    let mut outputs: Vec<i64> = Vec::new();
    let mut inputs: Vec<i64> = Vec::new();
    let mut rounds: usize = STEP_BUDGET;
    while rounds > 0
        invariant
            free,
            distinct_squares(game.tiles@),
        decreases rounds,
    {
        rounds = rounds - 1;
        let (stop, _) = program.run(inputs.as_slice(), &mut outputs, STEP_BUDGET)?;
        let used = game.apply_outputs(&outputs);
        outputs = crate::amplifiers::drop_front(&outputs, used);
        inputs = Vec::new();
        match stop {
            Stop::Halted => return Ok(game),
            Stop::Paused => {},
            Stop::NeedInput => {
                if !free {
                    return Ok(game);
                }
                let paddle = match game.column_of(Tile::Paddle) {
                    Some(x) => x,
                    None => return Err(Error::MissingInput),
                };
                let ball = match game.column_of(Tile::Ball) {
                    Some(x) => x,
                    None => return Err(Error::MissingInput),
                };
                inputs.push(joystick(paddle, ball));
            },
        }
    }
    Err(Error::StepLimit)
}

} // verus!
