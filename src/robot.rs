//! The hull painting robot: a program reads the color under the robot,
//! then tells which color to paint and which way to turn.

use vstd::prelude::*;
use crate::intcode::{step_spec, Error, Program, State, Step, STEP_BUDGET};

verus! {

/// A square of the hull.
pub type Position = (i64, i64);

/// The paint of a panel.
#[derive(Debug, Clone, Copy, PartialEq, Eq, Structural)]
pub enum Color {
    Black,
    White,
}

impl Color {
    /// 1 is white; any other code black.
    pub fn from_code(code: i64) -> (r: Color)
        ensures
            r == if code == 1 { Color::White } else { Color::Black },
    {
        if code == 1 {
            Color::White
        } else {
            Color::Black
        }
    }

    /// The code that the program reads for the color.
    pub fn code(&self) -> (r: i64)
        ensures
            r == match *self {
                Color::Black => 0i64,
                Color::White => 1,
            },
    {
        match *self {
            Color::Black => 0,
            Color::White => 1,
        }
    }
}

/// A quarter turn.
#[derive(Debug, Clone, Copy, PartialEq, Eq, Structural)]
pub enum Turn {
    Left,
    Right,
}

impl Turn {
    /// 0 turns left and 1 right; other codes are none.
    pub fn from_code(code: i64) -> (r: Option<Turn>)
        ensures
            r == if code == 0 {
                Some(Turn::Left)
            } else if code == 1 {
                Some(Turn::Right)
            } else {
                None::<Turn>
            },
    {
        if code == 0 {
            Some(Turn::Left)
        } else if code == 1 {
            Some(Turn::Right)
        } else {
            None
        }
    }
}

/// The way the robot faces.
#[derive(Debug, Clone, Copy, PartialEq, Eq, Structural)]
pub enum Direction {
    Up,
    Down,
    Left,
    Right,
}

/// The quarter turns clockwise from up.
pub open spec fn heading(d: Direction) -> int {
    match d {
        Direction::Up => 0,
        Direction::Right => 1,
        Direction::Down => 2,
        Direction::Left => 3,
    }
}

/// The direction after a quarter turn.
pub open spec fn turn_spec(d: Direction, t: Turn) -> Direction {
    match (d, t) {
        (Direction::Up, Turn::Left) => Direction::Left,
        (Direction::Up, Turn::Right) => Direction::Right,
        (Direction::Left, Turn::Left) => Direction::Down,
        (Direction::Left, Turn::Right) => Direction::Up,
        (Direction::Down, Turn::Left) => Direction::Right,
        (Direction::Down, Turn::Right) => Direction::Left,
        (Direction::Right, Turn::Left) => Direction::Up,
        (Direction::Right, Turn::Right) => Direction::Down,
    }
}

/// The square one step ahead, where the coordinates hold it.
pub open spec fn forward_spec(d: Direction, p: Position) -> Option<Position> {
    let (x, y) = match d {
        Direction::Up => (p.0 as int, p.1 + 1),
        Direction::Left => (p.0 - 1, p.1 as int),
        Direction::Down => (p.0 as int, p.1 - 1),
        Direction::Right => (p.0 + 1, p.1 as int),
    };
    if i64::MIN <= x <= i64::MAX && i64::MIN <= y <= i64::MAX {
        Some((x as i64, y as i64))
    } else {
        None
    }
}

impl Direction {
    /// The direction after a quarter turn.
    pub fn turn(&self, turn: Turn) -> (r: Direction)
        ensures
            r == turn_spec(*self, turn),
            heading(r) == (heading(*self) + if turn == Turn::Right { 1int } else { 3 }) % 4,
    {
        match (*self, turn) {
            (Direction::Up, Turn::Left) => Direction::Left,
            (Direction::Up, Turn::Right) => Direction::Right,
            (Direction::Left, Turn::Left) => Direction::Down,
            (Direction::Left, Turn::Right) => Direction::Up,
            (Direction::Down, Turn::Left) => Direction::Right,
            (Direction::Down, Turn::Right) => Direction::Left,
            (Direction::Right, Turn::Left) => Direction::Up,
            (Direction::Right, Turn::Right) => Direction::Down,
        }
    }

    /// The square one step ahead; `None` at the edge of the coordinates.
    pub fn move_forward(&self, position: Position) -> (r: Option<Position>)
        ensures
            r == forward_spec(*self, position),
            r is Some ==> r->Some_0 == match *self {
                Direction::Up => (position.0, (position.1 + 1) as i64),
                Direction::Left => ((position.0 - 1) as i64, position.1),
                Direction::Down => (position.0, (position.1 - 1) as i64),
                Direction::Right => ((position.0 + 1) as i64, position.1),
            },
    {
        match *self {
            Direction::Up => match position.1.checked_add(1) {
                Some(y) => Some((position.0, y)),
                None => None,
            },
            Direction::Left => match position.0.checked_sub(1) {
                Some(x) => Some((x, position.1)),
                None => None,
            },
            Direction::Down => match position.1.checked_sub(1) {
                Some(y) => Some((position.0, y)),
                None => None,
            },
            Direction::Right => match position.0.checked_add(1) {
                Some(x) => Some((x, position.1)),
                None => None,
            },
        }
    }
}

/// Why the robot stopped short.
#[derive(Debug, Clone, Copy, PartialEq, Eq, Structural)]
pub enum RobotError {
    /// The program failed, or it and the robot each waited on the other.
    Machine(Error),
    /// The program asked for a turn that does not exist.
    UnknownTurn(i64),
    /// The robot left the coordinates.
    OutOfRange,
}

/// Whether no panel is listed twice.
pub open spec fn distinct_panels(panels: Seq<(Position, Color)>) -> bool {
    forall|i: int, j: int| 0 <= i < j < panels.len() ==> panels[i].0 != panels[j].0
}

/// Where `position` stands among the panels.
fn find_panel(panels: &Vec<(Position, Color)>, position: Position) -> (r: Option<usize>)
    ensures
        r is Some ==> r->Some_0 < panels@.len() && panels@[r->Some_0 as int].0 == position,
        r is None ==> forall|i: int| 0 <= i < panels@.len() ==> panels@[i].0 != position,
{
    let mut i: usize = 0;
    while i < panels.len()
        invariant
            i <= panels@.len(),
            forall|j: int| 0 <= j < i ==> panels@[j].0 != position,
        decreases panels@.len() - i,
    {
        if panels[i].0.0 == position.0 && panels[i].0.1 == position.1 {
            return Some(i);
        }
        i = i + 1;
    }
    None
}

/// Where `position` is listed among the panels, or -1.
pub open spec fn panel_index(panels: Seq<(Position, Color)>, position: Position) -> int {
    if exists|i: int| 0 <= i < panels.len() && panels[i].0 == position {
        choose|i: int| 0 <= i < panels.len() && panels[i].0 == position
    } else {
        -1
    }
}

/// The robot and its program between two steps of the program: phase 0
/// before the color under the robot is read (`pending` holds it once
/// looked up), 1 before the paint, 2 before the turn.
pub struct RobotState {
    pub machine: State,
    pub panels: Seq<(Position, Color)>,
    pub position: Position,
    pub direction: Direction,
    pub phase: int,
    pub pending: Option<i64>,
}

/// What one step of the program brings about.
pub enum RobotOutcome {
    Going(RobotState),
    Done(Seq<(Position, Color)>),
    Failed(RobotError),
}

/// The panels with the one under the robot listed, black where it is new.
pub open spec fn with_current(rs: RobotState) -> Seq<(Position, Color)> {
    if panel_index(rs.panels, rs.position) >= 0 {
        rs.panels
    } else {
        rs.panels.push((rs.position, Color::Black))
    }
}

/// The color code under the robot.
pub open spec fn current_code(panels: Seq<(Position, Color)>, position: Position) -> i64 {
    match panels[panel_index(panels, position)].1 {
        Color::Black => 0,
        Color::White => 1,
    }
}

/// One step of the program, with the robot answering it: in phase 0 the
/// color under the robot is offered as input; an output in phase 1 paints
/// that panel, one in phase 2 turns the robot and moves it a square. The
/// program halting at phase 0 ends the run; halting later, asking for
/// input twice, or outputting before reading is a broken exchange.
pub open spec fn robot_iter(rs: RobotState) -> RobotOutcome {
    let looked_up = rs.phase == 0 && rs.pending is None;
    let panels = if looked_up { with_current(rs) } else { rs.panels };
    let pending = if looked_up { Some(current_code(panels, rs.position)) } else { rs.pending };
    let (res, st) = step_spec(rs.machine, pending);
    match res {
        Err(e) => RobotOutcome::Failed(RobotError::Machine(e)),
        Ok(Step::Halted) => if rs.phase == 0 {
            RobotOutcome::Done(panels)
        } else {
            RobotOutcome::Failed(RobotError::Machine(Error::MissingInput))
        },
        Ok(Step::NeedInput) => RobotOutcome::Failed(RobotError::Machine(Error::MissingInput)),
        Ok(Step::Consumed) => RobotOutcome::Going(RobotState { machine: st, panels, pending: None, phase: 1, ..rs }),
        Ok(Step::Output(v)) => if rs.phase == 0 {
            RobotOutcome::Failed(RobotError::Machine(Error::MissingOutput))
        } else if rs.phase == 1 {
            let at = panel_index(panels, rs.position);
            RobotOutcome::Going(RobotState {
                machine: st,
                panels: panels.update(at, (rs.position, if v == 1 { Color::White } else { Color::Black })),
                phase: 2,
                pending,
                ..rs
            })
        } else {
            if v != 0 && v != 1 {
                RobotOutcome::Failed(RobotError::UnknownTurn(v))
            } else {
                let d = turn_spec(rs.direction, if v == 0 { Turn::Left } else { Turn::Right });
                match forward_spec(d, rs.position) {
                    None => RobotOutcome::Failed(RobotError::OutOfRange),
                    Some(p) => RobotOutcome::Going(RobotState {
                        machine: st,
                        panels,
                        position: p,
                        direction: d,
                        phase: 0,
                        pending,
                    }),
                }
            }
        },
        Ok(Step::Continue) => RobotOutcome::Going(RobotState { machine: st, panels, pending, ..rs }),
    }
}

/// At most `fuel` steps of the robot and its program.
pub open spec fn robot_run(rs: RobotState, fuel: nat) -> Result<Seq<(Position, Color)>, RobotError>
    decreases fuel,
{
    if fuel == 0 {
        Err(RobotError::Machine(Error::StepLimit))
    } else {
        match robot_iter(rs) {
            RobotOutcome::Going(next) => robot_run(next, (fuel - 1) as nat),
            RobotOutcome::Done(panels) => Ok(panels),
            RobotOutcome::Failed(e) => Err(e),
        }
    }
}

/// The robot at the origin facing up, on white where `start_white` is set.
pub open spec fn robot_start(opcodes: Seq<i64>, start_white: bool) -> RobotState {
    RobotState {
        machine: State { mem: opcodes, pc: 0, base: 0 },
        panels: if start_white { seq![((0i64, 0i64), Color::White)] } else { seq![] },
        position: (0, 0),
        direction: Direction::Up,
        phase: 0,
        pending: None,
    }
}

/// Runs the robot's program: the robot starts at the origin facing up,
/// on white where `start_white` is set and black elsewhere; it reports the
/// color under it, paints what the program says and turns and steps as the
/// program says, until the program halts. Returns every panel that the
/// robot stood on, once each, with its last color.
pub fn painting_robot(opcodes: Vec<i64>, start_white: bool) -> (r: Result<Vec<(Position, Color)>, RobotError>)
    ensures
        match robot_run(robot_start(opcodes@, start_white), STEP_BUDGET as nat) {
            Ok(panels) => r is Ok && r->Ok_0@ == panels,
            Err(e) => r == Err::<Vec<(Position, Color)>, RobotError>(e),
        },
        r is Ok ==> distinct_panels(r->Ok_0@),
{
    let ghost start = robot_start(opcodes@, start_white);
    let mut program = Program::new(opcodes);
    let mut panels: Vec<(Position, Color)> = Vec::new();
    if start_white {
        panels.push(((0, 0), Color::White));
    }
    proof {
        if !start_white {
            assert(panels@ =~= seq![]);
        } else {
            assert(panels@ =~= seq![((0i64, 0i64), Color::White)]);
        }
    }
    let mut position: Position = (0, 0);
    let mut direction = Direction::Up;
    let mut phase: u8 = 0;
    let mut pending: Option<i64> = None;
    let mut at: usize = 0;
    let mut fuel: usize = STEP_BUDGET;
    while fuel > 0
        invariant
            start == robot_start(opcodes@, start_white),
            distinct_panels(panels@),
            phase < 3,
            phase > 0 || pending is Some ==> at < panels@.len() && panels@[at as int].0 == position
                && at == panel_index(panels@, position),
            pending is Some ==> phase == 0 && pending == Some(current_code(panels@, position)),
            robot_run(start, STEP_BUDGET as nat) == robot_run(
                RobotState { machine: program@, panels: panels@, position, direction, phase: phase as int, pending },
                fuel as nat,
            ),
        decreases fuel,
    {
        let ghost rs = RobotState { machine: program@, panels: panels@, position, direction, phase: phase as int, pending };
        fuel = fuel - 1;
        if phase == 0 && pending.is_none() {
            let index = match find_panel(&panels, position) {
                Some(i) => {
                    proof {
                        assert(panel_index(panels@, position) == i) by {
                            let j = choose|j: int| 0 <= j < panels@.len() && panels@[j].0 == position;
                            if j != i {
                                assert(panels@[j].0 != panels@[i as int].0);
                            }
                        }
                    }
                    i
                },
                None => {
                    let ghost before = panels@;
                    panels.push((position, Color::Black));
                    proof {
                        assert forall|i: int, j: int| 0 <= i < j < panels@.len() implies panels@[i].0 != panels@[j].0 by {
                            if j < before.len() {
                                assert(before[i].0 != before[j].0);
                            }
                        }
                        assert(panel_index(before, position) == -1);
                        assert(panels@ == with_current(rs));
                        let n = (panels@.len() - 1) as int;
                        assert(panels@[n].0 == position);
                        assert(panel_index(panels@, position) == n) by {
                            let j = choose|j: int| 0 <= j < panels@.len() && panels@[j].0 == position;
                            if j != n {
                                assert(before[j].0 == position);
                            }
                        }
                    }
                    panels.len() - 1
                },
            };
            at = index;
            pending = Some(panels[index].1.code());
        }
        proof {
            let looked = rs.phase == 0 && rs.pending is None;
            let sp = if looked { with_current(rs) } else { rs.panels };
            if looked {
                assert(panels@ == with_current(rs));
                assert(panels@[at as int].1 == panels@[panel_index(panels@, position)].1);
            }
            assert(panels@ == sp);
            assert(pending == if looked { Some(current_code(sp, position)) } else { rs.pending });
        }
        let ghost st_before = program@;
        let stepped = program.step(pending);
        proof {
            assert(robot_run(rs, (fuel + 1) as nat) == match robot_iter(rs) {
                RobotOutcome::Going(next) => robot_run(next, fuel as nat),
                RobotOutcome::Done(p) => Ok(p),
                RobotOutcome::Failed(e) => Err(e),
            });
        }
        match stepped {
            Err(e) => {
                assert(robot_iter(rs) == RobotOutcome::Failed(RobotError::Machine(e)));
                return Err(RobotError::Machine(e));
            },
            Ok(Step::Halted) => {
                if phase == 0 {
                    return Ok(panels);
                }
                return Err(RobotError::Machine(Error::MissingInput));
            },
            Ok(Step::NeedInput) => return Err(RobotError::Machine(Error::MissingInput)),
            Ok(Step::Consumed) => {
                pending = None;
                phase = 1;
            },
            Ok(Step::Output(v)) => {
                if phase == 0 {
                    return Err(RobotError::Machine(Error::MissingOutput));
                } else if phase == 1 {
                    let ghost before = panels@;
                    panels.set(at, (position, Color::from_code(v)));
                    proof {
                        assert forall|i: int, j: int| 0 <= i < j < panels@.len() implies panels@[i].0 != panels@[j].0 by {
                            assert(before[i].0 != before[j].0);
                        }
                        assert(panels@[at as int].0 == position);
                        assert(panel_index(panels@, position) == at) by {
                            let j = choose|j: int| 0 <= j < panels@.len() && panels@[j].0 == position;
                            if j != at {
                                assert(panels@[j].0 != panels@[at as int].0);
                            }
                        }
                    }
                    phase = 2;
                } else {
                    let turn = match Turn::from_code(v) {
                        Some(t) => t,
                        None => return Err(RobotError::UnknownTurn(v)),
                    };
                    direction = direction.turn(turn);
                    position = match direction.move_forward(position) {
                        Some(p) => p,
                        None => return Err(RobotError::OutOfRange),
                    };
                    phase = 0;
                }
            },
            Ok(Step::Continue) => {},
        }
    }
    Err(RobotError::Machine(Error::StepLimit))
}

} // verus!
