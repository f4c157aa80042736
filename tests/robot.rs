use intcode::intcode::Error;
use intcode::robot::{painting_robot, Color, Direction, RobotError, Turn};

#[test]
fn process_opcodes() {
    let tiles = painting_robot(
        vec![
            103, 0, 104, 1, 104, 0, 103, 0, 104, 0, 104, 0, 103, 0, 104, 1, 104, 0, 103, 0, 104, 1,
            104, 0, 103, 1, 104, 0, 104, 1, 103, 0, 104, 1, 104, 0, 103, 0, 104, 1, 104, 0, 99,
        ],
        false,
    )
    .unwrap();
    assert_eq!(7, tiles.len());
}

#[test]
fn robot_paints_and_turns() {
    // Paints the first panel white, turns right, and halts.
    let tiles = painting_robot(vec![3, 100, 104, 1, 104, 1, 99], false).unwrap();
    assert_eq!(vec![((0, 0), Color::White), ((1, 0), Color::Black)], tiles);
    let tiles = painting_robot(vec![99], true).unwrap();
    assert_eq!(vec![((0, 0), Color::White)], tiles);
    assert_eq!(Err(RobotError::UnknownTurn(7)), painting_robot(vec![3, 100, 104, 1, 104, 7, 99], false));
    assert_eq!(Err(RobotError::Machine(Error::MissingInput)), painting_robot(vec![3, 100, 104, 1, 99], false));
    assert_eq!(Direction::Left, Direction::Up.turn(Turn::Left));
    assert_eq!(Some((0, 1)), Direction::Up.move_forward((0, 0)));
}
