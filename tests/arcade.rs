use intcode::arcade::{arcade_cabinet, joystick, Tile};
use intcode::intcode::Error;

#[test]
fn screen_and_score() {
    let game = arcade_cabinet(
        vec![104, 1, 104, 2, 104, 3, 104, 6, 104, 5, 104, 4, 104, -1, 104, 0, 104, 42, 104, 2, 104, 2, 104, 2, 99],
        false,
    )
    .unwrap();
    assert_eq!(42, game.score);
    assert_eq!(1, game.count(Tile::Block));
    assert_eq!(Some(1), game.column_of(Tile::Paddle));
    assert_eq!(Some(6), game.column_of(Tile::Ball));
}

#[test]
fn joystick_follows_the_ball() {
    let program = vec![
        1, 0, 0, 0, 104, 3, 104, 0, 104, 3, 104, 5, 104, 0, 104, 4, 3, 100, 104, -1, 104, 0, 4,
        100, 99,
    ];
    let game = arcade_cabinet(program.clone(), true).unwrap();
    assert_eq!(1, game.score);
    let game = arcade_cabinet(program, false).unwrap();
    assert_eq!(0, game.score);
    assert_eq!(Err(Error::MissingInput), arcade_cabinet(vec![1, 0, 0, 0, 3, 100, 99], true).map(|g| g.score));
    assert_eq!(-1, joystick(5, 2));
    assert_eq!(0, joystick(2, 2));
}

#[test]
fn arcade_process_opcodes() {
    let tiles = arcade_cabinet(vec![104, 1, 104, 2, 104, 3, 104, 6, 104, 5, 104, 4, 99], false).unwrap();
    assert_eq!(0, tiles.count(Tile::Block));
    let tiles = arcade_cabinet(vec![104, 1, 104, 2, 104, 2, 99], false).unwrap();
    assert_eq!(1, tiles.count(Tile::Block));
}
