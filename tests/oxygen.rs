use intcode::oxygen::{Area, Command, Tile};

#[test]
fn small() {
    let mut map = Area::new();
    map.insert((0, 0), Tile::Empty(0));
    map.insert((0, 1), Tile::Wall);
    map.insert((1, 0), Tile::Empty(1));
    map.insert((1, 1), Tile::Wall);
    map.insert((1, -1), Tile::Wall);
    map.insert((2, 0), Tile::Wall);
    map.insert((-1, 0), Tile::Wall);
    map.insert((0, -1), Tile::Empty(1));
    map.insert((0, -2), Tile::Wall);
    map.insert((-1, -1), Tile::Oxygen(2));
    map.insert((-2, -1), Tile::Wall);
    map.insert((-1, -2), Tile::Wall);
    assert_eq!(3, map.time_to_oxygenize());
}

#[test]
fn bigger() {
    let mut map = Area::new();
    map.insert((1, 4), Tile::Wall);
    map.insert((2, 4), Tile::Wall);
    map.insert((0, 3), Tile::Wall);
    map.insert((1, 3), Tile::Empty(3));
    map.insert((2, 3), Tile::Empty(4));
    map.insert((3, 3), Tile::Wall);
    map.insert((4, 3), Tile::Wall);
    map.insert((0, 2), Tile::Wall);
    map.insert((1, 2), Tile::Empty(2));
    map.insert((2, 2), Tile::Wall);
    map.insert((3, 2), Tile::Empty(2));
    map.insert((4, 2), Tile::Empty(3));
    map.insert((5, 2), Tile::Wall);
    map.insert((0, 1), Tile::Wall);
    map.insert((1, 1), Tile::Empty(1));
    map.insert((2, 1), Tile::Oxygen(1));
    map.insert((3, 1), Tile::Empty(1));
    map.insert((4, 1), Tile::Wall);
    map.insert((1, 0), Tile::Wall);
    map.insert((2, 0), Tile::Wall);
    map.insert((3, 0), Tile::Wall);
    assert_eq!(4, map.time_to_oxygenize());
}

#[test]
fn droid_commands() {
    assert_eq!(Some((0, 1)), Command::North.next(&(0, 0)));
    assert_eq!(Some((-1, 0)), Command::West.next(&(0, 0)));
    assert_eq!(None, Command::East.next(&(i64::MAX, 0)));
    assert_eq!(4, Command::East.code());
    assert_eq!(Tile::Wall, Tile::from_status(0));
    assert_eq!(Tile::Oxygen(999), Tile::from_status(2));
}

#[test]
fn no_oxygen_no_time() {
    let mut map = Area::new();
    map.insert((0, 0), Tile::Empty(0));
    map.insert((0, 0), Tile::Wall);
    assert_eq!(Some(Tile::Wall), map.get((0, 0)));
    assert_eq!(0, map.time_to_oxygenize());
}

#[test]
fn droid_explores_a_dead_end() {
    // The first move succeeds; afterwards only moving south does.
    let droid = vec![3, 100, 104, 1, 3, 100, 1008, 100, 2, 101, 4, 101, 1105, 1, 4];
    let mut map = intcode::oxygen::find_oxygen(droid).unwrap();
    assert_eq!(Some(Tile::Empty(0)), map.get((0, 0)));
    assert_eq!(Some(Tile::Empty(1)), map.get((0, 1)));
    assert_eq!(Some(Tile::Wall), map.get((0, 2)));
    assert_eq!(Some(Tile::Wall), map.get((-1, 1)));
    assert_eq!(Some(Tile::Wall), map.get((1, 1)));
    assert_eq!(None, map.get((1, 0)));
    assert_eq!(0, map.time_to_oxygenize());
}
