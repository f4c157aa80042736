use intcode::seating::Boat;

#[test]
fn seating_boat() {
    let boat0 = Boat::parse("L.LL.LL.LL
LLLLLLL.LL
L.L.L..L..
LLLL.LL.LL
L.LL.LL.LL
L.LLLLL.LL
..L.L.....
LLLLLLLLLL
L.LLLLLL.L
L.LLLLL.LL").unwrap();
    let boat1 = Boat::parse("#.##.##.##
#######.##
#.#.#..#..
####.##.##
#.##.##.##
#.#####.##
..#.#.....
##########
#.######.#
#.#####.##").unwrap();
    let boat2 = Boat::parse("#.LL.L#.##
#LLLLLL.L#
L.L.L..L..
#LLL.LL.L#
#.LL.LL.LL
#.LLLL#.##
..L.L.....
#LLLLLLLL#
#.LLLLLL.L
#.#LLLL.##").unwrap();
    let boat3 = Boat::parse("#.##.L#.##
#L###LL.L#
L.#.#..#..
#L##.##.L#
#.##.LL.LL
#.###L#.##
..#.#.....
#L######L#
#.LL###L.L
#.#L###.##").unwrap();
    let boat4 = Boat::parse("#.#L.L#.##
#LLL#LL.L#
L.L.L..#..
#LLL.##.L#
#.LL.LL.LL
#.LL#L#.##
..L.L.....
#L#LLLL#L#
#.LLLLLL.L
#.#L#L#.##").unwrap();
    let boat5 = Boat::parse("#.#L.L#.##
#LLL#LL.L#
L.#.L..#..
#L##.##.L#
#.#L.LL.LL
#.#L#L#.##
..L.L.....
#L#L##L#L#
#.LLLLLL.L
#.#L#L#.##").unwrap();
    let mut boat = boat0.clone();
    boat.round(false);
    assert_eq!(boat1, boat, "different after 1 iteration");
    boat.round(false);
    assert_eq!(boat2, boat, "different after 2 iterations");
    boat.round(false);
    assert_eq!(boat3, boat, "different after 3 iterations");
    boat.round(false);
    assert_eq!(boat4, boat, "different after 4 iterations");
    boat.round(false);
    assert_eq!(boat5, boat, "different after 5 iterations");
    assert_eq!(37, boat.occupied());
    let mut boat = boat0.clone();
    assert!(boat.stabilize(false, 1000));
    assert_eq!(37, boat.occupied());
}

#[test]
fn seating_boat_in_sight() {
    let boat0 = Boat::parse("L.LL.LL.LL
LLLLLLL.LL
L.L.L..L..
LLLL.LL.LL
L.LL.LL.LL
L.LLLLL.LL
..L.L.....
LLLLLLLLLL
L.LLLLLL.L
L.LLLLL.LL").unwrap();
    let boat1 = Boat::parse("#.##.##.##
#######.##
#.#.#..#..
####.##.##
#.##.##.##
#.#####.##
..#.#.....
##########
#.######.#
#.#####.##").unwrap();
    let boat2 = Boat::parse("#.LL.LL.L#
#LLLLLL.LL
L.L.L..L..
LLLL.LL.LL
L.LL.LL.LL
L.LLLLL.LL
..L.L.....
LLLLLLLLL#
#.LLLLLL.L
#.LLLLL.L#").unwrap();
    let boat3 = Boat::parse("#.L#.##.L#
#L#####.LL
L.#.#..#..
##L#.##.##
#.##.#L.##
#.#####.#L
..#.#.....
LLL####LL#
#.L#####.L
#.L####.L#").unwrap();
    let boat4 = Boat::parse("#.L#.L#.L#
#LLLLLL.LL
L.L.L..#..
##LL.LL.L#
L.LL.LL.L#
#.LLLLL.LL
..L.L.....
LLLLLLLLL#
#.LLLLL#.L
#.L#LL#.L#").unwrap();
    let boat5 = Boat::parse("#.L#.L#.L#
#LLLLLL.LL
L.L.L..#..
##L#.#L.L#
L.L#.#L.L#
#.L####.LL
..#.#.....
LLL###LLL#
#.LLLLL#.L
#.L#LL#.L#").unwrap();
    let boat6 = Boat::parse("#.L#.L#.L#
#LLLLLL.LL
L.L.L..#..
##L#.#L.L#
L.L#.LL.L#
#.LLLL#.LL
..#.L.....
LLL###LLL#
#.LLLLL#.L
#.L#LL#.L#").unwrap();
    let mut boat = boat0.clone();
    boat.round(true);
    assert_eq!(boat1, boat, "different after 1 iteration");
    boat.round(true);
    assert_eq!(boat2, boat, "different after 2 iterations");
    boat.round(true);
    assert_eq!(boat3, boat, "different after 3 iterations");
    boat.round(true);
    assert_eq!(boat4, boat, "different after 4 iterations");
    boat.round(true);
    assert_eq!(boat5, boat, "different after 5 iterations");
    boat.round(true);
    assert_eq!(boat6, boat, "different after 6 iterations");
    assert_eq!(26, boat.occupied());
    let mut boat = boat0.clone();
    assert!(boat.stabilize(true, 1000));
    assert_eq!(26, boat.occupied());
}
