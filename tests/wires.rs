use intcode::wires::{closest_crossing, optimized_crossed_wires, wire_directives};

fn crossed(a: &str, b: &str, shortest: bool) -> i64 {
    let wire1 = wire_directives(a).unwrap();
    let wire2 = wire_directives(b).unwrap();
    optimized_crossed_wires(&wire1, &wire2, shortest).unwrap()
}

#[test]
fn cross_wires() {
    assert_eq!(6, crossed("R8,U5,L5,D3", "U7,R6,D4,L4", false));
    assert_eq!(159, crossed("R75,D30,R83,U83,L12,D49,R71,U7,L72", "U62,R66,U55,R34,D71,R55,D58,R83", false));
    assert_eq!(
        135,
        crossed("R98,U47,R26,D63,R33,U87,L62,D20,R33,U53,R51", "U98,R91,D20,R16,D67,R40,U7,R15,U6,R7", false)
    );
}

#[test]
fn main_cross_wires() {
    assert_eq!(30, crossed("R8,U5,L5,D3", "U7,R6,D4,L4", true));
    assert_eq!(610, crossed("R75,D30,R83,U83,L12,D49,R71,U7,L72", "U62,R66,U55,R34,D71,R55,D58,R83", true));
    assert_eq!(
        410,
        crossed("R98,U47,R26,D63,R33,U87,L62,D20,R33,U53,R51", "U98,R91,D20,R16,D67,R40,U7,R15,U6,R7", true)
    );
}

#[test]
fn wires_that_never_cross() {
    let a = vec![(1, 0), (2, 0)];
    let b = vec![(0, 1), (0, 2)];
    assert_eq!(None, closest_crossing(&a, &b));
    assert!(wire_directives("R8,X5").is_none());
}
