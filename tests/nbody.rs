use intcode::nbody::{ppcm, prime_factors, Moon, System};

#[test]
fn find_prime_factors() {
    assert_eq!(Vec::<u64>::new(), prime_factors(1));
    assert_eq!(vec![2], prime_factors(2));
    assert_eq!(vec![2, 3, 3, 5, 7, 7], prime_factors(2 * 3 * 3 * 5 * 7 * 7));
    assert_eq!(vec![2, 2, 2, 3, 7, 1597], prime_factors(268296));
    assert_eq!(vec![2, 115807], prime_factors(231614));
    assert_eq!(vec![2, 107, 109], prime_factors(23326));
}

#[test]
fn smaller_multiple() {
    assert_eq!(2, ppcm(2, 2).unwrap());
    assert_eq!(15, ppcm(3, 5).unwrap());
    assert_eq!(90, ppcm(10, 18).unwrap());
    assert_eq!(31070554872, ppcm(268296, 231614).unwrap());
    assert_eq!(362375881472136, ppcm(ppcm(268296, 231614).unwrap(), 23326).unwrap());
}

#[test]
fn steps_10() {
    let mut system = System::new();
    system.insert("io", Moon::from_position((-1, 0, 2)));
    system.insert("europa", Moon::from_position((2, -10, -7)));
    system.insert("ganymede", Moon::from_position((4, -8, 8)));
    system.insert("callisto", Moon::from_position((3, 5, -1)));

    assert_eq!((0, 0, 0), system.get("io").unwrap().velocity);
    assert_eq!((0, 0, 0), system.get("europa").unwrap().velocity);
    assert_eq!((0, 0, 0), system.get("ganymede").unwrap().velocity);
    assert_eq!((0, 0, 0), system.get("callisto").unwrap().velocity);

    system.step();
    assert_eq!((2, -1, 1), system.get("io").unwrap().position);
    assert_eq!((3, -1, -1), system.get("io").unwrap().velocity);
    assert_eq!((3, -7, -4), system.get("europa").unwrap().position);
    assert_eq!((1, 3, 3), system.get("europa").unwrap().velocity);
    assert_eq!((1, -7, 5), system.get("ganymede").unwrap().position);
    assert_eq!((-3, 1, -3), system.get("ganymede").unwrap().velocity);
    assert_eq!((2, 2, 0), system.get("callisto").unwrap().position);
    assert_eq!((-1, -3, 1), system.get("callisto").unwrap().velocity);

    system.step();
    assert_eq!((5, -3, -1), system.get("io").unwrap().position);
    assert_eq!((3, -2, -2), system.get("io").unwrap().velocity);
    assert_eq!((1, -2, 2), system.get("europa").unwrap().position);
    assert_eq!((-2, 5, 6), system.get("europa").unwrap().velocity);
    assert_eq!((1, -4, -1), system.get("ganymede").unwrap().position);
    assert_eq!((0, 3, -6), system.get("ganymede").unwrap().velocity);
    assert_eq!((1, -4, 2), system.get("callisto").unwrap().position);
    assert_eq!((-1, -6, 2), system.get("callisto").unwrap().velocity);

    system.step();
    assert_eq!((5, -6, -1), system.get("io").unwrap().position);
    assert_eq!((0, -3, 0), system.get("io").unwrap().velocity);
    assert_eq!((0, 0, 6), system.get("europa").unwrap().position);
    assert_eq!((-1, 2, 4), system.get("europa").unwrap().velocity);
    assert_eq!((2, 1, -5), system.get("ganymede").unwrap().position);
    assert_eq!((1, 5, -4), system.get("ganymede").unwrap().velocity);
    assert_eq!((1, -8, 2), system.get("callisto").unwrap().position);
    assert_eq!((0, -4, 0), system.get("callisto").unwrap().velocity);

    system.step();
    assert_eq!((2, -8, 0), system.get("io").unwrap().position);
    assert_eq!((-3, -2, 1), system.get("io").unwrap().velocity);
    assert_eq!((2, 1, 7), system.get("europa").unwrap().position);
    assert_eq!((2, 1, 1), system.get("europa").unwrap().velocity);
    assert_eq!((2, 3, -6), system.get("ganymede").unwrap().position);
    assert_eq!((0, 2, -1), system.get("ganymede").unwrap().velocity);
    assert_eq!((2, -9, 1), system.get("callisto").unwrap().position);
    assert_eq!((1, -1, -1), system.get("callisto").unwrap().velocity);

    system.step();
    assert_eq!((-1, -9, 2), system.get("io").unwrap().position);
    assert_eq!((-3, -1, 2), system.get("io").unwrap().velocity);
    assert_eq!((4, 1, 5), system.get("europa").unwrap().position);
    assert_eq!((2, 0, -2), system.get("europa").unwrap().velocity);
    assert_eq!((2, 2, -4), system.get("ganymede").unwrap().position);
    assert_eq!((0, -1, 2), system.get("ganymede").unwrap().velocity);
    assert_eq!((3, -7, -1), system.get("callisto").unwrap().position);
    assert_eq!((1, 2, -2), system.get("callisto").unwrap().velocity);

    system.step();
    assert_eq!((-1, -7, 3), system.get("io").unwrap().position);
    assert_eq!((0, 2, 1), system.get("io").unwrap().velocity);
    assert_eq!((3, 0, 0), system.get("europa").unwrap().position);
    assert_eq!((-1, -1, -5), system.get("europa").unwrap().velocity);
    assert_eq!((3, -2, 1), system.get("ganymede").unwrap().position);
    assert_eq!((1, -4, 5), system.get("ganymede").unwrap().velocity);
    assert_eq!((3, -4, -2), system.get("callisto").unwrap().position);
    assert_eq!((0, 3, -1), system.get("callisto").unwrap().velocity);

    system.step();
    assert_eq!((2, -2, 1), system.get("io").unwrap().position);
    assert_eq!((3, 5, -2), system.get("io").unwrap().velocity);
    assert_eq!((1, -4, -4), system.get("europa").unwrap().position);
    assert_eq!((-2, -4, -4), system.get("europa").unwrap().velocity);
    assert_eq!((3, -7, 5), system.get("ganymede").unwrap().position);
    assert_eq!((0, -5, 4), system.get("ganymede").unwrap().velocity);
    assert_eq!((2, 0, 0), system.get("callisto").unwrap().position);
    assert_eq!((-1, 4, 2), system.get("callisto").unwrap().velocity);

    system.step();
    assert_eq!((5, 2, -2), system.get("io").unwrap().position);
    assert_eq!((3, 4, -3), system.get("io").unwrap().velocity);
    assert_eq!((2, -7, -5), system.get("europa").unwrap().position);
    assert_eq!((1, -3, -1), system.get("europa").unwrap().velocity);
    assert_eq!((0, -9, 6), system.get("ganymede").unwrap().position);
    assert_eq!((-3, -2, 1), system.get("ganymede").unwrap().velocity);
    assert_eq!((1, 1, 3), system.get("callisto").unwrap().position);
    assert_eq!((-1, 1, 3), system.get("callisto").unwrap().velocity);

    system.step();
    assert_eq!((5, 3, -4), system.get("io").unwrap().position);
    assert_eq!((0, 1, -2), system.get("io").unwrap().velocity);
    assert_eq!((2, -9, -3), system.get("europa").unwrap().position);
    assert_eq!((0, -2, 2), system.get("europa").unwrap().velocity);
    assert_eq!((0, -8, 4), system.get("ganymede").unwrap().position);
    assert_eq!((0, 1, -2), system.get("ganymede").unwrap().velocity);
    assert_eq!((1, 1, 5), system.get("callisto").unwrap().position);
    assert_eq!((0, 0, 2), system.get("callisto").unwrap().velocity);

    system.step();
    assert_eq!((2, 1, -3), system.get("io").unwrap().position);
    assert_eq!((-3, -2, 1), system.get("io").unwrap().velocity);
    assert_eq!((1, -8, 0), system.get("europa").unwrap().position);
    assert_eq!((-1, 1, 3), system.get("europa").unwrap().velocity);
    assert_eq!((3, -6, 1), system.get("ganymede").unwrap().position);
    assert_eq!((3, 2, -3), system.get("ganymede").unwrap().velocity);
    assert_eq!((2, 0, 4), system.get("callisto").unwrap().position);
    assert_eq!((1, -1, -1), system.get("callisto").unwrap().velocity);

    assert_eq!(179, system.energy().unwrap());
}

#[test]
fn steps_100() {
    let mut system = System::new();
    system.insert("io", Moon::from_position((-8, -10, 0)));
    system.insert("europa", Moon::from_position((5, 5, 10)));
    system.insert("ganymede", Moon::from_position((2, -7, 3)));
    system.insert("callisto", Moon::from_position((9, -8, -3)));

    assert_eq!((0, 0, 0), system.get("io").unwrap().velocity);
    assert_eq!((0, 0, 0), system.get("europa").unwrap().velocity);
    assert_eq!((0, 0, 0), system.get("ganymede").unwrap().velocity);
    assert_eq!((0, 0, 0), system.get("callisto").unwrap().velocity);

    system.steps(10);
    assert_eq!((-9, -10, 1), system.get("io").unwrap().position);
    assert_eq!((-2, -2, -1), system.get("io").unwrap().velocity);
    assert_eq!((4, 10, 9), system.get("europa").unwrap().position);
    assert_eq!((-3, 7, -2), system.get("europa").unwrap().velocity);
    assert_eq!((8, -10, -3), system.get("ganymede").unwrap().position);
    assert_eq!((5, -1, -2), system.get("ganymede").unwrap().velocity);
    assert_eq!((5, -10, 3), system.get("callisto").unwrap().position);
    assert_eq!((0, -4, 5), system.get("callisto").unwrap().velocity);

    system.steps(10);
    assert_eq!((-10, 3, -4), system.get("io").unwrap().position);
    assert_eq!((-5, 2, 0), system.get("io").unwrap().velocity);
    assert_eq!((5, -25, 6), system.get("europa").unwrap().position);
    assert_eq!((1, 1, -4), system.get("europa").unwrap().velocity);
    assert_eq!((13, 1, 1), system.get("ganymede").unwrap().position);
    assert_eq!((5, -2, 2), system.get("ganymede").unwrap().velocity);
    assert_eq!((0, 1, 7), system.get("callisto").unwrap().position);
    assert_eq!((-1, -1, 2), system.get("callisto").unwrap().velocity);

    system.steps(10);
    assert_eq!((15, -6, -9), system.get("io").unwrap().position);
    assert_eq!((-5, 4, 0), system.get("io").unwrap().velocity);
    assert_eq!((-4, -11, 3), system.get("europa").unwrap().position);
    assert_eq!((-3, -10, 0), system.get("europa").unwrap().velocity);
    assert_eq!((0, -1, 11), system.get("ganymede").unwrap().position);
    assert_eq!((7, 4, 3), system.get("ganymede").unwrap().velocity);
    assert_eq!((-3, -2, 5), system.get("callisto").unwrap().position);
    assert_eq!((1, 2, -3), system.get("callisto").unwrap().velocity);

    system.steps(10);
    assert_eq!((14, -12, -4), system.get("io").unwrap().position);
    assert_eq!((11, 3, 0), system.get("io").unwrap().velocity);
    assert_eq!((-1, 18, 8), system.get("europa").unwrap().position);
    assert_eq!((-5, 2, 3), system.get("europa").unwrap().velocity);
    assert_eq!((-5, -14, 8), system.get("ganymede").unwrap().position);
    assert_eq!((1, -2, 0), system.get("ganymede").unwrap().velocity);
    assert_eq!((0, -12, -2), system.get("callisto").unwrap().position);
    assert_eq!((-7, -3, -3), system.get("callisto").unwrap().velocity);

    system.steps(10);
    assert_eq!((-23, 4, 1), system.get("io").unwrap().position);
    assert_eq!((-7, -1, 2), system.get("io").unwrap().velocity);
    assert_eq!((20, -31, 13), system.get("europa").unwrap().position);
    assert_eq!((5, 3, 4), system.get("europa").unwrap().velocity);
    assert_eq!((-4, 6, 1), system.get("ganymede").unwrap().position);
    assert_eq!((-1, 1, -3), system.get("ganymede").unwrap().velocity);
    assert_eq!((15, 1, -5), system.get("callisto").unwrap().position);
    assert_eq!((3, -3, -3), system.get("callisto").unwrap().velocity);

    system.steps(10);
    assert_eq!((36, -10, 6), system.get("io").unwrap().position);
    assert_eq!((5, 0, 3), system.get("io").unwrap().velocity);
    assert_eq!((-18, 10, 9), system.get("europa").unwrap().position);
    assert_eq!((-3, -7, 5), system.get("europa").unwrap().velocity);
    assert_eq!((8, -12, -3), system.get("ganymede").unwrap().position);
    assert_eq!((-2, 1, -7), system.get("ganymede").unwrap().velocity);
    assert_eq!((-18, -8, -2), system.get("callisto").unwrap().position);
    assert_eq!((0, 6, -1), system.get("callisto").unwrap().velocity);

    system.steps(10);
    assert_eq!((-33, -6, 5), system.get("io").unwrap().position);
    assert_eq!((-5, -4, 7), system.get("io").unwrap().velocity);
    assert_eq!((13, -9, 2), system.get("europa").unwrap().position);
    assert_eq!((-2, 11, 3), system.get("europa").unwrap().velocity);
    assert_eq!((11, -8, 2), system.get("ganymede").unwrap().position);
    assert_eq!((8, -6, -7), system.get("ganymede").unwrap().velocity);
    assert_eq!((17, 3, 1), system.get("callisto").unwrap().position);
    assert_eq!((-1, -1, -3), system.get("callisto").unwrap().velocity);

    system.steps(10);
    assert_eq!((30, -8, 3), system.get("io").unwrap().position);
    assert_eq!((3, 3, 0), system.get("io").unwrap().velocity);
    assert_eq!((-2, -4, 0), system.get("europa").unwrap().position);
    assert_eq!((4, -13, 2), system.get("europa").unwrap().velocity);
    assert_eq!((-18, -7, 15), system.get("ganymede").unwrap().position);
    assert_eq!((-8, 2, -2), system.get("ganymede").unwrap().velocity);
    assert_eq!((-2, -1, -8), system.get("callisto").unwrap().position);
    assert_eq!((1, 8, 0), system.get("callisto").unwrap().velocity);

    system.steps(10);
    assert_eq!((-25, -1, 4), system.get("io").unwrap().position);
    assert_eq!((1, -3, 4), system.get("io").unwrap().velocity);
    assert_eq!((2, -9, 0), system.get("europa").unwrap().position);
    assert_eq!((-3, 13, -1), system.get("europa").unwrap().velocity);
    assert_eq!((32, -8, 14), system.get("ganymede").unwrap().position);
    assert_eq!((5, -4, 6), system.get("ganymede").unwrap().velocity);
    assert_eq!((-1, -2, -8), system.get("callisto").unwrap().position);
    assert_eq!((-3, -6, -9), system.get("callisto").unwrap().velocity);

    system.steps(10);
    assert_eq!((8, -12, -9), system.get("io").unwrap().position);
    assert_eq!((-7, 3, 0), system.get("io").unwrap().velocity);
    assert_eq!((13, 16, -3), system.get("europa").unwrap().position);
    assert_eq!((3, -11, -5), system.get("europa").unwrap().velocity);
    assert_eq!((-29, -11, -1), system.get("ganymede").unwrap().position);
    assert_eq!((-3, 7, 4), system.get("ganymede").unwrap().velocity);
    assert_eq!((16, -13, 23), system.get("callisto").unwrap().position);
    assert_eq!((7, 1, 1), system.get("callisto").unwrap().velocity);

    assert_eq!(1940, system.energy().unwrap());
}

#[test]
fn moon() {
    let moon = Moon::parse("<x=5, y=-8, z=3>").unwrap();
    assert_eq!((5, -8, 3), moon.position);
    assert_eq!((0, 0, 0), moon.velocity);
}

#[test]
fn next_cycle() {
    let mut system = System::new();
    system.insert("io", Moon::from_position((-1, 0, 2)));
    system.insert("europa", Moon::from_position((2, -10, -7)));
    system.insert("ganymede", Moon::from_position((4, -8, 8)));
    system.insert("callisto", Moon::from_position((3, 5, -1)));

    assert_eq!(2772, system.next_cycle().unwrap());
}

#[test]
fn next_cycle_long() {
    let mut system = System::new();
    system.insert("io", Moon::from_position((-8, -10, 0)));
    system.insert("europa", Moon::from_position((5, 5, 10)));
    system.insert("ganymede", Moon::from_position((2, -7, 3)));
    system.insert("callisto", Moon::from_position((9, -8, -3)));

    assert_eq!(4686774924, system.next_cycle().unwrap());
}

#[test]
fn moon_text_is_checked() {
    assert!(Moon::parse("<x=5, y=-8>").is_none());
    assert!(Moon::parse("<x=5, y=-8, z=3> ").is_none());
    assert!(Moon::parse("x=5, y=-8, z=3").is_none());
}

#[test]
fn moon_energy() {
    let mut moon = Moon::from_position((2, 1, -3));
    moon.velocity = (-3, -2, 1);
    assert_eq!(Some(36), moon.energy());
}

