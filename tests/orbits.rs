use intcode::orbits::OrbitalObjects;

#[test]
fn total_number_of_orbits() {
    let relations = vec!["COM)B", "B)C", "C)D", "D)E", "E)F", "B)G", "G)H", "D)I", "E)J", "J)K", "K)L"];
    let orbital_objects = OrbitalObjects::build_orbital_objects(&relations).unwrap();
    assert_eq!(Some(42), orbital_objects.count_orbits());
}

#[test]
fn to_santa() {
    let relations = vec![
        "COM)B", "B)C", "C)D", "D)E", "E)F", "B)G", "G)H", "D)I", "E)J", "J)K", "K)L", "K)YOU",
        "I)SAN",
    ];
    let orbital_objects = OrbitalObjects::build_orbital_objects(&relations).unwrap();
    assert_eq!(Some(4), orbital_objects.transfers_to_santa());
}

#[test]
fn orbit_chains() {
    let relations = vec!["COM)B", "B)C"];
    let objects = OrbitalObjects::build_orbital_objects(&relations).unwrap();
    let c = objects.find(b"C").unwrap();
    let b = objects.find(b"B").unwrap();
    assert_eq!(Some(vec![b, 0]), objects.orbits(c));
    assert!(OrbitalObjects::build_orbital_objects(&["COM-B"]).is_none());
    let looping = OrbitalObjects::build_orbital_objects(&["A)B", "B)A"]).unwrap();
    assert_eq!(None, looping.count_orbits());
    assert_eq!(None, objects.transfers_to_santa());
}
