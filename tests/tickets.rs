use intcode::tickets::Notes;

#[test]
fn invalid_fields() {
    let notes = "class: 1-3 or 5-7
row: 6-11 or 33-44
seat: 13-40 or 45-50

your ticket:
7,1,14

nearby tickets:
7,3,47
40,4,50
55,2,20
38,6,12";
    let notes = Notes::parse(notes).unwrap();
    let (fields, sum) = notes.invalid_fields().unwrap();
    assert_eq!(71, sum);
    assert_eq!(vec![4, 55, 12], fields);
}

#[test]
fn identify_fields() {
    let notes = "class: 0-1 or 4-19
departure_row: 0-5 or 8-19
departure_seat: 0-13 or 16-19

your ticket:
11,12,13

nearby tickets:
3,9,18
15,1,5
5,14,9";
    let notes = Notes::parse(notes).unwrap();
    let identified_fields = notes.identify_fields().unwrap();
    assert_eq!(b"departure_row".to_vec(), notes.rules[identified_fields[0]].name);
    assert_eq!(b"class".to_vec(), notes.rules[identified_fields[1]].name);
    assert_eq!(b"departure_seat".to_vec(), notes.rules[identified_fields[2]].name);
    assert_eq!(11 * 13, notes.my_departure_fields().unwrap().iter().product::<usize>());
}

#[test]
fn notes_are_checked() {
    assert!(Notes::parse("class 1-3\n\nyour ticket:\n1\n\nnearby tickets:\n1").is_none());
    assert!(Notes::parse("class: 1-3").is_none());
}
