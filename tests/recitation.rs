use intcode::recitation::Recitation;

fn starting(text: &str) -> Vec<usize> {
    text.split(',').map(|n| n.parse().unwrap()).collect()
}

#[test]
fn rambunctious_recitation_2020() {
    let starting_numbers = "0,3,6";
    let mut recitation = Recitation::new(starting(starting_numbers));
    assert_eq!(0, recitation.next().unwrap());
    assert_eq!(3, recitation.next().unwrap());
    assert_eq!(6, recitation.next().unwrap());
    assert_eq!(0, recitation.next().unwrap());
    assert_eq!(3, recitation.next().unwrap());
    assert_eq!(3, recitation.next().unwrap());
    assert_eq!(1, recitation.next().unwrap());
    assert_eq!(0, recitation.next().unwrap());
    assert_eq!(4, recitation.next().unwrap());
    assert_eq!(0, recitation.next().unwrap());
    let years_number = Recitation::nth(starting(starting_numbers), 2020).unwrap();
    assert_eq!(436, years_number);
}

#[test]
fn rambunctious_recitation_30000000() {
    assert_eq!(175594, Recitation::nth(starting("0,3,6"), 30000000).unwrap());
    assert_eq!(2578, Recitation::nth(starting("1,3,2"), 30000000).unwrap());
    assert_eq!(3544142, Recitation::nth(starting("2,1,3"), 30000000).unwrap());
    assert_eq!(261214, Recitation::nth(starting("1,2,3"), 30000000).unwrap());
    assert_eq!(6895259, Recitation::nth(starting("2,3,1"), 30000000).unwrap());
    assert_eq!(18, Recitation::nth(starting("3,2,1"), 30000000).unwrap());
    assert_eq!(362, Recitation::nth(starting("3,1,2"), 30000000).unwrap());
}

#[test]
fn recitation_edges() {
    assert_eq!(None, Recitation::nth(vec![1, 2], 0));
    assert_eq!(Some(2), Recitation::nth(vec![1, 2], 2));
    assert_eq!(Some(0), Recitation::nth(vec![], 1));
    assert_eq!(Some(0), Recitation::nth(vec![1, 3, 2], 4));
    assert_eq!(Some(1), Recitation::nth(vec![1, 3, 2], 2020));
}
