use intcode::operations::{evaluate, evaluate_lines};

const HOMEWORK: &str = "1 + 2 * 3 + 4 * 5 + 6
1 + (2 * 3) + (4 * (5 + 6))
2 * 3 + (4 * 5)
5 + (8 * 3 + 9 + 3 * 4 * 3)
5 * 9 * (7 * 3 * 3 + 9 * 3 + (8 + 6 * 4))
((2 + 4 * 9) * (6 + 9 * 8 + 6) + 6) + 2 + 4 * 2";

#[test]
fn operation_order() {
    let results = evaluate_lines(HOMEWORK, false).unwrap();
    assert_eq!(71, results[0]);
    assert_eq!(51, results[1]);
    assert_eq!(26, results[2]);
    assert_eq!(437, results[3]);
    assert_eq!(12240, results[4]);
    assert_eq!(13632, results[5]);
}

#[test]
fn main_operation_order() {
    let results = evaluate_lines(HOMEWORK, true).unwrap();
    assert_eq!(231, results[0]);
    assert_eq!(51, results[1]);
    assert_eq!(46, results[2]);
    assert_eq!(1445, results[3]);
    assert_eq!(669060, results[4]);
    assert_eq!(23340, results[5]);
}

#[test]
fn malformed_homework() {
    assert_eq!(None, evaluate(b"1 + (2", false));
    assert_eq!(None, evaluate(b"1 + 2)", false));
    assert_eq!(None, evaluate(b"1 +", false));
    assert_eq!(None, evaluate(b"1 - 2", false));
    assert_eq!(Some(7), evaluate(b"7", true));
}
