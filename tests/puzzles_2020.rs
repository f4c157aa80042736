use intcode::adapters::Adapters;
use intcode::boarding::BoardingPass;
use intcode::customs::{groups_answers, sum_answers};
use intcode::docking::{apply, parse_patches, Bits};
use intcode::expenses::{fix_expense_report, fix_expense_report_three};
use intcode::handheld::{ExitCode, Program};
use intcode::passports::Unit::{Centimeter, Inch, Missing};
use intcode::passports::{passeports, properties, Passeport};
use intcode::policy::filter_valid_entries;
use intcode::rain_risk::{execute, parse_actions};
use intcode::shuttle::ShuttleSearch;
use intcode::text::{parse_signed, parse_unsigned, split};
use intcode::toboggan::Forest;
use intcode::xmas::Xmas::{NotValid, Valid};
use intcode::xmas::{Xmas, XmasIterator};

#[test]
fn expense_report() {
    let entries = vec![1721, 979, 366, 299, 675, 1456];
    assert_eq!(Some((1721, 299)), fix_expense_report(&entries));
}

#[test]
fn main_expense_report() {
    let entries = vec![1721, 979, 366, 299, 675, 1456];
    assert_eq!(Some((979, 366, 675)), fix_expense_report_three(&entries));
}

#[test]
fn expense_report_without_answer() {
    assert_eq!(None, fix_expense_report(&[1, 2, 3]));
    assert_eq!(Some((1010, 1010)), fix_expense_report(&[1010]));
    assert_eq!(None, fix_expense_report_three(&[1010, 1010]));
}

#[test]
fn password_philosophy() {
    let entries = vec!["1-3 a: abcde", "1-3 b: cdefg", "2-9 c: ccccccccc"];
    assert_eq!(2, filter_valid_entries(&entries, false).len());
}

#[test]
fn main_password_philosophy() {
    let entries = vec!["1-3 a: abcde", "1-3 b: cdefg", "2-9 c: ccccccccc"];
    assert_eq!(1, filter_valid_entries(&entries, true).len());
}

#[test]
fn toboggan_trajectory() {
    let map = "..##.......
#...#...#..
.#....#..#.
..#.#...#.#
.#...##..#.
..#.##.....
.#.#.#....#
.#........#
#.##...#...
#...##....#
.#..#...#.#";
    let map = Forest::from_lines(map).unwrap();
    assert_eq!(2, map.count_trees((1, 1)));
    assert_eq!(7, map.count_trees((3, 1)));
    assert_eq!(3, map.count_trees((5, 1)));
    assert_eq!(4, map.count_trees((7, 1)));
    assert_eq!(2, map.count_trees((1, 2)));
}

#[test]
fn uneven_forest_is_refused() {
    assert!(Forest::from_lines("..#\n.#").is_none());
    assert!(Forest::from_lines("..x").is_none());
}

#[test]
fn boarding_pass() {
    let boarding_pass = BoardingPass::parse("FBFBBFFRLR".as_bytes()).unwrap();
    assert_eq!(357, boarding_pass.id());
    assert!(BoardingPass::parse("FBFBBFFRL".as_bytes()).is_none());
    assert!(BoardingPass::parse("FBFBBFFRLX".as_bytes()).is_none());
}

#[test]
fn boarding_passes() {
    let passes = intcode::boarding::boarding_passes("BFFFBBFRRR\nFFFBBBFRRR\nBBFFBBFRLL").unwrap();
    assert_eq!(3, passes.len());
    assert_eq!(567, passes[0].id());
    assert_eq!(119, passes[1].id());
    assert_eq!(820, passes[2].id());
}

#[test]
fn find_seat() {
    let ids = vec![8, 4, 5, 7];
    assert_eq!(Some(6), intcode::boarding::find_seat(ids));
    assert_eq!(None, intcode::boarding::find_seat(vec![1, 2, 3]));
}

#[test]
fn main_boarding_passes() {
    let answers = "abc

a
b
c

ab
ac

a
a
a
a

b";
    let anyone = groups_answers(answers, false);
    assert_eq!(Some(11), sum_answers(&anyone));
    let everyone = groups_answers(answers, true);
    assert_eq!(Some(6), sum_answers(&everyone));
}

const BOOT_CODE: &str = "nop +0
acc +1
jmp +4
acc +3
jmp -3
acc -99
acc +1
jmp -4
acc +6";

#[test]
fn infinite_loop() {
    let program = Program::parse(BOOT_CODE).unwrap();
    let state = program.execute();
    assert_eq!(5, state.accumulator);
    assert_eq!(Some(ExitCode::InfiniteLoop), state.exit_code);
    assert_eq!(1, state.index);
}

#[test]
fn fix_program() {
    let mut program = Program::parse(BOOT_CODE).unwrap();
    program.fix();
    let state = program.execute();
    assert_eq!(8, state.accumulator);
    assert_eq!(Some(ExitCode::OutOfBounds), state.exit_code);
}

#[test]
fn boot_code_refuses_unknown_operations() {
    assert!(Program::parse("nop +0\nmul +2").is_none());
    assert!(Program::parse("acc 2x").is_none());
}

fn numbers(values: impl Iterator<Item = usize>) -> Vec<usize> {
    values.collect()
}

fn twenty_sixth(values: Vec<usize>) -> Xmas {
    let mut xmas = XmasIterator::new(values, 25);
    for _ in 0..25 {
        assert!(matches!(xmas.next(), Some(Xmas::Buffer(_))));
    }
    xmas.next().unwrap()
}

#[test]
fn xmas_simple() {
    let base = || numbers(1usize..=25usize);
    let with = |n: usize| {
        let mut v = base();
        v.push(n);
        v
    };
    assert_eq!(Valid(26, 1, 25), twenty_sixth(with(26)));
    assert_eq!(Valid(49, 24, 25), twenty_sixth(with(49)));
    assert_eq!(NotValid(100), twenty_sixth(with(100)));
    assert_eq!(NotValid(50), twenty_sixth(with(50)));
}

#[test]
fn xmas_missing_20() {
    let base = || numbers((1usize..20usize).chain(21usize..=25usize).chain(std::iter::once(45)));
    let with = |n: usize| {
        let mut v = base();
        v.push(n);
        v
    };
    assert_eq!(Valid(26, 1, 25), twenty_sixth(with(26)));
    assert_eq!(NotValid(65), twenty_sixth(with(65)));
    assert_eq!(Valid(64, 19, 45), twenty_sixth(with(64)));
    assert_eq!(Valid(66, 21, 45), twenty_sixth(with(66)));
}

#[test]
fn xmas() {
    let numbers = vec![
        35, 20, 15, 25, 47, 40, 62, 55, 65, 95, 102, 117, 150, 182, 127, 219, 299, 277, 309, 576,
    ];
    let xmas = XmasIterator::new(numbers, 5);
    let (invalid_number, range) = xmas.xmas_number().unwrap();
    assert_eq!(127, invalid_number);
    assert_eq!(15, range.iter().copied().min().unwrap());
    assert_eq!(47, range.iter().copied().max().unwrap());
}

fn adapters(text: &str) -> Adapters {
    Adapters::new(text.split_whitespace().map(|s| s.parse().unwrap()).collect()).unwrap()
}

#[test]
fn few_adapters() {
    let adapters = adapters("16 10 15 5 1 11 7 19 6 12 4");
    let (one, two, three) = adapters.differences().unwrap();
    assert_eq!(7, one);
    assert_eq!(0, two);
    assert_eq!(5, three);
    assert_eq!(Some(8), adapters.arrangements());
}

#[test]
fn more_adapters() {
    let adapters = adapters(
        "28 33 18 42 31 14 46 20 48 47 24 23 49 45 19 38 39 11 1 32 25 35 8 17 7 9 4 2 34 10 3",
    );
    let (one, two, three) = adapters.differences().unwrap();
    assert_eq!(22, one);
    assert_eq!(0, two);
    assert_eq!(10, three);
    assert_eq!(Some(19208), adapters.arrangements());
}

#[test]
fn successive_adapters() {
    let adapters = adapters("1 2 3 4");
    let (one, two, three) = adapters.differences().unwrap();
    assert_eq!(4, one);
    assert_eq!(0, two);
    assert_eq!(1, three);
    assert_eq!(Some(7), adapters.arrangements());
    assert_eq!(&vec![0, 1, 2, 3, 4, 7], adapters.adapters());
}

#[test]
fn broken_adapter_chain() {
    assert_eq!(None, adapters("1 5").differences());
    assert_eq!(None, adapters("1 1").differences());
}

#[test]
fn boat() {
    let boat = execute(&parse_actions("F10 N3 F7 R90 F11").unwrap(), false).unwrap();
    assert_eq!(Some(25), boat.manhattan());
}

#[test]
fn main_boat() {
    let boat = execute(&parse_actions("F10 N3 F7 R90 F11").unwrap(), true).unwrap();
    assert_eq!(Some(286), boat.manhattan());
}

#[test]
fn shuttle_search() {
    let (bus_id, next_passage) =
        ShuttleSearch::parse("939\n7,13,x,x,59,x,31,19").unwrap().next_bus().unwrap();
    assert_eq!(59, bus_id);
    assert_eq!(5, next_passage);
}

#[test]
fn main_shuttle_search() {
    let cases = [
        ("0\n3,4,7", 75),
        ("0\n7,13,x,x,59,x,31,19", 1068781),
        ("0\n17,x,13,19", 3417),
        ("0\n67,7,59,61", 754018),
        ("0\n67,x,7,59,61", 779210),
        ("0\n67,7,x,59,61", 1261476),
        ("0\n1789,37,47,1889", 1202161486),
    ];
    for (notes, expected) in cases {
        assert_eq!(Some(expected), ShuttleSearch::parse(notes).unwrap().golden_timestamp());
    }
}

#[test]
fn numbers_from_text() {
    assert_eq!(Some(123), parse_unsigned(b"123"));
    assert_eq!(None, parse_unsigned(b""));
    assert_eq!(None, parse_unsigned(b"12a"));
    assert_eq!(None, parse_unsigned(b"18446744073709551616"));
    assert_eq!(Some(-99), parse_signed(b"-99"));
    assert_eq!(Some(4), parse_signed(b"+4"));
    assert_eq!(Some(i64::MIN), parse_signed(b"-9223372036854775808"));
    assert_eq!(None, parse_signed(b"-"));
    assert_eq!(vec![b"a".to_vec(), vec![], b"b".to_vec()], split(b"a,,b", b','));
}

#[test]
fn complete_passeports() {
    let text = "ecl:gry pid:860033327 eyr:2020 hcl:#fffffd
byr:1937 iyr:2017 cid:147 hgt:183cm

iyr:2013 ecl:amb cid:350 eyr:2023 pid:028048884
hcl:#cfa07d byr:1929

hcl:#ae17e1 iyr:2013
eyr:2024
ecl:brn pid:760753108 byr:1931
hgt:179cm

hcl:#cfa07d eyr:2025 pid:166559648
iyr:2011 ecl:brn hgt:59in";
    let found = passeports(properties(text).unwrap());
    assert_eq!(2, found.len());
}

#[test]
fn invalid_passeports() {
    let text = "eyr:1972 cid:100
hcl:#18171d ecl:amb hgt:170 pid:186cm iyr:2018 byr:1926

iyr:2019
hcl:#602927 eyr:1967 hgt:170cm
ecl:grn pid:012533040 byr:1946

hcl:dab227 iyr:2012
ecl:brn hgt:182cm pid:021572410 eyr:2020 byr:1992 cid:277

hgt:59cm ecl:zzz
eyr:2038 hcl:74454a iyr:2023
pid:3556412378 byr:2007";
    let found = passeports(properties(text).unwrap());
    assert_eq!(0, found.iter().filter(|p| p.check()).count());
}

#[test]
fn valid_passeports() {
    let text = "pid:087499704 hgt:74in ecl:grn iyr:2012 eyr:2030 byr:1980
hcl:#623a2f

eyr:2029 ecl:blu cid:129 byr:1989
iyr:2014 pid:896056539 hcl:#a97842 hgt:165cm

hcl:#888785
hgt:164cm byr:2001 iyr:2015 cid:88
pid:545766238 ecl:hzl
eyr:2022

iyr:2010 hgt:158cm hcl:#b6652a ecl:blu byr:1944 eyr:2021 pid:093154719";
    let found = passeports(properties(text).unwrap());
    assert_eq!(4, found.iter().filter(|p| p.check()).count());
}

#[test]
fn check_id() {
    for (id, expected) in vec![("000000001", true), ("123456789", true), ("0123456789", false)] {
        let passeport = Passeport { id: id.as_bytes().to_vec(), ..Default::default() };
        assert_eq!(expected, passeport.check_id());
    }
}

#[test]
fn check_birth_year() {
    for (birth_year, expected) in vec![(2002, true), (2003, false)] {
        let passeport = Passeport { birth_year, ..Default::default() };
        assert_eq!(expected, passeport.check_birth_year());
    }
}

#[test]
fn check_height() {
    for (height, expected) in
        vec![((60, Inch), true), ((190, Centimeter), true), ((190, Inch), false), ((190, Missing), false)]
    {
        let passeport = Passeport { height, ..Default::default() };
        assert_eq!(expected, passeport.check_height());
    }
}

#[test]
fn check_hair_color() {
    for (hair_color, expected) in vec![("#123abc", true), ("#123abz", false), ("123abc", false)] {
        let passeport = Passeport { hair_color: hair_color.as_bytes().to_vec(), ..Default::default() };
        assert_eq!(expected, passeport.check_hair_color());
    }
}

#[test]
fn check_eye_color() {
    for (eye_color, expected) in vec![("brn", true), ("wat", false)] {
        let passeport = Passeport { eye_color: eye_color.as_bytes().to_vec(), ..Default::default() };
        assert_eq!(expected, passeport.check_eye_color());
    }
}

#[test]
fn unknown_passport_field() {
    assert!(properties("xyz:1").is_none());
    assert!(properties("byr:19x0").is_none());
}

#[test]
fn test_usize_to_bits() {
    let bits = Bits::from_value(6);
    assert_eq!(false, bits.bits[35]);
    assert_eq!(true, bits.bits[34]);
    assert_eq!(true, bits.bits[33]);
    for i in 0..32 {
        assert_eq!(false, bits.bits[i]);
    }
    let value: usize = bits.value();
    assert_eq!(6, value);
    let bits = Bits::from_value(3);
    let value: usize = bits.value();
    assert_eq!(3, value);
}

#[test]
fn docking_data() {
    let masks = "mask = XXXXXXXXXXXXXXXXXXXXXXXXXXXXX1XXXX0X
mem[8] = 11
mem[7] = 101
mem[8] = 0";
    let sum = apply(&parse_patches(masks).unwrap(), false);
    assert_eq!(Some(165), sum);
}

#[test]
fn main_docking_data() {
    let masks = "mask = 000000000000000000000000000000X1001X
mem[42] = 100
mask = 00000000000000000000000000000000X0XX
mem[26] = 1";
    let sum = apply(&parse_patches(masks).unwrap(), true);
    assert_eq!(Some(208), sum);
}

#[test]
fn docking_refuses_bad_lines() {
    assert!(parse_patches("mem[1 = 2").is_none());
    assert!(parse_patches("noise").is_none());
    assert_eq!(None, apply(&parse_patches("mem[1] = 2").unwrap(), true));
}
