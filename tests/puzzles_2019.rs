use intcode::fuel::{calculate_fuel_requirement, calculate_total_fuel_requirement};
use intcode::image::Color::{Black, Transparent, White};
use intcode::image::{build_layers, Color, Image, Layer};
use intcode::passwords::{is_valid_password_strict, valid_passwords};

#[test]
fn fuel_requirements() {
    assert_eq!(2, calculate_fuel_requirement(12));
    assert_eq!(2, calculate_fuel_requirement(14));
    assert_eq!(654, calculate_fuel_requirement(1969));
    assert_eq!(33583, calculate_fuel_requirement(100756));
}

#[test]
fn main_fuel_requirements() {
    assert_eq!(2, calculate_total_fuel_requirement(12));
    assert_eq!(2, calculate_total_fuel_requirement(14));
    assert_eq!(966, calculate_total_fuel_requirement(1969));
    assert_eq!(50346, calculate_total_fuel_requirement(100756));
}

#[test]
fn fuel_for_small_masses() {
    assert_eq!(0, calculate_fuel_requirement(5));
    assert_eq!(0, calculate_fuel_requirement(6));
    assert_eq!(0, calculate_total_fuel_requirement(0));
}

fn count(start: usize, end: usize, strict: bool) -> usize {
    valid_passwords(start, end, strict).unwrap().len()
}

#[test]
fn is_valid_password() {
    assert_eq!(1, count(111111, 111111, false));
    assert_eq!(0, count(223450, 223454, false));
    assert_eq!(0, count(123789, 123798, false));
    assert_eq!(1, count(123456, 123466, false));
    assert_eq!(1, count(112233, 112233, false));
    assert_eq!(1, count(123444, 123444, false));
    assert_eq!(1, count(111122, 111122, false));
    assert_eq!(2, count(111123, 111124, false));
    assert_eq!(2, count(122223, 122224, false));
    assert_eq!(2, count(122233, 122234, false));
    assert_eq!(1, count(122333, 122333, false));
}

#[test]
fn main_is_valid_password() {
    assert_eq!(0, count(111111, 111111, true));
    assert_eq!(0, count(223450, 223454, true));
    assert_eq!(0, count(123789, 123798, true));
    assert_eq!(1, count(123456, 123466, true));
    assert_eq!(1, count(112233, 112233, true));
    assert_eq!(0, count(123444, 123444, true));
    assert_eq!(1, count(111122, 111122, true));
    assert_eq!(0, count(111123, 111124, true));
    assert_eq!(0, count(122223, 122224, true));
    assert_eq!(1, count(122233, 122234, true));
    assert_eq!(1, count(122333, 122333, true));
}

#[test]
fn password_bounds() {
    assert_eq!(Err(99999), valid_passwords(99999, 123456, false));
    assert_eq!(Err(1000000), valid_passwords(123456, 1000000, false));
    assert_eq!(Ok(vec![111111, 111112]), valid_passwords(111112, 111111, false));
    assert!(is_valid_password_strict(112233));
}

#[test]
fn get_layers() {
    let data = vec![
        White, Transparent, Black, Black, Black, White, White, White, Transparent, Black, White,
        Transparent,
    ];
    let layers = build_layers(3, 2, &data);
    assert_eq!(2, layers.len());
    let layer = &layers[0];
    assert_eq!([White, Transparent, Black], layer.rows[0][..]);
    assert_eq!([Black, Black, White], layer.rows[1][..]);
    let layer = &layers[1];
    assert_eq!([White, White, Transparent], layer.rows[0][..]);
    assert_eq!([Black, White, Transparent], layer.rows[1][..]);
}

#[test]
fn frequencies() {
    let data = vec![Black, Black, White, Black];
    let layer = Layer::new(vec![data[0..2].to_vec(), data[2..4].to_vec()]);
    let frequencies = layer.frequencies();
    assert_eq!(3, frequencies.count(Black));
    assert_eq!(1, frequencies.count(White));
    assert_eq!(0, frequencies.count(Transparent));
}

#[test]
fn decode() {
    let data = vec![
        Black, Transparent, Transparent, Transparent, White, White, Transparent, Transparent,
        Transparent, Transparent, White, Transparent, Black, Black, Black, Black,
    ];
    let layer1 = Layer::new(vec![data[0..2].to_vec(), data[2..4].to_vec()]);
    let layer2 = Layer::new(vec![data[4..6].to_vec(), data[6..8].to_vec()]);
    let layer3 = Layer::new(vec![data[8..10].to_vec(), data[10..12].to_vec()]);
    let layer4 = Layer::new(vec![data[12..14].to_vec(), data[14..16].to_vec()]);
    let mut image = Image::new();
    image.apply(&layer1);
    image.apply(&layer2);
    image.apply(&layer3);
    image.apply(&layer4);
    assert_eq!(Black, image.rows[0][0]);
    assert_eq!(vec![vec![Black, White], vec![White, Black]], image.rows);
}

#[test]
fn colors_from_digits() {
    assert_eq!(Some(Color::Black), Color::from_char('0'));
    assert_eq!(Some(Color::White), Color::from_char('1'));
    assert_eq!(Some(Color::Transparent), Color::from_char('2'));
    assert_eq!(None, Color::from_char('3'));
}
