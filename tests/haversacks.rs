use intcode::haversacks::{bags_in, contains_bag, parse_rules, Bag, Rule};

fn shiny_gold() -> Bag {
    Bag { tint: b"shiny".to_vec(), color: b"gold".to_vec() }
}

#[test]
fn bags() {
    let rules = "light red bags contain 1 bright white bag, 2 muted yellow bags.
dark orange bags contain 3 bright white bags, 4 muted yellow bags.
bright white bags contain 1 shiny gold bag.
muted yellow bags contain 2 shiny gold bags, 9 faded blue bags.
shiny gold bags contain 1 dark olive bag, 2 vibrant plum bags.
dark olive bags contain 3 faded blue bags, 4 dotted black bags.
vibrant plum bags contain 5 faded blue bags, 6 dotted black bags.
faded blue bags contain no other bags.
dotted black bags contain no other bags.";
    let rules_map = parse_rules(rules).unwrap();
    let bag = shiny_gold();
    assert_eq!(4, contains_bag(&rules_map, &bag).len());
    assert_eq!(Some(32), bags_in(&rules_map, &bag, 100));
}

#[test]
fn nested_bags() {
    let rules = "shiny gold bags contain 2 dark red bags.
dark red bags contain 2 dark orange bags.
dark orange bags contain 2 dark yellow bags.
dark yellow bags contain 2 dark green bags.
dark green bags contain 2 dark blue bags.
dark blue bags contain 2 dark violet bags.
dark violet bags contain no other bags.";
    let rules_map = parse_rules(rules).unwrap();
    assert_eq!(Some(126), bags_in(&rules_map, &shiny_gold(), 100));
}

#[test]
fn bag_rules_read_and_refused() {
    let rule = Rule::parse(b"bright white bags contain 1 shiny gold bag.").unwrap();
    assert_eq!(shiny_gold(), rule.contains[0].0);
    assert_eq!(1, rule.contains[0].1);
    assert!(Rule::parse(b"bright white bags hold 1 shiny gold bag.").is_none());
    let rules = parse_rules("shiny gold bags contain 1 dark red bag.").unwrap();
    assert_eq!(None, bags_in(&rules, &shiny_gold(), 100));
}
