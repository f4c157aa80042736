use intcode::messages::{
    add_sub_to_main, add_subs_to_main, add_subs_to_mains, expand_sequence, Rule, Rules,
};

fn set(items: &[&[u8]]) -> Vec<Vec<u8>> {
    items.iter().map(|s| s.to_vec()).collect()
}

#[test]
fn test_add_sub_to_main() {
    let main = vec![b'a', b'b'];
    let sub = vec![b'c'];
    assert_eq!(vec![b'a', b'b', b'c'], add_sub_to_main(main, sub));
}

#[test]
fn test_add_subs_to_main() {
    let main = vec![b'a', b'b'];
    let subs = set(&[b"c", b"d"]);
    let sequences = add_subs_to_main(&main, &subs);
    assert_eq!(sequences.len(), 2);
    assert!(sequences.contains(&b"abc".to_vec()));
    assert!(sequences.contains(&b"abd".to_vec()));
}

#[test]
fn test_add_subs_to_mains() {
    let main = set(&[b"ab", b"z"]);
    let subs = set(&[b"c", b"d"]);
    let sequences = add_subs_to_mains(&main, &subs);
    assert_eq!(sequences.len(), 4);
    assert!(sequences.contains(&b"abc".to_vec()));
    assert!(sequences.contains(&b"abd".to_vec()));
    assert!(sequences.contains(&b"zc".to_vec()));
    assert!(sequences.contains(&b"zd".to_vec()));
}

#[test]
fn test_expand_sequence() {
    let sequence = vec![2, 0, 1, 3];
    let rules_map = vec![
        (0, Rule::Sequences(vec![vec![1]])),
        (1, Rule::Sequences(vec![vec![2, 3], vec![2]])),
        (2, Rule::Char(b'a')),
        (3, Rule::Char(b'b')),
    ];
    let sequences = expand_sequence(&sequence, &rules_map, 10).unwrap();
    assert_eq!(sequences.len(), 4);
    assert!(sequences.contains(&b"aababb".to_vec()));
    assert!(sequences.contains(&b"aaabb".to_vec()));
    assert!(sequences.contains(&b"aabab".to_vec()));
    assert!(sequences.contains(&b"aaab".to_vec()));
}

#[test]
fn monster_messages1() {
    let rules = "0: 1 2
1: \"a\"
2: 1 3 | 3 1
3: \"b\"";
    let rules = Rules::parse(rules).unwrap();
    assert!(rules.is_valid("aab"));
    assert!(rules.is_valid("aba"));
    assert!(!rules.is_valid("aaa"));
    assert!(!rules.is_valid("abb"));
    assert!(!rules.is_valid("bab"));
    assert!(!rules.is_valid("bba"));
    assert!(!rules.is_valid("baa"));
    assert!(!rules.is_valid("bbb"));
}

#[test]
fn monster_messages2() {
    let rules = "0: 4 1 5
1: 2 3 | 3 2
2: 4 4 | 5 5
3: 4 5 | 5 4
4: \"a\"
5: \"b\"";
    let rules = Rules::parse(rules).unwrap();
    assert!(rules.is_valid("aaaabb"));
    assert!(rules.is_valid("aaabab"));
    assert!(rules.is_valid("abbabb"));
    assert!(rules.is_valid("abbbab"));
    assert!(rules.is_valid("aabaab"));
    assert!(rules.is_valid("aabbbb"));
    assert!(rules.is_valid("abaaab"));
    assert!(rules.is_valid("ababbb"));
    assert!(!rules.is_valid("bababa"));
    assert!(!rules.is_valid("aaabbb"));
    assert!(!rules.is_valid("aaaabbb"));
}

#[test]
fn looping_rules_are_refused() {
    assert!(Rules::parse("0: 0 1\n1: \"a\"").is_none());
    assert!(Rules::parse("0 1 2").is_none());
}
