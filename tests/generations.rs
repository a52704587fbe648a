use lsystem::lstring;
use lsystem::{LRules, LStringRule, LSystem, MapRules};

fn chars(s: &str) -> Vec<char> {
    s.chars().collect()
}

#[test]
fn lib_test_algae_str() {
    let mut rules = MapRules::new();
    rules.set_str('A', "AB");
    rules.set_str('B', "A");
    let start = "A".chars().collect();
    let mut system = LSystem::new(rules, start);

    let out = system.next().unwrap();
    let expected: Vec<char> = "AB".chars().collect();
    assert_eq!(expected, out);

    let out = system.next().unwrap();
    let expected: Vec<char> = "ABA".chars().collect();
    assert_eq!(expected, out);

    let out = system.next().unwrap();
    let expected: Vec<char> = "ABAAB".chars().collect();
    assert_eq!(expected, out);

    let out = system.next().unwrap();
    let expected: Vec<char> = "ABAABABA".chars().collect();
    assert_eq!(expected, out);

    let out = system.next().unwrap();
    let expected: Vec<char> = "ABAABABAABAAB".chars().collect();
    assert_eq!(expected, out);

    let out = system.next().unwrap();
    let expected: Vec<char> = "ABAABABAABAABABAABABA".chars().collect();
    assert_eq!(expected, out);

    let out = system.next().unwrap();
    let expected: Vec<char> = "ABAABABAABAABABAABABAABAABABAABAAB".chars().collect();
    assert_eq!(expected, out);
}

#[test]
fn lib_test_pythagoras_tree() {
    let mut rules: MapRules<char> = MapRules::new();
    rules.set_str('1', "11");
    rules.set_str('0', "1[0]0");
    let start = "0".chars().collect();
    let mut system = LSystem::new(rules, start);

    let out = system.next().unwrap();
    let expected: Vec<char> = "1[0]0".chars().collect();
    assert_eq!(expected, out);

    let out = system.next().unwrap();
    let expected: Vec<char> = "11[1[0]0]1[0]0".chars().collect();
    assert_eq!(expected, out);

    let out = system.next().unwrap();
    let expected: Vec<char> = "1111[11[1[0]0]1[0]0]11[1[0]0]1[0]0".chars().collect();
    assert_eq!(expected, out);
}

#[test]
fn lstring_test_algae_str() {
    let mut rules = LStringRule::new();
    rules.set_str('A', "AB");
    rules.set_str('B', "A");
    let start = "A".chars().collect();
    let mut system = LSystem::new(rules, start);

    let out = system.next().unwrap();
    let expected: Vec<char> = "AB".chars().collect();
    assert_eq!(expected, out);

    let out = system.next().unwrap();
    let expected: Vec<char> = "ABA".chars().collect();
    assert_eq!(expected, out);

    let out = system.next().unwrap();
    let expected: Vec<char> = "ABAAB".chars().collect();
    assert_eq!(expected, out);

    let out = system.next().unwrap();
    let expected: Vec<char> = "ABAABABA".chars().collect();
    assert_eq!(expected, out);

    let out = system.next().unwrap();
    let expected: Vec<char> = "ABAABABAABAAB".chars().collect();
    assert_eq!(expected, out);

    let out = system.next().unwrap();
    let expected: Vec<char> = "ABAABABAABAABABAABABA".chars().collect();
    assert_eq!(expected, out);

    let out = system.next().unwrap();
    let expected: Vec<char> = "ABAABABAABAABABAABABAABAABABAABAAB".chars().collect();
    assert_eq!(expected, out);
}

#[test]
fn lstring_test_pythagoras_tree() {
    let mut rules = LStringRule::new();
    rules.set_str('1', "11");
    rules.set_str('0', "1[0]0");
    let start = "0".chars().collect();
    let mut system = LSystem::new(rules, start);

    let out = system.next().unwrap();
    let expected: Vec<char> = "1[0]0".chars().collect();
    assert_eq!(expected, out);

    let out = system.next().unwrap();
    let expected: Vec<char> = "11[1[0]0]1[0]0".chars().collect();
    assert_eq!(expected, out);

    let out = system.next().unwrap();
    let expected: Vec<char> = "1111[11[1[0]0]1[0]0]11[1[0]0]1[0]0".chars().collect();
    assert_eq!(expected, out);
}

#[test]
fn numeric_alphabet_generations() {
    let mut rules = MapRules::new();
    rules.set(0, vec![1, 0]);
    rules.set(1, vec![0, 1, 1]);
    let mut system = LSystem::new(rules, vec![0]);
    assert_eq!(Some(vec![1, 0]), system.next());
    assert_eq!(Some(vec![0, 1, 1, 1, 0]), system.next());
}

#[test]
fn map_rules_lookup() {
    let mut rules = MapRules::new();
    assert_eq!(None, rules.set(0, vec![0, 1]));
    assert_eq!(None, rules.set(1, vec![1, 1, 2]));
    assert_eq!(Some(vec![0, 1]), rules.map(&0));
    assert_eq!(Some(vec![1, 1, 2]), rules.map(&1));
    assert_eq!(None, rules.map(&3));
}

#[test]
fn map_rules_set_returns_previous() {
    let mut rules = MapRules::new();
    assert_eq!(None, rules.set_str('A', "AB"));
    assert_eq!(Some(chars("AB")), rules.set_str('A', "BA"));
    assert_eq!(Some(chars("BA")), rules.map(&'A'));
    assert_eq!(Some(chars("BA")), rules.set('A', chars("C")));
    assert_eq!(Some(chars("C")), rules.map(&'A'));
}

#[test]
fn lstring_rule_lookup() {
    let mut rules = LStringRule::new();
    rules.set_str('A', "AB");
    rules.set('B', chars("A"));
    assert_eq!(Some(chars("AB")), rules.map(&'A'));
    assert_eq!(Some(chars("A")), rules.map(&'B'));
    assert_eq!(None, rules.map(&'C'));
    rules.set_str('A', "X");
    assert_eq!(Some(chars("X")), rules.map(&'A'));
}

#[test]
fn show_concatenates() {
    assert_eq!("ABAAB", lsystem::show(&chars("ABAAB")));
    assert_eq!("", lsystem::show(&Vec::new()));
    assert_eq!("1[0]0", lstring::show(&chars("1[0]0")));
}

#[test]
fn terminal_atoms_pass_through() {
    let mut rules = MapRules::new();
    rules.set_str('A', "xAy");
    let mut system = LSystem::new(rules, chars("[A]"));
    assert_eq!(Some(chars("[xAy]")), system.next());
    assert_eq!(Some(chars("[xxAyy]")), system.next());
}

#[test]
fn length_accounting() {
    let mut rules = MapRules::new();
    rules.set_str('a', "bbb");
    rules.set_str('b', "");
    let mut system = LSystem::new(rules, chars("abcab"));
    let out = system.next().unwrap();
    assert_eq!(3 + 0 + 1 + 3 + 0, out.len());
    assert_eq!(chars("bbbcbbb"), out);
    assert_eq!(Some(chars("c")), system.next());
    assert_eq!(None, system.next());
}

#[test]
fn fixed_point_until_reset() {
    let mut rules = MapRules::new();
    rules.set_str('A', "B");
    let mut system = LSystem::new(rules, chars("AC"));
    assert_eq!(Some(chars("BC")), system.next());
    assert_eq!(None, system.next());
    assert_eq!(None, system.next());
    system.reset();
    assert_eq!(Some(chars("BC")), system.next());
    assert_eq!(None, system.next());
}

#[test]
fn empty_state_is_fixed_point() {
    let mut rules = MapRules::new();
    rules.set(1u64, vec![2, 3]);
    let mut system = LSystem::new(rules, Vec::new());
    assert_eq!(None, system.next());
}

#[test]
fn reset_matches_new_system() {
    let mut first = MapRules::new();
    first.set_str('A', "AB");
    first.set_str('B', "A");
    let mut second = MapRules::new();
    second.set_str('A', "AB");
    second.set_str('B', "A");
    let mut used = LSystem::new(first, chars("A"));
    used.next();
    used.next();
    used.reset();
    assert_eq!(chars("A"), used.initial);
    let mut fresh = LSystem::new(second, chars("A"));
    for _ in 0..5 {
        assert_eq!(fresh.next(), used.next());
    }
}

#[test]
fn results_are_independent_copies() {
    let mut rules = MapRules::new();
    rules.set_str('A', "AB");
    rules.set_str('B', "A");
    let mut system = LSystem::new(rules, chars("A"));
    let mut held = system.next().unwrap();
    held.push('Z');
    assert_eq!(Some(chars("ABA")), system.next());
    assert_eq!(chars("ABZ"), held);
}
