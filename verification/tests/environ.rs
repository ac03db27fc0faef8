use clap_bash::environ::EnvMap;
use clap_bash::order::{compare_keys, KeyOrder};

fn pairs(pairs: &[(&str, &str)]) -> Vec<(String, String)> {
    pairs.iter().map(|(name, value)| (name.to_string(), value.to_string())).collect()
}

fn env(pairs: &[(&str, &str)]) -> EnvMap {
    let mut env = EnvMap::new();
    for (name, value) in pairs {
        env.insert(name.to_string(), value.to_string());
    }
    env
}

#[test]
fn new_environment_is_empty() {
    assert_eq!(EnvMap::new().into_entries(), Vec::new());
    assert_eq!(EnvMap::new().get("PATH"), None);
}

#[test]
fn insert_sets_a_variable() {
    let mut env = EnvMap::new();
    env.insert("A".to_string(), "1".to_string());
    assert_eq!(env.get("A"), Some(&"1".to_string()));
    assert_eq!(env.get("B"), None);
    assert_eq!(env.into_entries(), pairs(&[("A", "1")]));
}

#[test]
fn insert_replaces_the_value_of_a_variable() {
    let mut env = env(&[("A", "1"), ("B", "2"), ("C", "3")]);
    env.insert("B".to_string(), "changed".to_string());
    assert_eq!(env.get("B"), Some(&"changed".to_string()));
    assert_eq!(env.into_entries(), pairs(&[("A", "1"), ("B", "changed"), ("C", "3")]));
}

#[test]
fn variables_are_kept_in_the_order_of_their_names() {
    let env = env(&[("b", "2"), ("C", "3"), ("a", "1"), ("", "0"), ("ab", "4"), ("B", "5")]);
    assert_eq!(
        env.into_entries(),
        pairs(&[("", "0"), ("B", "5"), ("C", "3"), ("a", "1"), ("ab", "4"), ("b", "2")])
    );
}

#[test]
fn order_of_insertion_does_not_matter() {
    let one = env(&[("x", "1"), ("y", "2"), ("z", "3")]);
    let other = env(&[("z", "3"), ("x", "1"), ("y", "2")]);
    assert_eq!(one, other);
}

#[test]
fn extend_lays_the_other_environment_over_this_one() {
    let mut env = env(&[("A", "old"), ("B", "kept")]);
    let other = self::env(&[("C", "new"), ("A", "new")]);
    env.extend(other);
    assert_eq!(env.into_entries(), pairs(&[("A", "new"), ("B", "kept"), ("C", "new")]));
}

#[test]
fn extend_with_an_empty_environment_changes_nothing() {
    let mut env = env(&[("A", "1")]);
    env.extend(EnvMap::new());
    assert_eq!(env.into_entries(), pairs(&[("A", "1")]));
    let mut empty = EnvMap::new();
    empty.extend(self::env(&[("A", "1")]));
    assert_eq!(empty.into_entries(), pairs(&[("A", "1")]));
}

#[test]
fn keys_are_compared_byte_by_byte() {
    assert_eq!(compare_keys("a", "b"), KeyOrder::Before);
    assert_eq!(compare_keys("b", "a"), KeyOrder::After);
    assert_eq!(compare_keys("a", "a"), KeyOrder::Same);
    assert_eq!(compare_keys("", ""), KeyOrder::Same);
    assert_eq!(compare_keys("", "a"), KeyOrder::Before);
    assert_eq!(compare_keys("a", ""), KeyOrder::After);
    assert_eq!(compare_keys("ab", "abc"), KeyOrder::Before);
    assert_eq!(compare_keys("abd", "abc"), KeyOrder::After);
    assert_eq!(compare_keys("Z", "a"), KeyOrder::Before);
    assert_eq!(compare_keys("z", "\u{e9}"), KeyOrder::Before);
    assert_eq!(compare_keys("\u{1f600}", "\u{e9}"), KeyOrder::After);
}

#[test]
fn keys_are_ordered_as_strings_are() {
    let keys = ["", "a", "A", "ab", "b", "_", "1", "\u{e9}", "\u{1f600}", "zz", "z"];
    for a in keys {
        for b in keys {
            let expected = if a < b {
                KeyOrder::Before
            } else if a == b {
                KeyOrder::Same
            } else {
                KeyOrder::After
            };
            assert_eq!(compare_keys(a, b), expected);
        }
    }
}
