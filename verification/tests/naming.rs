use clap_bash::naming::to_env_var_name;

fn is_name_char(c: char) -> bool {
    c.is_ascii_uppercase() || c.is_ascii_digit() || c == '_'
}

#[test]
fn leading_digit_becomes_underscore() {
    assert_eq!(to_env_var_name("3-count"), "__COUNT");
}

#[test]
fn empty_identifier_gives_empty_name() {
    assert_eq!(to_env_var_name(""), "");
}

#[test]
fn letters_are_upper_cased() {
    assert_eq!(to_env_var_name("count"), "COUNT");
    assert_eq!(to_env_var_name("Count2"), "COUNT2");
}

#[test]
fn dashes_and_dots_become_underscores() {
    assert_eq!(to_env_var_name("dry-run"), "DRY_RUN");
    assert_eq!(to_env_var_name("a.b c"), "A_B_C");
}

#[test]
fn leading_underscore_is_kept() {
    assert_eq!(to_env_var_name("_private"), "_PRIVATE");
}

#[test]
fn leading_dash_becomes_underscore() {
    assert_eq!(to_env_var_name("-x"), "_X");
}

#[test]
fn digits_after_the_first_place_are_kept() {
    assert_eq!(to_env_var_name("a1b2"), "A1B2");
    assert_eq!(to_env_var_name("11"), "_1");
}

#[test]
fn letters_outside_ascii_become_underscores() {
    assert_eq!(to_env_var_name("caf\u{e9}"), "CAF_");
    assert_eq!(to_env_var_name("\u{e9}t\u{e9}"), "_T_");
    assert_eq!(to_env_var_name("na\u{ef}ve-\u{1f600}"), "NA_VE__");
}

#[test]
fn name_has_one_character_for_each_character_of_the_identifier() {
    for input in ["", "a", "3-count", "caf\u{e9}", "--long--", "\u{1f600}\u{1f600}", "x y\tz"] {
        let name = to_env_var_name(input);
        assert_eq!(name.chars().count(), input.chars().count());
        assert!(name.chars().all(is_name_char));
        if let Some(first) = input.chars().next() {
            let expected = if first.is_ascii_alphabetic() { first.to_ascii_uppercase() } else { '_' };
            assert_eq!(name.chars().next(), Some(expected));
        }
    }
}

#[test]
fn name_of_a_name_is_the_name() {
    for input in ["3-count", "dry-run", "_x", "Count2"] {
        let name = to_env_var_name(input);
        assert_eq!(to_env_var_name(&name), name);
    }
}
