//! Names of environment variables made from names of arguments.

use vstd::prelude::*;

verus! {

/// `String::push` appends the one character to the end of the string.
pub assume_specification[ String::push ](s: &mut String, c: char)
    ensures
        final(s)@ == old(s)@.push(c),
;

/// An ASCII letter.
pub open spec fn is_ascii_letter(c: char) -> bool {
    ('a' <= c && c <= 'z') || ('A' <= c && c <= 'Z')
}

/// An ASCII digit.
pub open spec fn is_ascii_digit(c: char) -> bool {
    '0' <= c && c <= '9'
}

/// A character that a canonical variable name is made of: an upper-case ASCII letter, an
/// ASCII digit or an underscore.
pub open spec fn is_name_char(c: char) -> bool {
    ('A' <= c && c <= 'Z') || is_ascii_digit(c) || c == '_'
}

/// The upper-case form of an ASCII letter; any other character is left as it is.
pub open spec fn ascii_upper(c: char) -> char {
    if 'a' <= c && c <= 'z' {
        ((c as u8) - 32) as char
    } else {
        c
    }
}

/// What becomes of one character of an identifier. Letters, digits and underscores are
/// kept, letters in upper case; anything else becomes an underscore. In the first place
/// only a letter or an underscore is kept.
pub open spec fn name_char(c: char, first: bool) -> char {
    if first && !is_ascii_letter(c) {
        '_'
    } else if is_ascii_letter(c) || is_ascii_digit(c) {
        ascii_upper(c)
    } else {
        '_'
    }
}

/// The canonical variable name of an identifier, character by character.
pub open spec fn env_var_name(input: Seq<char>) -> Seq<char> {
    Seq::new(input.len(), |i: int| name_char(input[i], i == 0))
}

/// The upper-case form of an ASCII letter; any other character is handed back.
fn to_ascii_upper(c: char) -> (upper: char)
    ensures
        upper == ascii_upper(c),
{
    if 'a' <= c && c <= 'z' {
        ((c as u8) - 32u8) as char
    } else {
        c
    }
}

/// Makes the canonical environment-variable name of an identifier.
///
/// The name has one character for each character of the identifier and is made of
/// upper-case ASCII letters, digits and underscores only. It begins with an underscore
/// unless the identifier begins with an ASCII letter.
pub fn to_env_var_name(input: &str) -> (name: String)
    ensures
        name@ == env_var_name(input@),
        name@.len() == input@.len(),
        forall|i: int| 0 <= i < name@.len() ==> is_name_char(#[trigger] name@[i]),
        input@.len() > 0 ==> name@[0] == (if is_ascii_letter(input@[0]) {
            ascii_upper(input@[0])
        } else {
            '_'
        }),
{
    broadcast use vstd::string::group_string_axioms;

    let mut name = String::new();
    for c in chars: input.chars()
        invariant
            chars.seq() == input@,
            name@ == env_var_name(input@).take(chars.index() as int),
    {
        let ghost at = chars.index() as int;
        assert(c == input@[at]);
        let letter = ('a' <= c && c <= 'z') || ('A' <= c && c <= 'Z');
        let digit = '0' <= c && c <= '9';
        let first = name.as_str().is_empty();
        assert(first == (at == 0));
        let out = if first && !letter {
            '_'
        } else if letter || digit {
            to_ascii_upper(c)
        } else {
            '_'
        };
        name.push(out);
        assert(name@ =~= env_var_name(input@).take(at + 1));
    }
    assert(name@ =~= env_var_name(input@));
    name
}

} // verus!
