use wgsl_inline::spacing::{non_identifier_char, should_add_space_between};

#[test]
fn every_listed_character_is_non_identifier() {
    let listed = [
        '(', ')', '{', '}', '[', ']', '<', '>', ',', '+', '*', '/', '!', '\\', '"', '\'', '|',
        '=', '^', '&', ';', ':', '?', '%', '@', '#', '~', '.', '\u{a3}', '$', '`',
    ];
    assert_eq!(listed.len(), 31);
    for c in listed {
        assert!(non_identifier_char(c), "{:?}", c);
    }
}

#[test]
fn letters_digits_and_unlisted_characters_are_not_flagged() {
    for c in ['a', 'Z', '0', '9', '_', '-', ' ', '\n', '\u{e9}', '\u{20ac}'] {
        assert!(!non_identifier_char(c), "{:?}", c);
    }
}

#[test]
fn arrow_is_kept_together() {
    assert!(!should_add_space_between('-', '>'));
}

#[test]
fn operator_before_equals_is_kept_together() {
    assert!(!should_add_space_between('!', '='));
    assert!(!should_add_space_between('>', '='));
    assert!(!should_add_space_between('=', '='));
    assert!(!should_add_space_between('+', '='));
}

#[test]
fn doubled_operator_is_kept_together() {
    assert!(!should_add_space_between('+', '+'));
    assert!(!should_add_space_between('&', '&'));
    assert!(!should_add_space_between('|', '|'));
}

#[test]
fn colon_on_either_side_takes_no_space() {
    assert!(!should_add_space_between('a', ':'));
    assert!(!should_add_space_between(':', 'b'));
    assert!(!should_add_space_between(':', ':'));
    assert!(!should_add_space_between('-', ':'));
}

#[test]
fn punctuation_on_either_side_takes_no_space() {
    assert!(!should_add_space_between('{', 'x'));
    assert!(!should_add_space_between('x', ','));
    assert!(!should_add_space_between(',', 'y'));
    assert!(!should_add_space_between('y', '}'));
    assert!(!should_add_space_between(')', '{'));
    assert!(!should_add_space_between('1', ';'));
}

#[test]
fn two_identifier_characters_take_a_space() {
    assert!(should_add_space_between('o', 'b'));
    assert!(should_add_space_between('a', '1'));
    assert!(should_add_space_between('_', 'x'));
}

#[test]
fn a_letter_equal_to_itself_takes_a_space() {
    assert!(should_add_space_between('a', 'a'));
}

#[test]
fn minus_is_not_in_the_table() {
    assert!(should_add_space_between('-', 'x'));
    assert!(should_add_space_between('x', '-'));
    assert!(should_add_space_between('-', '-'));
    // `=` is in the table, so it takes no space whatever stands before it
    assert!(!should_add_space_between('-', '='));
    assert!(!should_add_space_between('-', '>'));
}

#[test]
fn the_answer_depends_on_the_two_characters_alone() {
    let pairs = [('a', 'b'), ('-', '>'), ('x', ','), (':', ':'), ('+', '+'), ('9', 'z')];
    for (x, y) in pairs {
        let first = should_add_space_between(x, y);
        for _ in 0..3 {
            assert_eq!(should_add_space_between(x, y), first);
        }
    }
}
