use sensorlog::chars::{char_is_digit, char_is_sign, char_is_whitespace, CharClass};

#[test]
fn white_space_is_that_of_unicode() {
    for code in 0..=0x10FFFFu32 {
        if let Some(c) = char::from_u32(code) {
            assert_eq!(char_is_whitespace(c), c.is_whitespace(), "U+{:04X}", code);
        }
    }
}

#[test]
fn digits_are_the_ten_ascii_digits() {
    for code in 0..=0x10FFFFu32 {
        if let Some(c) = char::from_u32(code) {
            assert_eq!(char_is_digit(c), c.is_ascii_digit(), "U+{:04X}", code);
        }
    }
}

#[test]
fn signs_are_plus_and_minus() {
    assert!(char_is_sign('+'));
    assert!(char_is_sign('-'));
    assert!(!char_is_sign('\u{2212}'));
    assert!(!char_is_sign('0'));
}

#[test]
fn classes_hold_their_characters() {
    assert!(CharClass::Line.has('\r'));
    assert!(!CharClass::Line.has('\n'));
    assert!(CharClass::Label.has(' '));
    assert!(!CharClass::Label.has(':'));
    assert!(CharClass::Whitespace.has('\t'));
    assert!(!CharClass::Whitespace.has('x'));
    assert!(CharClass::Digit.has('7'));
    assert!(!CharClass::Digit.has('x'));
    assert!(CharClass::Unit.has('°'));
    assert!(CharClass::Unit.has('.'));
    assert!(!CharClass::Unit.has('7'));
    assert!(!CharClass::Unit.has(' '));
    assert!(!CharClass::Unit.has('\t'));
}
