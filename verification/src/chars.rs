//! Character classes of the sensor report format.
//!
//! A report is made of runs of characters, each run drawn from one class:
//! a line, and in a metric line the label, the blanks after the colon, the
//! digits of the number and the unit that follows it.

use vstd::prelude::*;

verus! {

/// Whether `c` is one of the ASCII decimal digits `0` to `9`.
pub open spec fn is_digit(c: char) -> bool {
    '0' <= c <= '9'
}

/// Whether `c` is a sign that may lead a number.
pub open spec fn is_sign(c: char) -> bool {
    c == '+' || c == '-'
}

/// Whether `c` is white space, as Unicode defines it (`White_Space`).
pub open spec fn is_whitespace(c: char) -> bool {
    ||| '\u{0009}' <= c <= '\u{000D}'
    ||| c == '\u{0020}'
    ||| c == '\u{0085}'
    ||| c == '\u{00A0}'
    ||| c == '\u{1680}'
    ||| '\u{2000}' <= c <= '\u{200A}'
    ||| c == '\u{2028}'
    ||| c == '\u{2029}'
    ||| c == '\u{202F}'
    ||| c == '\u{205F}'
    ||| c == '\u{3000}'
}

/// The classes of characters that the runs of a report are drawn from.
#[derive(Clone, Copy, Debug)]
pub enum CharClass {
    /// Anything but a line feed: the characters of a line.
    Line,
    /// Anything but a colon: the characters of a label.
    Label,
    /// Unicode white space.
    Whitespace,
    /// An ASCII decimal digit.
    Digit,
    /// Neither a digit nor white space: the characters of a unit.
    Unit,
}

impl CharClass {
    /// Whether `c` belongs to this class.
    pub open spec fn contains(self, c: char) -> bool {
        match self {
            CharClass::Line => c != '\n',
            CharClass::Label => c != ':',
            CharClass::Whitespace => is_whitespace(c),
            CharClass::Digit => is_digit(c),
            CharClass::Unit => !is_digit(c) && !is_whitespace(c),
        }
    }

    /// Tests whether `c` belongs to this class.
    pub fn has(&self, c: char) -> (b: bool)
        ensures
            b == self.contains(c),
    {
        match self {
            CharClass::Line => c != '\n',
            CharClass::Label => c != ':',
            CharClass::Whitespace => char_is_whitespace(c),
            CharClass::Digit => char_is_digit(c),
            CharClass::Unit => !char_is_digit(c) && !char_is_whitespace(c),
        }
    }
}

/// Tests whether `c` is an ASCII decimal digit.
pub fn char_is_digit(c: char) -> (b: bool)
    ensures
        b == is_digit(c),
{
    '0' <= c && c <= '9'
}

/// Tests whether `c` is a leading sign.
pub fn char_is_sign(c: char) -> (b: bool)
    ensures
        b == is_sign(c),
{
    c == '+' || c == '-'
}

/// Tests whether `c` is Unicode white space.
pub fn char_is_whitespace(c: char) -> (b: bool)
    ensures
        b == is_whitespace(c),
{
    let low = c == '\u{0020}' || ('\u{0009}' <= c && c <= '\u{000D}');
    let latin = c == '\u{0085}' || c == '\u{00A0}';
    let spaces = c == '\u{1680}' || ('\u{2000}' <= c && c <= '\u{200A}');
    let separators = c == '\u{2028}' || c == '\u{2029}';
    let wide = c == '\u{202F}' || c == '\u{205F}' || c == '\u{3000}';
    low || latin || spaces || separators || wide
}

} // verus!
