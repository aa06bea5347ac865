//! Signed decimal numbers, kept as the text that wrote them.
//!
//! A measurement is written as an optional sign, one or more digits and,
//! optionally, a point followed by one or more digits. The text is kept as
//! it was read, so that nothing of the measurement is lost; its exact value
//! is an integer (`decimal_unscaled`) divided by a power of ten
//! (`decimal_scale`).

use crate::chars::{char_is_sign, is_sign, CharClass};
use crate::scan::{all_in, chars_of, lemma_run_end, run_end, scan_run, text_of};
use vstd::prelude::*;

verus! {

/// Where the digits of a number start: after its sign, if it has one.
pub open spec fn digits_start(s: Seq<char>) -> int {
    if s.len() > 0 && is_sign(s[0]) {
        1
    } else {
        0
    }
}

/// Where the digits before the point end.
pub open spec fn integer_end(s: Seq<char>) -> int {
    run_end(s, digits_start(s), CharClass::Digit)
}

/// Whether `s` writes a signed decimal number: an optional `+` or `-`, one
/// or more digits, and optionally a point followed by one or more digits.
pub open spec fn is_decimal(s: Seq<char>) -> bool {
    let point = integer_end(s);
    &&& digits_start(s) < point
    &&& point < s.len() ==> {
        &&& s[point] == '.'
        &&& point + 1 < s.len()
        &&& run_end(s, point + 1, CharClass::Digit) == s.len()
    }
}

/// The shape of a number: it starts with a sign or a digit, which is no
/// white space; it has at least one digit before its point and nothing but
/// digits there; and if more follows, that is a point and at least one
/// digit, and nothing but digits.
pub proof fn lemma_decimal_shape(value: Seq<char>)
    requires
        is_decimal(value),
    ensures
        0 <= digits_start(value) < integer_end(value) <= value.len(),
        !CharClass::Whitespace.contains(value[0]),
        all_in(value.subrange(digits_start(value), integer_end(value)), CharClass::Digit),
        integer_end(value) < value.len() ==> {
            &&& value[integer_end(value)] == '.'
            &&& integer_end(value) + 1 < value.len()
            &&& all_in(
                value.subrange(integer_end(value) + 1, value.len() as int),
                CharClass::Digit,
            )
        },
{
    let start = digits_start(value);
    let point = integer_end(value);
    lemma_run_end(value, start, CharClass::Digit);
    if point < value.len() {
        lemma_run_end(value, point + 1, CharClass::Digit);
    }
}

/// The number that one decimal digit stands for.
pub open spec fn digit_value(c: char) -> nat {
    (c as int - '0' as int) as nat
}

/// The number that a string of decimal digits writes.
pub open spec fn digits_value(s: Seq<char>) -> nat
    decreases s.len(),
{
    if s.len() == 0 {
        0
    } else {
        digits_value(s.drop_last()) * 10 + digit_value(s.last())
    }
}

/// The digits of a decimal number, without its sign and its point.
pub open spec fn decimal_digits(s: Seq<char>) -> Seq<char> {
    let point = integer_end(s);
    if point < s.len() {
        s.subrange(digits_start(s), point) + s.subrange(point + 1, s.len() as int)
    } else {
        s.subrange(digits_start(s), point)
    }
}

/// How many digits a decimal number has after its point.
pub open spec fn decimal_scale(s: Seq<char>) -> nat {
    let point = integer_end(s);
    if point < s.len() {
        (s.len() - point - 1) as nat
    } else {
        0
    }
}

/// The integer that a decimal number becomes once its point is taken out:
/// the number itself is `decimal_unscaled(s)` divided by ten to the power
/// `decimal_scale(s)`.
pub open spec fn decimal_unscaled(s: Seq<char>) -> int {
    if s.len() > 0 && s[0] == '-' {
        -(digits_value(decimal_digits(s)) as int)
    } else {
        digits_value(decimal_digits(s)) as int
    }
}

/// Digits that follow other digits only add to the number they write.
pub proof fn lemma_digits_value_grows(first: Seq<char>, rest: Seq<char>)
    ensures
        digits_value(first) <= digits_value(first + rest),
    decreases rest.len(),
{
    if rest.len() > 0 {
        assert((first + rest).drop_last() == first + rest.drop_last());
        lemma_digits_value_grows(first, rest.drop_last());
    }
}

/// A signed decimal number, kept as the text that wrote it.
#[derive(Debug, PartialEq, Eq)]
pub struct Decimal {
    text: String,
}

impl View for Decimal {
    type V = Seq<char>;

    closed spec fn view(&self) -> Seq<char> {
        self.text@
    }
}

impl Clone for Decimal {
    fn clone(&self) -> (copy: Self)
        ensures
            copy@ == self@,
    {
        proof {
            use_type_invariant(self);
        }
        Decimal { text: self.text.clone() }
    }
}

impl Decimal {
    #[verifier::type_invariant]
    pub(crate) closed spec fn well_formed(&self) -> bool {
        is_decimal(self.text@)
    }

    /// What a well-formed number holds is a signed decimal number.
    pub(crate) proof fn lemma_well_formed(self)
        requires
            self.well_formed(),
        ensures
            is_decimal(self@),
    {
    }

    /// Reads a decimal number. The text is taken as it is, or refused: it
    /// is a number exactly when `is_decimal` holds of it.
    pub fn parse(text: &str) -> (number: Option<Decimal>)
        ensures
            number is Some <==> is_decimal(text@),
            number matches Some(d) ==> d@ == text@,
    {
        let chars = chars_of(text);
        if check_decimal(chars.as_slice()) {
            Some(Decimal { text: text.to_owned() })
        } else {
            None
        }
    }

    /// The number made of the characters of `s` from `from` up to `to`.
    pub(crate) fn from_chars(s: &[char], from: usize, to: usize) -> (number: Decimal)
        requires
            from <= to <= s.len(),
            is_decimal(s@.subrange(from as int, to as int)),
        ensures
            number@ == s@.subrange(from as int, to as int),
    {
        Decimal { text: text_of(s, from, to) }
    }

    /// How many digits the number has after its point.
    pub fn scale(&self) -> (scale: usize)
        ensures
            scale == decimal_scale(self@),
    {
        proof {
            use_type_invariant(self);
        }
        let chars = chars_of(self.text.as_str());
        let start: usize = if char_is_sign(chars[0]) {
            1
        } else {
            0
        };
        let point = scan_run(chars.as_slice(), start, CharClass::Digit);
        if point < chars.len() {
            chars.len() - point - 1
        } else {
            0
        }
    }

    /// The number without its point, as an integer: `Some` exactly when it
    /// fits. The number itself is this integer divided by ten to the power
    /// `scale()`.
    pub fn unscaled(&self) -> (unscaled: Option<i64>)
        ensures
            unscaled is Some <==> i64::MIN <= decimal_unscaled(self@) <= i64::MAX,
            unscaled matches Some(n) ==> n == decimal_unscaled(self@),
    {
        proof {
            use_type_invariant(self);
        }
        let chars = chars_of(self.text.as_str());
        let n = chars.len();
        let negative = chars[0] == '-';
        let start: usize = if char_is_sign(chars[0]) {
            1
        } else {
            0
        };
        let ghost point = integer_end(chars@);
        let ghost all = decimal_digits(chars@);
        let limit: u128 = if negative {
            0x8000_0000_0000_0000
        } else {
            0x7fff_ffff_ffff_ffff
        };
        proof {
            lemma_run_end(chars@, start as int, CharClass::Digit);
            if point < n {
                lemma_run_end(chars@, point + 1, CharClass::Digit);
            }
        }
        let mut seen: Ghost<Seq<char>> = Ghost(Seq::empty());
        let mut total: u128 = 0;
        let mut i: usize = start;
        assert(chars@.subrange(start as int, start as int) == Seq::<char>::empty());
        while i < n
            invariant
                chars@ == self@,
                start <= i <= n == chars@.len(),
                start == digits_start(chars@),
                point == integer_end(chars@),
                start < point <= n,
                all == decimal_digits(chars@),
                all_in(chars@.subrange(start as int, point), CharClass::Digit),
                point < n ==> chars@[point] == '.' && all_in(
                    chars@.subrange(point + 1, n as int),
                    CharClass::Digit,
                ),
                seen@ == if i <= point {
                    chars@.subrange(start as int, i as int)
                } else {
                    chars@.subrange(start as int, point) + chars@.subrange(point + 1, i as int)
                },
                total == digits_value(seen@),
                total <= limit <= 0x8000_0000_0000_0000,
                limit == if negative {
                    0x8000_0000_0000_0000u128
                } else {
                    0x7fff_ffff_ffff_ffffu128
                },
                negative == (chars@[0] == '-'),
            decreases n - i,
        {
            let c = chars[i];
            if c != '.' {
                let ghost before = seen@;
                proof {
                    if i < point {
                        assert(chars@.subrange(start as int, point)[i - start] == c);
                        assert(chars@.subrange(start as int, i + 1) == before.push(c));
                    } else {
                        assert(chars@.subrange(point + 1, n as int)[i - point - 1] == c);
                        assert(chars@.subrange(start as int, point) + chars@.subrange(
                            point + 1,
                            i + 1,
                        ) == before.push(c));
                    }
                    seen@ = before.push(c);
                    assert(seen@.drop_last() == before);
                }
                let digit: u128 = (c as u32 - '0' as u32) as u128;
                total = total * 10 + digit;
                if total > limit {
                    proof {
                        let rest = if i < point {
                            if point < n {
                                chars@.subrange(i + 1, point) + chars@.subrange(
                                    point + 1,
                                    n as int,
                                )
                            } else {
                                chars@.subrange(i + 1, point)
                            }
                        } else {
                            chars@.subrange(i + 1, n as int)
                        };
                        assert(all == seen@ + rest);
                        lemma_digits_value_grows(seen@, rest);
                    }
                    return None;
                }
            } else {
                assert(i == point) by {
                    if i < point {
                        assert(chars@.subrange(start as int, point)[i - start] == c);
                    } else if i > point {
                        assert(chars@.subrange(point + 1, n as int)[i - point - 1] == c);
                    }
                }
            }
            i += 1;
        }
        if negative {
            Some((-(total as i128)) as i64)
        } else {
            Some(total as i64)
        }
    }

    /// The text of the number, as it was read.
    pub fn as_str(&self) -> (text: &str)
        ensures
            text@ == self@,
            is_decimal(self@),
    {
        proof {
            use_type_invariant(self);
        }
        self.text.as_str()
    }
}

/// Tests whether `s` writes a signed decimal number.
pub fn check_decimal(s: &[char]) -> (b: bool)
    ensures
        b == is_decimal(s@),
{
    let n = s.len();
    let start: usize = if n > 0 && char_is_sign(s[0]) {
        1
    } else {
        0
    };
    let point = scan_run(s, start, CharClass::Digit);
    if point == start {
        false
    } else if point == n {
        true
    } else if s[point] != '.' || point + 1 == n {
        false
    } else {
        scan_run(s, point + 1, CharClass::Digit) == n
    }
}

} // verus!
