//! Character classes and the small text routines that the literal parsers and
//! the scanner share.

use std::str::Chars;
use vstd::prelude::*;
use vstd::std_specs::iter::IteratorSpec;

verus! {

broadcast use vstd::string::group_string_axioms;

/// Whether `c` lies in one of Unicode's general categories for numbers, as
/// `char::is_numeric` reports it.
pub uninterp spec fn numeric_char(c: char) -> bool;

/// Whether `c` has Unicode's `Alphabetic` property, as `char::is_alphabetic`
/// reports it.
pub uninterp spec fn alphabetic_char(c: char) -> bool;

/// `char::is_numeric` is a lookup in the Unicode tables that depends on the
/// character alone; its answer is named [`numeric_char`], and nothing else is
/// claimed about it.
pub assume_specification[ char::is_numeric ](c: char) -> (b: bool)
    ensures
        b == numeric_char(c),
;

/// `char::is_alphabetic` is a lookup in the Unicode tables that depends on the
/// character alone; its answer is named [`alphabetic_char`], and nothing else is
/// claimed about it.
pub assume_specification[ char::is_alphabetic ](c: char) -> (b: bool)
    ensures
        b == alphabetic_char(c),
;

/// `String::push` appends the one character to the end of the string and
/// leaves what was there in place.
pub assume_specification[ String::push ](s: &mut String, c: char)
    ensures
        final(s)@ == old(s)@.push(c),
;

/// Whether the stream tells how far it is from its end, as every stream
/// does that `str::chars` has made. Readers ask for it and keep it, so that
/// their loops can be seen to end.
pub open spec fn measured(chars: Chars) -> bool {
    chars.decrease() is Some
}

/// Whether two strings hold the same characters in the same order.
pub fn same_text(a: &str, b: &str) -> (same: bool)
    ensures
        same == (a@ == b@),
{
    let mut left = a.chars();
    let mut right = b.chars();
    let ghost mut k: int = 0;
    loop
        invariant
            0 <= k <= a@.len(),
            k <= b@.len(),
            left.remaining() == a@.skip(k),
            right.remaining() == b@.skip(k),
            a@.take(k) == b@.take(k),
            left.decrease() is Some,
        decreases left.decrease()->0,
    {
        match left.next() {
            None => {
                let at_end = right.next().is_none();
                proof {
                    assert(a@.take(k) == a@);
                    if at_end {
                        assert(b@.take(k) == b@);
                    }
                }
                return at_end;
            },
            Some(p) => {
                match right.next() {
                    None => {
                        return false;
                    },
                    Some(q) => {
                        if p != q {
                            assert(a@[k] != b@[k]);
                            return false;
                        }
                        proof {
                            assert(a@.skip(k).drop_first() == a@.skip(k + 1));
                            assert(b@.skip(k).drop_first() == b@.skip(k + 1));
                            assert(a@.take(k + 1) == a@.take(k).push(a@[k]));
                            assert(b@.take(k + 1) == b@.take(k).push(b@[k]));
                            k = k + 1;
                        }
                    },
                }
            },
        }
    }
}

/// Why a piece of text is not an unsigned decimal number within a given range.
#[derive(Debug, Clone, Copy, PartialEq, Eq, Structural)]
pub enum ParseIntError {
    /// There is no text at all.
    Empty,
    /// A character is not one of the digits `0` to `9`, or a sign stands alone.
    InvalidDigit,
    /// The digits read so far already denote more than the range allows.
    PosOverflow,
}

/// Why a piece of text is not a boolean literal.
#[derive(Debug, Clone, Copy, PartialEq, Eq, Structural)]
pub struct ParseBoolError;

/// The number that a decimal digit stands for; `None` for any other character.
pub open spec fn digit_value(c: char) -> Option<nat> {
    if '0' <= c <= '9' {
        Some((c as nat - '0' as nat) as nat)
    } else {
        None
    }
}

/// Reads `digits` from left to right on top of the value `acc` read so far.
/// The first character that is no digit, or that would take the value above
/// `max`, ends the reading with its error.
pub open spec fn decimal_from(acc: nat, digits: Seq<char>, max: nat) -> Result<nat, ParseIntError>
    decreases digits.len(),
{
    if digits.len() == 0 {
        Ok(acc)
    } else {
        match digit_value(digits[0]) {
            None => Err(ParseIntError::InvalidDigit),
            Some(d) => if acc * 10 + d > max {
                Err(ParseIntError::PosOverflow)
            } else {
                decimal_from(acc * 10 + d, digits.drop_first(), max)
            },
        }
    }
}

/// The value of a non-empty run of decimal digits that does not exceed `max`.
pub open spec fn decimal_value(digits: Seq<char>, max: nat) -> Result<nat, ParseIntError> {
    if digits.len() == 0 {
        Err(ParseIntError::Empty)
    } else {
        decimal_from(0, digits, max)
    }
}

/// The value of an unsigned decimal number: digits, with one `+` allowed in
/// front of them.
pub open spec fn unsigned_value(text: Seq<char>, max: nat) -> Result<nat, ParseIntError> {
    if text.len() > 0 && text[0] == '+' {
        if text.len() == 1 {
            Err(ParseIntError::InvalidDigit)
        } else {
            decimal_from(0, text.drop_first(), max)
        }
    } else {
        decimal_value(text, max)
    }
}

/// The number that `digits` denotes in base ten, whatever its size.
pub open spec fn positional_value(digits: Seq<char>) -> nat
    decreases digits.len(),
{
    if digits.len() == 0 {
        0
    } else {
        positional_value(digits.drop_last()) * 10 + match digit_value(digits.last()) {
            Some(d) => d,
            None => 0,
        }
    }
}

/// Whether every character of `text` is a decimal digit.
pub open spec fn all_digits(text: Seq<char>) -> bool {
    forall|i: int| 0 <= i < text.len() ==> (#[trigger] digit_value(text[i])) is Some
}

/// The value that reading `digits` from left to right arrives at, on top of
/// the value `acc` read so far, with no limit on its size.
spec fn read_value(acc: nat, digits: Seq<char>) -> nat
    decreases digits.len(),
{
    if digits.len() == 0 {
        acc
    } else {
        read_value(
            acc * 10 + match digit_value(digits[0]) {
                Some(d) => d,
                None => 0,
            },
            digits.drop_first(),
        )
    }
}

proof fn lemma_read_value_grows(acc: nat, digits: Seq<char>)
    ensures
        read_value(acc, digits) >= acc,
    decreases digits.len(),
{
    if digits.len() > 0 {
        let d = match digit_value(digits[0]) {
            Some(d) => d,
            None => 0,
        };
        lemma_read_value_grows(acc * 10 + d, digits.drop_first());
    }
}

proof fn lemma_read_value_push(acc: nat, digits: Seq<char>, last: char)
    ensures
        read_value(acc, digits.push(last)) == read_value(acc, digits) * 10 + match digit_value(
            last,
        ) {
            Some(d) => d,
            None => 0,
        },
    decreases digits.len(),
{
    let longer = digits.push(last);
    if digits.len() == 0 {
        assert(longer.drop_first() == digits);
        assert(longer[0] == last);
        assert(read_value(acc, longer) == read_value(
            acc * 10 + match digit_value(last) {
                Some(d) => d,
                None => 0,
            },
            digits,
        ));
    } else {
        let d = match digit_value(digits[0]) {
            Some(d) => d,
            None => 0,
        };
        assert(longer.drop_first() == digits.drop_first().push(last));
        assert(longer[0] == digits[0]);
        lemma_read_value_push(acc * 10 + d, digits.drop_first(), last);
    }
}

proof fn lemma_read_value_is_positional(digits: Seq<char>)
    ensures
        read_value(0, digits) == positional_value(digits),
    decreases digits.len(),
{
    if digits.len() > 0 {
        lemma_read_value_is_positional(digits.drop_last());
        lemma_read_value_push(0, digits.drop_last(), digits.last());
        assert(digits.drop_last().push(digits.last()) == digits);
    }
}

proof fn lemma_decimal_from_reads(acc: nat, digits: Seq<char>, max: nat)
    requires
        acc <= max,
    ensures
        decimal_from(acc, digits, max) matches Ok(v) ==> all_digits(digits) && v == read_value(
            acc,
            digits,
        ) && v <= max,
        all_digits(digits) && read_value(acc, digits) <= max ==> decimal_from(acc, digits, max)
            is Ok,
    decreases digits.len(),
{
    if digits.len() > 0 {
        let tail = digits.drop_first();
        match digit_value(digits[0]) {
            None => {},
            Some(d) => {
                lemma_read_value_grows(acc * 10 + d, tail);
                if acc * 10 + d <= max {
                    lemma_decimal_from_reads(acc * 10 + d, tail, max);
                    if all_digits(tail) {
                        assert forall|i: int| 0 <= i < digits.len() implies (#[trigger] digit_value(
                            digits[i],
                        )) is Some by {
                            if i > 0 {
                                assert(digits[i] == tail[i - 1]);
                            }
                        }
                    }
                }
                if all_digits(digits) {
                    assert forall|i: int| 0 <= i < tail.len() implies (#[trigger] digit_value(
                        tail[i],
                    )) is Some by {
                        assert(tail[i] == digits[i + 1]);
                    }
                }
            },
        }
    }
}

/// A text is a decimal number within the range exactly if it is a non-empty
/// run of decimal digits whose value in base ten does not exceed `max`, and
/// that value is the number.
pub proof fn lemma_decimal_value_is_positional(digits: Seq<char>, max: nat)
    ensures
        decimal_value(digits, max) is Ok <==> digits.len() > 0 && all_digits(digits)
            && positional_value(digits) <= max,
        decimal_value(digits, max) matches Ok(v) ==> v == positional_value(digits),
{
    lemma_decimal_from_reads(0, digits, max);
    lemma_read_value_is_positional(digits);
}

/// The boolean that `text` spells, if it spells one.
pub open spec fn boolean_value(text: Seq<char>) -> Result<bool, ParseBoolError> {
    if text == "true"@ {
        Ok(true)
    } else if text == "false"@ {
        Ok(false)
    } else {
        Err(ParseBoolError)
    }
}

/// The digit that `c` stands for.
pub fn to_digit(c: char) -> (d: Option<u32>)
    ensures
        match d {
            Some(v) => digit_value(c) == Some(v as nat),
            None => digit_value(c) is None,
        },
{
    if '0' <= c && c <= '9' {
        Some(c as u32 - '0' as u32)
    } else {
        None
    }
}

/// Reads what is left in `chars` as a run of decimal digits whose value is at
/// most `max`.
pub fn read_decimal(chars: &mut Chars, max: u16) -> (r: Result<u16, ParseIntError>)
    requires
        measured(*old(chars)),
    ensures
        measured(*final(chars)),
        match r {
            Ok(v) => decimal_value((*old(chars)).remaining(), max as nat) == Ok::<
                nat,
                ParseIntError,
            >(v as nat),
            Err(e) => decimal_value((*old(chars)).remaining(), max as nat) == Err::<
                nat,
                ParseIntError,
            >(e),
        },
        r == Err::<u16, ParseIntError>(ParseIntError::Empty) <==> (*old(chars)).remaining().len()
            == 0,
{
    let ghost all = (*chars).remaining();
    let mut acc: u32 = 0;
    let mut seen = false;
    loop
        invariant
            all == (*old(chars)).remaining(),
            measured(*chars),
            acc <= max,
            !seen ==> acc == 0 && (*chars).remaining() == all,
            seen ==> all.len() > 0,
            decimal_from(0, all, max as nat) == decimal_from(
                acc as nat,
                (*chars).remaining(),
                max as nat,
            ),
        decreases (*chars).decrease()->0,
    {
        match chars.next() {
            None => {
                if seen {
                    return Ok(acc as u16);
                } else {
                    return Err(ParseIntError::Empty);
                }
            },
            Some(c) => {
                match to_digit(c) {
                    None => {
                        return Err(ParseIntError::InvalidDigit);
                    },
                    Some(d) => {
                        let next = acc * 10 + d;
                        if next > max as u32 {
                            return Err(ParseIntError::PosOverflow);
                        }
                        acc = next;
                        seen = true;
                    },
                }
            },
        }
    }
}

/// Parses `text` as a run of decimal digits whose value is at most `max`.
pub fn parse_decimal(text: &str, max: u16) -> (r: Result<u16, ParseIntError>)
    ensures
        match r {
            Ok(v) => decimal_value(text@, max as nat) == Ok::<nat, ParseIntError>(v as nat),
            Err(e) => decimal_value(text@, max as nat) == Err::<nat, ParseIntError>(e),
        },
{
    let mut chars = text.chars();
    read_decimal(&mut chars, max)
}

/// Parses `text` as an unsigned decimal number of at most `max`; one `+` may
/// stand in front of the digits.
pub fn parse_unsigned(text: &str, max: u16) -> (r: Result<u16, ParseIntError>)
    ensures
        match r {
            Ok(v) => unsigned_value(text@, max as nat) == Ok::<nat, ParseIntError>(v as nat),
            Err(e) => unsigned_value(text@, max as nat) == Err::<nat, ParseIntError>(e),
        },
{
    let mut chars = text.chars();
    match chars.next() {
        Some(c) => {
            if c == '+' {
                assert(chars.remaining() == text@.drop_first());
                match read_decimal(&mut chars, max) {
                    Ok(v) => Ok(v),
                    Err(ParseIntError::Empty) => Err(ParseIntError::InvalidDigit),
                    Err(e) => Err(e),
                }
            } else {
                parse_decimal(text, max)
            }
        },
        None => Err(ParseIntError::Empty),
    }
}

/// Parses `text` as one of the two boolean literals.
pub fn parse_boolean(text: &str) -> (r: Result<bool, ParseBoolError>)
    ensures
        r == boolean_value(text@),
{
    if same_text(text, "true") {
        Ok(true)
    } else if same_text(text, "false") {
        Ok(false)
    } else {
        Err(ParseBoolError)
    }
}

} // verus!
