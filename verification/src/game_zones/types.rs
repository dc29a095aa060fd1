//! Damage types and dice.

use crate::text::{decimal_value, read_decimal, ParseIntError};
use vstd::prelude::*;
use vstd::std_specs::convert::{FromSpecImpl, TryFromSpecImpl};
use vstd::std_specs::iter::IteratorSpec;

verus! {

broadcast use vstd::string::group_string_axioms;

/// The kinds of damage that an ability can deal.
#[derive(Debug, Clone, Copy, PartialEq, Eq, Structural)]
pub enum DamageType {
    /// Damage of no particular type.
    Untyped,
    Fire,
    Lightning,
    Force,
    Divine,
    Necrotic,
    Acid,
    Ice,
    Psychic,
}

/// The text names no damage type.
#[derive(Debug, Clone, Copy, PartialEq, Eq, Structural)]
pub struct DamageTypeParseError;

/// A die, known by its number of sides.
#[derive(Debug, Clone, Copy, PartialEq, Eq, Structural)]
pub struct Dice {
    sides: u8,
}

/// Why a piece of text is not a die.
#[derive(Debug, Clone, Copy, PartialEq, Eq, Structural)]
pub enum ParseDiceError {
    /// What follows the `d` is not a number of sides between 0 and 255.
    InvalidSides(ParseIntError),
    /// The text does not start with `d` (a die is written like `d8`).
    InvalidFormat,
}

impl From<ParseIntError> for ParseDiceError {
    fn from(value: ParseIntError) -> (e: Self) {
        ParseDiceError::InvalidSides(value)
    }
}

impl FromSpecImpl<ParseIntError> for ParseDiceError {
    open spec fn obeys_from_spec() -> bool {
        true
    }

    open spec fn from_spec(value: ParseIntError) -> Self {
        ParseDiceError::InvalidSides(value)
    }
}

/// The number of sides that `text` gives a die: a `d`, then a run of decimal
/// digits whose value fits in eight bits.
pub open spec fn dice_sides(text: Seq<char>) -> Result<u8, ParseDiceError> {
    if text.len() > 0 && text[0] == 'd' {
        match decimal_value(text.drop_first(), u8::MAX as nat) {
            Ok(n) => Ok(n as u8),
            Err(e) => Err(ParseDiceError::InvalidSides(e)),
        }
    } else {
        Err(ParseDiceError::InvalidFormat)
    }
}

/// The face that a die of `sides` sides shows for the random number `entropy`.
pub open spec fn face_shown(sides: u8, entropy: u32) -> int
    recommends
        sides > 0,
{
    1 + (entropy as int) % (sides as int)
}

impl Dice {
    /// The number of sides of the die.
    pub closed spec fn sides(self) -> u8 {
        self.sides
    }

    /// The number of sides of the die.
    pub fn get_sides(self) -> (sides: u8)
        ensures
            sides == self.sides(),
    {
        self.sides
    }

    /// Reads a die from text of the shape `d8`.
    pub fn parse(text: &str) -> (r: Result<Dice, ParseDiceError>)
        ensures
            match r {
                Ok(dice) => dice_sides(text@) == Ok::<u8, ParseDiceError>(dice.sides()),
                Err(e) => dice_sides(text@) == Err::<u8, ParseDiceError>(e),
            },
    {
        let mut chars = text.chars();
        match chars.next() {
            Some(c) => {
                if c == 'd' {
                    assert(chars.remaining() == text@.drop_first());
                    match read_decimal(&mut chars, u8::MAX as u16) {
                        Ok(n) => Ok(Dice { sides: n as u8 }),
                        Err(e) => Err(ParseDiceError::from(e)),
                    }
                } else {
                    Err(ParseDiceError::InvalidFormat)
                }
            },
            None => Err(ParseDiceError::InvalidFormat),
        }
    }

    /// Rolls the die with a random number that the caller supplies: the face
    /// shown lies between 1 and the number of sides, and a die without sides
    /// is not rolled.
    pub fn roll(self, entropy: u32) -> (face: Option<i32>)
        ensures
            match face {
                Some(n) => self.sides() > 0 && n == face_shown(self.sides(), entropy),
                None => self.sides() == 0,
            },
    {
        if self.sides == 0 {
            None
        } else {
            let index: u32 = entropy % (self.sides as u32);
            Some(index as i32 + 1)
        }
    }
}

impl<'a> TryFrom<&'a str> for Dice {
    type Error = ParseDiceError;

    fn try_from(value: &'a str) -> (r: Result<Self, ParseDiceError>)
        ensures
            match r {
                Ok(dice) => dice_sides(value@) == Ok::<u8, ParseDiceError>(dice.sides()),
                Err(e) => dice_sides(value@) == Err::<u8, ParseDiceError>(e),
            },
    {
        Dice::parse(value)
    }
}

impl<'a> TryFromSpecImpl<&'a str> for Dice {
    open spec fn obeys_try_from_spec() -> bool {
        true
    }

    closed spec fn try_from_spec(value: &'a str) -> Result<Self, ParseDiceError> {
        match dice_sides(value@) {
            Ok(n) => Ok(Dice { sides: n }),
            Err(e) => Err(e),
        }
    }
}

impl TryFrom<String> for Dice {
    type Error = ParseDiceError;

    fn try_from(value: String) -> (r: Result<Self, ParseDiceError>)
        ensures
            match r {
                Ok(dice) => dice_sides(value@) == Ok::<u8, ParseDiceError>(dice.sides()),
                Err(e) => dice_sides(value@) == Err::<u8, ParseDiceError>(e),
            },
    {
        Dice::parse(value.as_str())
    }
}

impl TryFromSpecImpl<String> for Dice {
    open spec fn obeys_try_from_spec() -> bool {
        true
    }

    closed spec fn try_from_spec(value: String) -> Result<Self, ParseDiceError> {
        match dice_sides(value@) {
            Ok(n) => Ok(Dice { sides: n }),
            Err(e) => Err(e),
        }
    }
}

/// Every face that a die with sides can show lies between 1 and its number of
/// sides.
pub proof fn lemma_face_in_range(sides: u8, entropy: u32)
    requires
        sides > 0,
    ensures
        1 <= face_shown(sides, entropy) <= sides,
{
}

/// The random numbers below the number of sides reach each face exactly once,
/// in order.
pub proof fn lemma_face_of_small_entropy(sides: u8, entropy: u32)
    requires
        entropy < sides,
    ensures
        face_shown(sides, entropy) == entropy + 1,
{
    assert((entropy as int) % (sides as int) == entropy) by (nonlinear_arith)
        requires
            0 <= entropy < sides,
    ;
}

/// Going on by the number of sides comes back to the same face, so each face
/// is shown equally often over any whole number of such rounds.
pub proof fn lemma_face_repeats(sides: u8, entropy: u32)
    requires
        sides > 0,
        entropy + sides <= u32::MAX,
    ensures
        face_shown(sides, (entropy + sides) as u32) == face_shown(sides, entropy),
{
    assert((entropy + sides) % (sides as int) == (entropy as int) % (sides as int))
        by (nonlinear_arith)
        requires
            sides > 0,
    ;
}

} // verus!
