//! The tokens of the language and the literals that they carry.

use crate::game_zones::types::{DamageType, DamageTypeParseError};
use crate::text::{
    boolean_value, parse_boolean, parse_unsigned, same_text, unsigned_value, ParseBoolError,
    ParseIntError,
};
use vstd::prelude::*;
use vstd::std_specs::convert::{FromSpecImpl, TryFromSpecImpl};

verus! {

/// The reserved symbols and keywords of the language.
pub const SYMBOLS: [&'static str; 32] = [
    "{", "}", "(", ")", "[", "]", "@", "^", "#", ":", ";", "&", "+", "-", "*", "/", "|", ".", ",",
    "!", "~", "=", ">", "<", "in", "from", "for", "if", "else", "when", "func", "target",
];

/// Whether `text` is one of the reserved symbols and keywords.
pub open spec fn is_reserved(text: Seq<char>) -> bool {
    exists|i: int| 0 <= i < 32 && (#[trigger] SYMBOLS[i])@ == text
}

/// The damage type that `text` names, if it names one. The names are matched
/// exactly, letter case included.
pub open spec fn damage_type_named(text: Seq<char>) -> Result<DamageType, DamageTypeParseError> {
    if text == "fire"@ {
        Ok(DamageType::Fire)
    } else if text == "lightning"@ {
        Ok(DamageType::Lightning)
    } else if text == "acid"@ {
        Ok(DamageType::Acid)
    } else if text == "necrotic"@ {
        Ok(DamageType::Necrotic)
    } else if text == "ice"@ {
        Ok(DamageType::Ice)
    } else if text == "psychic"@ {
        Ok(DamageType::Psychic)
    } else if text == "force"@ {
        Ok(DamageType::Force)
    } else if text == "divine"@ {
        Ok(DamageType::Divine)
    } else {
        Err(DamageTypeParseError)
    }
}

/// The damage type that `text` names.
pub fn parse_damage_type(text: &str) -> (r: Result<DamageType, DamageTypeParseError>)
    ensures
        r == damage_type_named(text@),
{
    if same_text(text, "fire") {
        Ok(DamageType::Fire)
    } else if same_text(text, "lightning") {
        Ok(DamageType::Lightning)
    } else if same_text(text, "acid") {
        Ok(DamageType::Acid)
    } else if same_text(text, "necrotic") {
        Ok(DamageType::Necrotic)
    } else if same_text(text, "ice") {
        Ok(DamageType::Ice)
    } else if same_text(text, "psychic") {
        Ok(DamageType::Psychic)
    } else if same_text(text, "force") {
        Ok(DamageType::Force)
    } else if same_text(text, "divine") {
        Ok(DamageType::Divine)
    } else {
        Err(DamageTypeParseError)
    }
}

/// Whether `text` is one of the reserved symbols and keywords.
pub fn reserved(text: &str) -> (found: bool)
    ensures
        found == is_reserved(text@),
{
    let mut i: usize = 0;
    while i < 32
        invariant
            0 <= i <= 32,
            forall|j: int| 0 <= j < i ==> (#[trigger] SYMBOLS[j])@ != text@,
        decreases 32 - i,
    {
        if same_text(text, SYMBOLS[i]) {
            return true;
        }
        i = i + 1;
    }
    false
}

/// A token: a fundamental piece of the language, one atomic syntactic unit.
/// Every token keeps the text it was read from; some carry the value that the
/// text stands for.
pub trait Token<T> {
    /// The text that the token was read from.
    spec fn text(&self) -> Seq<char>;

    /// The value that the text stands for.
    spec fn value(&self) -> T;

    /// The token's text, as an owned string.
    fn to_string(self) -> (s: String)
        ensures
            s@ == self.text(),
    ;

    /// The token's text.
    fn as_str(&self) -> (s: &str)
        ensures
            s@ == self.text(),
    ;

    /// The value that the token's text stands for.
    fn get_value(self) -> (v: T)
        ensures
            v == self.value(),
    ;
}

/// A boolean literal.
#[derive(Debug, PartialEq, Eq)]
pub struct BoolToken {
    string_value: String,
    bool_value: bool,
}

impl BoolToken {
    /// The value is always the one that the text spells.
    #[verifier::type_invariant]
    closed spec fn well_formed(self) -> bool {
        boolean_value(self.string_value@) == Ok::<bool, ParseBoolError>(self.bool_value)
    }
}

impl Clone for BoolToken {
    fn clone(&self) -> (copy: Self)
        ensures
            copy == *self,
    {
        proof {
            use_type_invariant(self);
        }
        BoolToken { string_value: self.string_value.clone(), bool_value: self.bool_value }
    }
}

impl Token<bool> for BoolToken {
    closed spec fn text(&self) -> Seq<char> {
        self.string_value@
    }

    closed spec fn value(&self) -> bool {
        self.bool_value
    }

    fn to_string(self) -> (s: String) {
        self.string_value
    }

    fn as_str(&self) -> (s: &str) {
        self.string_value.as_str()
    }

    fn get_value(self) -> (v: bool)
        ensures
            boolean_value(self.text()) == Ok::<bool, ParseBoolError>(v),
    {
        proof {
            use_type_invariant(&self);
        }
        self.bool_value
    }
}

impl<'a> TryFrom<&'a str> for BoolToken {
    type Error = ParseBoolError;

    fn try_from(val: &'a str) -> (r: Result<Self, ParseBoolError>)
        ensures
            match r {
                Ok(token) => token.text() == val@ && boolean_value(val@) == Ok::<
                    bool,
                    ParseBoolError,
                >(token.value()),
                Err(e) => boolean_value(val@) == Err::<bool, ParseBoolError>(e),
            },
    {
        match parse_boolean(val) {
            Ok(b) => Ok(BoolToken { bool_value: b, string_value: val.to_owned() }),
            Err(e) => Err(e),
        }
    }
}

/// What the conversion gives is stated by `try_from` itself: the token keeps
/// a string of its own, which only the conversion can make.
impl<'a> TryFromSpecImpl<&'a str> for BoolToken {
    open spec fn obeys_try_from_spec() -> bool {
        false
    }

    open spec fn try_from_spec(val: &'a str) -> Result<Self, ParseBoolError> {
        arbitrary()
    }
}

impl TryFrom<String> for BoolToken {
    type Error = ParseBoolError;

    fn try_from(val: String) -> (r: Result<Self, ParseBoolError>)
        ensures
            match r {
                Ok(token) => token.text() == val@ && boolean_value(val@) == Ok::<
                    bool,
                    ParseBoolError,
                >(token.value()),
                Err(e) => boolean_value(val@) == Err::<bool, ParseBoolError>(e),
            },
    {
        match parse_boolean(val.as_str()) {
            Ok(b) => Ok(BoolToken { bool_value: b, string_value: val }),
            Err(e) => Err(e),
        }
    }
}

impl TryFromSpecImpl<String> for BoolToken {
    open spec fn obeys_try_from_spec() -> bool {
        true
    }

    closed spec fn try_from_spec(val: String) -> Result<Self, ParseBoolError> {
        match boolean_value(val@) {
            Ok(b) => Ok(BoolToken { bool_value: b, string_value: val }),
            Err(e) => Err(e),
        }
    }
}

/// A piece of text that stands for itself: an identifier, a symbol or a
/// keyword.
#[derive(Debug, PartialEq, Eq)]
pub struct StringToken {
    string_value: String,
}

impl Clone for StringToken {
    fn clone(&self) -> (copy: Self)
        ensures
            copy == *self,
    {
        StringToken { string_value: self.string_value.clone() }
    }
}

impl Token<String> for StringToken {
    closed spec fn text(&self) -> Seq<char> {
        self.string_value@
    }

    closed spec fn value(&self) -> String {
        self.string_value
    }

    fn to_string(self) -> (s: String) {
        self.string_value
    }

    fn as_str(&self) -> (s: &str) {
        self.string_value.as_str()
    }

    fn get_value(self) -> (v: String)
        ensures
            v@ == self.text(),
    {
        self.string_value
    }
}

impl<'a> From<&'a str> for StringToken {
    fn from(val: &'a str) -> (token: Self)
        ensures
            token.text() == val@,
    {
        StringToken { string_value: val.to_owned() }
    }
}

/// What the conversion gives is stated by `from` itself: the token keeps a
/// string of its own, which only the conversion can make.
impl<'a> FromSpecImpl<&'a str> for StringToken {
    open spec fn obeys_from_spec() -> bool {
        false
    }

    open spec fn from_spec(val: &'a str) -> Self {
        arbitrary()
    }
}

impl From<String> for StringToken {
    fn from(val: String) -> (token: Self)
        ensures
            token.text() == val@,
    {
        StringToken { string_value: val }
    }
}

impl FromSpecImpl<String> for StringToken {
    open spec fn obeys_from_spec() -> bool {
        true
    }

    closed spec fn from_spec(val: String) -> Self {
        StringToken { string_value: val }
    }
}

/// A number literal between 0 and 65535.
#[derive(Debug, PartialEq, Eq)]
pub struct IntToken {
    string_value: String,
    int_value: u16,
}

impl IntToken {
    /// The value is always the one that the text denotes.
    #[verifier::type_invariant]
    closed spec fn well_formed(self) -> bool {
        unsigned_value(self.string_value@, u16::MAX as nat) == Ok::<nat, ParseIntError>(
            self.int_value as nat,
        )
    }
}

impl Clone for IntToken {
    fn clone(&self) -> (copy: Self)
        ensures
            copy == *self,
    {
        proof {
            use_type_invariant(self);
        }
        IntToken { string_value: self.string_value.clone(), int_value: self.int_value }
    }
}

impl Token<u16> for IntToken {
    closed spec fn text(&self) -> Seq<char> {
        self.string_value@
    }

    closed spec fn value(&self) -> u16 {
        self.int_value
    }

    fn to_string(self) -> (s: String) {
        self.string_value
    }

    fn as_str(&self) -> (s: &str) {
        self.string_value.as_str()
    }

    fn get_value(self) -> (v: u16)
        ensures
            unsigned_value(self.text(), u16::MAX as nat) == Ok::<nat, ParseIntError>(v as nat),
    {
        proof {
            use_type_invariant(&self);
        }
        self.int_value
    }
}

impl<'a> TryFrom<&'a str> for IntToken {
    type Error = ParseIntError;

    fn try_from(val: &'a str) -> (r: Result<Self, ParseIntError>)
        ensures
            match r {
                Ok(token) => token.text() == val@ && unsigned_value(val@, u16::MAX as nat) == Ok::<
                    nat,
                    ParseIntError,
                >(token.value() as nat),
                Err(e) => unsigned_value(val@, u16::MAX as nat) == Err::<nat, ParseIntError>(e),
            },
    {
        match parse_unsigned(val, u16::MAX) {
            Ok(n) => Ok(IntToken { int_value: n, string_value: val.to_owned() }),
            Err(e) => Err(e),
        }
    }
}

/// What the conversion gives is stated by `try_from` itself: the token keeps
/// a string of its own, which only the conversion can make.
impl<'a> TryFromSpecImpl<&'a str> for IntToken {
    open spec fn obeys_try_from_spec() -> bool {
        false
    }

    open spec fn try_from_spec(val: &'a str) -> Result<Self, ParseIntError> {
        arbitrary()
    }
}

impl TryFrom<String> for IntToken {
    type Error = ParseIntError;

    fn try_from(value: String) -> (r: Result<Self, ParseIntError>)
        ensures
            match r {
                Ok(token) => token.text() == value@ && unsigned_value(value@, u16::MAX as nat)
                    == Ok::<nat, ParseIntError>(token.value() as nat),
                Err(e) => unsigned_value(value@, u16::MAX as nat) == Err::<nat, ParseIntError>(e),
            },
    {
        match parse_unsigned(value.as_str(), u16::MAX) {
            Ok(n) => Ok(IntToken { int_value: n, string_value: value }),
            Err(e) => Err(e),
        }
    }
}

impl TryFromSpecImpl<String> for IntToken {
    open spec fn obeys_try_from_spec() -> bool {
        true
    }

    closed spec fn try_from_spec(value: String) -> Result<Self, ParseIntError> {
        match unsigned_value(value@, u16::MAX as nat) {
            Ok(n) => Ok(IntToken { int_value: n as u16, string_value: value }),
            Err(e) => Err(e),
        }
    }
}

/// A damage type literal.
#[derive(Debug, PartialEq, Eq)]
pub struct DamageTypeToken {
    string_value: String,
    damage_type: DamageType,
}

impl DamageTypeToken {
    /// The damage type is always the one that the text names.
    #[verifier::type_invariant]
    closed spec fn well_formed(self) -> bool {
        damage_type_named(self.string_value@) == Ok::<DamageType, DamageTypeParseError>(
            self.damage_type,
        )
    }
}

impl Clone for DamageTypeToken {
    fn clone(&self) -> (copy: Self)
        ensures
            copy == *self,
    {
        proof {
            use_type_invariant(self);
        }
        DamageTypeToken { string_value: self.string_value.clone(), damage_type: self.damage_type }
    }
}

impl Token<DamageType> for DamageTypeToken {
    closed spec fn text(&self) -> Seq<char> {
        self.string_value@
    }

    closed spec fn value(&self) -> DamageType {
        self.damage_type
    }

    fn to_string(self) -> (s: String) {
        self.string_value
    }

    fn as_str(&self) -> (s: &str) {
        self.string_value.as_str()
    }

    fn get_value(self) -> (v: DamageType)
        ensures
            damage_type_named(self.text()) == Ok::<DamageType, DamageTypeParseError>(v),
    {
        proof {
            use_type_invariant(&self);
        }
        self.damage_type
    }
}

impl<'a> TryFrom<&'a str> for DamageTypeToken {
    type Error = DamageTypeParseError;

    fn try_from(val: &'a str) -> (r: Result<Self, DamageTypeParseError>)
        ensures
            match r {
                Ok(token) => token.text() == val@ && damage_type_named(val@) == Ok::<
                    DamageType,
                    DamageTypeParseError,
                >(token.value()),
                Err(e) => damage_type_named(val@) == Err::<DamageType, DamageTypeParseError>(e),
            },
    {
        match parse_damage_type(val) {
            Ok(damage_type) => Ok(DamageTypeToken { string_value: val.to_owned(), damage_type }),
            Err(e) => Err(e),
        }
    }
}

/// What the conversion gives is stated by `try_from` itself: the token keeps
/// a string of its own, which only the conversion can make.
impl<'a> TryFromSpecImpl<&'a str> for DamageTypeToken {
    open spec fn obeys_try_from_spec() -> bool {
        false
    }

    open spec fn try_from_spec(val: &'a str) -> Result<Self, DamageTypeParseError> {
        arbitrary()
    }
}

impl TryFrom<String> for DamageTypeToken {
    type Error = DamageTypeParseError;

    fn try_from(val: String) -> (r: Result<Self, DamageTypeParseError>)
        ensures
            match r {
                Ok(token) => token.text() == val@ && damage_type_named(val@) == Ok::<
                    DamageType,
                    DamageTypeParseError,
                >(token.value()),
                Err(e) => damage_type_named(val@) == Err::<DamageType, DamageTypeParseError>(e),
            },
    {
        match parse_damage_type(val.as_str()) {
            Ok(damage_type) => Ok(DamageTypeToken { string_value: val, damage_type }),
            Err(e) => Err(e),
        }
    }
}

impl TryFromSpecImpl<String> for DamageTypeToken {
    open spec fn obeys_try_from_spec() -> bool {
        true
    }

    closed spec fn try_from_spec(val: String) -> Result<Self, DamageTypeParseError> {
        match damage_type_named(val@) {
            Ok(damage_type) => Ok(DamageTypeToken { string_value: val, damage_type }),
            Err(e) => Err(e),
        }
    }
}

/// The kinds of token.
#[derive(Debug, PartialEq, Eq)]
pub enum Tokens {
    /// A number literal.
    Numeric(IntToken),
    /// An identifier.
    Identifier(StringToken),
    /// A reserved keyword or symbol.
    Symbol(StringToken),
    /// A damage type literal.
    DamageType(DamageTypeToken),
    /// A boolean literal.
    Boolean(BoolToken),
    /// The double slash: what follows it, up to the end of the line, is ignored.
    Comment,
    /// The end of the script; it stands for no text.
    EOF,
}

impl Clone for Tokens {
    fn clone(&self) -> (copy: Self)
        ensures
            copy == *self,
    {
        match self {
            Tokens::Numeric(token) => Tokens::Numeric(token.clone()),
            Tokens::Identifier(token) => Tokens::Identifier(token.clone()),
            Tokens::Symbol(token) => Tokens::Symbol(token.clone()),
            Tokens::DamageType(token) => Tokens::DamageType(token.clone()),
            Tokens::Boolean(token) => Tokens::Boolean(token.clone()),
            Tokens::Comment => Tokens::Comment,
            Tokens::EOF => Tokens::EOF,
        }
    }
}

/// What a token says, apart from how it is stored: its kind, its text and the
/// value that the text stands for.
#[allow(inconsistent_fields)]
pub enum Lexeme {
    Numeric { text: Seq<char>, value: u16 },
    Identifier { text: Seq<char> },
    Symbol { text: Seq<char> },
    DamageType { text: Seq<char>, value: DamageType },
    Boolean { text: Seq<char>, value: bool },
    Comment,
    EOF,
}

impl Lexeme {
    /// The text that the lexeme was read from; the two markers have none.
    pub open spec fn text(self) -> Seq<char> {
        match self {
            Lexeme::Numeric { text, .. } => text,
            Lexeme::Identifier { text } => text,
            Lexeme::Symbol { text } => text,
            Lexeme::DamageType { text, .. } => text,
            Lexeme::Boolean { text, .. } => text,
            Lexeme::Comment => Seq::empty(),
            Lexeme::EOF => Seq::empty(),
        }
    }
}

impl View for Tokens {
    type V = Lexeme;

    open spec fn view(&self) -> Lexeme {
        match self {
            Tokens::Numeric(token) => Lexeme::Numeric { text: token.text(), value: token.value() },
            Tokens::Identifier(token) => Lexeme::Identifier { text: token.text() },
            Tokens::Symbol(token) => Lexeme::Symbol { text: token.text() },
            Tokens::DamageType(token) => Lexeme::DamageType {
                text: token.text(),
                value: token.value(),
            },
            Tokens::Boolean(token) => Lexeme::Boolean { text: token.text(), value: token.value() },
            Tokens::Comment => Lexeme::Comment,
            Tokens::EOF => Lexeme::EOF,
        }
    }
}

/// What each token of a sequence says, in order.
pub open spec fn lexemes_of(tokens: Seq<Tokens>) -> Seq<Lexeme> {
    Seq::new(tokens.len(), |i: int| tokens[i]@)
}

} // verus!
