use ability_script::game_zones::types::{DamageType, DamageTypeParseError, Dice, ParseDiceError};
use ability_script::parsing::tokenizer::TokenizerError;
use ability_script::parsing::tokens::{
    reserved, BoolToken, DamageTypeToken, IntToken, StringToken, Token, SYMBOLS,
};
use ability_script::text::{
    parse_boolean, parse_decimal, parse_unsigned, same_text, to_digit, ParseBoolError,
    ParseIntError,
};

#[test]
fn dice_parse() {
    assert_eq!(Dice::try_from("d4").unwrap().get_sides(), 4);
    assert_eq!(Dice::parse("d4").unwrap().get_sides(), 4);
    assert_eq!(Dice::try_from(String::from("d20")).unwrap().get_sides(), 20);
    assert_eq!(Dice::try_from("d255").unwrap().get_sides(), 255);
    assert_eq!(Dice::try_from("d0").unwrap().get_sides(), 0);
    assert_eq!(Dice::try_from("d007").unwrap().get_sides(), 7);
}

#[test]
fn dice_parse_format_error() {
    assert_eq!(Dice::try_from("4"), Err(ParseDiceError::InvalidFormat));
    assert_eq!(Dice::try_from(""), Err(ParseDiceError::InvalidFormat));
    assert_eq!(Dice::try_from("D4"), Err(ParseDiceError::InvalidFormat));
    assert_eq!(Dice::try_from(" d4"), Err(ParseDiceError::InvalidFormat));
    assert_eq!(Dice::try_from("4d"), Err(ParseDiceError::InvalidFormat));
}

#[test]
fn dice_parse_invalid_sides() {
    assert_eq!(
        Dice::try_from("dxyz"),
        Err(ParseDiceError::InvalidSides(ParseIntError::InvalidDigit))
    );
    assert_eq!(Dice::try_from("d"), Err(ParseDiceError::InvalidSides(ParseIntError::Empty)));
    assert_eq!(
        Dice::try_from("d256"),
        Err(ParseDiceError::InvalidSides(ParseIntError::PosOverflow))
    );
    assert_eq!(
        Dice::try_from("d4 "),
        Err(ParseDiceError::InvalidSides(ParseIntError::InvalidDigit))
    );
    assert_eq!(
        Dice::try_from("d+4"),
        Err(ParseDiceError::InvalidSides(ParseIntError::InvalidDigit))
    );
    assert_eq!(
        Dice::try_from("d-4"),
        Err(ParseDiceError::InvalidSides(ParseIntError::InvalidDigit))
    );
    assert_eq!(
        Dice::try_from(String::from("d1000x")),
        Err(ParseDiceError::InvalidSides(ParseIntError::PosOverflow))
    );
}

#[test]
fn dice_error_from_int_error() {
    assert_eq!(
        ParseDiceError::from(ParseIntError::Empty),
        ParseDiceError::InvalidSides(ParseIntError::Empty)
    );
}

#[test]
fn dice_roll() {
    let d6 = Dice::try_from("d6").unwrap();
    assert_eq!(d6.roll(0), Some(1));
    assert_eq!(d6.roll(5), Some(6));
    assert_eq!(d6.roll(6), Some(1));
    assert_eq!(d6.roll(u32::MAX), Some(4));
    let d1 = Dice::try_from("d1").unwrap();
    assert_eq!(d1.roll(12345), Some(1));
    let d255 = Dice::try_from("d255").unwrap();
    assert_eq!(d255.roll(254), Some(255));
    assert_eq!(d255.roll(255), Some(1));
}

#[test]
fn dice_roll_stays_in_range_and_reaches_every_face() {
    let d20 = Dice::try_from("d20").unwrap();
    let mut seen = [false; 20];
    for entropy in 0..1000u32 {
        let face = d20.roll(entropy).unwrap();
        assert!(1 <= face && face <= 20);
        seen[(face - 1) as usize] = true;
    }
    assert!(seen.iter().all(|s| *s));
}

#[test]
fn dice_without_sides_is_not_rolled() {
    let d0 = Dice::try_from("d0").unwrap();
    assert_eq!(d0.roll(0), None);
    assert_eq!(d0.roll(17), None);
}

#[test]
fn int_token() {
    let token = IntToken::try_from("234").unwrap();
    assert_eq!(token.as_str(), "234");
    assert_eq!(token.clone().get_value(), 234);
    assert_eq!(token.to_string(), String::from("234"));
    assert_eq!(IntToken::try_from(String::from("65535")).unwrap().get_value(), 65535);
    assert_eq!(IntToken::try_from("007").unwrap().get_value(), 7);
    let signed = IntToken::try_from("+5").unwrap();
    assert_eq!(signed.as_str(), "+5");
    assert_eq!(signed.get_value(), 5);
}

#[test]
fn int_token_errors() {
    assert_eq!(IntToken::try_from(""), Err(ParseIntError::Empty));
    assert_eq!(IntToken::try_from("+"), Err(ParseIntError::InvalidDigit));
    assert_eq!(IntToken::try_from("-"), Err(ParseIntError::InvalidDigit));
    assert_eq!(IntToken::try_from("-1"), Err(ParseIntError::InvalidDigit));
    assert_eq!(IntToken::try_from("++1"), Err(ParseIntError::InvalidDigit));
    assert_eq!(IntToken::try_from("12a"), Err(ParseIntError::InvalidDigit));
    assert_eq!(IntToken::try_from(" 1"), Err(ParseIntError::InvalidDigit));
    assert_eq!(IntToken::try_from("65536"), Err(ParseIntError::PosOverflow));
    assert_eq!(IntToken::try_from("99999999999999999999"), Err(ParseIntError::PosOverflow));
    // The first character that goes wrong decides.
    assert_eq!(IntToken::try_from("99999a"), Err(ParseIntError::PosOverflow));
    assert_eq!(IntToken::try_from("9a9999"), Err(ParseIntError::InvalidDigit));
    assert_eq!(IntToken::try_from(String::from("x")), Err(ParseIntError::InvalidDigit));
}

#[test]
fn bool_token() {
    let token = BoolToken::try_from("true").unwrap();
    assert_eq!(token.as_str(), "true");
    assert_eq!(token.clone().get_value(), true);
    assert_eq!(token.to_string(), String::from("true"));
    assert_eq!(BoolToken::try_from(String::from("false")).unwrap().get_value(), false);
    assert_eq!(BoolToken::try_from("True"), Err(ParseBoolError));
    assert_eq!(BoolToken::try_from(""), Err(ParseBoolError));
    assert_eq!(BoolToken::try_from("true "), Err(ParseBoolError));
    assert_eq!(BoolToken::try_from(String::from("1")), Err(ParseBoolError));
}

#[test]
fn string_token() {
    let token = StringToken::from("attack");
    assert_eq!(token.as_str(), "attack");
    assert_eq!(token.clone().get_value(), String::from("attack"));
    assert_eq!(token.to_string(), String::from("attack"));
    assert_eq!(StringToken::from(String::from("=>")).as_str(), "=>");
    assert_eq!(StringToken::from(""), StringToken::from(String::new()));
}

#[test]
fn damage_type_token() {
    let names = [
        ("fire", DamageType::Fire),
        ("lightning", DamageType::Lightning),
        ("acid", DamageType::Acid),
        ("necrotic", DamageType::Necrotic),
        ("ice", DamageType::Ice),
        ("psychic", DamageType::Psychic),
        ("force", DamageType::Force),
        ("divine", DamageType::Divine),
    ];
    for (name, damage_type) in names {
        let token = DamageTypeToken::try_from(name).unwrap();
        assert_eq!(token.as_str(), name);
        assert_eq!(token.clone().get_value(), damage_type);
        assert_eq!(token.to_string(), String::from(name));
        assert_eq!(
            DamageTypeToken::try_from(String::from(name)).unwrap().get_value(),
            damage_type
        );
    }
}

#[test]
fn damage_type_token_errors() {
    assert_eq!(DamageTypeToken::try_from("Fire"), Err(DamageTypeParseError));
    assert_eq!(DamageTypeToken::try_from("none"), Err(DamageTypeParseError));
    assert_eq!(DamageTypeToken::try_from(""), Err(DamageTypeParseError));
    assert_eq!(DamageTypeToken::try_from("fir"), Err(DamageTypeParseError));
    assert_eq!(DamageTypeToken::try_from(String::from("fire ")), Err(DamageTypeParseError));
}

#[test]
fn tokenizer_error_from() {
    assert_eq!(
        TokenizerError::from(ParseIntError::PosOverflow),
        TokenizerError::ParseIntError(ParseIntError::PosOverflow)
    );
    assert_eq!(
        TokenizerError::from(ParseBoolError),
        TokenizerError::ParseBoolError(ParseBoolError)
    );
    assert_eq!(
        TokenizerError::from(DamageTypeParseError),
        TokenizerError::ParseDamageTypeError(DamageTypeParseError)
    );
}

#[test]
fn reserved_words() {
    for symbol in SYMBOLS {
        assert!(reserved(symbol));
    }
    assert_eq!(SYMBOLS.len(), 32);
    assert!(!reserved(""));
    assert!(!reserved("In"));
    assert!(!reserved("=>"));
    assert!(!reserved("$"));
    assert!(!reserved("_"));
    assert!(!reserved("true"));
}

#[test]
fn same_text_compares_characters() {
    assert!(same_text("", ""));
    assert!(same_text("fire", "fire"));
    assert!(!same_text("fire", "fir"));
    assert!(!same_text("fir", "fire"));
    assert!(!same_text("fire", "firE"));
    assert!(same_text("\u{00e9}t\u{00e9}", "\u{00e9}t\u{00e9}"));
    assert!(!same_text("\u{00e9}", "e"));
}

#[test]
fn decimal_digits() {
    assert_eq!(to_digit('0'), Some(0));
    assert_eq!(to_digit('9'), Some(9));
    assert_eq!(to_digit('a'), None);
    assert_eq!(to_digit('/'), None);
    assert_eq!(to_digit(':'), None);
    assert_eq!(to_digit('\u{0663}'), None);
}

#[test]
fn decimal_parsing() {
    assert_eq!(parse_decimal("0", 255), Ok(0));
    assert_eq!(parse_decimal("255", 255), Ok(255));
    assert_eq!(parse_decimal("256", 255), Err(ParseIntError::PosOverflow));
    assert_eq!(parse_decimal("", 255), Err(ParseIntError::Empty));
    assert_eq!(parse_decimal("+1", 255), Err(ParseIntError::InvalidDigit));
    assert_eq!(parse_decimal("1", 0), Err(ParseIntError::PosOverflow));
    assert_eq!(parse_decimal("0", 0), Ok(0));
    assert_eq!(parse_unsigned("+1", 255), Ok(1));
    assert_eq!(parse_unsigned("+255", 255), Ok(255));
    assert_eq!(parse_unsigned("+256", 255), Err(ParseIntError::PosOverflow));
    assert_eq!(parse_unsigned("+", 255), Err(ParseIntError::InvalidDigit));
    assert_eq!(parse_unsigned("", 255), Err(ParseIntError::Empty));
    assert_eq!(parse_unsigned("65535", u16::MAX), Ok(65535));
}

#[test]
fn boolean_parsing() {
    assert_eq!(parse_boolean("true"), Ok(true));
    assert_eq!(parse_boolean("false"), Ok(false));
    assert_eq!(parse_boolean("TRUE"), Err(ParseBoolError));
    assert_eq!(parse_boolean("truefalse"), Err(ParseBoolError));
}
