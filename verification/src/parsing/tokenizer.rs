//! The scanner: from script text to a sequence of tokens.

use crate::game_zones::types::DamageTypeParseError;
use crate::parsing::lexicon::{
    after_line, ends_with_eof, followed_by, in_class, is_whitespace, lemma_after_line_is_suffix,
    lemma_blank_script_scans_to_eof, lemma_followed_by_push, lemma_reading_bounded,
    lemma_scan_after_blanks, lemma_scan_ends_with_eof, lemma_scan_errors,
    lemma_scan_passes_blank, lemma_scan_reads_token, read_at, read_number, read_symbol,
    read_word, run_length, run_lookahead, run_taken, scan, unread, CharClass, Reading,
};
use crate::parsing::tokens::{
    lexemes_of, reserved, BoolToken, DamageTypeToken, IntToken, Lexeme, StringToken, Token,
    Tokens,
};
use crate::text::{measured, ParseBoolError, ParseIntError};
use std::str::Chars;
use vstd::prelude::*;
use vstd::std_specs::convert::FromSpecImpl;
use vstd::std_specs::iter::IteratorSpec;

verus! {

broadcast use vstd::string::group_string_axioms;

/// Why a script cannot be turned into tokens.
#[derive(Debug, Clone, Copy, PartialEq, Eq, Structural)]
pub enum TokenizerError {
    /// A boolean literal is malformed.
    ParseBoolError(ParseBoolError),
    /// A run of digits is not a number between 0 and 65535.
    ParseIntError(ParseIntError),
    /// A damage type literal is malformed.
    ParseDamageTypeError(DamageTypeParseError),
    /// A character starts no token and is no reserved symbol.
    InvalidSyntax,
}

impl From<ParseBoolError> for TokenizerError {
    fn from(err: ParseBoolError) -> (e: Self) {
        TokenizerError::ParseBoolError(err)
    }
}

impl FromSpecImpl<ParseBoolError> for TokenizerError {
    open spec fn obeys_from_spec() -> bool {
        true
    }

    open spec fn from_spec(err: ParseBoolError) -> Self {
        TokenizerError::ParseBoolError(err)
    }
}

impl From<ParseIntError> for TokenizerError {
    fn from(err: ParseIntError) -> (e: Self) {
        TokenizerError::ParseIntError(err)
    }
}

impl FromSpecImpl<ParseIntError> for TokenizerError {
    open spec fn obeys_from_spec() -> bool {
        true
    }

    open spec fn from_spec(err: ParseIntError) -> Self {
        TokenizerError::ParseIntError(err)
    }
}

impl From<DamageTypeParseError> for TokenizerError {
    fn from(err: DamageTypeParseError) -> (e: Self) {
        TokenizerError::ParseDamageTypeError(err)
    }
}

impl FromSpecImpl<DamageTypeParseError> for TokenizerError {
    open spec fn obeys_from_spec() -> bool {
        true
    }

    open spec fn from_spec(err: DamageTypeParseError) -> Self {
        TokenizerError::ParseDamageTypeError(err)
    }
}

/// Whether `c` belongs to `class`.
pub fn belongs(class: CharClass, c: char) -> (b: bool)
    ensures
        b == in_class(class, c),
{
    match class {
        CharClass::Blank => c == ' ' || c == '\t' || c == '\n' || c == '\r',
        CharClass::Numeric => c.is_numeric(),
        CharClass::Word => c.is_alphabetic() || c.is_numeric() || c == '$' || c == '_',
    }
}

/// Skips the whitespace at the front of `chars` and hands out the first
/// character behind it, if the text goes on.
pub fn consume_white_space(chars: &mut Chars) -> (first: Option<char>)
    requires
        measured(*old(chars)),
    ensures
        measured(*final(chars)),
        first == run_lookahead(CharClass::Blank, (*old(chars)).remaining()),
        (*final(chars)).remaining() == (*old(chars)).remaining().skip(
            run_taken(CharClass::Blank, (*old(chars)).remaining()) as int,
        ),
{
    let ghost rest = (*chars).remaining();
    let ghost mut k: int = 0;
    assert(rest.skip(0) == rest);
    loop
        invariant
            rest == (*old(chars)).remaining(),
            0 <= k <= rest.len(),
            (*chars).remaining() == rest.skip(k),
            run_length(CharClass::Blank, rest) == k + run_length(CharClass::Blank, rest.skip(k)),
            measured(*chars),
        decreases (*chars).decrease()->0,
    {
        match chars.next() {
            Some(next) => {
                proof {
                    assert(rest.skip(k).drop_first() == rest.skip(k + 1));
                }
                if !belongs(CharClass::Blank, next) {
                    return Some(next);
                }
                proof {
                    k = k + 1;
                }
            },
            None => {
                return None;
            },
        }
    }
}

/// Skips what is left of the line at the front of `chars`, its newline
/// included.
pub fn read_until_newline_or_eof(chars: &mut Chars)
    requires
        measured(*old(chars)),
    ensures
        measured(*final(chars)),
        (*final(chars)).remaining() == after_line((*old(chars)).remaining()),
{
    loop
        invariant
            after_line((*chars).remaining()) == after_line((*old(chars)).remaining()),
            measured(*chars),
        decreases (*chars).decrease()->0,
    {
        match chars.next() {
            Some(next) => {
                if next == '\n' {
                    return ;
                }
            },
            None => {
                return ;
            },
        }
    }
}

/// Whether the reader's state after a reading is the one that `reading`
/// describes: the stream is behind what was taken, and the lookahead holds the
/// character that was taken one too far, or else what it held before.
pub open spec fn read_as(
    reading: Reading,
    rest_before: Seq<char>,
    rest_after: Seq<char>,
    lookahead_before: Option<char>,
    lookahead_after: Option<char>,
) -> bool {
    &&& rest_after == rest_before.skip(reading.taken as int)
    &&& lookahead_after == match reading.lookahead {
        Some(c) => Some(c),
        None => lookahead_before,
    }
}

/// Appends to `text` the run of `class` at the front of `chars`. The
/// character that ends the run, if there is one, is kept in `next_first`.
fn take_run(
    class: CharClass,
    text: &mut String,
    chars: &mut Chars,
    next_first: &mut Option<char>,
)
    requires
        measured(*old(chars)),
    ensures
        measured(*final(chars)),
        final(text)@ == old(text)@ + (*old(chars)).remaining().take(
            run_length(class, (*old(chars)).remaining()) as int,
        ),
        (*final(chars)).remaining() == (*old(chars)).remaining().skip(
            run_taken(class, (*old(chars)).remaining()) as int,
        ),
        *final(next_first) == match run_lookahead(class, (*old(chars)).remaining()) {
            Some(c) => Some(c),
            None => *old(next_first),
        },
{
    let ghost rest = (*chars).remaining();
    let ghost mut k: int = 0;
    assert(rest.skip(0) == rest);
    loop
        invariant
            rest == (*old(chars)).remaining(),
            0 <= k <= rest.len(),
            (*chars).remaining() == rest.skip(k),
            run_length(class, rest) == k + run_length(class, rest.skip(k)),
            text@ == old(text)@ + rest.take(k),
            *next_first == *old(next_first),
            measured(*chars),
        decreases (*chars).decrease()->0,
    {
        match chars.next() {
            Some(next) => {
                proof {
                    assert(rest.skip(k).drop_first() == rest.skip(k + 1));
                }
                if belongs(class, next) {
                    text.push(next);
                    proof {
                        assert(rest.take(k + 1) == rest.take(k).push(rest[k]));
                        k = k + 1;
                    }
                } else {
                    *next_first = Some(next);
                    return ;
                }
            },
            None => {
                proof {
                    assert(rest.take(k) == rest);
                }
                return ;
            },
        }
    }
}

/// Reads the number that starts with `first`: the digits that follow are
/// taken as far as they go, and the text must denote a number between 0 and
/// 65535.
pub fn parse_numeric(first: char, chars: &mut Chars, next_first: &mut Option<char>) -> (r: Result<
    Tokens,
    ParseIntError,
>)
    requires
        measured(*old(chars)),
    ensures
        measured(*final(chars)),
        match r {
            Ok(token) => read_number(first, (*old(chars)).remaining()).outcome == Ok::<
                Lexeme,
                TokenizerError,
            >(token@),
            Err(e) => read_number(first, (*old(chars)).remaining()).outcome == Err::<
                Lexeme,
                TokenizerError,
            >(TokenizerError::ParseIntError(e)),
        },
        read_as(
            read_number(first, (*old(chars)).remaining()),
            (*old(chars)).remaining(),
            (*final(chars)).remaining(),
            *old(next_first),
            *final(next_first),
        ),
{
    let mut num_string = String::new();
    num_string.push(first);
    assert(num_string@ == seq![first]);
    take_run(CharClass::Numeric, &mut num_string, chars, next_first);
    match IntToken::try_from(num_string) {
        Ok(int_token) => Ok(Tokens::Numeric(int_token)),
        Err(e) => Err(e),
    }
}

/// Reads the identifier-class word that starts with `first` and tells what it
/// is: a reserved word, a boolean literal, a damage type literal, or else an
/// identifier.
pub fn parse_identifier_keyword_or_damage_type(
    first: char,
    chars: &mut Chars,
    next_first: &mut Option<char>,
) -> (token: Tokens)
    requires
        measured(*old(chars)),
    ensures
        measured(*final(chars)),
        read_word(first, (*old(chars)).remaining()).outcome == Ok::<Lexeme, TokenizerError>(token@),
        read_as(
            read_word(first, (*old(chars)).remaining()),
            (*old(chars)).remaining(),
            (*final(chars)).remaining(),
            *old(next_first),
            *final(next_first),
        ),
{
    let mut final_string = String::new();
    final_string.push(first);
    assert(final_string@ == seq![first]);
    take_run(CharClass::Word, &mut final_string, chars, next_first);
    if reserved(final_string.as_str()) {
        return Tokens::Symbol(StringToken::from(final_string));
    }
    match BoolToken::try_from(final_string.as_str()) {
        Ok(bool_token) => {
            return Tokens::Boolean(bool_token);
        },
        Err(_) => {},
    }
    match DamageTypeToken::try_from(final_string.as_str()) {
        Ok(damage_type_token) => {
            return Tokens::DamageType(damage_type_token);
        },
        Err(_) => {},
    }
    Tokens::Identifier(StringToken::from(final_string))
}

/// The symbol made of the one character `first`.
fn single_symbol(first: char) -> (token: Tokens)
    ensures
        token@ == (Lexeme::Symbol { text: seq![first] }),
{
    let mut text = String::new();
    text.push(first);
    assert(text@ == seq![first]);
    Tokens::Symbol(StringToken::from(text))
}

/// The symbol made of the two characters `first` and `second`.
fn double_symbol(first: char, second: char) -> (token: Tokens)
    ensures
        token@ == (Lexeme::Symbol { text: seq![first, second] }),
{
    let mut text = String::new();
    text.push(first);
    text.push(second);
    assert(text@ == seq![first, second]);
    Tokens::Symbol(StringToken::from(text))
}

/// Whether `first` is a reserved symbol by itself.
fn reserved_char(first: char) -> (found: bool)
    ensures
        found == crate::parsing::tokens::is_reserved(seq![first]),
{
    let mut text = String::new();
    text.push(first);
    assert(text@ == seq![first]);
    reserved(text.as_str())
}

/// Reads the symbol that starts with `first`. Where `first` may start a
/// two-character symbol, the next character is looked at; if it does not fit,
/// it is kept in `next_first` and `first` stands alone.
pub fn parse_syntax(first: char, chars: &mut Chars, next_first: &mut Option<char>) -> (r: Result<
    Tokens,
    TokenizerError,
>)
    requires
        measured(*old(chars)),
    ensures
        measured(*final(chars)),
        match r {
            Ok(token) => read_symbol(first, (*old(chars)).remaining()).outcome == Ok::<
                Lexeme,
                TokenizerError,
            >(token@),
            Err(e) => read_symbol(first, (*old(chars)).remaining()).outcome == Err::<
                Lexeme,
                TokenizerError,
            >(e),
        },
        read_as(
            read_symbol(first, (*old(chars)).remaining()),
            (*old(chars)).remaining(),
            (*final(chars)).remaining(),
            *old(next_first),
            *final(next_first),
        ),
{
    let ghost rest = (*chars).remaining();
    assert(rest.skip(0) == rest);
    if !reserved_char(first) {
        return Err(TokenizerError::InvalidSyntax);
    }
    if first == '=' || first == '/' || first == '+' || first == '<' || first == '>' || first
        == '~' {
        match chars.next() {
            Some(next) => {
                assert(rest.skip(1) == rest.drop_first());
                if first == '=' && (next == '>' || next == '=') {
                    return Ok(double_symbol(first, next));
                } else if first == '/' && next == '/' {
                    return Ok(Tokens::Comment);
                } else if first == '+' && next == '!' {
                    return Ok(double_symbol(first, next));
                } else if (first == '<' || first == '>' || first == '~') && next == '=' {
                    return Ok(double_symbol(first, next));
                } else {
                    *next_first = Some(next);
                }
            },
            None => {},
        }
    }
    Ok(single_symbol(first))
}

/// Reads the token that starts with `first`, which is no whitespace: a number
/// if `first` is numeric, else a word if `first` is a letter, `$` or `_`, else
/// a symbol.
pub fn read_next_token(first: char, chars: &mut Chars, next_first: &mut Option<char>) -> (r:
    Result<Tokens, TokenizerError>)
    requires
        measured(*old(chars)),
    ensures
        measured(*final(chars)),
        match r {
            Ok(token) => read_at(first, (*old(chars)).remaining()).outcome == Ok::<
                Lexeme,
                TokenizerError,
            >(token@),
            Err(e) => read_at(first, (*old(chars)).remaining()).outcome == Err::<
                Lexeme,
                TokenizerError,
            >(e),
        },
        read_as(
            read_at(first, (*old(chars)).remaining()),
            (*old(chars)).remaining(),
            (*final(chars)).remaining(),
            *old(next_first),
            *final(next_first),
        ),
{
    if first.is_numeric() {
        match parse_numeric(first, chars, next_first) {
            Ok(numeric_token) => Ok(numeric_token),
            Err(e) => Err(TokenizerError::from(e)),
        }
    } else if first.is_alphabetic() || first == '$' || first == '_' {
        Ok(parse_identifier_keyword_or_damage_type(first, chars, next_first))
    } else {
        parse_syntax(first, chars, next_first)
    }
}

/// Turns a script into its tokens, the last of which is the end-of-file
/// token. The first character that starts no token, or the first run of
/// digits that is no number between 0 and 65535, fails the whole script.
pub fn tokenize(script: &str) -> (r: Result<Vec<Tokens>, TokenizerError>)
    ensures
        match r {
            Ok(tokens) => scan(script@) == Ok::<Seq<Lexeme>, TokenizerError>(lexemes_of(tokens@)),
            Err(e) => scan(script@) == Err::<Seq<Lexeme>, TokenizerError>(e),
        },
        r matches Ok(tokens) ==> ends_with_eof(lexemes_of(tokens@)),
        r matches Err(e) ==> e is ParseIntError || e is InvalidSyntax,
        (forall|i: int| 0 <= i < script@.len() ==> is_whitespace(#[trigger] script@[i])) ==> (r
            matches Ok(tokens) && lexemes_of(tokens@) == seq![Lexeme::EOF]),
{
    let ghost blank = forall|i: int|
        0 <= i < script@.len() ==> is_whitespace(#[trigger] script@[i]);
    proof {
        lemma_scan_ends_with_eof(script@);
        lemma_scan_errors(script@);
        if blank {
            lemma_blank_script_scans_to_eof(script@);
        }
    }
    let mut tokens: Vec<Tokens> = Vec::new();
    let mut chars = script.chars();
    let mut next: Option<char> = None;
    let ghost mut pos: int = 0;
    proof {
        assert(script@.skip(0) == script@);
        assert(lexemes_of(tokens@) == Seq::<Lexeme>::empty());
        assert(followed_by(Seq::<Lexeme>::empty(), scan(script@)) == scan(script@)) by {
            if let Ok(more) = scan(script@) {
                assert(Seq::<Lexeme>::empty() + more == more);
            }
        }
    }
    loop
        invariant
            0 <= pos <= script@.len(),
            chars.remaining() == script@.skip(pos),
            measured(chars),
            scan(script@) == followed_by(
                lexemes_of(tokens@),
                scan(unread(next, script@.skip(pos))),
            ),
            scan(script@) matches Ok(all) ==> ends_with_eof(all),
            scan(script@) matches Err(e) ==> e is ParseIntError || e is InvalidSyntax,
            blank ==> scan(script@) == Ok::<Seq<Lexeme>, TokenizerError>(seq![Lexeme::EOF]),
            blank == (forall|i: int|
                0 <= i < script@.len() ==> is_whitespace(#[trigger] script@[i])),
        decreases script@.len() - pos + (if next is Some { 1int } else { 0int }),
    {
        let ghost tail = script@.skip(pos);
        let first: char;
        match next {
            Some(c) => {
                next = None;
                if belongs(CharClass::Blank, c) {
                    proof {
                        lemma_scan_passes_blank(c, tail);
                    }
                    continue ;
                }
                first = c;
            },
            None => {
                let ghost blanks = run_length(CharClass::Blank, tail) as int;
                proof {
                    lemma_scan_after_blanks(tail);
                }
                match consume_white_space(&mut chars) {
                    Some(c) => {
                        proof {
                            assert(tail.skip(blanks + 1) == script@.skip(pos + blanks + 1));
                            pos = pos + blanks + 1;
                        }
                        first = c;
                    },
                    None => {
                        proof {
                            assert(lexemes_of(tokens@.push(Tokens::EOF)) == lexemes_of(tokens@)
                                + seq![Lexeme::EOF]);
                        }
                        tokens.push(Tokens::EOF);
                        return Ok(tokens);
                    },
                }
            },
        }
        let ghost rest = script@.skip(pos);
        let ghost reading = read_at(first, rest);
        let ghost done = lexemes_of(tokens@);
        assert(scan(script@) == followed_by(done, scan(unread(Some(first), rest))));
        proof {
            lemma_reading_bounded(first, rest);
            lemma_scan_reads_token(first, rest);
            assert(rest.skip(reading.taken as int) == script@.skip(pos + reading.taken));
        }
        let token = match read_next_token(first, &mut chars, &mut next) {
            Ok(token) => token,
            Err(e) => {
                return Err(e);
            },
        };
        proof {
            pos = pos + reading.taken;
        }
        match token {
            Tokens::Comment => {
                let ghost line = script@.skip(pos);
                proof {
                    lemma_after_line_is_suffix(line);
                    assert(line.skip(line.len() - after_line(line).len()) == script@.skip(
                        pos + line.len() - after_line(line).len(),
                    ));
                    pos = pos + line.len() - after_line(line).len();
                }
                read_until_newline_or_eof(&mut chars);
            },
            token => {
                proof {
                    lemma_followed_by_push(done, token@, scan(unread(next, script@.skip(pos))));
                    assert(lexemes_of(tokens@.push(token)) == done.push(token@));
                }
                tokens.push(token);
            },
        }
    }
}

} // verus!
