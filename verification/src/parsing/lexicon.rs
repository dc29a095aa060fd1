//! What the scanner is to produce: the character classes, how one token is
//! read off the front of a text, and the token sequence of a whole script.

use crate::parsing::tokenizer::TokenizerError;
use crate::parsing::tokens::{damage_type_named, is_reserved, Lexeme};
use crate::text::{alphabetic_char, boolean_value, numeric_char, unsigned_value};
use vstd::prelude::*;

verus! {

/// The classes of character that the scanner reads in runs.
#[derive(Debug, Clone, Copy, PartialEq, Eq, Structural)]
pub enum CharClass {
    /// Space, tab, newline and carriage return.
    Blank,
    /// What a number is made of.
    Numeric,
    /// What an identifier or keyword goes on with after its first character.
    Word,
}

/// Whether `c` separates tokens without being one.
pub open spec fn is_whitespace(c: char) -> bool {
    c == ' ' || c == '\t' || c == '\n' || c == '\r'
}

/// Whether `c` can start an identifier or keyword.
pub open spec fn starts_word(c: char) -> bool {
    alphabetic_char(c) || c == '$' || c == '_'
}

/// Whether `c` belongs to `class`.
pub open spec fn in_class(class: CharClass, c: char) -> bool {
    match class {
        CharClass::Blank => is_whitespace(c),
        CharClass::Numeric => numeric_char(c),
        CharClass::Word => alphabetic_char(c) || numeric_char(c) || c == '$' || c == '_',
    }
}

/// The length of the longest prefix of `s` that holds only characters of
/// `class`.
pub open spec fn run_length(class: CharClass, s: Seq<char>) -> nat
    decreases s.len(),
{
    if s.len() > 0 && in_class(class, s[0]) {
        1 + run_length(class, s.drop_first())
    } else {
        0
    }
}

/// How many characters are taken from `rest` to find the end of a run: the
/// run itself, and the character that ends it where there is one.
pub open spec fn run_taken(class: CharClass, rest: Seq<char>) -> nat {
    let n = run_length(class, rest);
    if n < rest.len() {
        n + 1
    } else {
        n
    }
}

/// The character that ends the run at the front of `rest`, if the text does
/// not end with the run.
pub open spec fn run_lookahead(class: CharClass, rest: Seq<char>) -> Option<char> {
    let n = run_length(class, rest);
    if n < rest.len() {
        Some(rest[n as int])
    } else {
        None
    }
}

/// What reading one token does: the token or the error, how many characters
/// were taken from the text behind the token's first character, and the
/// character that was taken one too far and is kept for the next token.
pub struct Reading {
    pub outcome: Result<Lexeme, TokenizerError>,
    pub taken: nat,
    pub lookahead: Option<char>,
}

/// The token that a finished identifier-class text is: a reserved word, else
/// a boolean literal, else a damage type literal, else an identifier.
pub open spec fn classify_word(text: Seq<char>) -> Lexeme {
    if is_reserved(text) {
        Lexeme::Symbol { text }
    } else {
        match boolean_value(text) {
            Ok(value) => Lexeme::Boolean { text, value },
            Err(_) => match damage_type_named(text) {
                Ok(value) => Lexeme::DamageType { text, value },
                Err(_) => Lexeme::Identifier { text },
            },
        }
    }
}

/// The token that a finished run of digits is, if it denotes a number between
/// 0 and 65535.
pub open spec fn classify_number(text: Seq<char>) -> Result<Lexeme, TokenizerError> {
    match unsigned_value(text, u16::MAX as nat) {
        Ok(value) => Ok(Lexeme::Numeric { text, value: value as u16 }),
        Err(e) => Err(TokenizerError::ParseIntError(e)),
    }
}

/// Reading a number that starts with `first`: the digits go on as far as they
/// can.
pub open spec fn read_number(first: char, rest: Seq<char>) -> Reading {
    Reading {
        outcome: classify_number(
            seq![first] + rest.take(run_length(CharClass::Numeric, rest) as int),
        ),
        taken: run_taken(CharClass::Numeric, rest),
        lookahead: run_lookahead(CharClass::Numeric, rest),
    }
}

/// Reading an identifier or keyword that starts with `first`: the word goes
/// on as far as it can.
pub open spec fn read_word(first: char, rest: Seq<char>) -> Reading {
    Reading {
        outcome: Ok(
            classify_word(seq![first] + rest.take(run_length(CharClass::Word, rest) as int)),
        ),
        taken: run_taken(CharClass::Word, rest),
        lookahead: run_lookahead(CharClass::Word, rest),
    }
}

/// Whether a symbol that starts with `first` may be two characters long.
pub open spec fn probes(first: char) -> bool {
    first == '=' || first == '/' || first == '+' || first == '<' || first == '>' || first == '~'
}

/// Whether `second` makes a two-character symbol of `first`: `=>`, `==`,
/// `//`, `+!`, `<=`, `>=` and `~=`.
pub open spec fn extends(first: char, second: char) -> bool {
    ||| first == '=' && (second == '>' || second == '=')
    ||| first == '/' && second == '/'
    ||| first == '+' && second == '!'
    ||| first == '<' && second == '='
    ||| first == '>' && second == '='
    ||| first == '~' && second == '='
}

/// Reading a symbol that starts with `first`. A character that may start a
/// two-character symbol has the next one looked at; where that one does not
/// fit, it is kept for the next token.
pub open spec fn read_symbol(first: char, rest: Seq<char>) -> Reading {
    if !is_reserved(seq![first]) {
        Reading { outcome: Err(TokenizerError::InvalidSyntax), taken: 0, lookahead: None }
    } else if probes(first) && rest.len() > 0 {
        if extends(first, rest[0]) {
            Reading {
                outcome: Ok(
                    if first == '/' {
                        Lexeme::Comment
                    } else {
                        Lexeme::Symbol { text: seq![first, rest[0]] }
                    },
                ),
                taken: 1,
                lookahead: None,
            }
        } else {
            Reading {
                outcome: Ok(Lexeme::Symbol { text: seq![first] }),
                taken: 1,
                lookahead: Some(rest[0]),
            }
        }
    } else {
        Reading { outcome: Ok(Lexeme::Symbol { text: seq![first] }), taken: 0, lookahead: None }
    }
}

/// Reading the token that starts with `first`, which is no whitespace: a
/// number if `first` is numeric, else a word if `first` can start one, else a
/// symbol.
pub open spec fn read_at(first: char, rest: Seq<char>) -> Reading {
    if numeric_char(first) {
        read_number(first, rest)
    } else if starts_word(first) {
        read_word(first, rest)
    } else {
        read_symbol(first, rest)
    }
}

/// The text that is still to be scanned: the character kept from the last
/// reading, if there is one, and what has not been taken yet.
pub open spec fn unread(lookahead: Option<char>, rest: Seq<char>) -> Seq<char> {
    match lookahead {
        Some(c) => seq![c] + rest,
        None => rest,
    }
}

/// What is left of `s` behind its first newline; nothing, if it has none.
pub open spec fn after_line(s: Seq<char>) -> Seq<char>
    decreases s.len(),
{
    if s.len() == 0 {
        s
    } else if s[0] == '\n' {
        s.drop_first()
    } else {
        after_line(s.drop_first())
    }
}

/// The tokens `done`, followed by what the rest of the text gives.
pub open spec fn followed_by(
    done: Seq<Lexeme>,
    rest: Result<Seq<Lexeme>, TokenizerError>,
) -> Result<Seq<Lexeme>, TokenizerError> {
    match rest {
        Ok(more) => Ok(done + more),
        Err(e) => Err(e),
    }
}

/// A run at the front of a text is no longer than the text.
pub proof fn lemma_run_length_bounded(class: CharClass, s: Seq<char>)
    ensures
        run_length(class, s) <= s.len(),
    decreases s.len(),
{
    if s.len() > 0 && in_class(class, s[0]) {
        lemma_run_length_bounded(class, s.drop_first());
    }
}

/// Every character of a run belongs to the class, and the character behind
/// the run, if there is one, does not.
pub proof fn lemma_run_ends(class: CharClass, s: Seq<char>)
    ensures
        forall|i: int| 0 <= i < run_length(class, s) ==> in_class(class, #[trigger] s[i]),
        run_length(class, s) < s.len() ==> !in_class(class, s[run_length(class, s) as int]),
    decreases s.len(),
{
    lemma_run_length_bounded(class, s);
    if s.len() > 0 && in_class(class, s[0]) {
        let tail = s.drop_first();
        lemma_run_ends(class, tail);
        lemma_run_length_bounded(class, tail);
        assert forall|i: int| 0 <= i < run_length(class, s) implies in_class(
            class,
            #[trigger] s[i],
        ) by {
            if i > 0 {
                assert(s[i] == tail[i - 1]);
            }
        }
        if run_length(class, s) < s.len() {
            assert(s[run_length(class, s) as int] == tail[run_length(class, tail) as int]);
        }
    }
}

/// What is left behind a line is the end of the text.
pub proof fn lemma_after_line_is_suffix(s: Seq<char>)
    ensures
        after_line(s).len() <= s.len(),
        after_line(s) == s.skip(s.len() - after_line(s).len()),
    decreases s.len(),
{
    if s.len() == 0 {
        assert(s.skip(0) == s);
    } else if s[0] == '\n' {
        assert(s.drop_first() == s.skip(1));
    } else {
        let tail = s.drop_first();
        lemma_after_line_is_suffix(tail);
        let k = tail.len() - after_line(tail).len();
        assert(tail.skip(k) == s.skip(k + 1));
    }
}

/// What is left behind a line is no longer than the text.
pub proof fn lemma_after_line_bounded(s: Seq<char>)
    ensures
        after_line(s).len() <= s.len(),
    decreases s.len(),
{
    if s.len() > 0 && s[0] != '\n' {
        lemma_after_line_bounded(s.drop_first());
    }
}

/// A reading takes no more than there is, and a character is kept only if it
/// was taken.
pub proof fn lemma_reading_bounded(first: char, rest: Seq<char>)
    ensures
        read_at(first, rest).taken <= rest.len(),
        read_at(first, rest).lookahead matches Some(c) ==> read_at(first, rest).taken >= 1 && c
            == rest[read_at(first, rest).taken - 1],
        unread(read_at(first, rest).lookahead, rest.skip(read_at(first, rest).taken as int)).len()
            <= rest.len(),
{
    lemma_run_length_bounded(CharClass::Numeric, rest);
    lemma_run_length_bounded(CharClass::Word, rest);
}

/// The tokens of the script `s`, or the first error that scanning from the
/// left meets. Whitespace is skipped, a comment is dropped up to the end of
/// its line, and the sequence ends with the end-of-file token.
#[verifier::opaque]
pub open spec fn scan(s: Seq<char>) -> Result<Seq<Lexeme>, TokenizerError>
    decreases s.len(),
{
    if s.len() == 0 {
        Ok(seq![Lexeme::EOF])
    } else if is_whitespace(s[0]) {
        scan(s.drop_first())
    } else {
        let rest = s.drop_first();
        let reading = read_at(s[0], rest);
        let next = unread(reading.lookahead, rest.skip(reading.taken as int));
        proof {
            lemma_reading_bounded(s[0], rest);
            lemma_after_line_bounded(next);
        }
        match reading.outcome {
            Err(e) => Err(e),
            Ok(Lexeme::Comment) => scan(after_line(next)),
            Ok(lexeme) => followed_by(seq![lexeme], scan(next)),
        }
    }
}

/// Whitespace at the front of a script does not change its tokens.
pub proof fn lemma_scan_skips_blanks(s: Seq<char>)
    ensures
        run_length(CharClass::Blank, s) <= s.len(),
        scan(s) == scan(s.skip(run_length(CharClass::Blank, s) as int)),
    decreases s.len(),
{
    reveal(scan);
    lemma_run_length_bounded(CharClass::Blank, s);
    if s.len() > 0 && is_whitespace(s[0]) {
        let tail = s.drop_first();
        lemma_scan_skips_blanks(tail);
        lemma_run_length_bounded(CharClass::Blank, tail);
        assert(tail.skip(run_length(CharClass::Blank, tail) as int) == s.skip(
            run_length(CharClass::Blank, s) as int,
        ));
    } else {
        assert(s.skip(0) == s);
    }
}

/// A whitespace character that is waiting to be scanned is passed over.
pub proof fn lemma_scan_passes_blank(c: char, rest: Seq<char>)
    requires
        is_whitespace(c),
    ensures
        scan(unread(Some(c), rest)) == scan(rest),
{
    reveal(scan);
    assert(unread(Some(c), rest).drop_first() == rest);
}

/// Scanning passes over the whitespace at the front of a text: a text of
/// nothing else gives the end-of-file token alone, and otherwise scanning
/// goes on with the first character that is no whitespace.
pub proof fn lemma_scan_after_blanks(s: Seq<char>)
    ensures
        run_length(CharClass::Blank, s) <= s.len(),
        run_length(CharClass::Blank, s) == s.len() ==> scan(s) == Ok::<
            Seq<Lexeme>,
            TokenizerError,
        >(seq![Lexeme::EOF]),
        run_length(CharClass::Blank, s) < s.len() ==> {
            let n = run_length(CharClass::Blank, s) as int;
            &&& !is_whitespace(s[n])
            &&& scan(s) == scan(unread(Some(s[n]), s.skip(n + 1)))
        },
{
    lemma_scan_skips_blanks(s);
    lemma_run_ends(CharClass::Blank, s);
    let n = run_length(CharClass::Blank, s) as int;
    if n < s.len() {
        assert(unread(Some(s[n]), s.skip(n + 1)) == s.skip(n));
    } else {
        reveal(scan);
        assert(s.skip(n).len() == 0);
    }
}

/// What scanning does with a character that is no whitespace: it reads the
/// token that starts there and goes on behind it; a comment is dropped with
/// the rest of its line, and an error ends the scan.
pub proof fn lemma_scan_reads_token(first: char, rest: Seq<char>)
    requires
        !is_whitespace(first),
    ensures
        ({
            let reading = read_at(first, rest);
            let next = unread(reading.lookahead, rest.skip(reading.taken as int));
            scan(unread(Some(first), rest)) == match reading.outcome {
                Err(e) => Err(e),
                Ok(Lexeme::Comment) => scan(after_line(next)),
                Ok(lexeme) => followed_by(seq![lexeme], scan(next)),
            }
        }),
{
    reveal(scan);
    assert(unread(Some(first), rest).drop_first() == rest);
}

/// Tokens that are done can be counted one by one or all at once.
pub proof fn lemma_followed_by_push(
    done: Seq<Lexeme>,
    lexeme: Lexeme,
    rest: Result<Seq<Lexeme>, TokenizerError>,
)
    ensures
        followed_by(done, followed_by(seq![lexeme], rest)) == followed_by(done.push(lexeme), rest),
{
    if let Ok(more) = rest {
        assert(done + (seq![lexeme] + more) == done.push(lexeme) + more);
    }
}

/// A text of nothing but characters of a class is one run.
pub proof fn lemma_run_of_class(class: CharClass, s: Seq<char>)
    requires
        forall|i: int| 0 <= i < s.len() ==> in_class(class, #[trigger] s[i]),
    ensures
        run_length(class, s) == s.len(),
    decreases s.len(),
{
    if s.len() > 0 {
        let tail = s.drop_first();
        assert forall|i: int| 0 <= i < tail.len() implies in_class(class, #[trigger] tail[i]) by {
            assert(tail[i] == s[i + 1]);
        }
        lemma_run_of_class(class, tail);
    }
}

/// The run at the front of a text, taken by itself, is one run.
pub proof fn lemma_run_of_run(class: CharClass, s: Seq<char>)
    ensures
        run_length(class, s) <= s.len(),
        run_length(class, s.take(run_length(class, s) as int)) == run_length(class, s),
{
    lemma_run_length_bounded(class, s);
    lemma_run_ends(class, s);
    lemma_run_of_class(class, s.take(run_length(class, s) as int));
}

/// A script of nothing but whitespace, the empty script among them, has the
/// end-of-file token as its only token.
pub proof fn lemma_blank_script_scans_to_eof(s: Seq<char>)
    requires
        forall|i: int| 0 <= i < s.len() ==> is_whitespace(#[trigger] s[i]),
    ensures
        scan(s) == Ok::<Seq<Lexeme>, TokenizerError>(seq![Lexeme::EOF]),
{
    lemma_run_of_class(CharClass::Blank, s);
    lemma_scan_after_blanks(s);
}

/// Whether a lexeme is one that scanning hands out for a piece of text: not
/// the end-of-file token, and not the marker of a comment.
pub open spec fn is_token(lexeme: Lexeme) -> bool {
    !(lexeme is EOF) && !(lexeme is Comment)
}

/// Whether `tokens` is a sequence of tokens that ends with the end-of-file
/// token, which occurs nowhere else.
pub open spec fn ends_with_eof(tokens: Seq<Lexeme>) -> bool {
    &&& tokens.len() >= 1
    &&& tokens.last() == Lexeme::EOF
    &&& forall|i: int| 0 <= i < tokens.len() - 1 ==> is_token(#[trigger] tokens[i])
}

/// Reading never gives the end-of-file token.
pub proof fn lemma_reading_is_no_eof(first: char, rest: Seq<char>)
    ensures
        read_at(first, rest).outcome matches Ok(lexeme) ==> !(lexeme is EOF),
{
}

/// The tokens of a script end with the end-of-file token, which occurs
/// nowhere else, and no comment is among them.
pub proof fn lemma_scan_ends_with_eof(s: Seq<char>)
    ensures
        scan(s) matches Ok(tokens) ==> ends_with_eof(tokens),
    decreases s.len(),
{
    if s.len() == 0 {
        reveal(scan);
    } else if is_whitespace(s[0]) {
        lemma_scan_passes_blank(s[0], s.drop_first());
        assert(unread(Some(s[0]), s.drop_first()) == s);
        lemma_scan_ends_with_eof(s.drop_first());
    } else {
        let rest = s.drop_first();
        let reading = read_at(s[0], rest);
        let next = unread(reading.lookahead, rest.skip(reading.taken as int));
        assert(unread(Some(s[0]), rest) == s);
        lemma_scan_reads_token(s[0], rest);
        lemma_reading_bounded(s[0], rest);
        lemma_after_line_bounded(next);
        lemma_reading_is_no_eof(s[0], rest);
        match reading.outcome {
            Err(_) => {},
            Ok(Lexeme::Comment) => {
                lemma_scan_ends_with_eof(after_line(next));
            },
            Ok(lexeme) => {
                lemma_scan_ends_with_eof(next);
                if let Ok(more) = scan(next) {
                    let tokens = seq![lexeme] + more;
                    assert(tokens.last() == more.last());
                    assert forall|i: int| 0 <= i < tokens.len() - 1 implies is_token(
                        #[trigger] tokens[i],
                    ) by {
                        if i > 0 {
                            assert(tokens[i] == more[i - 1]);
                        }
                    }
                }
            },
        }
    }
}

/// A script that is one identifier-class word has the token of that word and
/// the end of file as its tokens: a reserved word is a symbol, never an
/// identifier.
pub proof fn lemma_word_scans_alone(word: Seq<char>)
    requires
        word.len() > 0,
        !is_whitespace(word[0]),
        !numeric_char(word[0]),
        starts_word(word[0]),
        forall|i: int| 1 <= i < word.len() ==> in_class(CharClass::Word, #[trigger] word[i]),
    ensures
        scan(word) == Ok::<Seq<Lexeme>, TokenizerError>(seq![classify_word(word), Lexeme::EOF]),
        is_reserved(word) ==> classify_word(word) == (Lexeme::Symbol { text: word }),
{
    let behind = word.drop_first();
    assert forall|i: int| 0 <= i < behind.len() implies in_class(
        CharClass::Word,
        #[trigger] behind[i],
    ) by {
        assert(behind[i] == word[i + 1]);
    }
    lemma_run_of_class(CharClass::Word, behind);
    assert(behind.take(behind.len() as int) == behind);
    assert(seq![word[0]] + behind == word);
    assert(behind.skip(behind.len() as int) == Seq::<char>::empty());
    assert(unread(Some(word[0]), behind) == word);
    lemma_scan_reads_token(word[0], behind);
    assert(scan(Seq::<char>::empty()) == Ok::<Seq<Lexeme>, TokenizerError>(seq![Lexeme::EOF])) by {
        reveal(scan);
    }
    assert(seq![classify_word(word)] + seq![Lexeme::EOF] == seq![
        classify_word(word),
        Lexeme::EOF,
    ]);
}

/// A script that is one run of numeric characters has the number that the
/// run denotes and the end of file as its tokens, or fails if the run denotes
/// no number between 0 and 65535.
pub proof fn lemma_number_scans_alone(digits: Seq<char>)
    requires
        digits.len() > 0,
        !is_whitespace(digits[0]),
        forall|i: int| 0 <= i < digits.len() ==> numeric_char(#[trigger] digits[i]),
    ensures
        scan(digits) == match classify_number(digits) {
            Ok(lexeme) => Ok::<Seq<Lexeme>, TokenizerError>(seq![lexeme, Lexeme::EOF]),
            Err(e) => Err(e),
        },
{
    let behind = digits.drop_first();
    assert forall|i: int| 0 <= i < behind.len() implies in_class(
        CharClass::Numeric,
        #[trigger] behind[i],
    ) by {
        assert(behind[i] == digits[i + 1]);
    }
    lemma_run_of_class(CharClass::Numeric, behind);
    assert(behind.take(behind.len() as int) == behind);
    assert(seq![digits[0]] + behind == digits);
    assert(behind.skip(behind.len() as int) == Seq::<char>::empty());
    assert(unread(Some(digits[0]), behind) == digits);
    lemma_scan_reads_token(digits[0], behind);
    assert(scan(Seq::<char>::empty()) == Ok::<Seq<Lexeme>, TokenizerError>(seq![Lexeme::EOF])) by {
        reveal(scan);
    }
    if let Ok(lexeme) = classify_number(digits) {
        assert(seq![lexeme] + seq![Lexeme::EOF] == seq![lexeme, Lexeme::EOF]);
    }
}

/// Scanning fails only on a run of digits that is no number in range, or on
/// a character that starts no token: a word that is no keyword, boolean or
/// damage type is an identifier, not an error.
pub proof fn lemma_scan_errors(s: Seq<char>)
    ensures
        scan(s) matches Err(e) ==> e is ParseIntError || e is InvalidSyntax,
    decreases s.len(),
{
    if s.len() == 0 {
        reveal(scan);
    } else if is_whitespace(s[0]) {
        lemma_scan_passes_blank(s[0], s.drop_first());
        assert(unread(Some(s[0]), s.drop_first()) == s);
        lemma_scan_errors(s.drop_first());
    } else {
        let rest = s.drop_first();
        let reading = read_at(s[0], rest);
        let next = unread(reading.lookahead, rest.skip(reading.taken as int));
        assert(unread(Some(s[0]), rest) == s);
        lemma_scan_reads_token(s[0], rest);
        lemma_reading_bounded(s[0], rest);
        lemma_after_line_bounded(next);
        match reading.outcome {
            Err(_) => {},
            Ok(Lexeme::Comment) => {
                lemma_scan_errors(after_line(next));
            },
            Ok(_) => {
                lemma_scan_errors(next);
            },
        }
    }
}

/// The text of a token that was read, scanned by itself, gives that token
/// again and nothing else.
pub proof fn lemma_reading_scans_back(first: char, rest: Seq<char>)
    requires
        !is_whitespace(first),
    ensures
        read_at(first, rest).outcome matches Ok(lexeme) ==> (is_token(lexeme) ==> scan(
            lexeme.text(),
        ) == Ok::<Seq<Lexeme>, TokenizerError>(seq![lexeme, Lexeme::EOF])),
{
    let reading = read_at(first, rest);
    if let Ok(lexeme) = reading.outcome {
        if is_token(lexeme) {
            let text = lexeme.text();
            let behind = text.drop_first();
            if numeric_char(first) || starts_word(first) {
                let class = if numeric_char(first) {
                    CharClass::Numeric
                } else {
                    CharClass::Word
                };
                let n = run_length(class, rest) as int;
                lemma_run_of_run(class, rest);
                assert(text == seq![first] + rest.take(n));
                assert(behind == rest.take(n));
                assert(behind.take(n) == behind);
                assert(behind.skip(n) == Seq::<char>::empty());
                assert(read_at(first, behind).outcome == reading.outcome);
                assert(read_at(first, behind).taken == n);
                assert(read_at(first, behind).lookahead.is_none());
            } else {
                if text.len() == 2 {
                    assert(behind == seq![rest[0]]);
                    assert(behind.skip(1) == Seq::<char>::empty());
                } else {
                    assert(text == seq![first]);
                    assert(behind == Seq::<char>::empty());
                    assert(behind.skip(0) == behind);
                }
                assert(read_at(first, behind).outcome == reading.outcome);
            }
            assert(unread(Some(first), behind) == text);
            lemma_scan_reads_token(first, behind);
            assert(scan(Seq::<char>::empty()) == Ok::<Seq<Lexeme>, TokenizerError>(
                seq![Lexeme::EOF],
            )) by {
                reveal(scan);
            }
            assert(seq![lexeme] + seq![Lexeme::EOF] == seq![lexeme, Lexeme::EOF]);
        }
    }
}

/// Every token of a script keeps the text it was read from, and that text,
/// scanned by itself, gives the same token again, followed by the end of
/// file.
pub proof fn lemma_token_text_scans_back(s: Seq<char>, i: int)
    requires
        scan(s) is Ok,
        0 <= i < scan(s)->Ok_0.len() - 1,
    ensures
        scan(scan(s)->Ok_0[i].text()) == Ok::<Seq<Lexeme>, TokenizerError>(
            seq![scan(s)->Ok_0[i], Lexeme::EOF],
        ),
    decreases s.len(),
{
    if s.len() == 0 {
        reveal(scan);
    } else if is_whitespace(s[0]) {
        lemma_scan_passes_blank(s[0], s.drop_first());
        assert(unread(Some(s[0]), s.drop_first()) == s);
        lemma_token_text_scans_back(s.drop_first(), i);
    } else {
        let rest = s.drop_first();
        let reading = read_at(s[0], rest);
        let next = unread(reading.lookahead, rest.skip(reading.taken as int));
        assert(unread(Some(s[0]), rest) == s);
        lemma_scan_reads_token(s[0], rest);
        lemma_reading_bounded(s[0], rest);
        lemma_after_line_bounded(next);
        lemma_reading_is_no_eof(s[0], rest);
        match reading.outcome {
            Err(_) => {},
            Ok(Lexeme::Comment) => {
                lemma_token_text_scans_back(after_line(next), i);
            },
            Ok(lexeme) => {
                let more = scan(next)->Ok_0;
                assert(scan(s)->Ok_0 == seq![lexeme] + more);
                if i == 0 {
                    lemma_reading_scans_back(s[0], rest);
                } else {
                    assert((seq![lexeme] + more)[i] == more[i - 1]);
                    lemma_token_text_scans_back(next, i - 1);
                }
            },
        }
    }
}

} // verus!
