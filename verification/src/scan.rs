//! The scanning rules, as functions from the items that are left of a text
//! to the token that they start with and the items behind it.
//!
//! A scan that reads a failure ends with it: the failure is its error, and
//! the scan goes on behind it.

use vstd::prelude::*;
use crate::chars::{digit_value, is_ascii_digit, is_word_char, start, Start};
use crate::lexer::{FloatLiteralView, LexerError, LexerIoError, TokenView};
use crate::numeral::truncated;
use crate::source::Item;

verus! {

/// What one scanning step found, and the items it left.
pub struct Scan<T> {
    pub result: Result<T, LexerError>,
    pub rest: Seq<Item>,
}

/// A scan that found `value`.
pub open spec fn found<T>(value: T, rest: Seq<Item>) -> Scan<T> {
    Scan { result: Ok(value), rest }
}

/// A scan that failed with `error`.
pub open spec fn failed<T>(error: LexerError, rest: Seq<Item>) -> Scan<T> {
    Scan { result: Err(error), rest }
}

/// Where a lexer stands: the items that no token has been taken from yet,
/// and whether the token they start with has been looked at.
pub struct Cursor {
    pub rest: Seq<Item>,
    pub peeked: bool,
}

/// What a step of the lexer or the parser gave, and where the lexer stands after it.
pub struct Outcome<T, E> {
    pub result: Result<T, E>,
    pub cursor: Cursor,
}

impl Cursor {
    /// A cursor before `items`, nothing looked at.
    pub open spec fn at(items: Seq<Item>) -> Cursor {
        Cursor { rest: items, peeked: false }
    }

    /// Looking at the next token leaves it in place. A token that cannot be
    /// scanned is lost with the items that the scan took.
    pub open spec fn peek(self) -> Outcome<TokenView, LexerError> {
        let next = scan_token(self.rest);
        match next.result {
            Ok(t) => Outcome { result: Ok(t), cursor: Cursor { rest: self.rest, peeked: true } },
            Err(e) => Outcome { result: Err(e), cursor: Cursor::at(next.rest) },
        }
    }

    /// Dropping the token that was looked at. Where none was, nothing changes.
    pub open spec fn consume(self) -> Cursor {
        if self.peeked {
            Cursor::at(scan_token(self.rest).rest)
        } else {
            self
        }
    }

    /// Taking the next token, looked at or not.
    pub open spec fn take(self) -> Outcome<TokenView, LexerError> {
        let next = scan_token(self.rest);
        Outcome { result: next.result, cursor: Cursor::at(next.rest) }
    }
}

/// Whether `s` starts with a failure.
pub open spec fn fails_at(s: Seq<Item>) -> bool {
    s.len() > 0 && s[0] is Err
}

/// The end of a scan that read the failure which `s` starts with.
pub open spec fn stopped<T>(s: Seq<Item>) -> Scan<T> {
    failed(LexerError::Io(s[0]->Err_0), s.skip(1))
}

/// Whether `s` starts with the character `c`.
pub open spec fn starts_with(s: Seq<Item>, c: char) -> bool {
    s.len() > 0 && s[0] == Ok::<char, LexerIoError>(c)
}

/// Whether `s` starts with a decimal digit.
pub open spec fn starts_with_digit(s: Seq<Item>) -> bool {
    s.len() > 0 && s[0] is Ok && is_ascii_digit(s[0]->Ok_0)
}

/// The value in `base` of the digit that `s` starts with, if it starts with one.
pub open spec fn digit_at(s: Seq<Item>, base: u32) -> Option<u32> {
    if s.len() > 0 && s[0] is Ok {
        digit_value(s[0]->Ok_0, base)
    } else {
        None
    }
}

/// The token `two` where `second` follows, else `one` with nothing more taken.
pub open spec fn one_or_two(t: Seq<Item>, second: char, two: TokenView, one: TokenView) -> Scan<
    TokenView,
> {
    if fails_at(t) {
        stopped(t)
    } else if starts_with(t, second) {
        found(two, t.skip(1))
    } else {
        found(one, t)
    }
}

/// The digits of `base` at the start of `s`, added to `acc` one by one:
/// each step is `acc * base + digit`. The first step that would pass
/// `i32::MAX` ends the scan with an error, its digit taken.
pub open spec fn scan_base(acc: int, s: Seq<Item>, base: u32) -> Scan<i32>
    decreases s.len(),
{
    if fails_at(s) {
        stopped(s)
    } else if digit_at(s, base) is Some {
        let next = acc * base + digit_at(s, base).unwrap();
        if next > i32::MAX {
            failed(LexerError::IntegerOverflow, s.skip(1))
        } else {
            scan_base(next, s.skip(1), base)
        }
    } else {
        found(acc as i32, s)
    }
}

/// The decimal digits at the start of `s`, as numbers.
pub open spec fn fraction_digits(s: Seq<Item>) -> Seq<u8>
    decreases s.len(),
{
    if starts_with_digit(s) {
        seq![(s[0]->Ok_0 as int - '0' as int) as u8] + fraction_digits(s.skip(1))
    } else {
        Seq::empty()
    }
}

/// An exponent, where one is written: `e` or `E`, an optional sign, and
/// decimal digits. Where none is written the exponent is zero.
pub open spec fn scan_exponent(s: Seq<Item>) -> Scan<i32> {
    if fails_at(s) {
        stopped(s)
    } else if starts_with(s, 'e') || starts_with(s, 'E') {
        let t = s.skip(1);
        if fails_at(t) {
            stopped(t)
        } else if t.len() == 0 {
            failed(LexerError::MalformedFloat, t)
        } else {
            let digits = if starts_with(t, '-') || starts_with(t, '+') {
                t.skip(1)
            } else {
                t
            };
            let size = scan_base(0, digits, 10);
            match size.result {
                Ok(n) => found(
                    if starts_with(t, '-') {
                        (-n) as i32
                    } else {
                        n
                    },
                    size.rest,
                ),
                Err(e) => failed(e, size.rest),
            }
        }
    } else {
        found(0i32, s)
    }
}

/// What follows the point of a decimal literal: the digits of the fraction
/// and an exponent.
pub open spec fn scan_fraction(whole: u32, s: Seq<Item>) -> Scan<TokenView> {
    let fraction = fraction_digits(s);
    let after = s.skip(fraction.len() as int);
    if fails_at(after) {
        stopped(after)
    } else {
        let exponent = scan_exponent(after);
        match exponent.result {
            Ok(e) => found(
                TokenView::FLOAT(FloatLiteralView { whole, fraction, exponent: e }),
                exponent.rest,
            ),
            Err(e) => failed(e, exponent.rest),
        }
    }
}

/// What follows the whole part `whole` of a decimal literal. With a point
/// the literal is a float literal. Without one it is an integer, scaled by
/// its exponent and cut to the integer domain.
pub open spec fn scan_after_whole(whole: i32, s: Seq<Item>) -> Scan<TokenView> {
    if fails_at(s) {
        stopped(s)
    } else if starts_with(s, '.') {
        scan_fraction(whole as u32, s.skip(1))
    } else {
        let exponent = scan_exponent(s);
        match exponent.result {
            Ok(e) => found(
                TokenView::NUMBER(truncated(whole as int, Seq::empty(), e as int) as i32),
                exponent.rest,
            ),
            Err(e) => failed(e, exponent.rest),
        }
    }
}

/// A decimal literal: decimal digits and what follows them.
pub open spec fn scan_decimal(s: Seq<Item>) -> Scan<TokenView> {
    let whole = scan_base(0, s, 10);
    match whole.result {
        Ok(w) => scan_after_whole(w, whole.rest),
        Err(e) => failed(e, whole.rest),
    }
}

/// An integer in the base that `scan_base` found.
pub open spec fn number(digits: Scan<i32>) -> Scan<TokenView> {
    match digits.result {
        Ok(n) => found(TokenView::NUMBER(n), digits.rest),
        Err(e) => failed(e, digits.rest),
    }
}

/// A number: `0x` starts a hexadecimal integer, `0` before another digit an
/// octal one, anything else a decimal literal.
pub open spec fn scan_number(s: Seq<Item>) -> Scan<TokenView> {
    let t = s.skip(1);
    if fails_at(s) {
        stopped(s)
    } else if starts_with(s, '0') && fails_at(t) {
        stopped(t)
    } else if starts_with(s, '0') && starts_with(t, 'x') {
        number(scan_base(0, t.skip(1), 16))
    } else if starts_with(s, '0') && starts_with_digit(t) {
        number(scan_base(0, t, 8))
    } else {
        scan_decimal(s)
    }
}

/// The characters at the start of `s` that may stand in a name.
pub open spec fn word_chars(s: Seq<Item>) -> Seq<char>
    decreases s.len(),
{
    if s.len() > 0 && s[0] is Ok && is_word_char(s[0]->Ok_0) {
        seq![s[0]->Ok_0] + word_chars(s.skip(1))
    } else {
        Seq::empty()
    }
}

/// The reserved word that `name` spells, if it spells one.
pub open spec fn keyword(name: Seq<char>) -> Option<TokenView> {
    if name == "fn"@ {
        Some(TokenView::FN)
    } else if name == "let"@ {
        Some(TokenView::LET)
    } else if name == "if"@ {
        Some(TokenView::IF)
    } else if name == "else"@ {
        Some(TokenView::ELSE)
    } else if name == "for"@ {
        Some(TokenView::FOR)
    } else if name == "goto"@ {
        Some(TokenView::GOTO)
    } else if name == "struct"@ {
        Some(TokenView::STRUCT)
    } else if name == "union"@ {
        Some(TokenView::UNION)
    } else if name == "u0"@ {
        Some(TokenView::U0)
    } else if name == "i8"@ {
        Some(TokenView::I8)
    } else if name == "i16"@ {
        Some(TokenView::I16)
    } else if name == "i32"@ {
        Some(TokenView::I32)
    } else {
        None
    }
}

/// A name: a reserved word, or else an identifier.
pub open spec fn word(name: Seq<char>) -> TokenView {
    match keyword(name) {
        Some(t) => t,
        None => TokenView::IDENT(name),
    }
}

/// The longest run of name characters at the start of `s`, which may be empty.
pub open spec fn scan_word(s: Seq<Item>) -> Scan<TokenView> {
    let name = word_chars(s);
    let after = s.skip(name.len() as int);
    if fails_at(after) {
        stopped(after)
    } else {
        found(word(name), after)
    }
}

/// A character constant behind its opening quote: one character and the
/// closing quote.
pub open spec fn scan_char(s: Seq<Item>) -> Scan<TokenView> {
    let t = s.skip(1);
    if fails_at(s) {
        stopped(s)
    } else if s.len() == 0 {
        failed(LexerError::UnterminatedCharacterConstant, s)
    } else if fails_at(t) {
        stopped(t)
    } else if t.len() == 0 {
        failed(LexerError::UnterminatedCharacterConstant, t)
    } else if starts_with(t, '\'') {
        found(TokenView::CHAR(s[0]->Ok_0), t.skip(1))
    } else {
        failed(LexerError::CharacterConstantTooLong, t.skip(1))
    }
}

/// What a backslash before `c` stands for, where the two form an escape.
pub open spec fn escape(c: char) -> Option<char> {
    if c == 'n' {
        Some('\n')
    } else if c == 'r' {
        Some('\r')
    } else if c == 't' {
        Some('\t')
    } else if c == '"' {
        Some('"')
    } else {
        None
    }
}

/// A string behind its opening quote, up to the closing quote; `text` is
/// what was gathered so far. A backslash that starts no escape stands for
/// itself.
pub open spec fn scan_string(text: Seq<char>, s: Seq<Item>) -> Scan<TokenView>
    decreases s.len(),
{
    let t = s.skip(1);
    if fails_at(s) {
        stopped(s)
    } else if s.len() == 0 {
        failed(LexerError::UnterminatedString, s)
    } else if starts_with(s, '"') {
        found(TokenView::STRING(text), t)
    } else if starts_with(s, '\\') && fails_at(t) {
        stopped(t)
    } else if starts_with(s, '\\') && t.len() > 0 && escape(t[0]->Ok_0) is Some {
        scan_string(text.push(escape(t[0]->Ok_0).unwrap()), t.skip(1))
    } else {
        scan_string(text.push(s[0]->Ok_0), t)
    }
}

/// The token at the start of `s`, after any whitespace.
///
/// Whitespace is looked for after the characters that have a meaning of
/// their own: none of them is whitespace, so the order decides nothing.
pub open spec fn scan_token(s: Seq<Item>) -> Scan<TokenView>
    decreases s.len(),
{
    if fails_at(s) {
        stopped(s)
    } else if s.len() == 0 {
        found(TokenView::EOF, s)
    } else {
        let c = s[0]->Ok_0;
        let t = s.skip(1);
        if c == '&' {
            one_or_two(t, '&', TokenView::LOGAND, TokenView::AMPER)
        } else if c == '|' {
            one_or_two(t, '|', TokenView::LOGOR, TokenView::BITOR)
        } else if c == '=' {
            one_or_two(t, '=', TokenView::EQ, TokenView::ASSIGN)
        } else if c == '!' {
            one_or_two(t, '=', TokenView::NEQ, TokenView::NOT)
        } else if c == '<' {
            if starts_with(t, '=') {
                found(TokenView::LTE, t.skip(1))
            } else {
                one_or_two(t, '<', TokenView::LSHIFT, TokenView::LT)
            }
        } else if c == '>' {
            if starts_with(t, '=') {
                found(TokenView::GTE, t.skip(1))
            } else {
                one_or_two(t, '>', TokenView::RSHIFT, TokenView::GT)
            }
        } else if c == '-' {
            one_or_two(t, '>', TokenView::ARROW, TokenView::MINUS)
        } else if c == '^' {
            found(TokenView::BITXOR, t)
        } else if c == '+' {
            found(TokenView::PLUS, t)
        } else if c == '*' {
            found(TokenView::ASTERISK, t)
        } else if c == '/' {
            found(TokenView::DIVIDE, t)
        } else if c == '%' {
            found(TokenView::MODULO, t)
        } else if c == '~' {
            found(TokenView::BITNOT, t)
        } else if c == '(' {
            found(TokenView::LPARENT, t)
        } else if c == ')' {
            found(TokenView::RPARENT, t)
        } else if c == '[' {
            found(TokenView::LBRACKET, t)
        } else if c == ']' {
            found(TokenView::RBRACKET, t)
        } else if c == '{' {
            found(TokenView::LBRACE, t)
        } else if c == '}' {
            found(TokenView::RBRACE, t)
        } else if c == ':' {
            found(TokenView::COLON, t)
        } else if c == ';' {
            found(TokenView::SEMICOLON, t)
        } else if c == '.' {
            if fails_at(t) {
                stopped(t)
            } else if starts_with_digit(t) {
                scan_fraction(0, t)
            } else {
                found(TokenView::DOT, t)
            }
        } else if c == '\'' {
            scan_char(t)
        } else if c == '"' {
            scan_string(Seq::empty(), t)
        } else {
            match start(c) {
                Start::Space => scan_token(t),
                Start::Number => scan_number(s),
                Start::Word => scan_word(s),
            }
        }
    }
}

} // verus!
