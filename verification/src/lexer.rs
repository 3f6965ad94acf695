//! Tokens, lexical errors and the lexer.

use vstd::prelude::*;
use vstd::std_specs::cmp::PartialEqSpecImpl;
use crate::chars::{ascii_digit, start_of, to_digit, word_char, Start};
use crate::numeral::truncate;
use crate::scan::{
    fails_at, fraction_digits, one_or_two, scan_after_whole, scan_base, scan_char, scan_decimal,
    scan_exponent, scan_fraction, scan_number, scan_string, scan_token, scan_word, starts_with,
    stopped, word_chars, Cursor, Scan,
};
use crate::source::{decoded, read_utf8, Item};

verus! {

/// The kinds of failure of a stream, `std::io::ErrorKind`. The lexer carries
/// a kind and compares two of them; it never looks into one.
#[verifier::external_type_specification]
#[verifier::external_body]
pub struct ExErrorKind(std::io::ErrorKind);

/// Compares two kinds with `==` of `std::io::ErrorKind`, which holds for the
/// same kind and for no two different ones.
#[verifier::external_body]
fn same_kind(a: &std::io::ErrorKind, b: &std::io::ErrorKind) -> (r: bool)
    ensures
        r == (*a == *b),
{
    a == b
}

/// A failure to read a character of the text. Two failures are equal when
/// they are of the same kind, whatever their messages say.
#[derive(Debug)]
pub struct LexerIoError {
    pub kind: std::io::ErrorKind,
    pub message: String,
}

impl PartialEq for LexerIoError {
    fn eq(&self, other: &Self) -> (r: bool) {
        same_kind(&self.kind, &other.kind)
    }
}

impl PartialEqSpecImpl for LexerIoError {
    open spec fn obeys_eq_spec() -> bool {
        true
    }

    open spec fn eq_spec(&self, other: &Self) -> bool {
        self.kind == other.kind
    }
}

/// Why no token could be scanned.
#[derive(Debug, PartialEq)]
pub enum LexerError {
    /// The text ended inside a string.
    UnterminatedString,
    /// The text ended inside a character constant.
    UnterminatedCharacterConstant,
    /// A character constant of more than one character.
    CharacterConstantTooLong,
    /// A number that is larger than the largest integer.
    IntegerOverflow,
    /// The text ended behind the `e` of an exponent.
    MalformedFloat,
    /// Bytes of the text could not be read as a character.
    Io(LexerIoError),
}

impl From<LexerIoError> for LexerError {
    fn from(e: LexerIoError) -> (r: LexerError) {
        LexerError::Io(e)
    }
}

impl vstd::std_specs::convert::FromSpecImpl<LexerIoError> for LexerError {
    open spec fn obeys_from_spec() -> bool {
        true
    }

    open spec fn from_spec(e: LexerIoError) -> LexerError {
        LexerError::Io(e)
    }
}

/// A decimal literal with a fractional part, kept as it was written:
/// `whole . fraction e exponent`.
#[derive(Debug, Clone)]
pub struct FloatLiteral {
    /// The digits before the point, as a number.
    pub whole: u32,
    /// The digits after the point, most significant first, each below ten.
    pub fraction: Vec<u8>,
    /// The power of ten that scales the literal; zero where none is written.
    pub exponent: i32,
}

/// A float literal as a plain value.
pub struct FloatLiteralView {
    pub whole: u32,
    pub fraction: Seq<u8>,
    pub exponent: i32,
}

impl View for FloatLiteral {
    type V = FloatLiteralView;

    open spec fn view(&self) -> FloatLiteralView {
        FloatLiteralView { whole: self.whole, fraction: self.fraction@, exponent: self.exponent }
    }
}

impl PartialEq for FloatLiteral {
    fn eq(&self, other: &Self) -> (r: bool) {
        if self.whole != other.whole || self.exponent != other.exponent
            || self.fraction.len() != other.fraction.len() {
            return false;
        }
        let n = self.fraction.len();
        let mut i: usize = 0;
        while i < n
            invariant
                n == self.fraction.len(),
                n == other.fraction.len(),
                i <= n,
                forall|j: int| 0 <= j < i ==> self.fraction[j] == other.fraction[j],
            decreases n - i,
        {
            if self.fraction[i] != other.fraction[i] {
                return false;
            }
            i += 1;
        }
        assert(self.fraction@ =~= other.fraction@);
        true
    }
}

impl Eq for FloatLiteral {

}

impl PartialEqSpecImpl for FloatLiteral {
    open spec fn obeys_eq_spec() -> bool {
        true
    }

    open spec fn eq_spec(&self, other: &Self) -> bool {
        self@ == other@
    }
}

/// One lexical unit.
#[derive(Debug, Clone)]
pub enum Tokens {
    /// `=`
    ASSIGN,
    /// `&&`
    LOGAND,
    /// `||`
    LOGOR,
    /// `|`
    BITOR,
    /// `^`
    BITXOR,
    /// `&`: bitwise and, and address-of
    AMPER,
    /// `==`
    EQ,
    /// `!=`
    NEQ,
    /// `<`
    LT,
    /// `<=`
    LTE,
    /// `>`
    GT,
    /// `>=`
    GTE,
    /// `<<`
    LSHIFT,
    /// `>>`
    RSHIFT,
    /// `-`, binary and unary
    MINUS,
    /// `+`
    PLUS,
    /// `*`: times, and dereference
    ASTERISK,
    /// `/`
    DIVIDE,
    /// `%`
    MODULO,
    /// `!`
    NOT,
    /// `~`
    BITNOT,
    /// `(`
    LPARENT,
    /// `)`
    RPARENT,
    /// `[`
    LBRACKET,
    /// `]`
    RBRACKET,
    /// `.`
    DOT,
    /// `->`
    ARROW,
    /// `:`
    COLON,
    /// `;`
    SEMICOLON,
    /// `{`
    LBRACE,
    /// `}`
    RBRACE,
    CHAR(char),
    STRING(String),
    NUMBER(i32),
    FLOAT(FloatLiteral),
    IDENT(String),
    /// `fn`
    FN,
    /// `let`
    LET,
    /// `if`
    IF,
    /// `else`
    ELSE,
    /// `for`
    FOR,
    /// `goto`
    GOTO,
    /// `struct`
    STRUCT,
    /// `union`
    UNION,
    /// `u0`, the empty type
    U0,
    /// `i8`
    I8,
    /// `i16`
    I16,
    /// `i32`
    I32,
    /// The end of the input
    EOF,
}

/// A token as a plain value: text as a sequence of characters.
pub enum TokenView {
    ASSIGN,
    LOGAND,
    LOGOR,
    BITOR,
    BITXOR,
    AMPER,
    EQ,
    NEQ,
    LT,
    LTE,
    GT,
    GTE,
    LSHIFT,
    RSHIFT,
    MINUS,
    PLUS,
    ASTERISK,
    DIVIDE,
    MODULO,
    NOT,
    BITNOT,
    LPARENT,
    RPARENT,
    LBRACKET,
    RBRACKET,
    DOT,
    ARROW,
    COLON,
    SEMICOLON,
    LBRACE,
    RBRACE,
    CHAR(char),
    STRING(Seq<char>),
    NUMBER(i32),
    FLOAT(FloatLiteralView),
    IDENT(Seq<char>),
    FN,
    LET,
    IF,
    ELSE,
    FOR,
    GOTO,
    STRUCT,
    UNION,
    U0,
    I8,
    I16,
    I32,
    EOF,
}

impl View for Tokens {
    type V = TokenView;

    open spec fn view(&self) -> TokenView {
        match self {
            Tokens::ASSIGN => TokenView::ASSIGN,
            Tokens::LOGAND => TokenView::LOGAND,
            Tokens::LOGOR => TokenView::LOGOR,
            Tokens::BITOR => TokenView::BITOR,
            Tokens::BITXOR => TokenView::BITXOR,
            Tokens::AMPER => TokenView::AMPER,
            Tokens::EQ => TokenView::EQ,
            Tokens::NEQ => TokenView::NEQ,
            Tokens::LT => TokenView::LT,
            Tokens::LTE => TokenView::LTE,
            Tokens::GT => TokenView::GT,
            Tokens::GTE => TokenView::GTE,
            Tokens::LSHIFT => TokenView::LSHIFT,
            Tokens::RSHIFT => TokenView::RSHIFT,
            Tokens::MINUS => TokenView::MINUS,
            Tokens::PLUS => TokenView::PLUS,
            Tokens::ASTERISK => TokenView::ASTERISK,
            Tokens::DIVIDE => TokenView::DIVIDE,
            Tokens::MODULO => TokenView::MODULO,
            Tokens::NOT => TokenView::NOT,
            Tokens::BITNOT => TokenView::BITNOT,
            Tokens::LPARENT => TokenView::LPARENT,
            Tokens::RPARENT => TokenView::RPARENT,
            Tokens::LBRACKET => TokenView::LBRACKET,
            Tokens::RBRACKET => TokenView::RBRACKET,
            Tokens::DOT => TokenView::DOT,
            Tokens::ARROW => TokenView::ARROW,
            Tokens::COLON => TokenView::COLON,
            Tokens::SEMICOLON => TokenView::SEMICOLON,
            Tokens::LBRACE => TokenView::LBRACE,
            Tokens::RBRACE => TokenView::RBRACE,
            Tokens::FN => TokenView::FN,
            Tokens::LET => TokenView::LET,
            Tokens::IF => TokenView::IF,
            Tokens::ELSE => TokenView::ELSE,
            Tokens::FOR => TokenView::FOR,
            Tokens::GOTO => TokenView::GOTO,
            Tokens::STRUCT => TokenView::STRUCT,
            Tokens::UNION => TokenView::UNION,
            Tokens::U0 => TokenView::U0,
            Tokens::I8 => TokenView::I8,
            Tokens::I16 => TokenView::I16,
            Tokens::I32 => TokenView::I32,
            Tokens::EOF => TokenView::EOF,
            Tokens::CHAR(c) => TokenView::CHAR(*c),
            Tokens::STRING(s) => TokenView::STRING(s@),
            Tokens::NUMBER(n) => TokenView::NUMBER(*n),
            Tokens::FLOAT(f) => TokenView::FLOAT(f@),
            Tokens::IDENT(s) => TokenView::IDENT(s@),
        }
    }
}

impl PartialEq for Tokens {
    fn eq(&self, other: &Self) -> (r: bool) {
        match (self, other) {
            (Tokens::ASSIGN, Tokens::ASSIGN) => true,
            (Tokens::LOGAND, Tokens::LOGAND) => true,
            (Tokens::LOGOR, Tokens::LOGOR) => true,
            (Tokens::BITOR, Tokens::BITOR) => true,
            (Tokens::BITXOR, Tokens::BITXOR) => true,
            (Tokens::AMPER, Tokens::AMPER) => true,
            (Tokens::EQ, Tokens::EQ) => true,
            (Tokens::NEQ, Tokens::NEQ) => true,
            (Tokens::LT, Tokens::LT) => true,
            (Tokens::LTE, Tokens::LTE) => true,
            (Tokens::GT, Tokens::GT) => true,
            (Tokens::GTE, Tokens::GTE) => true,
            (Tokens::LSHIFT, Tokens::LSHIFT) => true,
            (Tokens::RSHIFT, Tokens::RSHIFT) => true,
            (Tokens::MINUS, Tokens::MINUS) => true,
            (Tokens::PLUS, Tokens::PLUS) => true,
            (Tokens::ASTERISK, Tokens::ASTERISK) => true,
            (Tokens::DIVIDE, Tokens::DIVIDE) => true,
            (Tokens::MODULO, Tokens::MODULO) => true,
            (Tokens::NOT, Tokens::NOT) => true,
            (Tokens::BITNOT, Tokens::BITNOT) => true,
            (Tokens::LPARENT, Tokens::LPARENT) => true,
            (Tokens::RPARENT, Tokens::RPARENT) => true,
            (Tokens::LBRACKET, Tokens::LBRACKET) => true,
            (Tokens::RBRACKET, Tokens::RBRACKET) => true,
            (Tokens::DOT, Tokens::DOT) => true,
            (Tokens::ARROW, Tokens::ARROW) => true,
            (Tokens::COLON, Tokens::COLON) => true,
            (Tokens::SEMICOLON, Tokens::SEMICOLON) => true,
            (Tokens::LBRACE, Tokens::LBRACE) => true,
            (Tokens::RBRACE, Tokens::RBRACE) => true,
            (Tokens::FN, Tokens::FN) => true,
            (Tokens::LET, Tokens::LET) => true,
            (Tokens::IF, Tokens::IF) => true,
            (Tokens::ELSE, Tokens::ELSE) => true,
            (Tokens::FOR, Tokens::FOR) => true,
            (Tokens::GOTO, Tokens::GOTO) => true,
            (Tokens::STRUCT, Tokens::STRUCT) => true,
            (Tokens::UNION, Tokens::UNION) => true,
            (Tokens::U0, Tokens::U0) => true,
            (Tokens::I8, Tokens::I8) => true,
            (Tokens::I16, Tokens::I16) => true,
            (Tokens::I32, Tokens::I32) => true,
            (Tokens::EOF, Tokens::EOF) => true,
            (Tokens::CHAR(a), Tokens::CHAR(b)) => *a == *b,
            (Tokens::STRING(a), Tokens::STRING(b)) => *a == *b,
            (Tokens::NUMBER(a), Tokens::NUMBER(b)) => *a == *b,
            (Tokens::FLOAT(a), Tokens::FLOAT(b)) => *a == *b,
            (Tokens::IDENT(a), Tokens::IDENT(b)) => *a == *b,
            _ => false,
        }
    }
}

impl Eq for Tokens {

}

impl PartialEqSpecImpl for Tokens {
    open spec fn obeys_eq_spec() -> bool {
        true
    }

    open spec fn eq_spec(&self, other: &Self) -> bool {
        self@ == other@
    }
}


/// A scanned token or the error, as plain values.
pub open spec fn token_view(r: Result<Tokens, LexerError>) -> Result<TokenView, LexerError> {
    match r {
        Ok(t) => Ok(t@),
        Err(e) => Err(e),
    }
}

/// Calls `String::push`, which appends `c` to the end of `text`.
#[verifier::external_body]
fn push_char(text: &mut String, c: char)
    ensures
        final(text)@ == old(text)@.push(c),
{
    text.push(c)
}

/// Whether `name` spells `word`.
fn spells(name: &String, word: &str) -> (r: bool)
    ensures
        r == (name@ == word@),
{
    *name == String::from_str(word)
}

/// A lexer over the bytes of a text, with one character of putback and one
/// token of lookahead.
pub struct Lexer<'a> {
    input_buf: &'a [u8],
    char_putback_buf: Option<char>,
    token_putback_buf: Option<Tokens>,
    peeked_from: Ghost<Seq<Item>>,
}

impl<'a> View for Lexer<'a> {
    type V = Cursor;

    closed spec fn view(&self) -> Cursor {
        match self.token_putback_buf {
            Some(_) => Cursor { rest: self.peeked_from@, peeked: true },
            None => Cursor { rest: self.remaining(), peeked: false },
        }
    }
}

impl<'a> Lexer<'a> {
    /// The items that were not read yet, a character that was put back first.
    spec fn remaining(&self) -> Seq<Item> {
        match self.char_putback_buf {
            Some(c) => seq![Ok(c)] + decoded(self.input_buf@),
            None => decoded(self.input_buf@),
        }
    }

    /// The token that was looked at is the one that the items before it start with.
    pub closed spec fn wf(&self) -> bool {
        match self.token_putback_buf {
            Some(t) => scan_token(self.peeked_from@) == (Scan {
                result: Ok(t@),
                rest: self.remaining(),
            }),
            None => true,
        }
    }

    /// Between two tokens: none is held back.
    spec fn scanning(&self) -> bool {
        self.token_putback_buf is None
    }

    /// No character is held back.
    spec fn nothing_put_back(&self) -> bool {
        self.char_putback_buf is None
    }

    /// A lexer before the first byte of `input`.
    pub fn new(input: &'a [u8]) -> (r: Result<Lexer<'a>, LexerError>)
        ensures
            r matches Ok(lexer) && lexer.wf() && lexer@ == Cursor::at(decoded(input@)),
    {
        Ok(
            Lexer {
                input_buf: input,
                char_putback_buf: None,
                token_putback_buf: None,
                peeked_from: Ghost(Seq::empty()),
            },
        )
    }

    /// The next character: the one that was put back, or else the next of
    /// the text. At the end of the text there is none.
    fn read(&mut self) -> (r: Result<Option<char>, LexerError>)
        requires
            old(self).scanning(),
        ensures
            final(self).scanning(),
            final(self).nothing_put_back(),
            match r {
                Ok(Some(c)) => starts_with(old(self).remaining(), c) && final(self).remaining()
                    == old(self).remaining().skip(1),
                Ok(None) => old(self).remaining().len() == 0 && final(self).remaining() == old(self).remaining(),
                Err(e) => fails_at(old(self).remaining()) && Err::<TokenView, LexerError>(e)
                    == stopped::<TokenView>(old(self).remaining()).result && final(self).remaining()
                    == old(self).remaining().skip(1),
            },
    {
        match self.char_putback_buf {
            Some(c) => {
                self.char_putback_buf = None;
                assert(self.remaining() =~= old(self).remaining().skip(1));
                Ok(Some(c))
            },
            None => {
                let ghost bytes = self.input_buf@;
                let read = read_utf8(&mut self.input_buf);
                proof {
                    if bytes.len() > 0 {
                        assert(self.remaining() =~= old(self).remaining().skip(1));
                    }
                }
                match read {
                    Ok(c) => Ok(c),
                    Err(e) => Err(LexerError::from(e)),
                }
            },
        }
    }

    /// Has `c` read again before anything else.
    fn putback(&mut self, c: char)
        requires
            old(self).scanning(),
            old(self).nothing_put_back(),
        ensures
            final(self).scanning(),
            final(self).remaining() == seq![Ok::<char, LexerIoError>(c)] + old(self).remaining(),
            forall|t: Seq<Item>|
                starts_with(t, c) && #[trigger] t.skip(1) == old(self).remaining() ==> final(self).remaining() == t,
    {
        self.char_putback_buf = Some(c);
        assert forall|t: Seq<Item>|
            starts_with(t, c) && #[trigger] t.skip(1) == old(self).remaining() implies self.remaining()
            == t by {
            assert(seq![Ok::<char, LexerIoError>(c)] + t.skip(1) =~= t);
        }
    }

    /// Looks at the next token without taking it. Until it is consumed or
    /// taken, every call gives the same token.
    pub fn peek(&mut self) -> (r: Result<&Tokens, LexerError>)
        requires
            old(self).wf(),
        ensures
            final(self).wf(),
            final(self)@ == old(self)@.peek().cursor,
            match r {
                Ok(t) => old(self)@.peek().result == Ok::<TokenView, LexerError>(t@),
                Err(e) => old(self)@.peek().result == Err::<TokenView, LexerError>(e),
            },
    {
        if self.token_putback_buf.is_none() {
            let ghost from = self.remaining();
            let t = self.scan_token()?;
            self.token_putback_buf = Some(t);
            self.peeked_from = Ghost(from);
        }
        match &self.token_putback_buf {
            Some(t) => Ok(t),
            None => vstd::pervasive::unreached(),
        }
    }

    /// Drops the token that was looked at, so that the next one is scanned afresh.
    pub fn consume(&mut self)
        requires
            old(self).wf(),
        ensures
            final(self).wf(),
            final(self)@ == old(self)@.consume(),
    {
        self.token_putback_buf = None
    }

    /// Takes the next token: the one that was looked at, or else a fresh one.
    pub fn take(&mut self) -> (r: Result<Tokens, LexerError>)
        requires
            old(self).wf(),
        ensures
            final(self).wf(),
            final(self)@ == old(self)@.take().cursor,
            token_view(r) == old(self)@.take().result,
    {
        match self.token_putback_buf.take() {
            Some(t) => Ok(t),
            None => self.scan_token(),
        }
    }

    /// Scans one token from the items that are left, while no token is
    /// held back for `peek`.
    pub fn scan_token(&mut self) -> (r: Result<Tokens, LexerError>)
        requires
            old(self).wf(),
            !old(self)@.peeked,
        ensures
            final(self).wf(),
            !final(self)@.peeked,
            token_view(r) == scan_token(old(self)@.rest).result,
            final(self)@.rest == scan_token(old(self)@.rest).rest,
    {
        let ghost start = self.remaining();
        loop
            invariant
                self.scanning(),
                start == old(self)@.rest,
                scan_token(self.remaining()) == scan_token(start),
            decreases self.remaining().len(),
        {
            let c = match self.read()? {
                Some(c) => c,
                None => {
                    return Ok(Tokens::EOF);
                },
            };
            match c {
                '&' => {
                    return Ok(self.one_or_two('&', Tokens::LOGAND, Tokens::AMPER)?);
                },
                '|' => {
                    return Ok(self.one_or_two('|', Tokens::LOGOR, Tokens::BITOR)?);
                },
                '=' => {
                    return Ok(self.one_or_two('=', Tokens::EQ, Tokens::ASSIGN)?);
                },
                '!' => {
                    return Ok(self.one_or_two('=', Tokens::NEQ, Tokens::NOT)?);
                },
                '<' => {
                    match self.read()? {
                        Some(c) => {
                            if c == '=' {
                                return Ok(Tokens::LTE);
                            } else if c == '<' {
                                return Ok(Tokens::LSHIFT);
                            } else {
                                self.putback(c);
                                return Ok(Tokens::LT);
                            }
                        },
                        None => {
                            return Ok(Tokens::LT);
                        },
                    }
                },
                '>' => {
                    match self.read()? {
                        Some(c) => {
                            if c == '=' {
                                return Ok(Tokens::GTE);
                            } else if c == '>' {
                                return Ok(Tokens::RSHIFT);
                            } else {
                                self.putback(c);
                                return Ok(Tokens::GT);
                            }
                        },
                        None => {
                            return Ok(Tokens::GT);
                        },
                    }
                },
                '-' => {
                    return Ok(self.one_or_two('>', Tokens::ARROW, Tokens::MINUS)?);
                },
                '^' => {
                    return Ok(Tokens::BITXOR);
                },
                '+' => {
                    return Ok(Tokens::PLUS);
                },
                '*' => {
                    return Ok(Tokens::ASTERISK);
                },
                '/' => {
                    return Ok(Tokens::DIVIDE);
                },
                '%' => {
                    return Ok(Tokens::MODULO);
                },
                '~' => {
                    return Ok(Tokens::BITNOT);
                },
                '(' => {
                    return Ok(Tokens::LPARENT);
                },
                ')' => {
                    return Ok(Tokens::RPARENT);
                },
                '[' => {
                    return Ok(Tokens::LBRACKET);
                },
                ']' => {
                    return Ok(Tokens::RBRACKET);
                },
                '{' => {
                    return Ok(Tokens::LBRACE);
                },
                '}' => {
                    return Ok(Tokens::RBRACE);
                },
                ':' => {
                    return Ok(Tokens::COLON);
                },
                ';' => {
                    return Ok(Tokens::SEMICOLON);
                },
                '.' => {
                    match self.read()? {
                        Some(c) => {
                            self.putback(c);
                            if ascii_digit(c) {
                                return self.scan_fraction(0);
                            } else {
                                return Ok(Tokens::DOT);
                            }
                        },
                        None => {
                            return Ok(Tokens::DOT);
                        },
                    }
                },
                '\'' => {
                    let chr = self.scan_char()?;
                    return Ok(Tokens::CHAR(chr));
                },
                '"' => {
                    let text = self.scan_string()?;
                    return Ok(Tokens::STRING(text));
                },
                _ => {
                    match start_of(c) {
                        Start::Space => {
                            continue ;
                        },
                        Start::Number => {
                            self.putback(c);
                            return self.scan_number();
                        },
                        Start::Word => {
                            self.putback(c);
                            return self.match_keyword();
                        },
                    }
                },
            }
        }
    }

    /// After the first character of an operator: `two` where `second`
    /// follows, else `one`, and what followed is read again.
    fn one_or_two(&mut self, second: char, two: Tokens, one: Tokens) -> (r: Result<
        Tokens,
        LexerError,
    >)
        requires
            old(self).scanning(),
        ensures
            final(self).scanning(),
            token_view(r) == one_or_two(old(self).remaining(), second, two@, one@).result,
            final(self).remaining() == one_or_two(old(self).remaining(), second, two@, one@).rest,
    {
        match self.read()? {
            Some(c) => {
                if c == second {
                    Ok(two)
                } else {
                    self.putback(c);
                    Ok(one)
                }
            },
            None => Ok(one),
        }
    }

    /// A number from its first digit on.
    fn scan_number(&mut self) -> (r: Result<Tokens, LexerError>)
        requires
            old(self).scanning(),
        ensures
            final(self).scanning(),
            token_view(r) == scan_number(old(self).remaining()).result,
            final(self).remaining() == scan_number(old(self).remaining()).rest,
    {
        let ghost start = self.remaining();
        match self.read()? {
            Some(c) => {
                if c == '0' {
                    match self.read()? {
                        Some(c) => {
                            if c == 'x' {
                                Ok(Tokens::NUMBER(self.scan_base(16)?))
                            } else if ascii_digit(c) {
                                self.putback(c);
                                Ok(Tokens::NUMBER(self.scan_base(8)?))
                            } else {
                                self.putback(c);
                                assert(scan_base(0, start, 10) == scan_base(0, start.skip(1), 10));
                                self.scan_after_whole(0)
                            }
                        },
                        None => {
                            assert(scan_base(0, start, 10) == scan_base(0, start.skip(1), 10));
                            self.scan_after_whole(0)
                        },
                    }
                } else {
                    self.putback(c);
                    self.scan_float()
                }
            },
            None => self.scan_after_whole(0),
        }
    }

    /// The digits of `base` that come next, as a number.
    fn scan_base(&mut self, base: u32) -> (r: Result<i32, LexerError>)
        requires
            old(self).scanning(),
            base == 8 || base == 10 || base == 16,
        ensures
            final(self).scanning(),
            r == scan_base(0, old(self).remaining(), base).result,
            final(self).remaining() == scan_base(0, old(self).remaining(), base).rest,
            r matches Ok(n) ==> n >= 0,
    {
        let ghost start = self.remaining();
        let mut num: i32 = 0;
        loop
            invariant
                self.scanning(),
                base == 8 || base == 10 || base == 16,
                0 <= num,
                start == old(self).remaining(),
                scan_base(num as int, self.remaining(), base) == scan_base(0, start, base),
            decreases self.remaining().len(),
        {
            let c = match self.read()? {
                Some(c) => c,
                None => {
                    return Ok(num);
                },
            };
            match to_digit(c, base) {
                Some(d) => {
                    assert(num * base + d > i32::MAX <==> num * base > i32::MAX - d);
                    let scaled = match num.checked_mul(base as i32) {
                        Some(n) => n,
                        None => {
                            return Err(LexerError::IntegerOverflow);
                        },
                    };
                    num = match scaled.checked_add(d as i32) {
                        Some(n) => n,
                        None => {
                            return Err(LexerError::IntegerOverflow);
                        },
                    };
                },
                None => {
                    self.putback(c);
                    return Ok(num);
                },
            }
        }
    }

    /// A decimal literal from its first digit on.
    fn scan_float(&mut self) -> (r: Result<Tokens, LexerError>)
        requires
            old(self).scanning(),
        ensures
            final(self).scanning(),
            token_view(r) == scan_decimal(old(self).remaining()).result,
            final(self).remaining() == scan_decimal(old(self).remaining()).rest,
    {
        let front = self.scan_base(10)?;
        self.scan_after_whole(front)
    }

    /// A decimal literal from the end of its whole part on.
    fn scan_after_whole(&mut self, whole: i32) -> (r: Result<Tokens, LexerError>)
        requires
            old(self).scanning(),
            whole >= 0,
        ensures
            final(self).scanning(),
            token_view(r) == scan_after_whole(whole, old(self).remaining()).result,
            final(self).remaining() == scan_after_whole(whole, old(self).remaining()).rest,
    {
        match self.read()? {
            Some(c) => {
                if c == '.' {
                    self.scan_fraction(whole as u32)
                } else {
                    self.putback(c);
                    let exponent = self.read_exponent()?;
                    let none: Vec<u8> = Vec::new();
                    Ok(Tokens::NUMBER(truncate(whole as u32, &none, exponent)))
                }
            },
            None => {
                let none: Vec<u8> = Vec::new();
                Ok(Tokens::NUMBER(truncate(whole as u32, &none, 0)))
            },
        }
    }

    /// A decimal literal from its point on.
    fn scan_fraction(&mut self, whole: u32) -> (r: Result<Tokens, LexerError>)
        requires
            old(self).scanning(),
        ensures
            final(self).scanning(),
            token_view(r) == scan_fraction(whole, old(self).remaining()).result,
            final(self).remaining() == scan_fraction(whole, old(self).remaining()).rest,
    {
        let ghost start = self.remaining();
        let mut fraction: Vec<u8> = Vec::new();
        loop
            invariant_except_break
                self.scanning(),
                start == old(self).remaining(),
                fraction@ + fraction_digits(self.remaining()) == fraction_digits(start),
                fraction.len() <= start.len(),
                self.remaining() == start.skip(fraction.len() as int),
            ensures
                self.scanning(),
                fraction@ == fraction_digits(start),
                self.remaining() == start.skip(fraction.len() as int),
                !fails_at(self.remaining()),
            decreases self.remaining().len(),
        {
            match self.read()? {
                Some(c) => {
                    if ascii_digit(c) {
                        assert(start.skip(fraction.len() as int).skip(1) =~= start.skip(
                            fraction.len() + 1,
                        ));
                        fraction.push((c as u32 - '0' as u32) as u8);
                    } else {
                        self.putback(c);
                        break ;
                    }
                },
                None => {
                    break ;
                },
            }
        }
        let exponent = self.read_exponent()?;
        Ok(Tokens::FLOAT(FloatLiteral { whole, fraction, exponent }))
    }

    /// An exponent, where one is written; zero where none is.
    fn read_exponent(&mut self) -> (r: Result<i32, LexerError>)
        requires
            old(self).scanning(),
        ensures
            final(self).scanning(),
            r == scan_exponent(old(self).remaining()).result,
            final(self).remaining() == scan_exponent(old(self).remaining()).rest,
    {
        match self.read()? {
            Some(c) => {
                if c == 'e' || c == 'E' {
                    let negative = match self.read()? {
                        Some(c) => {
                            if c == '-' {
                                true
                            } else if c != '+' {
                                self.putback(c);
                                false
                            } else {
                                false
                            }
                        },
                        None => {
                            return Err(LexerError::MalformedFloat);
                        },
                    };
                    let size = self.scan_base(10)?;
                    if negative {
                        Ok(-size)
                    } else {
                        Ok(size)
                    }
                } else {
                    self.putback(c);
                    Ok(0)
                }
            },
            None => Ok(0),
        }
    }

    /// A name, as a reserved word or an identifier.
    fn match_keyword(&mut self) -> (r: Result<Tokens, LexerError>)
        requires
            old(self).scanning(),
        ensures
            final(self).scanning(),
            token_view(r) == scan_word(old(self).remaining()).result,
            final(self).remaining() == scan_word(old(self).remaining()).rest,
    {
        let ident = self.scan_ident()?;
        if spells(&ident, "fn") {
            Ok(Tokens::FN)
        } else if spells(&ident, "let") {
            Ok(Tokens::LET)
        } else if spells(&ident, "if") {
            Ok(Tokens::IF)
        } else if spells(&ident, "else") {
            Ok(Tokens::ELSE)
        } else if spells(&ident, "for") {
            Ok(Tokens::FOR)
        } else if spells(&ident, "goto") {
            Ok(Tokens::GOTO)
        } else if spells(&ident, "struct") {
            Ok(Tokens::STRUCT)
        } else if spells(&ident, "union") {
            Ok(Tokens::UNION)
        } else if spells(&ident, "u0") {
            Ok(Tokens::U0)
        } else if spells(&ident, "i8") {
            Ok(Tokens::I8)
        } else if spells(&ident, "i16") {
            Ok(Tokens::I16)
        } else if spells(&ident, "i32") {
            Ok(Tokens::I32)
        } else {
            Ok(Tokens::IDENT(ident))
        }
    }

    /// The longest run of name characters.
    fn scan_ident(&mut self) -> (r: Result<String, LexerError>)
        requires
            old(self).scanning(),
        ensures
            final(self).scanning(),
            final(self).remaining() == scan_word(old(self).remaining()).rest,
            match r {
                Ok(ident) => ident@ == word_chars(old(self).remaining()) && scan_word(
                    old(self).remaining(),
                ).result is Ok,
                Err(e) => scan_word(old(self).remaining()).result == Err::<TokenView, LexerError>(e),
            },
    {
        let ghost start = self.remaining();
        let mut ident = String::new();
        loop
            invariant_except_break
                self.scanning(),
                start == old(self).remaining(),
                ident@ + word_chars(self.remaining()) == word_chars(start),
                ident@.len() <= start.len(),
                self.remaining() == start.skip(ident@.len() as int),
            ensures
                self.scanning(),
                ident@ == word_chars(start),
                self.remaining() == start.skip(ident@.len() as int),
                !fails_at(self.remaining()),
            decreases self.remaining().len(),
        {
            match self.read()? {
                Some(c) => {
                    if !word_char(c) {
                        self.putback(c);
                        break ;
                    }
                    assert(start.skip(ident@.len() as int).skip(1) =~= start.skip(
                        ident@.len() as int + 1,
                    ));
                    push_char(&mut ident, c);
                },
                None => {
                    break ;
                },
            }
        }
        Ok(ident)
    }

    /// A string from behind its opening quote to its closing quote.
    fn scan_string(&mut self) -> (r: Result<String, LexerError>)
        requires
            old(self).scanning(),
        ensures
            final(self).scanning(),
            match r {
                Ok(text) => scan_string(Seq::empty(), old(self).remaining()).result == Ok::<
                    TokenView,
                    LexerError,
                >(TokenView::STRING(text@)),
                Err(e) => scan_string(Seq::empty(), old(self).remaining()).result == Err::<
                    TokenView,
                    LexerError,
                >(e),
            },
            final(self).remaining() == scan_string(Seq::empty(), old(self).remaining()).rest,
    {
        let ghost start = self.remaining();
        let mut text = String::new();
        loop
            invariant
                self.scanning(),
                start == old(self).remaining(),
                scan_string(text@, self.remaining()) == scan_string(Seq::empty(), start),
            decreases self.remaining().len(),
        {
            let c = match self.read()? {
                Some(c) => c,
                None => {
                    return Err(LexerError::UnterminatedString);
                },
            };
            if c == '"' {
                return Ok(text);
            }
            if c == '\\' {
                match self.read()? {
                    Some(escape_chr) => {
                        match escape_chr {
                            'n' => push_char(&mut text, '\n'),
                            'r' => push_char(&mut text, '\r'),
                            't' => push_char(&mut text, '\t'),
                            '"' => push_char(&mut text, '"'),
                            _ => {
                                self.putback(escape_chr);
                                push_char(&mut text, '\\');
                            },
                        }
                        continue ;
                    },
                    None => {},
                }
            }
            push_char(&mut text, c);
        }
    }

    /// A character constant from behind its opening quote.
    fn scan_char(&mut self) -> (r: Result<char, LexerError>)
        requires
            old(self).scanning(),
        ensures
            final(self).scanning(),
            match r {
                Ok(c) => scan_char(old(self).remaining()).result == Ok::<TokenView, LexerError>(
                    TokenView::CHAR(c),
                ),
                Err(e) => scan_char(old(self).remaining()).result == Err::<TokenView, LexerError>(e),
            },
            final(self).remaining() == scan_char(old(self).remaining()).rest,
    {
        match self.read()? {
            Some(c) => {
                match self.read()? {
                    Some(c2) => {
                        if c2 == '\'' {
                            Ok(c)
                        } else {
                            Err(LexerError::CharacterConstantTooLong)
                        }
                    },
                    None => Err(LexerError::UnterminatedCharacterConstant),
                }
            },
            None => Err(LexerError::UnterminatedCharacterConstant),
        }
    }
}

} // verus!
