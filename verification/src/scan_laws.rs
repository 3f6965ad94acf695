//! What holds of the scanning rules on every input.

use vstd::prelude::*;
use crate::chars::{digit_value, is_ascii_digit};
use crate::lexer::{LexerError, LexerIoError, TokenView};
use crate::scan::{
    digit_at, escape, failed, fails_at, found, fraction_digits, keyword, scan_base, scan_decimal,
    scan_exponent, scan_fraction, scan_number, scan_string, scan_token, starts_with,
    starts_with_digit, word_chars, Cursor,
};
use crate::source::{text, Item};

verus! {

/// An operator or a punctuation mark.
pub open spec fn is_symbol(t: TokenView) -> bool {
    match t {
        TokenView::ASSIGN
        | TokenView::LOGAND
        | TokenView::LOGOR
        | TokenView::BITOR
        | TokenView::BITXOR
        | TokenView::AMPER
        | TokenView::EQ
        | TokenView::NEQ
        | TokenView::LT
        | TokenView::LTE
        | TokenView::GT
        | TokenView::GTE
        | TokenView::LSHIFT
        | TokenView::RSHIFT
        | TokenView::MINUS
        | TokenView::PLUS
        | TokenView::ASTERISK
        | TokenView::DIVIDE
        | TokenView::MODULO
        | TokenView::NOT
        | TokenView::BITNOT
        | TokenView::LPARENT
        | TokenView::RPARENT
        | TokenView::LBRACKET
        | TokenView::RBRACKET
        | TokenView::DOT
        | TokenView::ARROW
        | TokenView::COLON
        | TokenView::SEMICOLON
        | TokenView::LBRACE
        | TokenView::RBRACE => true,
        _ => false,
    }
}

/// Scanning digits leaves a suffix of what it was given.
pub proof fn lemma_scan_base_rest(acc: int, s: Seq<Item>, base: u32)
    ensures
        scan_base(acc, s, base).rest.len() <= s.len(),
    decreases s.len(),
{
    if !fails_at(s) && digit_at(s, base) is Some {
        let next = acc * base + digit_at(s, base).unwrap();
        if next <= i32::MAX {
            lemma_scan_base_rest(next, s.skip(1), base);
        }
    }
}

/// A fraction has no more digits than there are items, and every digit is
/// below ten.
pub proof fn lemma_fraction_digits_len(s: Seq<Item>)
    ensures
        fraction_digits(s).len() <= s.len(),
        forall|i: int| 0 <= i < fraction_digits(s).len() ==> fraction_digits(s)[i] < 10,
    decreases s.len(),
{
    if starts_with_digit(s) {
        lemma_fraction_digits_len(s.skip(1));
    }
}

/// A name is no longer than the text it starts.
pub proof fn lemma_word_chars_len(s: Seq<Item>)
    ensures
        word_chars(s).len() <= s.len(),
    decreases s.len(),
{
    if s.len() > 0 {
        lemma_word_chars_len(s.skip(1));
    }
}

/// Scanning an exponent leaves a suffix of what it was given.
pub proof fn lemma_scan_exponent_rest(s: Seq<Item>)
    ensures
        scan_exponent(s).rest.len() <= s.len(),
{
    if s.len() > 0 {
        let t = s.skip(1);
        if t.len() > 0 {
            lemma_scan_base_rest(0, t, 10);
            lemma_scan_base_rest(0, t.skip(1), 10);
        }
    }
}

/// A fraction is a float literal or an error, and leaves a suffix.
pub proof fn lemma_scan_fraction_rest(whole: u32, s: Seq<Item>)
    ensures
        scan_fraction(whole, s).rest.len() <= s.len(),
        scan_fraction(whole, s).result matches Ok(t) ==> t is FLOAT,
{
    lemma_fraction_digits_len(s);
    lemma_scan_exponent_rest(s.skip(fraction_digits(s).len() as int));
}

/// A number is an integer, a float literal or an error, and leaves a suffix.
pub proof fn lemma_scan_number_rest(s: Seq<Item>)
    ensures
        scan_number(s).rest.len() <= s.len(),
        scan_decimal(s).rest.len() <= s.len(),
        scan_number(s).result matches Ok(t) ==> t is FLOAT || t is NUMBER,
{
    lemma_scan_base_rest(0, s, 10);
    let whole = scan_base(0, s, 10);
    if whole.result is Ok {
        let w = whole.result->Ok_0;
        if whole.rest.len() > 0 {
            lemma_scan_fraction_rest(w as u32, whole.rest.skip(1));
        }
        lemma_scan_exponent_rest(whole.rest);
    }
    if s.len() > 0 {
        let t = s.skip(1);
        lemma_scan_base_rest(0, t, 8);
        if t.len() > 0 {
            lemma_scan_base_rest(0, t.skip(1), 16);
        }
    }
}

/// A string ends as a string token, as unterminated or with a failure of
/// the stream, and leaves a suffix.
pub proof fn lemma_scan_string_rest(text: Seq<char>, s: Seq<Item>)
    ensures
        scan_string(text, s).rest.len() <= s.len(),
        match scan_string(text, s).result {
            Ok(t) => t is STRING,
            Err(e) => e == LexerError::UnterminatedString || e is Io,
        },
    decreases s.len(),
{
    let t = s.skip(1);
    if fails_at(s) || s.len() == 0 || starts_with(s, '"') {
    } else if starts_with(s, '\\') && fails_at(t) {
    } else if starts_with(s, '\\') && t.len() > 0 && escape(t[0]->Ok_0) is Some {
        lemma_scan_string_rest(text.push(escape(t[0]->Ok_0).unwrap()), t.skip(1));
    } else {
        lemma_scan_string_rest(text.push(s[0]->Ok_0), t);
    }
}

/// A reserved word is no symbol.
pub proof fn lemma_keyword_is_no_symbol(name: Seq<char>)
    ensures
        keyword(name) matches Some(t) ==> !is_symbol(t),
{
}

/// Every scan leaves a suffix of what it was given, and a symbol takes at
/// least one item.
pub proof fn lemma_scan_token_rest(s: Seq<Item>)
    ensures
        scan_token(s).rest.len() <= s.len(),
        scan_token(s).result matches Ok(t) && is_symbol(t) ==> scan_token(s).rest.len() < s.len(),
    decreases s.len(),
{
    if s.len() > 0 {
        let t = s.skip(1);
        lemma_scan_fraction_rest(0, t);
        lemma_scan_string_rest(Seq::empty(), t);
        lemma_scan_number_rest(s);
        lemma_word_chars_len(s);
        lemma_keyword_is_no_symbol(word_chars(s));
        lemma_scan_token_rest(t);
    }
}

/// The digits of the fraction of a float literal are below ten.
pub proof fn law_fraction_holds_digits(s: Seq<Item>)
    ensures
        scan_token(s).result matches Ok(TokenView::FLOAT(f)) ==> forall|i: int|
            0 <= i < f.fraction.len() ==> f.fraction[i] < 10,
    decreases s.len(),
{
    if s.len() > 0 {
        let t = s.skip(1);
        lemma_fraction_digits_len(t);
        lemma_scan_string_rest(Seq::empty(), t);
        law_fraction_holds_digits(t);
        lemma_keyword_is_no_symbol(word_chars(s));
        let whole = scan_base(0, s, 10);
        if whole.rest.len() > 0 {
            lemma_fraction_digits_len(whole.rest.skip(1));
        }
    }
}

/// Looking twice at a token gives the same token and changes nothing more.
pub proof fn law_peek_is_stable(c: Cursor)
    ensures
        c.peek().result is Ok ==> c.peek().cursor.peek() == c.peek(),
{
}

/// The token that was looked at is the token that is taken next.
pub proof fn law_take_after_peek(c: Cursor)
    ensures
        c.peek().result is Ok ==> c.peek().cursor.take().result == c.peek().result,
        c.peek().result is Ok ==> c.peek().cursor.take().cursor == c.peek().cursor.consume(),
{
}

/// A scan that reads a failure of the stream ends with that failure and
/// goes on behind it.
pub proof fn law_failure_ends_the_scan(failure: LexerIoError, rest: Seq<Item>)
    ensures
        scan_token(seq![Err::<char, LexerIoError>(failure)] + rest) == failed::<TokenView>(
            LexerError::Io(failure),
            rest,
        ),
{
    let s = seq![Err::<char, LexerIoError>(failure)] + rest;
    assert(s.skip(1) =~= rest);
}

/// The items of characters before other items: the first character comes
/// first, the others follow.
pub proof fn lemma_text_first(chars: Seq<char>, rest: Seq<Item>)
    ensures
        chars.len() == 0 ==> text(chars) + rest == rest,
        chars.len() > 0 ==> (text(chars) + rest).len() > 0 && (text(chars) + rest)[0] == Ok::<
            char,
            LexerIoError,
        >(chars[0]) && (text(chars) + rest).skip(1) == text(chars.skip(1)) + rest,
{
    if chars.len() == 0 {
        assert(text(chars) + rest =~= rest);
    } else {
        assert((text(chars) + rest).skip(1) =~= text(chars.skip(1)) + rest);
    }
}

/// The value of `digits` in `base` after the digits that gave `acc`.
pub open spec fn numeral_value(acc: int, digits: Seq<char>, base: u32) -> int
    decreases digits.len(),
{
    if digits.len() == 0 {
        acc
    } else {
        match digit_value(digits[0], base) {
            Some(d) => numeral_value(acc * base + d, digits.skip(1), base),
            None => acc,
        }
    }
}

/// Whether every character of `digits` is a digit of `base`.
pub open spec fn all_digits(digits: Seq<char>, base: u32) -> bool {
    forall|i: int| 0 <= i < digits.len() ==> digit_value(#[trigger] digits[i], base) is Some
}

/// The character that stands for the digit `d`.
pub open spec fn digit_char(d: int) -> char {
    if d < 10 {
        ('0' as int + d) as char
    } else {
        ('a' as int + d - 10) as char
    }
}

/// The digits of `n` in `base`, the most significant first.
pub open spec fn numeral(n: nat, base: u32) -> Seq<char>
    decreases n,
{
    if n < base || base < 2 {
        seq![digit_char(n as int)]
    } else {
        proof {
            assert(n / (base as nat) < n) by (nonlinear_arith)
                requires
                    n >= base,
                    base >= 2,
            ;
        }
        numeral(n / (base as nat), base).push(digit_char((n % (base as nat)) as int))
    }
}

/// More digits never make a value smaller.
pub proof fn lemma_numeral_value_grows(acc: int, digits: Seq<char>, base: u32)
    requires
        acc >= 0,
    ensures
        numeral_value(acc, digits, base) >= acc,
    decreases digits.len(),
{
    if digits.len() > 0 {
        match digit_value(digits[0], base) {
            Some(d) => {
                assert(acc * base >= acc) by (nonlinear_arith)
                    requires
                        acc >= 0,
                        base >= 1,
                ;
                lemma_numeral_value_grows(acc * base + d, digits.skip(1), base);
            },
            None => {},
        }
    }
}

/// The digits behind the first are digits too.
pub proof fn lemma_all_digits_skip(digits: Seq<char>, base: u32)
    requires
        digits.len() > 0,
        all_digits(digits, base),
    ensures
        all_digits(digits.skip(1), base),
        digit_value(digits[0], base) is Some,
{
    assert forall|i: int| 0 <= i < digits.skip(1).len() implies digit_value(
        #[trigger] digits.skip(1)[i],
        base,
    ) is Some by {
        assert(digits.skip(1)[i] == digits[i + 1]);
    }
}

/// One more digit at the end multiplies by the base and adds the digit.
pub proof fn lemma_numeral_value_push(acc: int, digits: Seq<char>, c: char, base: u32)
    requires
        all_digits(digits, base),
        digit_value(c, base) is Some,
    ensures
        numeral_value(acc, digits.push(c), base) == numeral_value(acc, digits, base) * base
            + digit_value(c, base).unwrap(),
    decreases digits.len(),
{
    let longer = digits.push(c);
    if digits.len() == 0 {
        let d = digit_value(c, base).unwrap();
        assert(longer[0] == c);
        assert(longer.skip(1) =~= Seq::<char>::empty());
        assert(numeral_value(acc * base + d, longer.skip(1), base) == acc * base + d);
    } else {
        let d = digit_value(digits[0], base).unwrap();
        assert(longer[0] == digits[0]);
        assert(longer.skip(1) =~= digits.skip(1).push(c));
        lemma_all_digits_skip(digits, base);
        lemma_numeral_value_push(acc * base + d, digits.skip(1), c, base);
    }
}

/// Scanning digits whose value is in the domain gives that value and goes
/// on behind them.
pub proof fn lemma_scan_base_digits(acc: int, digits: Seq<char>, rest: Seq<Item>, base: u32)
    requires
        0 <= acc,
        all_digits(digits, base),
        numeral_value(acc, digits, base) <= i32::MAX,
    ensures
        scan_base(acc, text(digits) + rest, base) == scan_base(
            numeral_value(acc, digits, base),
            rest,
            base,
        ),
    decreases digits.len(),
{
    lemma_text_first(digits, rest);
    if digits.len() > 0 {
        let d = digit_value(digits[0], base).unwrap();
        lemma_all_digits_skip(digits, base);
        assert(acc * base >= 0) by (nonlinear_arith)
            requires
                acc >= 0,
                base >= 0,
        ;
        lemma_numeral_value_grows(acc * base + d, digits.skip(1), base);
        lemma_scan_base_digits(acc * base + d, digits.skip(1), rest, base);
    }
}

/// Whether no digit of `base` comes next and no failure.
pub open spec fn no_digit_next(rest: Seq<Item>, base: u32) -> bool {
    rest.len() == 0 || (rest[0] is Ok && digit_value(rest[0]->Ok_0, base) is None)
}

/// Digits whose value is in the domain, with no digit behind them, scan as
/// that value, whatever the base.
pub proof fn law_digits_scan_as_their_value(digits: Seq<char>, rest: Seq<Item>, base: u32)
    requires
        all_digits(digits, base),
        no_digit_next(rest, base),
        numeral_value(0, digits, base) <= i32::MAX,
    ensures
        scan_base(0, text(digits) + rest, base) == found(
            numeral_value(0, digits, base) as i32,
            rest,
        ),
{
    lemma_scan_base_digits(0, digits, rest, base);
    lemma_numeral_value_grows(0, digits, base);
}

/// Overflow is found at the first digit with which the value passes
/// `i32::MAX`, and nowhere before, whatever the base: the scan fails there,
/// that digit taken, and what follows it left.
pub proof fn law_overflow_is_found_at_its_digit(digits: Seq<char>, rest: Seq<Item>, base: u32)
    requires
        digits.len() > 0,
        all_digits(digits, base),
        numeral_value(0, digits.drop_last(), base) <= i32::MAX,
        numeral_value(0, digits, base) > i32::MAX,
    ensures
        scan_base(0, text(digits) + rest, base) == failed::<i32>(LexerError::IntegerOverflow, rest),
{
    let before = digits.drop_last();
    let last = digits.last();
    assert(all_digits(before, base)) by {
        assert forall|i: int| 0 <= i < before.len() implies digit_value(
            #[trigger] before[i],
            base,
        ) is Some by {
            assert(before[i] == digits[i]);
        }
    }
    assert(digit_value(last, base) is Some) by {
        assert(digits[digits.len() - 1] == last);
    }
    assert(digits =~= before.push(last));
    lemma_numeral_value_push(0, before, last, base);
    lemma_numeral_value_grows(0, before, base);
    let behind = seq![Ok::<char, LexerIoError>(last)] + rest;
    assert(text(digits) + rest =~= text(before) + behind);
    lemma_scan_base_digits(0, before, behind, base);
    assert(behind.skip(1) =~= rest);
}

/// The digit that stands for `d` has the value `d`.
pub proof fn lemma_digit_char_value(d: int, base: u32)
    requires
        0 <= d < base <= 36,
    ensures
        digit_value(digit_char(d), base) == Some(d as u32),
        d < 10 ==> is_ascii_digit(digit_char(d)),
{
}

/// The numeral of `n` is made of digits and has the value `n`.
pub proof fn lemma_numeral(n: nat, base: u32)
    requires
        2 <= base <= 36,
    ensures
        numeral(n, base).len() > 0,
        all_digits(numeral(n, base), base),
        numeral_value(0, numeral(n, base), base) == n,
        base <= 10 ==> is_ascii_digit(numeral(n, base)[0]),
        n > 0 ==> numeral(n, base)[0] != '0',
    decreases n,
{
    if n < base {
        lemma_digit_char_value(n as int, base);
        let one = seq![digit_char(n as int)];
        assert(one[0] == digit_char(n as int));
        assert(one.skip(1) =~= Seq::<char>::empty());
        assert(numeral_value(n as int, one.skip(1), base) == n);
        assert(numeral_value(0, one, base) == numeral_value(0 * base + n, one.skip(1), base));
    } else {
        let high = n / (base as nat);
        let low = n % (base as nat);
        assert(high < n && high > 0 && n == high * base + low && 0 <= low < base) by (nonlinear_arith)
            requires
                high == n / (base as nat),
                low == n % (base as nat),
                n >= base,
                base >= 2,
        ;
        lemma_numeral(high, base);
        lemma_digit_char_value(low as int, base);
        lemma_numeral_value_push(0, numeral(high, base), digit_char(low as int), base);
        assert(numeral(n, base)[0] == numeral(high, base)[0]);
    }
}

/// An integer of the domain that is written in a base scans as itself.
pub proof fn law_numeral_round_trip(n: nat, base: u32, rest: Seq<Item>)
    requires
        n <= i32::MAX,
        2 <= base <= 36,
        no_digit_next(rest, base),
    ensures
        scan_base(0, text(numeral(n, base)) + rest, base) == found(n as i32, rest),
{
    lemma_numeral(n, base);
    law_digits_scan_as_their_value(numeral(n, base), rest, base);
}

/// Behind `0x` the numeral is read in base sixteen.
pub proof fn law_hexadecimal_round_trip(n: nat, rest: Seq<Item>)
    requires
        n <= i32::MAX,
        no_digit_next(rest, 16),
    ensures
        scan_token(text(seq!['0', 'x']) + (text(numeral(n, 16)) + rest)) == found(
            TokenView::NUMBER(n as i32),
            rest,
        ),
{
    let behind = text(numeral(n, 16)) + rest;
    let s = text(seq!['0', 'x']) + behind;
    lemma_text_first(seq!['0', 'x'], behind);
    assert(seq!['0', 'x'].skip(1) =~= seq!['x']);
    lemma_text_first(seq!['x'], behind);
    assert(seq!['x'].skip(1) =~= Seq::<char>::empty());
    lemma_text_first(Seq::<char>::empty(), behind);
    assert(s.skip(1).skip(1) == behind);
    law_numeral_round_trip(n, 16, rest);
}

/// Behind `0` the numeral is read in base eight.
pub proof fn law_octal_round_trip(n: nat, rest: Seq<Item>)
    requires
        n <= i32::MAX,
        no_digit_next(rest, 8),
    ensures
        scan_token(text(seq!['0']) + (text(numeral(n, 8)) + rest)) == found(
            TokenView::NUMBER(n as i32),
            rest,
        ),
{
    let behind = text(numeral(n, 8)) + rest;
    let s = text(seq!['0']) + behind;
    lemma_numeral(n, 8);
    lemma_text_first(seq!['0'], behind);
    assert(seq!['0'].skip(1) =~= Seq::<char>::empty());
    lemma_text_first(Seq::<char>::empty(), behind);
    assert(s.skip(1) == behind);
    lemma_text_first(numeral(n, 8), rest);
    law_numeral_round_trip(n, 8, rest);
}

/// Whether what comes next goes on with a decimal literal, or is a failure.
pub open spec fn decimal_goes_on(rest: Seq<Item>) -> bool {
    ||| fails_at(rest)
    ||| starts_with_digit(rest)
    ||| starts_with(rest, '.')
    ||| starts_with(rest, 'e')
    ||| starts_with(rest, 'E')
}

/// A decimal numeral that nothing behind it goes on with, and that does not
/// begin `0x`, is read in base ten.
pub proof fn law_decimal_round_trip(n: nat, rest: Seq<Item>)
    requires
        n <= i32::MAX,
        !decimal_goes_on(rest),
        !(n == 0 && starts_with(rest, 'x')),
    ensures
        scan_token(text(numeral(n, 10)) + rest) == found(TokenView::NUMBER(n as i32), rest),
{
    let s = text(numeral(n, 10)) + rest;
    lemma_numeral(n, 10);
    lemma_text_first(numeral(n, 10), rest);
    law_numeral_round_trip(n, 10, rest);
    assert(crate::numeral::shifted_left(n as int, Seq::<u8>::empty(), 0) == n);
    assert(scan_exponent(rest) == found(0i32, rest));
    assert(scan_decimal(s) == found(TokenView::NUMBER(n as i32), rest));
    if n == 0 {
        assert(numeral(n, 10) =~= seq!['0']);
        assert(numeral(n, 10).skip(1) =~= Seq::<char>::empty());
        lemma_text_first(Seq::<char>::empty(), rest);
        assert(s.skip(1) == rest);
    }
    assert(scan_number(s) == scan_decimal(s));
}

/// `&&` is the logical and. A lone `&` is the bitwise and, and the
/// character behind it is left for the next token.
pub proof fn law_ampersand(rest: Seq<Item>)
    requires
        !fails_at(rest),
    ensures
        starts_with(rest, '&') ==> scan_token(text(seq!['&']) + rest) == found(
            TokenView::LOGAND,
            rest.skip(1),
        ),
        !starts_with(rest, '&') ==> scan_token(text(seq!['&']) + rest) == found(
            TokenView::AMPER,
            rest,
        ),
{
    assert((text(seq!['&']) + rest).skip(1) =~= rest);
}

/// Whether `items` holds no failure.
pub open spec fn no_failure(items: Seq<Item>) -> bool {
    forall|i: int| 0 <= i < items.len() ==> (#[trigger] items[i]) is Ok
}

/// A text without failures is without failures behind its first item.
pub proof fn lemma_no_failure_skip(items: Seq<Item>)
    requires
        no_failure(items),
        items.len() > 0,
    ensures
        no_failure(items.skip(1)),
        items[0] is Ok,
{
    assert forall|i: int| 0 <= i < items.skip(1).len() implies (#[trigger] items.skip(1)[i]) is Ok by {
        assert(items.skip(1)[i] == items[i + 1]);
    }
}

/// Where the stream does not fail, a string fails in one way only: as
/// unterminated.
pub proof fn lemma_string_fails_as_unterminated(text: Seq<char>, s: Seq<Item>)
    requires
        no_failure(s),
    ensures
        scan_string(text, s).result matches Err(e) ==> e == LexerError::UnterminatedString,
    decreases s.len(),
{
    let t = s.skip(1);
    if s.len() > 0 {
        lemma_no_failure_skip(s);
        if starts_with(s, '"') {
        } else if starts_with(s, '\\') && t.len() > 0 && escape(t[0]->Ok_0) is Some {
            lemma_no_failure_skip(t);
            lemma_string_fails_as_unterminated(text.push(escape(t[0]->Ok_0).unwrap()), t.skip(1));
        } else {
            lemma_string_fails_as_unterminated(text.push(s[0]->Ok_0), t);
        }
    }
}

/// Where the stream does not fail, what starts with a quote is a string or
/// an unterminated string.
pub proof fn law_string_fails_as_unterminated(rest: Seq<Item>)
    requires
        no_failure(rest),
    ensures
        scan_token(text(seq!['"']) + rest).result matches Err(e) ==> e
            == LexerError::UnterminatedString,
{
    assert((text(seq!['"']) + rest).skip(1) =~= rest);
    lemma_string_fails_as_unterminated(Seq::empty(), rest);
}

/// Characters without a closing quote are an unterminated string.
pub proof fn lemma_no_quote_no_string(gathered: Seq<char>, chars: Seq<char>)
    requires
        forall|i: int| 0 <= i < chars.len() ==> chars[i] != '"',
    ensures
        scan_string(gathered, text(chars)).result == Err::<TokenView, LexerError>(
            LexerError::UnterminatedString,
        ),
    decreases chars.len(),
{
    let s = text(chars);
    let t = s.skip(1);
    if chars.len() > 0 {
        assert(t =~= text(chars.skip(1)));
        if starts_with(s, '\\') && t.len() > 0 && escape(t[0]->Ok_0) is Some {
            assert(t.skip(1) =~= text(chars.skip(1).skip(1)));
            lemma_no_quote_no_string(
                gathered.push(escape(t[0]->Ok_0).unwrap()),
                chars.skip(1).skip(1),
            );
        } else {
            lemma_no_quote_no_string(gathered.push(chars[0]), chars.skip(1));
        }
    }
}

/// A string that is never closed is unterminated.
pub proof fn law_unclosed_string(chars: Seq<char>)
    requires
        forall|i: int| 0 <= i < chars.len() ==> chars[i] != '"',
    ensures
        scan_token(text(seq!['"']) + text(chars)).result == Err::<TokenView, LexerError>(
            LexerError::UnterminatedString,
        ),
{
    assert((text(seq!['"']) + text(chars)).skip(1) =~= text(chars));
    lemma_no_quote_no_string(Seq::empty(), chars);
}

/// A character constant holds one character. With less than a character
/// and a closing quote behind the opening quote it is unterminated, with
/// anything but the closing quote behind the character it is too long.
pub proof fn law_character_constant(chars: Seq<char>)
    ensures
        chars.len() < 2 ==> scan_token(text(seq!['\'']) + text(chars)).result == Err::<
            TokenView,
            LexerError,
        >(LexerError::UnterminatedCharacterConstant),
        chars.len() >= 2 && chars[1] == '\'' ==> scan_token(
            text(seq!['\'']) + text(chars),
        ).result == Ok::<TokenView, LexerError>(TokenView::CHAR(chars[0])),
        chars.len() >= 2 && chars[1] != '\'' ==> scan_token(
            text(seq!['\'']) + text(chars),
        ).result == Err::<TokenView, LexerError>(LexerError::CharacterConstantTooLong),
{
    let s = text(seq!['\'']) + text(chars);
    assert(s.skip(1) =~= text(chars));
    if chars.len() > 0 {
        assert(text(chars).skip(1) =~= text(chars.skip(1)));
    }
}

} // verus!
