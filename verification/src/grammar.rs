//! The grammar, as functions from where the lexer stands to the tree that
//! was parsed and where the lexer stands then.
//!
//! From the loosest binding to the tightest: assignment, which groups to the
//! right; bitwise or; bitwise xor; bitwise and; shifts; sums; products;
//! unary operators; primaries.

use vstd::prelude::*;
use crate::lexer::TokenView;
use crate::parser::{OperationView, ParserErrorView, Tree};
use crate::scan::{Cursor, Outcome};
use crate::scan_laws::lemma_scan_token_rest;

verus! {

/// An expression that was parsed, or why none was.
pub type Parsed = Outcome<Tree, ParserErrorView>;

/// A statement that was parsed, with its tree if it has one, or why none was.
pub type ParsedStatement = Outcome<Option<Tree>, ParserErrorView>;

/// A parse that gave `value`.
pub open spec fn parsed<T>(value: T, cursor: Cursor) -> Outcome<T, ParserErrorView> {
    Outcome { result: Ok(value), cursor }
}

/// A parse that failed with `error`.
pub open spec fn refused<T>(error: ParserErrorView, cursor: Cursor) -> Outcome<T, ParserErrorView> {
    Outcome { result: Err(error), cursor }
}

/// Takes a token, which has to be `expected`.
pub open spec fn expect(c: Cursor, expected: TokenView) -> Outcome<(), ParserErrorView> {
    let taken = c.take();
    match taken.result {
        Ok(got) => if got == expected {
            parsed((), taken.cursor)
        } else {
            refused(ParserErrorView::ExpectError(expected, got), taken.cursor)
        },
        Err(e) => refused(ParserErrorView::Lexer(e), taken.cursor),
    }
}

/// The levels of binary operators that group to the left.
pub enum Level {
    Product,
    Sum,
    Shift,
    BitAnd,
    BitXor,
    BitOr,
}

impl Level {
    /// The level that binds next tighter, if it is one of binary operators.
    pub open spec fn tighter(self) -> Option<Level> {
        match self {
            Level::Product => None,
            Level::Sum => Some(Level::Product),
            Level::Shift => Some(Level::Sum),
            Level::BitAnd => Some(Level::Shift),
            Level::BitXor => Some(Level::BitAnd),
            Level::BitOr => Some(Level::BitXor),
        }
    }

    /// One for the tightest level, six for the loosest.
    pub open spec fn rank(self) -> nat {
        match self {
            Level::Product => 1,
            Level::Sum => 2,
            Level::Shift => 3,
            Level::BitAnd => 4,
            Level::BitXor => 5,
            Level::BitOr => 6,
        }
    }

    /// The operation that `t` stands for at this level, if it stands for one.
    pub open spec fn operator(self, t: TokenView) -> Option<OperationView> {
        match (self, t) {
            (Level::Product, TokenView::ASTERISK) => Some(OperationView::MULTIPLY),
            (Level::Product, TokenView::DIVIDE) => Some(OperationView::DIVIDE),
            (Level::Product, TokenView::MODULO) => Some(OperationView::MODULO),
            (Level::Sum, TokenView::PLUS) => Some(OperationView::ADD),
            (Level::Sum, TokenView::MINUS) => Some(OperationView::SUBTRACT),
            (Level::Shift, TokenView::LSHIFT) => Some(OperationView::LSHIFT),
            (Level::Shift, TokenView::RSHIFT) => Some(OperationView::RSHIFT),
            (Level::BitAnd, TokenView::AMPER) => Some(OperationView::BITAND),
            (Level::BitXor, TokenView::BITXOR) => Some(OperationView::BITXOR),
            (Level::BitOr, TokenView::BITOR) => Some(OperationView::BITOR),
            _ => None,
        }
    }
}

/// A primary: an expression in parentheses, a literal or a name.
pub open spec fn parse_factor(c: Cursor) -> Parsed
    decreases c.rest.len(), 0nat,
{
    let next = c.peek();
    match next.result {
        Err(e) => refused(ParserErrorView::Lexer(e), next.cursor),
        Ok(TokenView::LPARENT) => {
            proof {
                lemma_scan_token_rest(c.rest);
            }
            let inner = parse_assign(next.cursor.consume());
            match inner.result {
                Err(e) => inner,
                Ok(tree) => {
                    let close = expect(inner.cursor, TokenView::RPARENT);
                    match close.result {
                        Ok(_) => parsed(tree, close.cursor),
                        Err(e) => refused(e, close.cursor),
                    }
                },
            }
        },
        Ok(TokenView::NUMBER(n)) => parsed(
            Tree::leaf(OperationView::NUMBER(n)),
            next.cursor.consume(),
        ),
        Ok(TokenView::FLOAT(f)) => parsed(
            Tree::leaf(OperationView::FLOAT(f)),
            next.cursor.consume(),
        ),
        Ok(TokenView::IDENT(name)) => parsed(
            Tree::leaf(OperationView::IDENT(name)),
            next.cursor.consume(),
        ),
        Ok(_) => refused(ParserErrorView::SyntaxError, next.cursor),
    }
}

/// `op` applied to the operand that was parsed.
pub open spec fn prefixed(op: OperationView, operand: Parsed) -> Parsed {
    match operand.result {
        Ok(tree) => parsed(Tree::unary(op, tree), operand.cursor),
        Err(e) => operand,
    }
}

/// Any number of unary operators before a primary. A unary plus means nothing.
pub open spec fn parse_unary(c: Cursor) -> Parsed
    decreases c.rest.len(), 1nat,
{
    let next = c.peek();
    proof {
        lemma_scan_token_rest(c.rest);
    }
    match next.result {
        Err(e) => refused(ParserErrorView::Lexer(e), next.cursor),
        Ok(TokenView::PLUS) => parse_unary(next.cursor.consume()),
        Ok(TokenView::MINUS) => prefixed(OperationView::NEGATE, parse_unary(next.cursor.consume())),
        Ok(TokenView::BITNOT) => prefixed(
            OperationView::BITNOT,
            parse_unary(next.cursor.consume()),
        ),
        Ok(_) => parse_factor(next.cursor),
    }
}

/// An operand of the operators of `level`: an expression of the next
/// tighter level.
pub open spec fn parse_operand(level: Level, c: Cursor) -> Parsed
    decreases c.rest.len(), 3 * level.rank() - 1,
{
    match level.tighter() {
        Some(tighter) => parse_binary(tighter, c),
        None => parse_unary(c),
    }
}

/// Operands of `level` with its operators between them, grouped to the left.
///
/// A parse never leaves more than it was given (`lemma_operand` of the
/// laws of the grammar), so the test on the lengths holds always.
pub open spec fn parse_binary(level: Level, c: Cursor) -> Parsed
    decreases c.rest.len(), 3 * level.rank() + 1,
{
    let first = parse_operand(level, c);
    match first.result {
        Ok(left) if first.cursor.rest.len() <= c.rest.len() => parse_binary_tail(
            level,
            left,
            first.cursor,
        ),
        _ => first,
    }
}

/// What follows the operand `left`: as long as an operator of `level`
/// comes, it joins what was parsed so far to the next operand.
pub open spec fn parse_binary_tail(level: Level, left: Tree, c: Cursor) -> Parsed
    decreases c.rest.len(), 3 * level.rank(),
{
    let next = c.peek();
    match next.result {
        Err(e) => refused(ParserErrorView::Lexer(e), next.cursor),
        Ok(t) => match level.operator(t) {
            None => parsed(left, next.cursor),
            Some(op) => {
                proof {
                    lemma_scan_token_rest(c.rest);
                }
                let operand = parse_operand(level, next.cursor.consume());
                match operand.result {
                    Ok(right) if operand.cursor.rest.len() < c.rest.len() => parse_binary_tail(
                        level,
                        Tree::binary(op, left, right),
                        operand.cursor,
                    ),
                    _ => operand,
                }
            },
        },
    }
}

/// An assignment, which groups to the right, or an expression without one.
/// Any expression may stand on the left.
pub open spec fn parse_assign(c: Cursor) -> Parsed
    decreases c.rest.len(), 20nat,
{
    let target = parse_binary(Level::BitOr, c);
    match target.result {
        Ok(left) if target.cursor.rest.len() <= c.rest.len() => {
            let next = target.cursor.peek();
            match next.result {
                Err(e) => refused(ParserErrorView::Lexer(e), next.cursor),
                Ok(TokenView::ASSIGN) => {
                    proof {
                        lemma_scan_token_rest(target.cursor.rest);
                    }
                    let value = parse_assign(next.cursor.consume());
                    match value.result {
                        Ok(right) => parsed(
                            Tree::binary(OperationView::ASSIGN, left, right),
                            value.cursor,
                        ),
                        Err(e) => value,
                    }
                },
                Ok(_) => parsed(left, next.cursor),
            }
        },
        _ => target,
    }
}

/// The statements so far and one more, joined so that they are evaluated in
/// order. An empty statement adds nothing.
pub open spec fn glued(so_far: Option<Tree>, statement: Option<Tree>) -> Option<Tree> {
    match (so_far, statement) {
        (Some(left), Some(right)) => Some(Tree::binary(OperationView::GLUE, left, right)),
        (None, Some(right)) => Some(right),
        (_, None) => so_far,
    }
}

/// A statement: statements in braces, a lone semicolon, or an expression
/// and a semicolon.
pub open spec fn parse_statement(c: Cursor) -> ParsedStatement
    decreases c.rest.len(), 22nat,
{
    let next = c.peek();
    match next.result {
        Err(e) => refused(ParserErrorView::Lexer(e), next.cursor),
        Ok(TokenView::LBRACE) => parse_compound(next.cursor),
        Ok(TokenView::SEMICOLON) => parsed(None, next.cursor.consume()),
        Ok(_) => {
            let expression = parse_assign(next.cursor);
            match expression.result {
                Err(e) => refused(e, expression.cursor),
                Ok(tree) => {
                    let end = expect(expression.cursor, TokenView::SEMICOLON);
                    match end.result {
                        Ok(_) => parsed(Some(tree), end.cursor),
                        Err(e) => refused(e, end.cursor),
                    }
                },
            }
        },
    }
}

/// Statements in braces.
pub open spec fn parse_compound(c: Cursor) -> ParsedStatement
    decreases c.rest.len(), 21nat,
{
    let open = expect(c, TokenView::LBRACE);
    match open.result {
        Err(e) => refused(e, open.cursor),
        Ok(_) => {
            proof {
                lemma_scan_token_rest(c.rest);
            }
            parse_statements(None, open.cursor)
        },
    }
}

/// The statements after those `so_far`, up to the closing brace.
///
/// A statement that was parsed has taken at least one item
/// (`lemma_statement` of the laws of the grammar), so the test on the
/// lengths holds always.
pub open spec fn parse_statements(so_far: Option<Tree>, c: Cursor) -> ParsedStatement
    decreases c.rest.len(), 23nat,
{
    let next = c.peek();
    match next.result {
        Err(e) => refused(ParserErrorView::Lexer(e), next.cursor),
        Ok(TokenView::RBRACE) => {
            let close = expect(next.cursor, TokenView::RBRACE);
            match close.result {
                Ok(_) => parsed(so_far, close.cursor),
                Err(e) => refused(e, close.cursor),
            }
        },
        Ok(_) => {
            let statement = parse_statement(next.cursor);
            match statement.result {
                Ok(tree) if statement.cursor.rest.len() < c.rest.len() => parse_statements(
                    glued(so_far, tree),
                    statement.cursor,
                ),
                _ => statement,
            }
        },
    }
}

} // verus!
