//! What holds of the grammar on every input: a parse leaves no more than it
//! was given, a statement takes at least one item, and every tree that
//! is parsed has the operands that its operations take.

use vstd::prelude::*;
use crate::grammar::{
    expect, glued, parse_assign, parse_binary, parse_binary_tail, parse_compound, parse_factor,
    parse_operand, parse_statement, parse_statements, parse_unary, parsed, Level,
};
use crate::lexer::TokenView;
use crate::parser::Tree;
use crate::scan::Cursor;
use crate::scan_laws::{is_symbol, lemma_scan_token_rest};

verus! {

/// A tree, if there is one, is well formed.
pub open spec fn well_formed_if_any(tree: Option<Tree>) -> bool {
    tree matches Some(t) ==> t.well_formed()
}

/// Looking at, dropping and taking a token leave no more than there was.
pub proof fn lemma_cursor_steps(c: Cursor)
    ensures
        c.peek().cursor.rest.len() <= c.rest.len(),
        c.consume().rest.len() <= c.rest.len(),
        c.take().cursor.rest.len() <= c.rest.len(),
        c.peek().result matches Ok(t) && is_symbol(t) ==> c.peek().cursor.consume().rest.len()
            < c.rest.len(),
{
    lemma_scan_token_rest(c.rest);
}

/// An expected token leaves no more than there was, and less where it is a
/// symbol that was found.
pub proof fn lemma_expect(c: Cursor, expected: TokenView)
    ensures
        expect(c, expected).cursor.rest.len() <= c.rest.len(),
        expect(c, expected).result is Ok && is_symbol(expected) ==> expect(c, expected).cursor.rest.len()
            < c.rest.len(),
{
    lemma_scan_token_rest(c.rest);
}

/// A primary leaves no more than it was given, and its tree is well formed.
pub proof fn lemma_factor(c: Cursor)
    ensures
        parse_factor(c).cursor.rest.len() <= c.rest.len(),
        parse_factor(c).result matches Ok(tree) ==> tree.well_formed(),
    decreases c.rest.len(), 0nat,
{
    lemma_cursor_steps(c);
    let next = c.peek();
    if next.result == Ok::<TokenView, crate::lexer::LexerError>(TokenView::LPARENT) {
        let inner = parse_assign(next.cursor.consume());
        lemma_assign(next.cursor.consume());
        lemma_expect(inner.cursor, TokenView::RPARENT);
    }
}

/// An operand with its unary operators leaves no more than it was given,
/// and its tree is well formed.
pub proof fn lemma_unary(c: Cursor)
    ensures
        parse_unary(c).cursor.rest.len() <= c.rest.len(),
        parse_unary(c).result matches Ok(tree) ==> tree.well_formed(),
    decreases c.rest.len(), 1nat,
{
    lemma_cursor_steps(c);
    let next = c.peek();
    match next.result {
        Err(e) => {},
        Ok(TokenView::PLUS) => lemma_unary(next.cursor.consume()),
        Ok(TokenView::MINUS) => lemma_unary(next.cursor.consume()),
        Ok(TokenView::BITNOT) => lemma_unary(next.cursor.consume()),
        Ok(_) => lemma_factor(next.cursor),
    }
}

/// An operand of any level leaves no more than it was given, and its tree
/// is well formed.
pub proof fn lemma_operand(level: Level, c: Cursor)
    ensures
        parse_operand(level, c).cursor.rest.len() <= c.rest.len(),
        parse_operand(level, c).result matches Ok(tree) ==> tree.well_formed(),
    decreases c.rest.len(), 3 * level.rank() - 1,
{
    match level.tighter() {
        Some(tighter) => lemma_binary(tighter, c),
        None => lemma_unary(c),
    }
}

/// An expression of any level leaves no more than it was given, and its
/// tree is well formed.
pub proof fn lemma_binary(level: Level, c: Cursor)
    ensures
        parse_binary(level, c).cursor.rest.len() <= c.rest.len(),
        parse_binary(level, c).result matches Ok(tree) ==> tree.well_formed(),
    decreases c.rest.len(), 3 * level.rank() + 1,
{
    lemma_operand(level, c);
    let first = parse_operand(level, c);
    if first.result is Ok {
        lemma_binary_tail(level, first.result->Ok_0, first.cursor);
    }
}

/// What follows a well-formed operand leaves no more than it was given, and
/// the tree of the whole is well formed.
pub proof fn lemma_binary_tail(level: Level, left: Tree, c: Cursor)
    requires
        left.well_formed(),
    ensures
        parse_binary_tail(level, left, c).cursor.rest.len() <= c.rest.len(),
        parse_binary_tail(level, left, c).result matches Ok(tree) ==> tree.well_formed(),
    decreases c.rest.len(), 3 * level.rank(),
{
    lemma_cursor_steps(c);
    let next = c.peek();
    if next.result is Ok {
        let t = next.result->Ok_0;
        if level.operator(t) is Some {
            let op = level.operator(t)->Some_0;
            let operand = parse_operand(level, next.cursor.consume());
            lemma_operand(level, next.cursor.consume());
            if operand.result is Ok {
                lemma_binary_tail(
                    level,
                    Tree::binary(op, left, operand.result->Ok_0),
                    operand.cursor,
                );
            }
        }
    }
}

/// An assignment leaves no more than it was given, and its tree is well
/// formed.
pub proof fn lemma_assign(c: Cursor)
    ensures
        parse_assign(c).cursor.rest.len() <= c.rest.len(),
        parse_assign(c).result matches Ok(tree) ==> tree.well_formed(),
    decreases c.rest.len(), 20nat,
{
    lemma_binary(Level::BitOr, c);
    let target = parse_binary(Level::BitOr, c);
    if target.result is Ok {
        lemma_cursor_steps(target.cursor);
        let next = target.cursor.peek();
        if next.result == Ok::<TokenView, crate::lexer::LexerError>(TokenView::ASSIGN) {
            lemma_assign(next.cursor.consume());
        }
    }
}

/// A statement that is parsed takes at least one item and holds no token
/// back, and its tree, if it has one, is well formed.
pub proof fn lemma_statement(c: Cursor)
    ensures
        parse_statement(c).cursor.rest.len() <= c.rest.len(),
        parse_statement(c).result is Ok ==> parse_statement(c).cursor.rest.len() < c.rest.len(),
        parse_statement(c).result is Ok ==> !parse_statement(c).cursor.peeked,
        parse_statement(c).result matches Ok(tree) ==> well_formed_if_any(tree),
    decreases c.rest.len(), 22nat,
{
    lemma_cursor_steps(c);
    let next = c.peek();
    match next.result {
        Err(e) => {},
        Ok(TokenView::LBRACE) => lemma_compound(next.cursor),
        Ok(TokenView::SEMICOLON) => {},
        Ok(_) => {
            lemma_assign(next.cursor);
            lemma_expect(parse_assign(next.cursor).cursor, TokenView::SEMICOLON);
        },
    }
}

/// Statements in braces that are parsed take at least one item and hold no
/// token back, and their tree, if they have one, is well formed.
pub proof fn lemma_compound(c: Cursor)
    ensures
        parse_compound(c).cursor.rest.len() <= c.rest.len(),
        parse_compound(c).result is Ok ==> parse_compound(c).cursor.rest.len() < c.rest.len(),
        parse_compound(c).result is Ok ==> !parse_compound(c).cursor.peeked,
        parse_compound(c).result matches Ok(tree) ==> well_formed_if_any(tree),
    decreases c.rest.len(), 21nat,
{
    lemma_expect(c, TokenView::LBRACE);
    let open = expect(c, TokenView::LBRACE);
    if open.result is Ok {
        lemma_statements(None, open.cursor);
    }
}

/// The statements up to a closing brace leave no more than they were given
/// and hold no token back, and with a well-formed tree before them their
/// tree is well formed.
pub proof fn lemma_statements(so_far: Option<Tree>, c: Cursor)
    requires
        well_formed_if_any(so_far),
    ensures
        parse_statements(so_far, c).cursor.rest.len() <= c.rest.len(),
        parse_statements(so_far, c).result is Ok ==> !parse_statements(so_far, c).cursor.peeked,
        parse_statements(so_far, c).result matches Ok(tree) ==> well_formed_if_any(tree),
    decreases c.rest.len(), 23nat,
{
    lemma_cursor_steps(c);
    let next = c.peek();
    match next.result {
        Err(e) => {},
        Ok(TokenView::RBRACE) => lemma_expect(next.cursor, TokenView::RBRACE),
        Ok(_) => {
            lemma_statement(next.cursor);
            let statement = parse_statement(next.cursor);
            if statement.result is Ok {
                lemma_statements(glued(so_far, statement.result->Ok_0), statement.cursor);
            }
        },
    }
}

/// Whether `t` is a binary operator that groups to the left.
pub open spec fn is_binary_operator(t: TokenView) -> bool {
    ||| Level::Product.operator(t) is Some
    ||| Level::Sum.operator(t) is Some
    ||| Level::Shift.operator(t) is Some
    ||| Level::BitAnd.operator(t) is Some
    ||| Level::BitXor.operator(t) is Some
    ||| Level::BitOr.operator(t) is Some
}

/// An operand that no binary operator follows is an expression of every
/// level, and the token behind it has been looked at.
pub proof fn law_operand_alone(level: Level, c: Cursor)
    requires
        parse_unary(c).result is Ok,
        parse_unary(c).cursor.peek().result matches Ok(t) && !is_binary_operator(t),
    ensures
        parse_binary(level, c) == parsed(
            parse_unary(c).result->Ok_0,
            parse_unary(c).cursor.peek().cursor,
        ),
    decreases level.rank(),
{
    lemma_unary(c);
    let after = parse_unary(c).cursor;
    lemma_cursor_steps(after);
    match level.tighter() {
        Some(tighter) => {
            law_operand_alone(tighter, c);
        },
        None => {},
    }
}

/// An operand that neither a binary operator nor an assignment follows is
/// a whole expression.
pub proof fn law_expression_of_one_operand(c: Cursor)
    requires
        parse_unary(c).result is Ok,
        parse_unary(c).cursor.peek().result matches Ok(t) && !is_binary_operator(t) && t
            != TokenView::ASSIGN,
    ensures
        parse_assign(c) == parsed(parse_unary(c).result->Ok_0, parse_unary(c).cursor.peek().cursor),
{
    lemma_unary(c);
    lemma_cursor_steps(parse_unary(c).cursor);
    law_operand_alone(Level::BitOr, c);
}

} // verus!
