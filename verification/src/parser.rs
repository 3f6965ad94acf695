//! Syntax trees, parse errors and the parser.

use vstd::prelude::*;
use crate::grammar::{
    expect, parse_assign, parse_binary, parse_binary_tail, parse_compound, parse_factor,
    parse_statement, parse_statements, parse_unary, parsed, Level,
};
use crate::grammar_laws::{
    lemma_binary, lemma_cursor_steps, lemma_expect, lemma_operand, lemma_statement,
};
use crate::lexer::{FloatLiteral, FloatLiteralView, Lexer, LexerError, TokenView, Tokens};
use crate::scan::Cursor;

verus! {

/// Why no statement could be parsed.
#[derive(Debug, PartialEq)]
pub enum ParserError {
    /// The first token was expected, the second was found.
    ExpectError(Tokens, Tokens),
    /// A token that starts no expression, where one has to start.
    SyntaxError,
    /// No token could be scanned.
    Lexer(LexerError),
}

/// A parse error as a plain value.
pub enum ParserErrorView {
    ExpectError(TokenView, TokenView),
    SyntaxError,
    Lexer(LexerError),
}

impl View for ParserError {
    type V = ParserErrorView;

    open spec fn view(&self) -> ParserErrorView {
        match self {
            ParserError::ExpectError(expected, got) => ParserErrorView::ExpectError(expected@, got@),
            ParserError::SyntaxError => ParserErrorView::SyntaxError,
            ParserError::Lexer(e) => ParserErrorView::Lexer(*e),
        }
    }
}

impl From<LexerError> for ParserError {
    fn from(e: LexerError) -> (r: ParserError) {
        ParserError::Lexer(e)
    }
}

impl vstd::std_specs::convert::FromSpecImpl<LexerError> for ParserError {
    open spec fn obeys_from_spec() -> bool {
        true
    }

    open spec fn from_spec(e: LexerError) -> ParserError {
        ParserError::Lexer(e)
    }
}

/// What a node of the tree stands for.
#[derive(PartialEq, Eq, Debug)]
pub enum Operation {
    NUMBER(i32),
    FLOAT(FloatLiteral),
    IDENT(String),
    BITNOT,
    NEGATE,
    MULTIPLY,
    DIVIDE,
    MODULO,
    ADD,
    SUBTRACT,
    LSHIFT,
    RSHIFT,
    BITOR,
    BITXOR,
    BITAND,
    ASSIGN,
    /// Joins two statements: both are evaluated, the second gives the value.
    GLUE,
}

/// An operation as a plain value.
pub enum OperationView {
    NUMBER(i32),
    FLOAT(FloatLiteralView),
    IDENT(Seq<char>),
    BITNOT,
    NEGATE,
    MULTIPLY,
    DIVIDE,
    MODULO,
    ADD,
    SUBTRACT,
    LSHIFT,
    RSHIFT,
    BITOR,
    BITXOR,
    BITAND,
    ASSIGN,
    GLUE,
}

impl View for Operation {
    type V = OperationView;

    open spec fn view(&self) -> OperationView {
        match self {
            Operation::NUMBER(n) => OperationView::NUMBER(*n),
            Operation::FLOAT(f) => OperationView::FLOAT(f@),
            Operation::IDENT(name) => OperationView::IDENT(name@),
            Operation::BITNOT => OperationView::BITNOT,
            Operation::NEGATE => OperationView::NEGATE,
            Operation::MULTIPLY => OperationView::MULTIPLY,
            Operation::DIVIDE => OperationView::DIVIDE,
            Operation::MODULO => OperationView::MODULO,
            Operation::ADD => OperationView::ADD,
            Operation::SUBTRACT => OperationView::SUBTRACT,
            Operation::LSHIFT => OperationView::LSHIFT,
            Operation::RSHIFT => OperationView::RSHIFT,
            Operation::BITOR => OperationView::BITOR,
            Operation::BITXOR => OperationView::BITXOR,
            Operation::BITAND => OperationView::BITAND,
            Operation::ASSIGN => OperationView::ASSIGN,
            Operation::GLUE => OperationView::GLUE,
        }
    }
}

impl OperationView {
    /// A literal or a reference to a variable.
    pub open spec fn is_leaf(self) -> bool {
        self is NUMBER || self is FLOAT || self is IDENT
    }

    /// An operator with one operand.
    pub open spec fn is_unary(self) -> bool {
        self is BITNOT || self is NEGATE
    }

    /// An operator with two operands.
    pub open spec fn is_binary(self) -> bool {
        !self.is_leaf() && !self.is_unary()
    }
}

/// A node of the syntax tree, which owns its operands.
#[derive(Debug, PartialEq)]
pub struct AST {
    pub op: Operation,
    pub left: Option<Box<AST>>,
    pub right: Option<Box<AST>>,
}

/// A syntax tree as a plain value.
pub struct Tree {
    pub op: OperationView,
    pub left: Option<Box<Tree>>,
    pub right: Option<Box<Tree>>,
}

impl Tree {
    /// A node without operands.
    pub open spec fn leaf(op: OperationView) -> Tree {
        Tree { op, left: None, right: None }
    }

    /// A node with one operand.
    pub open spec fn unary(op: OperationView, operand: Tree) -> Tree {
        Tree { op, left: Some(Box::new(operand)), right: None }
    }

    /// A node with two operands.
    pub open spec fn binary(op: OperationView, left: Tree, right: Tree) -> Tree {
        Tree { op, left: Some(Box::new(left)), right: Some(Box::new(right)) }
    }

    /// Every node has the operands that its operation takes, and no others.
    pub open spec fn well_formed(self) -> bool
        decreases self,
    {
        if self.op.is_leaf() {
            self.left is None && self.right is None
        } else if self.op.is_unary() {
            &&& self.right is None
            &&& self.left matches Some(operand) && operand.well_formed()
        } else {
            &&& self.left matches Some(left) && left.well_formed()
            &&& self.right matches Some(right) && right.well_formed()
        }
    }
}

impl AST {
    /// The tree as a plain value.
    pub open spec fn tree(&self) -> Tree
        decreases self,
    {
        Tree {
            op: self.op@,
            left: match self.left {
                Some(operand) => Some(Box::new(operand.tree())),
                None => None,
            },
            right: match self.right {
                Some(operand) => Some(Box::new(operand.tree())),
                None => None,
            },
        }
    }
}

impl View for AST {
    type V = Tree;

    open spec fn view(&self) -> Tree {
        self.tree()
    }
}

/// A parsed tree or the error, as plain values.
pub open spec fn tree_view(r: Result<AST, ParserError>) -> Result<Tree, ParserErrorView> {
    match r {
        Ok(tree) => Ok(tree@),
        Err(e) => Err(e@),
    }
}

/// The tree of a statement, if it has one, as a plain value.
pub open spec fn optional_tree(tree: Option<AST>) -> Option<Tree> {
    match tree {
        Some(t) => Some(t@),
        None => None,
    }
}

/// A parsed statement or the error, as plain values.
pub open spec fn statement_view(r: Result<Option<AST>, ParserError>) -> Result<
    Option<Tree>,
    ParserErrorView,
> {
    match r {
        Ok(tree) => Ok(optional_tree(tree)),
        Err(e) => Err(e@),
    }
}

/// The error of a step that gives no value, as a plain value.
pub open spec fn step_view(r: Result<(), ParserError>) -> Result<(), ParserErrorView> {
    match r {
        Ok(_) => Ok(()),
        Err(e) => Err(e@),
    }
}

/// A node with two operands.
fn binary(op: Operation, left: AST, right: AST) -> (tree: AST)
    ensures
        tree@ == Tree::binary(op@, left@, right@),
{
    AST { op, left: Some(Box::new(left)), right: Some(Box::new(right)) }
}

/// A node with one operand.
fn unary(op: Operation, operand: AST) -> (tree: AST)
    ensures
        tree@ == Tree::unary(op@, operand@),
{
    AST { op, left: Some(Box::new(operand)), right: None }
}

/// A node without operands.
fn leaf(op: Operation) -> (tree: AST)
    ensures
        tree@ == Tree::leaf(op@),
{
    AST { op, left: None, right: None }
}

/// A recursive-descent parser over the tokens of one lexer.
pub struct Parser<'a> {
    lexer: Lexer<'a>,
}

impl<'a> View for Parser<'a> {
    type V = Cursor;

    closed spec fn view(&self) -> Cursor {
        self.lexer@
    }
}

impl<'a> Parser<'a> {
    /// The lexer is well formed.
    pub closed spec fn wf(&self) -> bool {
        self.lexer.wf()
    }

    /// A parser of the tokens that `lexer` gives.
    pub fn new(lexer: Lexer<'a>) -> (parser: Parser<'a>)
        requires
            lexer.wf(),
        ensures
            parser.wf(),
            parser@ == lexer@,
    {
        Parser { lexer }
    }

    /// Takes the next token, which has to be `t`.
    fn expect(&mut self, t: Tokens) -> (r: Result<(), ParserError>)
        requires
            old(self).wf(),
        ensures
            final(self).wf(),
            step_view(r) == expect(old(self)@, t@).result,
            final(self)@ == expect(old(self)@, t@).cursor,
    {
        let t2 = match self.lexer.take() {
            Ok(t2) => t2,
            Err(e) => {
                return Err(ParserError::Lexer(e));
            },
        };
        if t2 == t {
            Ok(())
        } else {
            Err(ParserError::ExpectError(t, t2))
        }
    }

    /// A primary: an expression in parentheses, a literal or a name.
    fn factor(&mut self) -> (r: Result<AST, ParserError>)
        requires
            old(self).wf(),
        ensures
            final(self).wf(),
            tree_view(r) == parse_factor(old(self)@).result,
            final(self)@ == parse_factor(old(self)@).cursor,
        decreases old(self)@.rest.len(), 0nat,
    {
        let t = match self.lexer.peek() {
            Ok(t) => t,
            Err(e) => {
                return Err(ParserError::Lexer(e));
            },
        };
        let nested = match t {
            Tokens::LPARENT => true,
            Tokens::NUMBER(_) | Tokens::FLOAT(_) | Tokens::IDENT(_) => false,
            _ => {
                return Err(ParserError::SyntaxError);
            },
        };
        if nested {
            proof {
                lemma_cursor_steps(old(self)@);
            }
            self.lexer.consume();
            let tree = match self.assign() {
                Ok(tree) => tree,
                Err(e) => {
                    return Err(e);
                },
            };
            match self.expect(Tokens::RPARENT) {
                Ok(_) => Ok(tree),
                Err(e) => Err(e),
            }
        } else {
            match self.lexer.take() {
                Ok(Tokens::NUMBER(v)) => Ok(leaf(Operation::NUMBER(v))),
                Ok(Tokens::FLOAT(v)) => Ok(leaf(Operation::FLOAT(v))),
                Ok(Tokens::IDENT(v)) => Ok(leaf(Operation::IDENT(v))),
                _ => vstd::pervasive::unreached(),
            }
        }
    }

    /// Unary operators before a primary.
    fn unary(&mut self) -> (r: Result<AST, ParserError>)
        requires
            old(self).wf(),
        ensures
            final(self).wf(),
            tree_view(r) == parse_unary(old(self)@).result,
            final(self)@ == parse_unary(old(self)@).cursor,
        decreases old(self)@.rest.len(), 1nat,
    {
        let t = match self.lexer.peek() {
            Ok(t) => t,
            Err(e) => {
                return Err(ParserError::Lexer(e));
            },
        };
        proof {
            lemma_cursor_steps(old(self)@);
        }
        match t {
            Tokens::PLUS => {
                self.lexer.consume();
                self.unary()
            },
            Tokens::MINUS => {
                self.lexer.consume();
                match self.unary() {
                    Ok(operand) => Ok(unary(Operation::NEGATE, operand)),
                    Err(e) => Err(e),
                }
            },
            Tokens::BITNOT => {
                self.lexer.consume();
                match self.unary() {
                    Ok(operand) => Ok(unary(Operation::BITNOT, operand)),
                    Err(e) => Err(e),
                }
            },
            _ => self.factor(),
        }
    }

    /// Products, quotients and remainders.
    fn mult(&mut self) -> (r: Result<AST, ParserError>)
        requires
            old(self).wf(),
        ensures
            final(self).wf(),
            tree_view(r) == parse_binary(Level::Product, old(self)@).result,
            final(self)@ == parse_binary(Level::Product, old(self)@).cursor,
        decreases old(self)@.rest.len(), 4nat,
    {
        let mut left = match self.unary() {
            Ok(tree) => tree,
            Err(e) => {
                return Err(e);
            },
        };
        proof {
            lemma_operand(Level::Product, old(self)@);
        }
        loop
            invariant
                self.wf(),
                self@.rest.len() <= old(self)@.rest.len(),
                parse_binary_tail(Level::Product, left@, self@) == parse_binary(
                    Level::Product,
                    old(self)@,
                ),
            decreases self@.rest.len(),
        {
            let ghost here = self@;
            let t = match self.lexer.peek() {
                Ok(t) => t,
                Err(e) => {
                    return Err(ParserError::Lexer(e));
                },
            };
            let op = match t {
                Tokens::ASTERISK => Operation::MULTIPLY,
                Tokens::DIVIDE => Operation::DIVIDE,
                Tokens::MODULO => Operation::MODULO,
                _ => {
                    return Ok(left);
                },
            };
            self.lexer.consume();
            proof {
                lemma_cursor_steps(here);
                lemma_operand(Level::Product, self@);
            }
            let right = match self.unary() {
                Ok(tree) => tree,
                Err(e) => {
                    return Err(e);
                },
            };
            left = binary(op, left, right);
        }
    }

    /// Sums and differences.
    fn add(&mut self) -> (r: Result<AST, ParserError>)
        requires
            old(self).wf(),
        ensures
            final(self).wf(),
            tree_view(r) == parse_binary(Level::Sum, old(self)@).result,
            final(self)@ == parse_binary(Level::Sum, old(self)@).cursor,
        decreases old(self)@.rest.len(), 7nat,
    {
        let mut left = match self.mult() {
            Ok(tree) => tree,
            Err(e) => {
                return Err(e);
            },
        };
        proof {
            lemma_operand(Level::Sum, old(self)@);
        }
        loop
            invariant
                self.wf(),
                self@.rest.len() <= old(self)@.rest.len(),
                parse_binary_tail(Level::Sum, left@, self@) == parse_binary(
                    Level::Sum,
                    old(self)@,
                ),
            decreases self@.rest.len(),
        {
            let ghost here = self@;
            let t = match self.lexer.peek() {
                Ok(t) => t,
                Err(e) => {
                    return Err(ParserError::Lexer(e));
                },
            };
            let op = match t {
                Tokens::PLUS => Operation::ADD,
                Tokens::MINUS => Operation::SUBTRACT,
                _ => {
                    return Ok(left);
                },
            };
            self.lexer.consume();
            proof {
                lemma_cursor_steps(here);
                lemma_operand(Level::Sum, self@);
            }
            let right = match self.mult() {
                Ok(tree) => tree,
                Err(e) => {
                    return Err(e);
                },
            };
            left = binary(op, left, right);
        }
    }

    /// Shifts.
    fn bitwise_shift(&mut self) -> (r: Result<AST, ParserError>)
        requires
            old(self).wf(),
        ensures
            final(self).wf(),
            tree_view(r) == parse_binary(Level::Shift, old(self)@).result,
            final(self)@ == parse_binary(Level::Shift, old(self)@).cursor,
        decreases old(self)@.rest.len(), 10nat,
    {
        let mut left = match self.add() {
            Ok(tree) => tree,
            Err(e) => {
                return Err(e);
            },
        };
        proof {
            lemma_operand(Level::Shift, old(self)@);
        }
        loop
            invariant
                self.wf(),
                self@.rest.len() <= old(self)@.rest.len(),
                parse_binary_tail(Level::Shift, left@, self@) == parse_binary(
                    Level::Shift,
                    old(self)@,
                ),
            decreases self@.rest.len(),
        {
            let ghost here = self@;
            let t = match self.lexer.peek() {
                Ok(t) => t,
                Err(e) => {
                    return Err(ParserError::Lexer(e));
                },
            };
            let op = match t {
                Tokens::LSHIFT => Operation::LSHIFT,
                Tokens::RSHIFT => Operation::RSHIFT,
                _ => {
                    return Ok(left);
                },
            };
            self.lexer.consume();
            proof {
                lemma_cursor_steps(here);
                lemma_operand(Level::Shift, self@);
            }
            let right = match self.add() {
                Ok(tree) => tree,
                Err(e) => {
                    return Err(e);
                },
            };
            left = binary(op, left, right);
        }
    }

    /// Bitwise and.
    fn bitwise_and(&mut self) -> (r: Result<AST, ParserError>)
        requires
            old(self).wf(),
        ensures
            final(self).wf(),
            tree_view(r) == parse_binary(Level::BitAnd, old(self)@).result,
            final(self)@ == parse_binary(Level::BitAnd, old(self)@).cursor,
        decreases old(self)@.rest.len(), 13nat,
    {
        let mut left = match self.bitwise_shift() {
            Ok(tree) => tree,
            Err(e) => {
                return Err(e);
            },
        };
        proof {
            lemma_operand(Level::BitAnd, old(self)@);
        }
        loop
            invariant
                self.wf(),
                self@.rest.len() <= old(self)@.rest.len(),
                parse_binary_tail(Level::BitAnd, left@, self@) == parse_binary(
                    Level::BitAnd,
                    old(self)@,
                ),
            decreases self@.rest.len(),
        {
            let ghost here = self@;
            let t = match self.lexer.peek() {
                Ok(t) => t,
                Err(e) => {
                    return Err(ParserError::Lexer(e));
                },
            };
            let op = match t {
                Tokens::AMPER => Operation::BITAND,
                _ => {
                    return Ok(left);
                },
            };
            self.lexer.consume();
            proof {
                lemma_cursor_steps(here);
                lemma_operand(Level::BitAnd, self@);
            }
            let right = match self.bitwise_shift() {
                Ok(tree) => tree,
                Err(e) => {
                    return Err(e);
                },
            };
            left = binary(op, left, right);
        }
    }

    /// Bitwise exclusive or.
    fn bitwise_xor(&mut self) -> (r: Result<AST, ParserError>)
        requires
            old(self).wf(),
        ensures
            final(self).wf(),
            tree_view(r) == parse_binary(Level::BitXor, old(self)@).result,
            final(self)@ == parse_binary(Level::BitXor, old(self)@).cursor,
        decreases old(self)@.rest.len(), 16nat,
    {
        let mut left = match self.bitwise_and() {
            Ok(tree) => tree,
            Err(e) => {
                return Err(e);
            },
        };
        proof {
            lemma_operand(Level::BitXor, old(self)@);
        }
        loop
            invariant
                self.wf(),
                self@.rest.len() <= old(self)@.rest.len(),
                parse_binary_tail(Level::BitXor, left@, self@) == parse_binary(
                    Level::BitXor,
                    old(self)@,
                ),
            decreases self@.rest.len(),
        {
            let ghost here = self@;
            let t = match self.lexer.peek() {
                Ok(t) => t,
                Err(e) => {
                    return Err(ParserError::Lexer(e));
                },
            };
            let op = match t {
                Tokens::BITXOR => Operation::BITXOR,
                _ => {
                    return Ok(left);
                },
            };
            self.lexer.consume();
            proof {
                lemma_cursor_steps(here);
                lemma_operand(Level::BitXor, self@);
            }
            let right = match self.bitwise_and() {
                Ok(tree) => tree,
                Err(e) => {
                    return Err(e);
                },
            };
            left = binary(op, left, right);
        }
    }

    /// Bitwise or.
    fn bitwise_or(&mut self) -> (r: Result<AST, ParserError>)
        requires
            old(self).wf(),
        ensures
            final(self).wf(),
            tree_view(r) == parse_binary(Level::BitOr, old(self)@).result,
            final(self)@ == parse_binary(Level::BitOr, old(self)@).cursor,
        decreases old(self)@.rest.len(), 19nat,
    {
        let mut left = match self.bitwise_xor() {
            Ok(tree) => tree,
            Err(e) => {
                return Err(e);
            },
        };
        proof {
            lemma_operand(Level::BitOr, old(self)@);
        }
        loop
            invariant
                self.wf(),
                self@.rest.len() <= old(self)@.rest.len(),
                parse_binary_tail(Level::BitOr, left@, self@) == parse_binary(
                    Level::BitOr,
                    old(self)@,
                ),
            decreases self@.rest.len(),
        {
            let ghost here = self@;
            let t = match self.lexer.peek() {
                Ok(t) => t,
                Err(e) => {
                    return Err(ParserError::Lexer(e));
                },
            };
            let op = match t {
                Tokens::BITOR => Operation::BITOR,
                _ => {
                    return Ok(left);
                },
            };
            self.lexer.consume();
            proof {
                lemma_cursor_steps(here);
                lemma_operand(Level::BitOr, self@);
            }
            let right = match self.bitwise_xor() {
                Ok(tree) => tree,
                Err(e) => {
                    return Err(e);
                },
            };
            left = binary(op, left, right);
        }
    }

    /// An assignment, or an expression without one.
    fn assign(&mut self) -> (r: Result<AST, ParserError>)
        requires
            old(self).wf(),
        ensures
            final(self).wf(),
            tree_view(r) == parse_assign(old(self)@).result,
            final(self)@ == parse_assign(old(self)@).cursor,
        decreases old(self)@.rest.len(), 20nat,
    {
        let left = match self.bitwise_or() {
            Ok(tree) => tree,
            Err(e) => {
                return Err(e);
            },
        };
        proof {
            lemma_binary(Level::BitOr, old(self)@);
            lemma_cursor_steps(self@);
        }
        let t = match self.lexer.peek() {
            Ok(t) => t,
            Err(e) => {
                return Err(ParserError::Lexer(e));
            },
        };
        match t {
            Tokens::ASSIGN => {
                self.lexer.consume();
                match self.assign() {
                    Ok(right) => Ok(binary(Operation::ASSIGN, left, right)),
                    Err(e) => Err(e),
                }
            },
            _ => Ok(left),
        }
    }

    /// A statement: statements in braces, a lone semicolon, or an
    /// expression and a semicolon.
    fn statement(&mut self) -> (r: Result<Option<AST>, ParserError>)
        requires
            old(self).wf(),
        ensures
            final(self).wf(),
            statement_view(r) == parse_statement(old(self)@).result,
            final(self)@ == parse_statement(old(self)@).cursor,
        decreases old(self)@.rest.len(), 22nat,
    {
        let t = match self.lexer.peek() {
            Ok(t) => t,
            Err(e) => {
                return Err(ParserError::Lexer(e));
            },
        };
        proof {
            lemma_cursor_steps(old(self)@);
        }
        match t {
            Tokens::LBRACE => self.compound_statement(),
            Tokens::SEMICOLON => {
                self.lexer.consume();
                Ok(None)
            },
            _ => {
                let tree = match self.assign() {
                    Ok(tree) => tree,
                    Err(e) => {
                        return Err(e);
                    },
                };
                match self.expect(Tokens::SEMICOLON) {
                    Ok(_) => Ok(Some(tree)),
                    Err(e) => Err(e),
                }
            },
        }
    }

    /// Statements in braces, glued in their order.
    fn compound_statement(&mut self) -> (r: Result<Option<AST>, ParserError>)
        requires
            old(self).wf(),
        ensures
            final(self).wf(),
            statement_view(r) == parse_compound(old(self)@).result,
            final(self)@ == parse_compound(old(self)@).cursor,
        decreases old(self)@.rest.len(), 21nat,
    {
        match self.expect(Tokens::LBRACE) {
            Ok(_) => {},
            Err(e) => {
                return Err(e);
            },
        }
        proof {
            lemma_expect(old(self)@, TokenView::LBRACE);
        }
        let mut parent: Option<AST> = None;
        loop
            invariant_except_break
                self.wf(),
                self@.rest.len() < old(self)@.rest.len(),
                parse_statements(optional_tree(parent), self@) == parse_compound(old(self)@),
            ensures
                self.wf(),
                expect(self@, TokenView::RBRACE).result is Ok,
                parsed(optional_tree(parent), expect(self@, TokenView::RBRACE).cursor)
                    == parse_compound(old(self)@),
            decreases self@.rest.len(),
        {
            let ghost here = self@;
            let t = match self.lexer.peek() {
                Ok(t) => t,
                Err(e) => {
                    return Err(ParserError::Lexer(e));
                },
            };
            proof {
                lemma_cursor_steps(here);
            }
            match t {
                Tokens::RBRACE => {
                    break ;
                },
                _ => {},
            }
            proof {
                lemma_statement(self@);
            }
            let right = match self.statement() {
                Ok(tree) => tree,
                Err(e) => {
                    return Err(e);
                },
            };
            parent = match right {
                Some(right) => match parent {
                    Some(left) => Some(binary(Operation::GLUE, left, right)),
                    None => Some(right),
                },
                None => parent,
            };
        }
        match self.expect(Tokens::RBRACE) {
            Ok(_) => Ok(parent),
            Err(e) => Err(e),
        }
    }

    /// Parses one statement: each call gives the tree of the next statement
    /// of the text. A lone semicolon gives no tree, and so do braces with
    /// nothing but semicolons between them.
    pub fn parse(&mut self) -> (r: Result<Option<AST>, ParserError>)
        requires
            old(self).wf(),
        ensures
            final(self).wf(),
            statement_view(r) == parse_statement(old(self)@).result,
            final(self)@ == parse_statement(old(self)@).cursor,
            r matches Ok(Some(tree)) ==> tree@.well_formed(),
            r is Ok ==> !final(self)@.peeked && final(self)@.rest.len() < old(self)@.rest.len(),
    {
        proof {
            lemma_statement(old(self)@);
        }
        self.statement()
    }
}

} // verus!
