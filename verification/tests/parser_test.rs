use madx_language::lexer::{FloatLiteral, Lexer, LexerError, LexerIoError, Tokens};
use madx_language::parser::{Operation, Parser, ParserError, AST};

fn parser(text: &str) -> Parser<'_> {
    Parser::new(Lexer::new(text.as_bytes()).unwrap())
}

fn parse(text: &str) -> Result<Option<AST>, ParserError> {
    parser(text).parse()
}

fn num(n: i32) -> AST {
    AST { op: Operation::NUMBER(n), left: None, right: None }
}

fn var(name: &str) -> AST {
    AST { op: Operation::IDENT(name.to_string()), left: None, right: None }
}

fn un(op: Operation, operand: AST) -> AST {
    AST { op, left: Some(Box::new(operand)), right: None }
}

fn bin(op: Operation, left: AST, right: AST) -> AST {
    AST { op, left: Some(Box::new(left)), right: Some(Box::new(right)) }
}

#[test]
fn products_bind_tighter_than_sums() {
    let expected = bin(
        Operation::SUBTRACT,
        bin(
            Operation::ADD,
            num(1),
            bin(Operation::DIVIDE, bin(Operation::MULTIPLY, num(1), num(2)), num(4)),
        ),
        bin(Operation::MODULO, num(9), num(5)),
    );
    assert_eq!(parse("1 + 1 * 2 / 4 - 9 % 5;"), Ok(Some(expected)));
}

#[test]
fn every_level_binds_tighter_than_the_one_before() {
    let expected = bin(
        Operation::BITOR,
        num(1),
        bin(
            Operation::BITXOR,
            num(2),
            bin(
                Operation::BITAND,
                num(3),
                bin(
                    Operation::LSHIFT,
                    num(4),
                    bin(Operation::ADD, num(5), bin(Operation::MULTIPLY, num(6), un(Operation::NEGATE, num(7)))),
                ),
            ),
        ),
    );
    assert_eq!(parse("1 | 2 ^ 3 & 4 << 5 + 6 * -7;"), Ok(Some(expected)));
}

#[test]
fn binary_operators_group_to_the_left() {
    assert_eq!(
        parse("1 - 2 - 3;"),
        Ok(Some(bin(Operation::SUBTRACT, bin(Operation::SUBTRACT, num(1), num(2)), num(3))))
    );
    assert_eq!(
        parse("8 >> 1 << 2;"),
        Ok(Some(bin(Operation::LSHIFT, bin(Operation::RSHIFT, num(8), num(1)), num(2))))
    );
    assert_eq!(
        parse("a | b | c;"),
        Ok(Some(bin(Operation::BITOR, bin(Operation::BITOR, var("a"), var("b")), var("c"))))
    );
}

#[test]
fn assignment_groups_to_the_right() {
    assert_eq!(
        parse("a = b = 3;"),
        Ok(Some(bin(Operation::ASSIGN, var("a"), bin(Operation::ASSIGN, var("b"), num(3)))))
    );
}

#[test]
fn assignment_takes_any_left_side() {
    assert_eq!(
        parse("1 + 2 = 3;"),
        Ok(Some(bin(Operation::ASSIGN, bin(Operation::ADD, num(1), num(2)), num(3))))
    );
}

#[test]
fn parentheses_group() {
    assert_eq!(
        parse("(1 + 2) * 3;"),
        Ok(Some(bin(Operation::MULTIPLY, bin(Operation::ADD, num(1), num(2)), num(3))))
    );
    assert_eq!(parse("((a));"), Ok(Some(var("a"))));
    assert_eq!(
        parse("(a = 1) + 2;"),
        Ok(Some(bin(Operation::ADD, bin(Operation::ASSIGN, var("a"), num(1)), num(2))))
    );
}

#[test]
fn unary_operators_nest() {
    assert_eq!(
        parse("-~+x;"),
        Ok(Some(un(Operation::NEGATE, un(Operation::BITNOT, var("x")))))
    );
    assert_eq!(parse("+5;"), Ok(Some(num(5))));
    assert_eq!(
        parse("2 * -3;"),
        Ok(Some(bin(Operation::MULTIPLY, num(2), un(Operation::NEGATE, num(3)))))
    );
    assert_eq!(
        parse("1 - -1;"),
        Ok(Some(bin(Operation::SUBTRACT, num(1), un(Operation::NEGATE, num(1)))))
    );
}

#[test]
fn float_literal_becomes_a_leaf() {
    let literal = FloatLiteral { whole: 1, fraction: vec![5], exponent: 2 };
    assert_eq!(
        parse("1.5e2;"),
        Ok(Some(AST { op: Operation::FLOAT(literal), left: None, right: None }))
    );
}

#[test]
fn empty_statement_has_no_tree() {
    assert_eq!(parse(";"), Ok(None));
    assert_eq!(parse("{ }"), Ok(None));
    assert_eq!(parse("{ ; ; }"), Ok(None));
    assert_eq!(parse("{ { } ; }"), Ok(None));
}

#[test]
fn compound_statement_glues_its_statements() {
    assert_eq!(
        parse("{ a = 1; a = 2; }"),
        Ok(Some(bin(
            Operation::GLUE,
            bin(Operation::ASSIGN, var("a"), num(1)),
            bin(Operation::ASSIGN, var("a"), num(2)),
        )))
    );
    assert_eq!(
        parse("{ a; b; c; }"),
        Ok(Some(bin(Operation::GLUE, bin(Operation::GLUE, var("a"), var("b")), var("c"))))
    );
    assert_eq!(parse("{ ; a; ; }"), Ok(Some(var("a"))));
    assert_eq!(
        parse("{ a; { b; c; } }"),
        Ok(Some(bin(Operation::GLUE, var("a"), bin(Operation::GLUE, var("b"), var("c")))))
    );
}

#[test]
fn parse_takes_one_statement_at_a_time() {
    let mut parser = parser("a = 1; b; ;");
    assert_eq!(parser.parse(), Ok(Some(bin(Operation::ASSIGN, var("a"), num(1)))));
    assert_eq!(parser.parse(), Ok(Some(var("b"))));
    assert_eq!(parser.parse(), Ok(None));
    assert_eq!(parser.parse(), Err(ParserError::SyntaxError));
}

#[test]
fn missing_semicolon_is_an_expect_error() {
    assert_eq!(parse("1"), Err(ParserError::ExpectError(Tokens::SEMICOLON, Tokens::EOF)));
    assert_eq!(
        parse("1 2;"),
        Err(ParserError::ExpectError(Tokens::SEMICOLON, Tokens::NUMBER(2)))
    );
    assert_eq!(
        parse("a b"),
        Err(ParserError::ExpectError(Tokens::SEMICOLON, Tokens::IDENT("b".to_string())))
    );
}

#[test]
fn missing_parenthesis_is_an_expect_error() {
    assert_eq!(
        parse("(1 + 2;"),
        Err(ParserError::ExpectError(Tokens::RPARENT, Tokens::SEMICOLON))
    );
    assert_eq!(parse("(1"), Err(ParserError::ExpectError(Tokens::RPARENT, Tokens::EOF)));
}

#[test]
fn token_that_starts_no_expression_is_a_syntax_error() {
    assert_eq!(parse("1 + ;"), Err(ParserError::SyntaxError));
    assert_eq!(parse("* 2;"), Err(ParserError::SyntaxError));
    assert_eq!(parse(")"), Err(ParserError::SyntaxError));
    assert_eq!(parse(""), Err(ParserError::SyntaxError));
    assert_eq!(parse("{ 1;"), Err(ParserError::SyntaxError));
    assert_eq!(parse("if;"), Err(ParserError::SyntaxError));
    assert_eq!(parse("\"text\";"), Err(ParserError::SyntaxError));
    assert_eq!(parse("a = ;"), Err(ParserError::SyntaxError));
}

#[test]
fn lexer_errors_are_passed_on() {
    assert_eq!(parse("\"abc"), Err(ParserError::Lexer(LexerError::UnterminatedString)));
    assert_eq!(parse("1 + 'ab';"), Err(ParserError::Lexer(LexerError::CharacterConstantTooLong)));
    assert_eq!(parse("a = 2147483648;"), Err(ParserError::Lexer(LexerError::IntegerOverflow)));
    assert_eq!(parse("(1e"), Err(ParserError::Lexer(LexerError::MalformedFloat)));
    assert_eq!(parse("1 '"), Err(ParserError::Lexer(LexerError::UnterminatedCharacterConstant)));
    assert_eq!(parse("{ a; '"), Err(ParserError::Lexer(LexerError::UnterminatedCharacterConstant)));
}

#[test]
fn failures_of_the_stream_are_passed_on() {
    let failure = |kind| ParserError::Lexer(LexerError::Io(LexerIoError { kind, message: String::new() }));
    let mut parser = Parser::new(Lexer::new(b"1 + \xFF; 2;").unwrap());
    assert_eq!(parser.parse(), Err(failure(std::io::ErrorKind::InvalidData)));
    assert_eq!(parser.parse(), Ok(None));
    assert_eq!(parser.parse(), Ok(Some(num(2))));
    let mut parser = Parser::new(Lexer::new(b"(1 \xE2\x82").unwrap());
    assert_eq!(parser.parse(), Err(failure(std::io::ErrorKind::UnexpectedEof)));
}

#[test]
fn lexer_error_becomes_a_parser_error() {
    assert_eq!(
        ParserError::from(LexerError::MalformedFloat),
        ParserError::Lexer(LexerError::MalformedFloat)
    );
    let failure = LexerIoError { kind: std::io::ErrorKind::InvalidData, message: "bad".to_string() };
    match LexerError::from(failure) {
        LexerError::Io(e) => {
            assert_eq!(e.kind, std::io::ErrorKind::InvalidData);
            assert_eq!(e.message, "bad");
        }
        other => panic!("{:?}", other),
    }
}
