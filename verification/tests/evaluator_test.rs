use madx_language::evaluator::{evaluate, try_evaluate, Environment, EvalError};
use madx_language::lexer::{FloatLiteral, Lexer};
use madx_language::parser::{Operation, Parser, AST};

fn tree(text: &str) -> AST {
    let mut parser = Parser::new(Lexer::new(text.as_bytes()).unwrap());
    parser.parse().unwrap().unwrap()
}

fn run(text: &str, env: &mut Environment) -> Result<i32, EvalError> {
    try_evaluate(tree(text), env)
}

fn value(text: &str) -> Result<i32, EvalError> {
    run(text, &mut Environment::new())
}

#[test]
fn evaluates_by_precedence() {
    assert_eq!(value("1 + 1 * 2 / 4 - 9 % 5;"), Ok(1 + ((1 * 2) / 4) - (9 % 5)));
    assert_eq!(value("1 + 1 * 2 / 4 - 9 % 5;"), Ok(-3));
    assert_eq!(value("2 + 3 * 4;"), Ok(14));
    assert_eq!(value("(2 + 3) * 4;"), Ok(20));
    assert_eq!(value("1 | 6 ^ 7 & 1 << 1 + 1 * 1;"), Ok(1 | (6 ^ (7 & (1 << (1 + (1 * 1)))))));
    assert_eq!(value("1 | 6 ^ 7 & 1 << 1 + 1 * 1;"), Ok(3));
    assert_eq!(value("1 << 2 + 3;"), Ok(32));
}

#[test]
fn assignment_round_trip() {
    let mut env = Environment::new();
    assert_eq!(run("a = 5;", &mut env), Ok(5));
    assert_eq!(run("a;", &mut env), Ok(5));
    assert_eq!(env.get("a"), Some(5));
    assert_eq!(run("a = a + 1;", &mut env), Ok(6));
    assert_eq!(run("a;", &mut env), Ok(6));
}

#[test]
fn assignments_chain_to_the_right() {
    let mut env = Environment::new();
    assert_eq!(run("a = b = 3;", &mut env), Ok(3));
    assert_eq!(env.get("a"), Some(3));
    assert_eq!(env.get("b"), Some(3));
    assert_eq!(run("c = (d = 2) + 1;", &mut env), Ok(3));
    assert_eq!(env.get("c"), Some(3));
    assert_eq!(env.get("d"), Some(2));
}

#[test]
fn compound_statement_has_its_last_value() {
    let mut env = Environment::new();
    assert_eq!(run("{ a = 1; a = 2; }", &mut env), Ok(2));
    assert_eq!(env.get("a"), Some(2));
    assert_eq!(run("{ b = a + 1; c = b * 2; b + c; }", &mut env), Ok(9));
}

#[test]
fn division_by_zero_has_no_value() {
    assert_eq!(value("1 / 0;"), Err(EvalError::DivisionByZero));
    assert_eq!(value("1 % 0;"), Err(EvalError::DivisionByZero));
    assert_eq!(value("0 / 0;"), Err(EvalError::DivisionByZero));
    assert_eq!(value("5 / (3 - 3);"), Err(EvalError::DivisionByZero));
}

#[test]
fn division_rounds_towards_zero() {
    assert_eq!(value("7 / 2;"), Ok(3));
    assert_eq!(value("-7 / 2;"), Ok(-3));
    assert_eq!(value("7 / -2;"), Ok(-3));
    assert_eq!(value("-7 / -2;"), Ok(3));
    assert_eq!(value("7 % 2;"), Ok(1));
    assert_eq!(value("-7 % 2;"), Ok(-1));
    assert_eq!(value("7 % -2;"), Ok(1));
    assert_eq!(value("-7 % -2;"), Ok(-1));
    assert_eq!(value("(-2147483647 - 1) / 1;"), Ok(i32::MIN));
    assert_eq!(value("(-2147483647 - 1) % 7;"), Ok(i32::MIN % 7));
}

#[test]
fn results_outside_the_domain_have_no_value() {
    assert_eq!(value("2147483647 + 1;"), Err(EvalError::Overflow));
    assert_eq!(value("-2147483647 - 2;"), Err(EvalError::Overflow));
    assert_eq!(value("65536 * 32768;"), Err(EvalError::Overflow));
    assert_eq!(value("-(-2147483647 - 1);"), Err(EvalError::Overflow));
    assert_eq!(value("(-2147483647 - 1) / -1;"), Err(EvalError::Overflow));
    assert_eq!(value("(-2147483647 - 1) % -1;"), Err(EvalError::Overflow));
    assert_eq!(value("2147483646 + 1;"), Ok(i32::MAX));
    assert_eq!(value("-2147483647 - 1;"), Ok(i32::MIN));
    assert_eq!(value("65536 * 32767;"), Ok(65536 * 32767));
}

#[test]
fn bitwise_operators() {
    assert_eq!(value("6 & 3;"), Ok(2));
    assert_eq!(value("6 | 3;"), Ok(7));
    assert_eq!(value("6 ^ 3;"), Ok(5));
    assert_eq!(value("~5;"), Ok(-6));
    assert_eq!(value("~0;"), Ok(-1));
    assert_eq!(value("-1 & 255;"), Ok(255));
}

#[test]
fn shifts() {
    assert_eq!(value("1 << 4;"), Ok(16));
    assert_eq!(value("1 << 31;"), Ok(i32::MIN));
    assert_eq!(value("3 << 31;"), Ok(i32::MIN));
    assert_eq!(value("256 >> 4;"), Ok(16));
    assert_eq!(value("-8 >> 1;"), Ok(-4));
    assert_eq!(value("-1 >> 31;"), Ok(-1));
    assert_eq!(value("1 << 0;"), Ok(1));
    assert_eq!(value("1 << 32;"), Err(EvalError::Overflow));
    assert_eq!(value("1 >> 32;"), Err(EvalError::Overflow));
    assert_eq!(value("1 << -1;"), Err(EvalError::Overflow));
}

#[test]
fn undefined_variable_has_no_value() {
    assert_eq!(value("x;"), Err(EvalError::NotDefined("x".to_string())));
    assert_eq!(value("1 + y;"), Err(EvalError::NotDefined("y".to_string())));
    assert_eq!(value("x = x;"), Err(EvalError::NotDefined("x".to_string())));
}

#[test]
fn assignment_to_no_identifier_has_no_value() {
    assert_eq!(value("1 = 2;"), Err(EvalError::NotAnIdentifier));
    assert_eq!(value("a + 1 = 2;"), Err(EvalError::NotAnIdentifier));
    assert_eq!(value("-a = 2;"), Err(EvalError::NotAnIdentifier));
}

#[test]
fn source_is_evaluated_before_the_target_is_looked_at() {
    let mut env = Environment::new();
    assert_eq!(run("1 = (b = 2);", &mut env), Err(EvalError::NotAnIdentifier));
    assert_eq!(env.get("b"), Some(2));
    assert_eq!(run("1 = 1 / 0;", &mut env), Err(EvalError::DivisionByZero));
}

#[test]
fn what_was_assigned_before_a_failure_stays() {
    let mut env = Environment::new();
    assert_eq!(run("{ a = 1; b = 1 / 0; c = 3; }", &mut env), Err(EvalError::DivisionByZero));
    assert_eq!(env.get("a"), Some(1));
    assert_eq!(env.get("b"), None);
    assert_eq!(env.get("c"), None);
    assert_eq!(run("(x = 7) + nothing;", &mut env), Err(EvalError::NotDefined("nothing".to_string())));
    assert_eq!(env.get("x"), Some(7));
}

#[test]
fn operands_are_evaluated_from_left_to_right() {
    let mut env = Environment::new();
    assert_eq!(run("(a = 2) * (a + 1);", &mut env), Ok(6));
    assert_eq!(run("(a = 1) - (a = 5);", &mut env), Ok(-4));
    assert_eq!(env.get("a"), Some(5));
    assert_eq!(run("z / 0;", &mut env), Err(EvalError::NotDefined("z".to_string())));
}

#[test]
fn float_literal_is_cut_to_an_integer() {
    assert_eq!(value("1.5e1;"), Ok(15));
    assert_eq!(value("2.75;"), Ok(2));
    assert_eq!(value("0.001e3;"), Ok(1));
    assert_eq!(value("0.001e2;"), Ok(0));
    assert_eq!(value("123.456e-2;"), Ok(1));
    assert_eq!(value("123.456e2;"), Ok(12345));
    assert_eq!(value("123.456e5;"), Ok(12345600));
    assert_eq!(value("0.5e-3;"), Ok(0));
    assert_eq!(value("1.5e10;"), Ok(i32::MAX));
    assert_eq!(value("0.0e2147483647;"), Ok(0));
    assert_eq!(value(".5 + .5;"), Ok(0));
    assert_eq!(value("2.5 * 2;"), Ok(4));
}

#[test]
fn float_literal_with_a_large_whole_part() {
    let literal = |whole: u32, exponent: i32| AST {
        op: Operation::FLOAT(FloatLiteral { whole, fraction: vec![9, 9], exponent }),
        left: None,
        right: None,
    };
    let mut env = Environment::new();
    assert_eq!(try_evaluate(literal(u32::MAX, 0), &mut env), Ok(i32::MAX));
    assert_eq!(try_evaluate(literal(u32::MAX, -1), &mut env), Ok(429496729));
    assert_eq!(try_evaluate(literal(u32::MAX, -9), &mut env), Ok(4));
    assert_eq!(try_evaluate(literal(u32::MAX, -10), &mut env), Ok(0));
    assert_eq!(try_evaluate(literal(214748364, 1), &mut env), Ok(i32::MAX));
    assert_eq!(try_evaluate(literal(214748363, 1), &mut env), Ok(2147483639));
    assert_eq!(try_evaluate(literal(7, i32::MIN), &mut env), Ok(0));
}

#[test]
fn node_without_its_operands_has_no_value() {
    let mut env = Environment::new();
    let bare = |op: Operation| AST { op, left: None, right: None };
    assert_eq!(try_evaluate(bare(Operation::ADD), &mut env), Err(EvalError::MissingOperand));
    assert_eq!(try_evaluate(bare(Operation::NEGATE), &mut env), Err(EvalError::MissingOperand));
    assert_eq!(try_evaluate(bare(Operation::BITNOT), &mut env), Err(EvalError::MissingOperand));
    assert_eq!(try_evaluate(bare(Operation::ASSIGN), &mut env), Err(EvalError::MissingOperand));
    assert_eq!(try_evaluate(bare(Operation::GLUE), &mut env), Err(EvalError::MissingOperand));
    let half = AST {
        op: Operation::MULTIPLY,
        left: Some(Box::new(bare(Operation::NUMBER(2)))),
        right: None,
    };
    assert_eq!(try_evaluate(half, &mut env), Err(EvalError::MissingOperand));
}

#[test]
fn evaluate_gives_the_value() {
    let mut env = Environment::new();
    assert_eq!(evaluate(tree("2 * 21;"), &mut env), 42);
    assert_eq!(evaluate(tree("{ a = 4; a * a; }"), &mut env), 16);
    assert_eq!(env.get("a"), Some(4));
}

#[test]
fn environment_keeps_the_last_value() {
    let mut env = Environment::new();
    assert_eq!(env.get("a"), None);
    env.insert("a".to_string(), 1);
    env.insert("b".to_string(), 2);
    env.insert("a".to_string(), 3);
    assert_eq!(env.get("a"), Some(3));
    assert_eq!(env.get("b"), Some(2));
    assert_eq!(env.get(""), None);
}
