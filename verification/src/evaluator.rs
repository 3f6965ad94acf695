//! The evaluator: the value of a tree in the integer domain, and what the
//! evaluation does to the variables.

use vstd::prelude::*;
use vstd::hash_map::StringHashMap;
use crate::numeral::{truncate, truncated};
use crate::parser::{Operation, OperationView, Tree, AST};

verus! {

/// The variables and their values.
pub struct Environment {
    vars: StringHashMap<i32>,
}

impl View for Environment {
    type V = Map<Seq<char>, i32>;

    closed spec fn view(&self) -> Map<Seq<char>, i32> {
        self.vars@
    }
}

impl Environment {
    /// No variable is defined.
    pub fn new() -> (env: Environment)
        ensures
            env@ == Map::<Seq<char>, i32>::empty(),
    {
        Environment { vars: StringHashMap::new() }
    }

    /// The value of `name`, if it is defined.
    pub fn get(&self, name: &str) -> (value: Option<i32>)
        ensures
            value == (if self@.contains_key(name@) {
                Some(self@[name@])
            } else {
                None
            }),
    {
        match self.vars.get(name) {
            Some(v) => Some(*v),
            None => None,
        }
    }

    /// Gives `name` the value `value`, whether it had one or not.
    pub fn insert(&mut self, name: String, value: i32)
        ensures
            final(self)@ == old(self)@.insert(name@, value),
    {
        self.vars.insert(name, value);
    }
}

/// Why a tree has no value.
#[derive(Debug, PartialEq)]
pub enum EvalError {
    /// A variable was read that no assignment has defined.
    NotDefined(String),
    /// The left side of an assignment is no identifier.
    NotAnIdentifier,
    DivisionByZero,
    /// A result outside the integer domain, or a shift by a count that is
    /// negative or not below the width of an integer.
    Overflow,
    /// A node lacks an operand that its operation takes.
    MissingOperand,
}

/// Why a tree has no value, as a plain value.
pub enum EvalErrorView {
    NotDefined(Seq<char>),
    NotAnIdentifier,
    DivisionByZero,
    Overflow,
    MissingOperand,
}

impl View for EvalError {
    type V = EvalErrorView;

    open spec fn view(&self) -> EvalErrorView {
        match self {
            EvalError::NotDefined(name) => EvalErrorView::NotDefined(name@),
            EvalError::NotAnIdentifier => EvalErrorView::NotAnIdentifier,
            EvalError::DivisionByZero => EvalErrorView::DivisionByZero,
            EvalError::Overflow => EvalErrorView::Overflow,
            EvalError::MissingOperand => EvalErrorView::MissingOperand,
        }
    }
}

/// A value or the error, as plain values.
pub open spec fn value_view(r: Result<i32, EvalError>) -> Result<i32, EvalErrorView> {
    match r {
        Ok(v) => Ok(v),
        Err(e) => Err(e@),
    }
}

/// What an evaluation gave, and the variables after it.
pub struct Evaluated {
    pub result: Result<i32, EvalErrorView>,
    pub env: Map<Seq<char>, i32>,
}

/// `v` where it is an integer of the domain.
pub open spec fn in_domain(v: int) -> Result<i32, EvalErrorView> {
    if i32::MIN <= v <= i32::MAX {
        Ok(v as i32)
    } else {
        Err(EvalErrorView::Overflow)
    }
}

/// The quotient of `a` by `b`, rounded towards zero.
pub open spec fn quotient(a: int, b: int) -> int {
    if a >= 0 {
        a / b
    } else {
        -((-a) / b)
    }
}

/// What is left of `a` after the division by `b`; it has the sign of `a`.
pub open spec fn remainder(a: int, b: int) -> int {
    if a >= 0 {
        a % b
    } else {
        -((-a) % b)
    }
}

/// The value of a unary operation.
pub open spec fn apply_unary(op: OperationView, a: i32) -> Result<i32, EvalErrorView> {
    match op {
        OperationView::NEGATE => in_domain(-a),
        _ => Ok(!a),
    }
}

/// The value of a binary operation of arithmetic.
pub open spec fn apply_binary(op: OperationView, a: i32, b: i32) -> Result<i32, EvalErrorView> {
    match op {
        OperationView::ADD => in_domain(a + b),
        OperationView::SUBTRACT => in_domain(a - b),
        OperationView::MULTIPLY => in_domain(a * b),
        OperationView::DIVIDE => if b == 0 {
            Err(EvalErrorView::DivisionByZero)
        } else {
            in_domain(quotient(a as int, b as int))
        },
        OperationView::MODULO => if b == 0 {
            Err(EvalErrorView::DivisionByZero)
        } else if a == i32::MIN && b == -1 {
            Err(EvalErrorView::Overflow)
        } else {
            Ok(remainder(a as int, b as int) as i32)
        },
        OperationView::LSHIFT => if 0 <= b < 32 {
            Ok(a << b)
        } else {
            Err(EvalErrorView::Overflow)
        },
        OperationView::RSHIFT => if 0 <= b < 32 {
            Ok(a >> b)
        } else {
            Err(EvalErrorView::Overflow)
        },
        OperationView::BITAND => Ok(a & b),
        OperationView::BITXOR => Ok(a ^ b),
        _ => Ok(a | b),
    }
}

/// An evaluation that gave `v`.
pub open spec fn value(v: i32, env: Map<Seq<char>, i32>) -> Evaluated {
    Evaluated { result: Ok(v), env }
}

/// An evaluation that failed with `e`.
pub open spec fn failure(e: EvalErrorView, env: Map<Seq<char>, i32>) -> Evaluated {
    Evaluated { result: Err(e), env }
}

/// The value of `tree` where the variables are `env`, and the variables
/// after the evaluation. Operands are evaluated from left to right, the
/// source of an assignment before its target is looked at. The first
/// failure ends the evaluation; what was assigned before it stays.
///
/// A float literal has the value of its integer part, and `i32::MAX` where
/// that is larger. Division rounds towards zero. A result outside the
/// integer domain is a failure.
pub open spec fn eval(tree: Tree, env: Map<Seq<char>, i32>) -> Evaluated
    decreases tree,
{
    match tree.op {
        OperationView::NUMBER(n) => value(n, env),
        OperationView::FLOAT(f) => value(
            truncated(f.whole as int, f.fraction, f.exponent as int) as i32,
            env,
        ),
        OperationView::IDENT(name) => if env.contains_key(name) {
            value(env[name], env)
        } else {
            failure(EvalErrorView::NotDefined(name), env)
        },
        OperationView::NEGATE | OperationView::BITNOT => match tree.left {
            None => failure(EvalErrorView::MissingOperand, env),
            Some(operand) => {
                let a = eval(*operand, env);
                match a.result {
                    Ok(v) => Evaluated { result: apply_unary(tree.op, v), env: a.env },
                    Err(e) => a,
                }
            },
        },
        OperationView::ASSIGN => match (tree.left, tree.right) {
            (Some(target), Some(source)) => {
                let b = eval(*source, env);
                match b.result {
                    Ok(v) => match target.op {
                        OperationView::IDENT(name) => value(v, b.env.insert(name, v)),
                        _ => failure(EvalErrorView::NotAnIdentifier, b.env),
                    },
                    Err(e) => b,
                }
            },
            _ => failure(EvalErrorView::MissingOperand, env),
        },
        OperationView::GLUE => match (tree.left, tree.right) {
            (Some(first), Some(second)) => {
                let a = eval(*first, env);
                match a.result {
                    Ok(_) => eval(*second, a.env),
                    Err(e) => a,
                }
            },
            _ => failure(EvalErrorView::MissingOperand, env),
        },
        _ => match (tree.left, tree.right) {
            (Some(left), Some(right)) => {
                let a = eval(*left, env);
                match a.result {
                    Ok(x) => {
                        let b = eval(*right, a.env);
                        match b.result {
                            Ok(y) => Evaluated { result: apply_binary(tree.op, x, y), env: b.env },
                            Err(e) => b,
                        }
                    },
                    Err(e) => a,
                }
            },
            _ => failure(EvalErrorView::MissingOperand, env),
        },
    }
}

/// A quotient of two integers of the domain is in the domain, but for the
/// least integer divided by minus one.
pub proof fn lemma_quotient_in_domain(a: int, b: int)
    requires
        i32::MIN <= a <= i32::MAX,
        i32::MIN <= b <= i32::MAX,
        b != 0,
        !(a == i32::MIN && b == -1),
    ensures
        i32::MIN <= quotient(a, b) <= i32::MAX,
{
    if a >= 0 {
        assert(-a <= a / b <= a) by (nonlinear_arith)
            requires
                a >= 0,
                b != 0,
        ;
    } else {
        let n = -a;
        assert(-n <= n / b <= n) by (nonlinear_arith)
            requires
                n >= 0,
                b != 0,
        ;
        if b == -1 {
            assert(n / b == -n) by (nonlinear_arith)
                requires
                    b == -1,
            ;
        } else if b > 0 {
            assert(n / b >= 0) by (nonlinear_arith)
                requires
                    n >= 0,
                    b > 0,
            ;
        } else {
            let q = n / b;
            let r = n % b;
            assert(n == b * q + r && 0 <= r < -b) by (nonlinear_arith)
                requires
                    b < 0,
                    q == n / b,
                    r == n % b,
            ;
            assert(q > -n) by (nonlinear_arith)
                requires
                    n == b * q + r,
                    0 <= r < -b,
                    b <= -2,
                    n > 0,
            ;
        }
    }
}

/// The negative of `a`, where the domain has it.
fn negate(a: i32) -> (r: Result<i32, EvalError>)
    ensures
        value_view(r) == apply_unary(OperationView::NEGATE, a),
{
    if a == i32::MIN {
        Err(EvalError::Overflow)
    } else {
        Ok(-a)
    }
}

/// Applies a binary operation of arithmetic to two values.
fn apply(op: &Operation, a: i32, b: i32) -> (r: Result<i32, EvalError>)
    requires
        op@.is_binary(),
        !(op@ is ASSIGN),
        !(op@ is GLUE),
    ensures
        value_view(r) == apply_binary(op@, a, b),
{
    match op {
        Operation::ADD => match a.checked_add(b) {
            Some(v) => Ok(v),
            None => Err(EvalError::Overflow),
        },
        Operation::SUBTRACT => match a.checked_sub(b) {
            Some(v) => Ok(v),
            None => Err(EvalError::Overflow),
        },
        Operation::MULTIPLY => match a.checked_mul(b) {
            Some(v) => Ok(v),
            None => Err(EvalError::Overflow),
        },
        Operation::DIVIDE => if b == 0 {
            Err(EvalError::DivisionByZero)
        } else if a == i32::MIN && b == -1 {
            proof {
                assert(quotient(a as int, b as int) == 0x8000_0000) by (nonlinear_arith)
                    requires
                        a == -0x8000_0000,
                        b == -1,
                ;
            }
            Err(EvalError::Overflow)
        } else {
            proof {
                lemma_quotient_in_domain(a as int, b as int);
            }
            Ok(a / b)
        },
        Operation::MODULO => if b == 0 {
            Err(EvalError::DivisionByZero)
        } else if a == i32::MIN && b == -1 {
            Err(EvalError::Overflow)
        } else {
            Ok(a % b)
        },
        Operation::LSHIFT => if 0 <= b && b < 32 {
            Ok(a << b)
        } else {
            Err(EvalError::Overflow)
        },
        Operation::RSHIFT => if 0 <= b && b < 32 {
            Ok(a >> b)
        } else {
            Err(EvalError::Overflow)
        },
        Operation::BITAND => Ok(a & b),
        Operation::BITXOR => Ok(a ^ b),
        _ => Ok(a | b),
    }
}

/// Evaluates `ast`, or says why it has no value.
pub fn try_evaluate(ast: AST, vars: &mut Environment) -> (r: Result<i32, EvalError>)
    ensures
        value_view(r) == eval(ast@, old(vars)@).result,
        final(vars)@ == eval(ast@, old(vars)@).env,
    decreases ast,
{
    let AST { op, left, right } = ast;
    match op {
        Operation::NUMBER(n) => Ok(n),
        Operation::FLOAT(f) => Ok(truncate(f.whole, &f.fraction, f.exponent)),
        Operation::IDENT(name) => match vars.get(name.as_str()) {
            Some(v) => Ok(v),
            None => Err(EvalError::NotDefined(name)),
        },
        Operation::NEGATE => match left {
            Some(operand) => match try_evaluate(*operand, vars) {
                Ok(v) => negate(v),
                Err(e) => Err(e),
            },
            None => Err(EvalError::MissingOperand),
        },
        Operation::BITNOT => match left {
            Some(operand) => match try_evaluate(*operand, vars) {
                Ok(v) => Ok(!v),
                Err(e) => Err(e),
            },
            None => Err(EvalError::MissingOperand),
        },
        Operation::ASSIGN => match (left, right) {
            (Some(target), Some(source)) => {
                let v = match try_evaluate(*source, vars) {
                    Ok(v) => v,
                    Err(e) => {
                        return Err(e);
                    },
                };
                let target: AST = *target;
                match target.op {
                    Operation::IDENT(name) => {
                        let key = name.clone();
                        vars.insert(name, v);
                        match vars.get(key.as_str()) {
                            Some(stored) => Ok(stored),
                            None => vstd::pervasive::unreached(),
                        }
                    },
                    _ => Err(EvalError::NotAnIdentifier),
                }
            },
            _ => Err(EvalError::MissingOperand),
        },
        Operation::GLUE => match (left, right) {
            (Some(first), Some(second)) => {
                match try_evaluate(*first, vars) {
                    Ok(_) => try_evaluate(*second, vars),
                    Err(e) => Err(e),
                }
            },
            _ => Err(EvalError::MissingOperand),
        },
        _ => match (left, right) {
            (Some(left), Some(right)) => {
                let a = match try_evaluate(*left, vars) {
                    Ok(v) => v,
                    Err(e) => {
                        return Err(e);
                    },
                };
                let b = match try_evaluate(*right, vars) {
                    Ok(v) => v,
                    Err(e) => {
                        return Err(e);
                    },
                };
                apply(&op, a, b)
            },
            _ => Err(EvalError::MissingOperand),
        },
    }
}

/// The value of `ast`, which has one.
pub fn evaluate(ast: AST, vars: &mut Environment) -> (v: i32)
    requires
        eval(ast@, old(vars)@).result is Ok,
    ensures
        eval(ast@, old(vars)@).result == Ok::<i32, EvalErrorView>(v),
        final(vars)@ == eval(ast@, old(vars)@).env,
{
    match try_evaluate(ast, vars) {
        Ok(v) => v,
        Err(_) => vstd::pervasive::unreached(),
    }
}

} // verus!
