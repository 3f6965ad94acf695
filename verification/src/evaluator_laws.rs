//! What holds of every evaluation.

use vstd::prelude::*;
use crate::evaluator::{apply_binary, eval, EvalErrorView};
use crate::parser::{OperationView, Tree};

verus! {

/// After an assignment the variable has the value that the assignment had.
pub proof fn law_assignment_round_trip(name: Seq<char>, source: Tree, env: Map<Seq<char>, i32>)
    ensures
        ({
            let target = Tree::leaf(OperationView::IDENT(name));
            let assigned = eval(Tree::binary(OperationView::ASSIGN, target, source), env);
            assigned.result matches Ok(v) ==> {
                &&& eval(source, env).result == Ok::<i32, EvalErrorView>(v)
                &&& assigned.env == eval(source, env).env.insert(name, v)
                &&& eval(target, assigned.env).result == Ok::<i32, EvalErrorView>(v)
                &&& eval(target, assigned.env).env == assigned.env
            }
        }),
{
}

/// An assignment to anything but an identifier has no value, though its
/// source is evaluated.
pub proof fn law_assignment_needs_identifier(target: Tree, source: Tree, env: Map<Seq<char>, i32>)
    requires
        !(target.op is IDENT),
        eval(source, env).result is Ok,
    ensures
        eval(Tree::binary(OperationView::ASSIGN, target, source), env).result == Err::<
            i32,
            EvalErrorView,
        >(EvalErrorView::NotAnIdentifier),
        eval(Tree::binary(OperationView::ASSIGN, target, source), env).env == eval(source, env).env,
{
}

/// Two statements that are joined have the value of the second, evaluated
/// after the first.
pub proof fn law_glue_has_the_last_value(first: Tree, second: Tree, env: Map<Seq<char>, i32>)
    requires
        eval(first, env).result is Ok,
    ensures
        eval(Tree::binary(OperationView::GLUE, first, second), env) == eval(
            second,
            eval(first, env).env,
        ),
{
}

/// A division or a remainder by zero has no value, whatever is divided.
pub proof fn law_division_by_zero(op: OperationView, left: Tree, right: Tree, env: Map<Seq<char>, i32>)
    requires
        op is DIVIDE || op is MODULO,
        eval(left, env).result is Ok,
        eval(right, eval(left, env).env).result == Ok::<i32, EvalErrorView>(0),
    ensures
        eval(Tree::binary(op, left, right), env).result == Err::<i32, EvalErrorView>(
            EvalErrorView::DivisionByZero,
        ),
{
}

/// A variable that was never assigned has no value.
pub proof fn law_undefined_variable(name: Seq<char>, env: Map<Seq<char>, i32>)
    requires
        !env.contains_key(name),
    ensures
        eval(Tree::leaf(OperationView::IDENT(name)), env).result == Err::<i32, EvalErrorView>(
            EvalErrorView::NotDefined(name),
        ),
{
}

/// Arithmetic fails only by a division by zero or by leaving the domain.
pub proof fn law_arithmetic_failures(op: OperationView, a: i32, b: i32)
    ensures
        apply_binary(op, a, b) matches Err(e) ==> e is DivisionByZero || e is Overflow,
        apply_binary(op, a, b) is Err && b != 0 ==> apply_binary(op, a, b) == Err::<
            i32,
            EvalErrorView,
        >(EvalErrorView::Overflow),
{
}

/// A tree in which every node has its operands never lacks one.
pub proof fn law_well_formed_has_operands(tree: Tree, env: Map<Seq<char>, i32>)
    requires
        tree.well_formed(),
    ensures
        eval(tree, env).result != Err::<i32, EvalErrorView>(EvalErrorView::MissingOperand),
    decreases tree,
{
    if tree.op.is_leaf() {
    } else if tree.op.is_unary() {
        law_well_formed_has_operands(*tree.left->Some_0, env);
    } else {
        let left = *tree.left->Some_0;
        let right = *tree.right->Some_0;
        if tree.op is ASSIGN {
            law_well_formed_has_operands(right, env);
        } else {
            law_well_formed_has_operands(left, env);
            law_well_formed_has_operands(right, eval(left, env).env);
        }
    }
}

/// An evaluation never removes a variable, whether it gives a value or not.
pub proof fn law_variables_stay(tree: Tree, env: Map<Seq<char>, i32>, name: Seq<char>)
    requires
        env.contains_key(name),
    ensures
        eval(tree, env).env.contains_key(name),
    decreases tree,
{
    match (tree.left, tree.right) {
        (Some(left), Some(right)) => {
            if tree.op is ASSIGN {
                law_variables_stay(*right, env, name);
            } else if tree.op.is_binary() {
                law_variables_stay(*left, env, name);
                law_variables_stay(*right, eval(*left, env).env, name);
            } else if tree.op.is_unary() {
                law_variables_stay(*left, env, name);
            }
        },
        (Some(left), None) => {
            if tree.op.is_unary() {
                law_variables_stay(*left, env, name);
            }
        },
        _ => {},
    }
}

} // verus!
