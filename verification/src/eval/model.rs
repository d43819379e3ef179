//! The model of the evaluator: what the value of a piece of syntax is.
//!
//! Every function takes a piece of syntax, the list of all scopes, the
//! index of the scope in which the syntax is evaluated and the number of
//! calls that may still be entered, and gives the value together with the
//! list of scopes afterwards.

use vstd::prelude::*;
use crate::ast::{ExprView, Operator, StmtView};
use crate::eval::env::{lookup, EnvironmentView};
use crate::eval::object::{eval_infix, eval_prefix, render_object, unsupported_infix, ObjectView};

verus! {

/// A value together with the scopes as they are once it has been computed.
pub ghost struct Outcome {
    pub value: ObjectView,
    pub scopes: Seq<EnvironmentView>,
}

/// The values of the arguments of a call, or the sentinel that one of them
/// gave, together with the scopes afterwards.
pub ghost struct ArgumentsOutcome {
    pub values: Result<Seq<ObjectView>, ObjectView>,
    pub scopes: Seq<EnvironmentView>,
}

/// The scopes after `name` has been bound to `value` in the scope at
/// `current`. No other scope changes.
pub open spec fn bind(
    scopes: Seq<EnvironmentView>,
    current: nat,
    name: Seq<char>,
    value: ObjectView,
) -> Seq<EnvironmentView> {
    if current < scopes.len() {
        scopes.update(current as int, scopes[current as int].set(name, value))
    } else {
        scopes
    }
}

/// The scopes after a function has been defined in the scope at `current`:
/// that scope is marked, so that it outlives the call that made it.
pub open spec fn capture(scopes: Seq<EnvironmentView>, current: nat) -> Seq<EnvironmentView> {
    if current < scopes.len() {
        scopes.update(current as int, scopes[current as int].capture())
    } else {
        scopes
    }
}

/// The scopes after a call of a function defined in the scope at `env` has
/// been entered: a new scope is added at the end, enclosed by the scope at
/// `env`, in which the parameters are bound to the arguments.
pub open spec fn enter(
    scopes: Seq<EnvironmentView>,
    env: nat,
    params: Seq<Seq<char>>,
    values: Seq<ObjectView>,
) -> Seq<EnvironmentView> {
    scopes.push(EnvironmentView::child_of(env).with(params, values))
}

/// The scopes after the call whose scope stands at `index` has returned.
/// The scope of the call is dropped if no function was defined in it, for
/// then nothing can refer to it any more. It is kept if a function was
/// defined in it, and also where a later scope was kept, since scopes are
/// known by their index.
pub open spec fn leave(scopes: Seq<EnvironmentView>, index: nat) -> Seq<EnvironmentView> {
    if scopes.len() == index + 1 && !scopes[index as int].captured {
        scopes.drop_last()
    } else {
        scopes
    }
}

/// The error for a name that no scope binds.
pub open spec fn unbound_error(name: Seq<char>) -> ObjectView {
    ObjectView::Error("Identifier not found: "@ + name)
}

/// The error for a call of a value that is no function.
pub open spec fn not_callable_error(callee: ObjectView) -> ObjectView {
    ObjectView::Error(render_object(callee) + " is not callable"@)
}

/// The error for a call when as many calls as are allowed are under way.
pub open spec fn depth_error() -> ObjectView {
    ObjectView::Error("Too many nested calls"@)
}

/// The value of the statements of `stmts` from index `from` on, run in
/// order in the scope at `current`, where `last` is the value of the
/// statement before them. A block has the value of its last statement, or
/// `Null` if it is empty, and stops at the first statement that yields a
/// return value or an error, which is then its value.
pub open spec fn eval_block(
    stmts: Seq<StmtView>,
    from: int,
    last: ObjectView,
    scopes: Seq<EnvironmentView>,
    current: nat,
    depth: nat,
) -> Outcome
    decreases depth, stmts, stmts.len() - from,
{
    if from < 0 || from >= stmts.len() {
        Outcome { value: last, scopes }
    } else {
        let first = eval_statement(stmts[from], scopes, current, depth);
        if first.value.is_sentinel() {
            first
        } else {
            eval_block(stmts, from + 1, first.value, first.scopes, current, depth)
        }
    }
}

/// The value of one statement run in the scope at `current`.
///
/// `let` binds the name in that scope to the value of the expression and
/// has that value, unless the expression gave a return value or an error,
/// which is passed on and nothing bound. `return` wraps the value of the
/// expression as a return value, except that an error is passed on as it is.
pub open spec fn eval_statement(
    stmt: StmtView,
    scopes: Seq<EnvironmentView>,
    current: nat,
    depth: nat,
) -> Outcome
    decreases depth, stmt, 0nat,
{
    match stmt {
        StmtView::Let { ident, val } => {
            let body = eval_expression(val, scopes, current, depth);
            if body.value.is_sentinel() {
                body
            } else {
                Outcome { value: body.value, scopes: bind(body.scopes, current, ident, body.value) }
            }
        },
        StmtView::Return(val) => {
            let body = eval_expression(val, scopes, current, depth);
            if body.value is Error {
                body
            } else {
                Outcome { value: ObjectView::ReturnValue(Box::new(body.value)), scopes: body.scopes }
            }
        },
        StmtView::Expression(val) => eval_expression(val, scopes, current, depth),
    }
}

/// The values of the arguments of `args` from index `from` on, evaluated
/// from left to right in the scope at `current`, after the values `seen`.
/// The first argument that gives a return value or an error ends the
/// evaluation with that sentinel.
pub open spec fn eval_arguments(
    args: Seq<ExprView>,
    from: int,
    seen: Seq<ObjectView>,
    scopes: Seq<EnvironmentView>,
    current: nat,
    depth: nat,
) -> ArgumentsOutcome
    decreases depth, args, args.len() - from,
{
    if from < 0 || from >= args.len() {
        ArgumentsOutcome { values: Ok(seen), scopes }
    } else {
        let first = eval_expression(args[from], scopes, current, depth);
        if first.value.is_sentinel() {
            ArgumentsOutcome { values: Err(first.value), scopes: first.scopes }
        } else {
            eval_arguments(args, from + 1, seen.push(first.value), first.scopes, current, depth)
        }
    }
}

/// The value of an expression in the scope at `current`, with `depth` more
/// calls allowed to be under way at once.
///
/// An error that an operand, a condition or a callee gives is passed on as
/// it is. An infix operator that is none has no value but an error, and its
/// operands are not evaluated. A function literal gives a function that remembers the scope at
/// `current`, and marks that scope. A call evaluates the callee, then the
/// arguments, and runs the body in a new scope enclosed by the scope that
/// the function remembers; what the body returns, or else the value of the
/// body, is its value.
pub open spec fn eval_expression(
    expr: ExprView,
    scopes: Seq<EnvironmentView>,
    current: nat,
    depth: nat,
) -> Outcome
    decreases depth, expr, 0nat,
{
    match expr {
        ExprView::IntLiteral(value) => Outcome { value: ObjectView::Integer(value), scopes },
        ExprView::BooleanLiteral(value) => Outcome { value: ObjectView::Boolean(value), scopes },
        ExprView::Ident(name) => match lookup(scopes, current, name) {
            Some(value) => Outcome { value, scopes },
            None => Outcome { value: unbound_error(name), scopes },
        },
        ExprView::If { check, block, alt } => {
            let condition = eval_expression(*check, scopes, current, depth);
            if condition.value is Error {
                condition
            } else if condition.value.is_truthy() {
                eval_block(block, 0, ObjectView::Null, condition.scopes, current, depth)
            } else {
                match alt {
                    Some(stmts) => eval_block(
                        stmts,
                        0,
                        ObjectView::Null,
                        condition.scopes,
                        current,
                        depth,
                    ),
                    None => Outcome { value: ObjectView::Null, scopes: condition.scopes },
                }
            }
        },
        ExprView::Prefix(op, right) => {
            let operand = eval_expression(*right, scopes, current, depth);
            if operand.value is Error {
                operand
            } else {
                Outcome { value: eval_prefix(op, operand.value), scopes: operand.scopes }
            }
        },
        ExprView::Infix(left, op, right) => if op == Operator::Bang {
            Outcome { value: unsupported_infix(op), scopes }
        } else {
            let first = eval_expression(*left, scopes, current, depth);
            if first.value is Error {
                first
            } else {
                let second = eval_expression(*right, first.scopes, current, depth);
                if second.value is Error {
                    second
                } else {
                    Outcome {
                        value: eval_infix(op, first.value, second.value),
                        scopes: second.scopes,
                    }
                }
            }
        },
        ExprView::FuncLiteral { params, body } => Outcome {
            value: ObjectView::Func { params, body, env: current },
            scopes: capture(scopes, current),
        },
        ExprView::Call { func, args } => {
            let callee = eval_expression(*func, scopes, current, depth);
            match callee.value {
                ObjectView::Error(_) => callee,
                ObjectView::Func { params, body, env } => {
                    let arguments = eval_arguments(
                        args,
                        0,
                        Seq::empty(),
                        callee.scopes,
                        current,
                        depth,
                    );
                    match arguments.values {
                        Err(sentinel) => Outcome { value: sentinel, scopes: arguments.scopes },
                        Ok(values) => if depth == 0 {
                            Outcome { value: depth_error(), scopes: arguments.scopes }
                        } else {
                            let entered = enter(arguments.scopes, env, params, values);
                            let result = eval_block(
                                body,
                                0,
                                ObjectView::Null,
                                entered,
                                (entered.len() - 1) as nat,
                                (depth - 1) as nat,
                            );
                            Outcome {
                                value: result.value.unwrap_return(),
                                scopes: leave(result.scopes, (entered.len() - 1) as nat),
                            }
                        },
                    }
                },
                other => Outcome { value: not_callable_error(other), scopes: callee.scopes },
            }
        },
    }
}

/// The value of a whole program run in the scope at `current`: the value
/// of its statements as a block, or what was returned from it.
pub open spec fn eval_program(
    stmts: Seq<StmtView>,
    scopes: Seq<EnvironmentView>,
    current: nat,
    depth: nat,
) -> Outcome {
    let result = eval_block(stmts, 0, ObjectView::Null, scopes, current, depth);
    Outcome { value: result.value.unwrap_return(), scopes: result.scopes }
}

} // verus!
