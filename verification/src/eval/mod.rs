//! The evaluator: a tree walk over the syntax tree against a chain of
//! lexical scopes.
//!
//! A statement writes to the scope it runs in, never to an enclosing one.
//! Errors and returns are values: a block stops at the first statement that
//! yields one. A call runs the body of the function in a new scope whose
//! parent is the scope the function was defined in. When the call returns,
//! its scope is dropped again unless a function was defined in it, which
//! may live on. A return value never leaves the evaluation: the call, or
//! the program, that it ends has what was returned as its value.
//!
//! Evaluation is a recursion on the tree and on the calls under way, and a
//! bound on the calls under way is what shows that it ends. A runtime made
//! by [`Runtime::new`] has the largest bound there is, which no program
//! meets before the stack of the machine is used up; a smaller one can be
//! asked for, and a call beyond it is then an error.
//!
//! What the value of a program is is laid down in [`model`]; the executable
//! [`Runtime`] is proved to compute exactly that. [`laws`] holds what
//! follows for every evaluation.

pub mod env;
pub mod laws;
pub mod model;
pub mod object;

use vstd::prelude::*;
use laws::{lemma_program_keeps_fit, object_fits, scopes_fit};
use vstd::string::StringExecFns;
use vstd::string::StringSliceAdditionalSpecFns;
use crate::lex::token_stream;
use crate::parse::model::parse_tokens;
use crate::parse::{error_views, parse_source, ParseError};
use crate::ast::{clone_names, Ast, Expr, ExpressionList, Operator, Stmt};
use env::{lookup_in, scope_views, Environment, EnvironmentView};
use model::{
    bind, capture, depth_error, enter, eval_arguments, eval_block, eval_expression, eval_program,
    eval_statement, leave, not_callable_error, unbound_error,
};
use object::{object_views, Object, ObjectView};

verus! {

/// How many calls may be under way at once in a runtime made by
/// [`Runtime::new`]: more than any program has under way before the stack
/// of the machine is used up.
pub const DEFAULT_CALL_DEPTH: usize = usize::MAX;

/// The mathematical value of the outcome of evaluating arguments.
pub open spec fn arguments_view(r: Result<Vec<Object>, Object>) -> Result<
    Seq<ObjectView>,
    ObjectView,
> {
    match r {
        Ok(values) => Ok(object_views(values@)),
        Err(sentinel) => Err(sentinel@),
    }
}

/// The error for a name that no scope binds.
fn unbound_error_object(name: &str) -> (r: Object)
    ensures
        r@ == unbound_error(name@),
{
    let mut message = String::from_str("Identifier not found: ");
    message.append(name);
    Object::Error(message)
}

/// The error for a call of a value that is no function.
fn not_callable_error_object(callee: &Object) -> (r: Object)
    ensures
        r@ == not_callable_error(callee@),
{
    let mut message = callee.to_string();
    message.append(" is not callable");
    Object::Error(message)
}

/// The error for a call when as many calls as are allowed are under way.
fn depth_error_object() -> (r: Object)
    ensures
        r@ == depth_error(),
{
    Object::Error(String::from_str("Too many nested calls"))
}

/// An evaluator with its scopes. The scope at index 0 is the root scope, in
/// which programs run; it lives as long as the runtime, so that a later
/// program sees what an earlier one has bound.
pub struct Runtime {
    scopes: Vec<Environment>,
    call_depth: usize,
}

impl Runtime {
    /// All the scopes, the root scope first.
    pub closed spec fn scopes(&self) -> Seq<EnvironmentView> {
        scope_views(self.scopes@)
    }

    /// How many calls may be under way at once.
    pub closed spec fn call_depth(&self) -> nat {
        self.call_depth as nat
    }

    /// There is a root scope, and the scopes hang together: every scope is
    /// enclosed by a scope before it or by none, and every function bound in
    /// a scope remembers a scope that exists and is marked as remembered.
    pub closed spec fn wf(&self) -> bool {
        &&& self.scopes.len() > 0
        &&& scopes_fit(self.scopes())
    }

    /// The runtime has gone from the state of `before` to the scopes
    /// `scopes`: no scope has been removed and the bound on calls is the
    /// same.
    pub open spec fn ran(&self, before: Runtime, scopes: Seq<EnvironmentView>) -> bool {
        &&& self.scopes() == scopes
        &&& self.scopes().len() >= before.scopes().len()
        &&& self.call_depth() == before.call_depth()
    }

    /// How many scopes there are, the root scope among them.
    pub fn scope_count(&self) -> (count: usize)
        ensures
            count == self.scopes().len(),
    {
        self.scopes.len()
    }

    /// A runtime with an empty root scope.
    pub fn new() -> (runtime: Runtime)
        ensures
            runtime.wf(),
            runtime.scopes() == seq![EnvironmentView::empty()],
            runtime.call_depth() == DEFAULT_CALL_DEPTH,
    {
        Runtime::with_call_depth(DEFAULT_CALL_DEPTH)
    }

    /// A runtime with an empty root scope in which `call_depth` calls may
    /// be under way at once.
    pub fn with_call_depth(call_depth: usize) -> (runtime: Runtime)
        ensures
            runtime.wf(),
            runtime.scopes() == seq![EnvironmentView::empty()],
            runtime.call_depth() == call_depth,
    {
        let mut scopes: Vec<Environment> = Vec::new();
        scopes.push(Environment::new());
        let runtime = Runtime { scopes, call_depth };
        assert(runtime.scopes() =~= seq![EnvironmentView::empty()]);
        runtime
    }

    /// Runs a program in the root scope and gives its value: the value of
    /// its last statement, what it returned, or the error that stopped it.
    pub fn evaluate(&mut self, ast: Ast) -> (value: Object)
        requires
            old(self).wf(),
        ensures
            final(self).wf(),
            final(self).ran(
                *old(self),
                eval_program(ast@, old(self).scopes(), 0, old(self).call_depth()).scopes,
            ),
            value@ == eval_program(ast@, old(self).scopes(), 0, old(self).call_depth()).value,
            !(value@ is ReturnValue),
            object_fits(value@, final(self).scopes()),
    {
        proof {
            lemma_program_keeps_fit(ast@, self.scopes(), 0, self.call_depth());
        }
        let depth = self.call_depth;
        self.eval_ast(&ast, 0, depth).unwrap_return()
    }

    /// Parses `src` and, if it has no syntax error, runs it in the root
    /// scope and gives its value. A source with syntax errors is not run:
    /// its errors are given instead and the scopes stay as they are.
    pub fn interpret(&mut self, src: &str) -> (r: Result<Object, Vec<ParseError>>)
        requires
            old(self).wf(),
        ensures
            final(self).wf(),
            ({
                let parsed = parse_tokens(token_stream(src.spec_bytes()));
                let outcome = eval_program(
                    parsed.stmts,
                    old(self).scopes(),
                    0,
                    old(self).call_depth(),
                );
                match r {
                    Ok(value) => {
                        &&& parsed.state.errors.len() == 0
                        &&& value@ == outcome.value
                        &&& !(value@ is ReturnValue)
                        &&& final(self).ran(*old(self), outcome.scopes)
                    },
                    Err(errors) => {
                        &&& parsed.state.errors.len() > 0
                        &&& error_views(errors@) == parsed.state.errors
                        &&& final(self).ran(*old(self), old(self).scopes())
                    },
                }
            }),
    {
        let (ast, errors) = parse_source(src);
        if errors.len() == 0 {
            Ok(self.evaluate(ast))
        } else {
            Err(errors)
        }
    }

    /// Runs the statements of a block in the scope at `current`.
    fn eval_ast(&mut self, ast: &Ast, current: usize, depth: usize) -> (value: Object)
        requires
            current < old(self).scopes().len(),
        ensures
            final(self).ran(
                *old(self),
                eval_block(
                    ast@,
                    0,
                    ObjectView::Null,
                    old(self).scopes(),
                    current as nat,
                    depth as nat,
                ).scopes,
            ),
            value@ == eval_block(
                ast@,
                0,
                ObjectView::Null,
                old(self).scopes(),
                current as nat,
                depth as nat,
            ).value,
        decreases depth, ast, 0nat,
    {
        let mut value = Object::Null;
        let mut i: usize = 0;
        let ghost total = eval_block(
            ast@,
            0,
            ObjectView::Null,
            self.scopes(),
            current as nat,
            depth as nat,
        );
        while i < ast.0.len()
            invariant
                i <= ast.0.len(),
                ast@.len() == ast.0.len(),
                current < self.scopes().len(),
                self.scopes().len() >= old(self).scopes().len(),
                self.call_depth() == old(self).call_depth(),
                !value@.is_sentinel(),
                eval_block(ast@, i as int, value@, self.scopes(), current as nat, depth as nat)
                    == total,
                total == eval_block(
                    ast@,
                    0,
                    ObjectView::Null,
                    old(self).scopes(),
                    current as nat,
                    depth as nat,
                ),
            decreases ast.0.len() - i,
        {
            assert(ast@[i as int] == ast.0[i as int]@);
            value = self.eval_statement(&ast.0[i], current, depth);
            if value.is_sentinel() {
                return value;
            }
            i += 1;
        }
        value
    }

    /// Runs one statement in the scope at `current`.
    fn eval_statement(&mut self, stmt: &Stmt, current: usize, depth: usize) -> (value: Object)
        requires
            current < old(self).scopes().len(),
        ensures
            final(self).ran(
                *old(self),
                eval_statement(stmt@, old(self).scopes(), current as nat, depth as nat).scopes,
            ),
            value@ == eval_statement(stmt@, old(self).scopes(), current as nat, depth as nat).value,
        decreases depth, stmt, 0nat,
    {
        match stmt {
            Stmt::Let { ident, val } => {
                let value = self.eval_expression(val, current, depth);
                if value.is_sentinel() {
                    return value;
                }
                let ghost before = self.scopes();
                self.scopes[current].set(ident.clone(), value.deep_clone());
                assert(self.scopes() =~= bind(before, current as nat, ident@, value@));
                value
            },
            Stmt::Return(val) => {
                let value = self.eval_expression(val, current, depth);
                match value {
                    Object::Error(_) => value,
                    _ => Object::ReturnValue(Box::new(value)),
                }
            },
            Stmt::Expression(val) => self.eval_expression(val, current, depth),
        }
    }

    /// Evaluates the arguments of a call, from left to right, in the scope
    /// at `current`.
    fn eval_arguments(&mut self, args: &ExpressionList, current: usize, depth: usize) -> (r: Result<
        Vec<Object>,
        Object,
    >)
        requires
            current < old(self).scopes().len(),
        ensures
            final(self).ran(
                *old(self),
                eval_arguments(
                    args@,
                    0,
                    Seq::empty(),
                    old(self).scopes(),
                    current as nat,
                    depth as nat,
                ).scopes,
            ),
            arguments_view(r) == eval_arguments(
                args@,
                0,
                Seq::empty(),
                old(self).scopes(),
                current as nat,
                depth as nat,
            ).values,
        decreases depth, args, 0nat,
    {
        let mut values: Vec<Object> = Vec::new();
        let mut i: usize = 0;
        let ghost total = eval_arguments(
            args@,
            0,
            Seq::empty(),
            self.scopes(),
            current as nat,
            depth as nat,
        );
        assert(object_views(values@) =~= Seq::<ObjectView>::empty());
        while i < args.0.len()
            invariant
                i <= args.0.len(),
                args@.len() == args.0.len(),
                current < self.scopes().len(),
                self.scopes().len() >= old(self).scopes().len(),
                self.call_depth() == old(self).call_depth(),
                eval_arguments(
                    args@,
                    i as int,
                    object_views(values@),
                    self.scopes(),
                    current as nat,
                    depth as nat,
                ) == total,
                total == eval_arguments(
                    args@,
                    0,
                    Seq::empty(),
                    old(self).scopes(),
                    current as nat,
                    depth as nat,
                ),
            decreases args.0.len() - i,
        {
            assert(args@[i as int] == args.0[i as int]@);
            let ghost seen = object_views(values@);
            let value = self.eval_expression(&args.0[i], current, depth);
            if value.is_sentinel() {
                return Err(value);
            }
            values.push(value);
            assert(object_views(values@) =~= seen.push(value@));
            i += 1;
        }
        Ok(values)
    }

    /// Evaluates an expression in the scope at `current`, with `depth` more
    /// calls allowed to be under way at once.
    fn eval_expression(&mut self, expr: &Expr, current: usize, depth: usize) -> (value: Object)
        requires
            current < old(self).scopes().len(),
        ensures
            final(self).ran(
                *old(self),
                eval_expression(expr@, old(self).scopes(), current as nat, depth as nat).scopes,
            ),
            value@ == eval_expression(expr@, old(self).scopes(), current as nat, depth as nat).value,
        decreases depth, expr, 0nat,
    {
        match expr {
            Expr::IntLiteral(value) => Object::Integer(*value),
            Expr::BooleanLiteral(value) => Object::Boolean(*value),
            Expr::Ident(name) => match lookup_in(&self.scopes, current, name.as_str()) {
                Some(value) => value,
                None => unbound_error_object(name.as_str()),
            },
            Expr::If { check, block, alt } => {
                let condition = self.eval_expression(check, current, depth);
                match condition {
                    Object::Error(_) => {
                        return condition;
                    },
                    _ => {},
                }
                if condition.is_truthy() {
                    self.eval_ast(block, current, depth)
                } else {
                    match alt {
                        Some(stmts) => self.eval_ast(stmts, current, depth),
                        None => Object::Null,
                    }
                }
            },
            Expr::Prefix(op, right) => {
                let operand = self.eval_expression(right, current, depth);
                match operand {
                    Object::Error(_) => operand,
                    _ => operand.prefix(*op),
                }
            },
            Expr::Infix(left, op, right) => {
                match op {
                    Operator::Bang => {
                        return Object::unsupported_infix(*op);
                    },
                    _ => {},
                }
                let first = self.eval_expression(left, current, depth);
                match first {
                    Object::Error(_) => {
                        return first;
                    },
                    _ => {},
                }
                let second = self.eval_expression(right, current, depth);
                match second {
                    Object::Error(_) => second,
                    _ => first.infix(*op, &second),
                }
            },
            Expr::FuncLiteral { params, body } => {
                let ghost before = self.scopes();
                self.scopes[current].capture();
                assert(self.scopes() =~= capture(before, current as nat));
                Object::Func { params: clone_names(params), body: body.deep_clone(), env: current }
            },
            Expr::Call { func, args } => {
                let callee = self.eval_expression(func, current, depth);
                match callee {
                    Object::Error(_) => callee,
                    Object::Func { params, body, env } => {
                        let values = match self.eval_arguments(args, current, depth) {
                            Ok(values) => values,
                            Err(sentinel) => {
                                return sentinel;
                            },
                        };
                        if depth == 0 {
                            return depth_error_object();
                        }
                        let ghost before = self.scopes();
                        let frame = Environment::child_of(env).with(&params, &values);
                        self.scopes.push(frame);
                        assert(self.scopes() =~= enter(
                            before,
                            env as nat,
                            crate::ast::names_view(params@),
                            object_views(values@),
                        ));
                        let entered = self.scopes.len() - 1;
                        let result = self.eval_ast(&body, entered, depth - 1);
                        let ghost after = self.scopes();
                        if self.scopes.len() == entered + 1 && !self.scopes[entered].is_captured() {
                            self.scopes.pop();
                        }
                        assert(self.scopes() =~= leave(after, entered as nat));
                        result.unwrap_return()
                    },
                    other => not_callable_error_object(&other),
                }
            },
        }
    }
}

} // verus!
