//! The model of the parser: what the parse of a token sequence is.
//!
//! Every function takes the token sequence and the state of the parser, and
//! gives the outcome of one construct of the grammar together with the state
//! afterwards. The state is the position of the current token and the errors
//! recorded so far; the token after the current one is the one look-ahead.

use vstd::prelude::*;
use crate::ast::{ExprView, Operator, StmtView};
use crate::parse::{ParseErrorView, Precedence};
use crate::text::parse_decimal;
use crate::token::TokenView;

verus! {

/// The state of the parser in the model: the position of the current
/// token in the token stream, and the errors recorded so far.
pub ghost struct State {
    pub pos: int,
    pub errors: Seq<ParseErrorView>,
}

/// The outcome of parsing one construct: its value, or the error that ended
/// it, and the state of the parser afterwards.
pub ghost struct Parsed<T> {
    pub value: Result<T, ParseErrorView>,
    pub state: State,
}

/// The outcome of parsing a run of statements: those that parsed, and the
/// state of the parser afterwards, which holds the errors of those that did
/// not.
pub ghost struct ParsedBlock {
    pub stmts: Seq<StmtView>,
    pub state: State,
}

/// The token at `pos`. Before the first token and after the last one there
/// is `Eof`.
pub open spec fn token_at(ts: Seq<TokenView>, pos: int) -> TokenView {
    if 0 <= pos < ts.len() {
        ts[pos]
    } else {
        TokenView::Eof
    }
}

/// The precedence that a token has where an infix operator may stand.
pub open spec fn precedence_of(token: TokenView) -> Precedence {
    match token {
        TokenView::OpenParen => Precedence::Call,
        TokenView::Asterisk => Precedence::MultDiv,
        TokenView::Slash => Precedence::MultDiv,
        TokenView::Plus => Precedence::AddSub,
        TokenView::Minus => Precedence::AddSub,
        TokenView::LessThan => Precedence::LessGreater,
        TokenView::GreaterThan => Precedence::LessGreater,
        TokenView::Equal => Precedence::Equality,
        TokenView::NotEqual => Precedence::Equality,
        _ => Precedence::Lowest,
    }
}

/// The operator that a token denotes.
pub open spec fn operator_of(token: TokenView) -> Result<Operator, ParseErrorView> {
    match token {
        TokenView::Equal => Ok(Operator::Equals),
        TokenView::NotEqual => Ok(Operator::NotEquals),
        TokenView::LessThan => Ok(Operator::LessThan),
        TokenView::GreaterThan => Ok(Operator::GreaterThan),
        TokenView::Plus => Ok(Operator::Plus),
        TokenView::Minus => Ok(Operator::Minus),
        TokenView::Asterisk => Ok(Operator::Multiplication),
        TokenView::Slash => Ok(Operator::Division),
        TokenView::Bang => Ok(Operator::Bang),
        _ => Err(ParseErrorView::ExpectedOperator),
    }
}

/// How many tokens are left from `pos` on. Every recursive step of the
/// parser stands on a token and moves past it, so this goes down.
pub open spec fn tokens_left(ts: Seq<TokenView>, pos: int) -> nat {
    if pos < ts.len() {
        (ts.len() - pos) as nat
    } else {
        0
    }
}

/// The state `st`, or `st` moved up to `from` if it lies before it. The
/// parser never moves back, as the laws of this parser show, so wherever
/// the model goes on from the end of a construct that began at `from`, this
/// is `st` itself; writing it so makes it plain that the model is well
/// founded.
pub open spec fn forward(from: int, st: State) -> State {
    if st.pos >= from {
        st
    } else {
        State { pos: from, errors: st.errors }
    }
}

/// The state after the look-ahead token has become the current one.
pub open spec fn step(st: State) -> State {
    State { pos: st.pos + 1, errors: st.errors }
}

/// The state after `error` has been recorded.
pub open spec fn record(st: State, error: ParseErrorView) -> State {
    State { pos: st.pos, errors: st.errors.push(error) }
}

/// A construct that succeeded with `value` and left the parser in `state`.
pub open spec fn parsed<T>(value: T, state: State) -> Parsed<T> {
    Parsed { value: Ok(value), state }
}

/// A construct that failed with `error` and left the parser in `state`.
pub open spec fn failed<T>(error: ParseErrorView, state: State) -> Parsed<T> {
    Parsed { value: Err(error), state }
}

/// Requires the look-ahead token to be of the kind of `expected` and moves
/// onto it.
pub open spec fn expect_next(ts: Seq<TokenView>, st: State, expected: TokenView) -> Parsed<()> {
    if token_at(ts, st.pos + 1).same_kind(expected) {
        parsed((), step(st))
    } else {
        failed(
            ParseErrorView::UnexpectedToken { expected, received: token_at(ts, st.pos + 1) },
            st,
        )
    }
}

/// Requires the look-ahead token to be an identifier and moves onto it.
pub open spec fn expect_ident(ts: Seq<TokenView>, st: State) -> Parsed<()> {
    if token_at(ts, st.pos + 1) is Ident {
        parsed((), step(st))
    } else {
        failed(ParseErrorView::ExpectedIdentifier, st)
    }
}

/// The names of a parameter list from the current token, which is one of
/// them, up to the closing `)`: identifiers separated by commas. `seen`
/// holds the names before the current one.
pub open spec fn parse_parameter_names(ts: Seq<TokenView>, st: State, seen: Seq<Seq<char>>) -> Parsed<
    Seq<Seq<char>>,
>
    decreases tokens_left(ts, st.pos),
    when token_at(ts, st.pos) is Ident
{
    let names = seen.push(token_at(ts, st.pos).text());
    if token_at(ts, st.pos + 1) is Comma {
        let name = expect_ident(ts, step(st));
        match name.value {
            Err(e) => failed(e, name.state),
            Ok(_) => parse_parameter_names(ts, name.state, names),
        }
    } else {
        let close = expect_next(ts, st, TokenView::CloseParen);
        match close.value {
            Err(e) => failed(e, close.state),
            Ok(_) => parsed(names, close.state),
        }
    }
}

/// The parameter list of a function literal, whose `(` is the current
/// token: nothing, or identifiers separated by commas, and the closing `)`.
pub open spec fn parse_parameters(ts: Seq<TokenView>, st: State) -> Parsed<Seq<Seq<char>>> {
    if token_at(ts, st.pos + 1) is CloseParen {
        parsed(Seq::empty(), step(st))
    } else {
        let name = expect_ident(ts, st);
        match name.value {
            Err(e) => failed(e, name.state),
            Ok(_) => parse_parameter_names(ts, name.state, Seq::empty()),
        }
    }
}

/// The state after the parser has skipped what is left of a statement that
/// failed: it moves on until the current token is a `;`, the end of input
/// or, inside a block (`nested`), the `}` of the block.
pub open spec fn skip_statement(ts: Seq<TokenView>, st: State, nested: bool) -> State
    decreases tokens_left(ts, st.pos),
{
    let token = token_at(ts, st.pos);
    if token is Eof || token is Semicolon || (nested && token is CloseCurly) {
        st
    } else {
        skip_statement(ts, step(st), nested)
    }
}

/// The state in which parsing goes on after a statement has failed in the
/// state `st`: at the token after the next `;`, so that what is left of the
/// failed statement is not taken for statements of its own, or at the end
/// of input or of the block, where the run of statements ends.
pub open spec fn resume(ts: Seq<TokenView>, st: State, nested: bool) -> State {
    let skipped = skip_statement(ts, st, nested);
    if token_at(ts, skipped.pos) is Semicolon {
        step(skipped)
    } else {
        skipped
    }
}

/// Skipping never moves back, keeps the errors, and moves on unless the
/// current token ends the run of statements.
pub proof fn lemma_resume_moves_on(ts: Seq<TokenView>, st: State, nested: bool)
    ensures
        resume(ts, st, nested).pos >= st.pos,
        resume(ts, st, nested).errors == st.errors,
        skip_statement(ts, st, nested).pos >= st.pos,
        skip_statement(ts, st, nested).errors == st.errors,
        resume(ts, st, nested).pos > st.pos || token_at(ts, st.pos) is Eof || (nested && token_at(
            ts,
            st.pos,
        ) is CloseCurly),
    decreases tokens_left(ts, st.pos),
{
    let token = token_at(ts, st.pos);
    if !(token is Eof || token is Semicolon || (nested && token is CloseCurly)) {
        lemma_resume_moves_on(ts, step(st), nested);
    }
}

/// The statements from the current token up to the end of input or, inside
/// a block (`nested`), up to a `}`, after the statements `seen`. A statement
/// that fails is left out and its one error recorded; what is left of it, up
/// to the next `;`, is skipped, and parsing resumes with the statement after
/// that.
pub open spec fn parse_statements(
    ts: Seq<TokenView>,
    st: State,
    nested: bool,
    seen: Seq<StmtView>,
) -> ParsedBlock
    decreases tokens_left(ts, st.pos), 8nat,
{
    let token = token_at(ts, st.pos);
    if token is Eof || (nested && token is CloseCurly) {
        ParsedBlock { stmts: seen, state: st }
    } else {
        let first = parse_statement(ts, st);
        let after = forward(st.pos, first.state);
        match first.value {
            Ok(stmt) => parse_statements(ts, step(after), nested, seen.push(stmt)),
            Err(e) => {
                proof {
                    lemma_resume_moves_on(ts, record(after, e), nested);
                }
                parse_statements(ts, resume(ts, record(after, e), nested), nested, seen)
            },
        }
    }
}

/// A block whose `{` is the current token: the statements after it, up to
/// its `}` or the end of input.
pub open spec fn parse_block(ts: Seq<TokenView>, st: State) -> ParsedBlock
    decreases tokens_left(ts, st.pos), 9nat,
{
    parse_statements(ts, step(st), true, Seq::empty())
}

/// A whole program: the statements from the token after the current one up
/// to the end of input.
pub open spec fn parse_program(ts: Seq<TokenView>, st: State) -> ParsedBlock {
    parse_statements(ts, step(st), false, Seq::empty())
}

/// The statements and the errors of the token stream `ts`, parsed from its
/// first token on.
pub open spec fn parse_tokens(ts: Seq<TokenView>) -> ParsedBlock {
    parse_program(ts, State { pos: -1, errors: Seq::empty() })
}

/// Ends a statement whose expression was parsed: a `;` that follows is
/// consumed.
pub open spec fn finish_statement(ts: Seq<TokenView>, stmt: StmtView, st: State) -> Parsed<
    StmtView,
> {
    if token_at(ts, st.pos + 1) is Semicolon {
        parsed(stmt, step(st))
    } else {
        parsed(stmt, st)
    }
}

/// One statement, chosen by the current token: `let`, `return`, or else an
/// expression statement.
pub open spec fn parse_statement(ts: Seq<TokenView>, st: State) -> Parsed<StmtView>
    decreases tokens_left(ts, st.pos), 7nat,
{
    match token_at(ts, st.pos) {
        TokenView::Let => {
            let body = parse_let(ts, st);
            match body.value {
                Err(e) => failed(e, body.state),
                Ok((ident, val)) => finish_statement(ts, StmtView::Let { ident, val }, body.state),
            }
        },
        TokenView::Return => {
            let body = parse_expression(ts, step(st), Precedence::Lowest);
            match body.value {
                Err(e) => failed(e, body.state),
                Ok(val) => finish_statement(ts, StmtView::Return(val), body.state),
            }
        },
        _ => {
            let body = parse_expression(ts, st, Precedence::Lowest);
            match body.value {
                Err(e) => failed(e, body.state),
                Ok(val) => finish_statement(ts, StmtView::Expression(val), body.state),
            }
        },
    }
}

/// The name and the value of a `let` statement, whose `let` is the current
/// token: an identifier, a `=` and an expression.
pub open spec fn parse_let(ts: Seq<TokenView>, st: State) -> Parsed<(Seq<char>, ExprView)>
    decreases tokens_left(ts, st.pos), 6nat,
{
    let name = expect_ident(ts, st);
    match name.value {
        Err(e) => failed(e, name.state),
        Ok(_) => {
            let assign = expect_next(ts, name.state, TokenView::Assign);
            match assign.value {
                Err(e) => failed(e, assign.state),
                Ok(_) => {
                    let body = parse_expression(ts, step(assign.state), Precedence::Lowest);
                    match body.value {
                        Err(e) => failed(e, body.state),
                        Ok(val) => parsed((token_at(ts, name.state.pos).text(), val), body.state),
                    }
                },
            }
        },
    }
}

/// The arguments of a call, from the current token up to the closing `)`:
/// expressions separated by commas. `seen` holds the arguments before the
/// current token.
pub open spec fn parse_arguments(ts: Seq<TokenView>, st: State, seen: Seq<ExprView>) -> Parsed<
    Seq<ExprView>,
>
    decreases tokens_left(ts, st.pos), 5nat,
{
    if token_at(ts, st.pos) is CloseParen {
        parsed(seen, st)
    } else if token_at(ts, st.pos) is Eof {
        failed(ParseErrorView::ExpectedExpression, st)
    } else {
        let first = parse_expression(ts, st, Precedence::Lowest);
        match first.value {
            Err(e) => failed(e, first.state),
            Ok(arg) => {
                let after = forward(st.pos, first.state);
                if token_at(ts, after.pos + 1) is Comma {
                    parse_arguments(ts, step(step(after)), seen.push(arg))
                } else {
                    let close = expect_next(ts, after, TokenView::CloseParen);
                    match close.value {
                        Err(e) => failed(e, close.state),
                        Ok(_) => parsed(seen.push(arg), close.state),
                    }
                }
            },
        }
    }
}

/// An expression at the current token that binds tighter than `prec`: one
/// primary production, then every operator and call that follows it and
/// binds tighter than `prec`.
pub open spec fn parse_expression(ts: Seq<TokenView>, st: State, prec: Precedence) -> Parsed<
    ExprView,
>
    decreases tokens_left(ts, st.pos), 4nat,
{
    let left = parse_primary(ts, st);
    match left.value {
        Err(e) => left,
        Ok(expr) => parse_operators(ts, forward(st.pos, left.state), prec, expr),
    }
}

/// The operators and calls that follow the expression `left`, which ends on
/// the current token, as long as the look-ahead token binds tighter than
/// `prec` and the current token is no `;`.
pub open spec fn parse_operators(ts: Seq<TokenView>, st: State, prec: Precedence, left: ExprView) -> Parsed<
    ExprView,
>
    decreases tokens_left(ts, st.pos), 3nat,
{
    let ahead = token_at(ts, st.pos + 1);
    if token_at(ts, st.pos) is Semicolon || prec.rank() >= precedence_of(ahead).rank() {
        parsed(left, st)
    } else {
        let next = if ahead is OpenParen {
            parse_call(ts, step(st), left)
        } else {
            parse_infix(ts, step(st), left)
        };
        match next.value {
            Err(e) => next,
            Ok(expr) => parse_operators(ts, forward(st.pos + 1, next.state), prec, expr),
        }
    }
}

/// The primary production that the current token selects: a name, a
/// literal, a prefix operator with its operand, a parenthesized expression,
/// an `if` or a function literal.
pub open spec fn parse_primary(ts: Seq<TokenView>, st: State) -> Parsed<ExprView>
    decreases tokens_left(ts, st.pos), 3nat,
{
    match token_at(ts, st.pos) {
        TokenView::Ident(name) => parsed(ExprView::Ident(name), st),
        TokenView::Int(digits) => match parse_decimal(digits) {
            Some(value) => parsed(ExprView::IntLiteral(value), st),
            None => failed(ParseErrorView::ParseIntError, st),
        },
        TokenView::True => parsed(ExprView::BooleanLiteral(true), st),
        TokenView::False => parsed(ExprView::BooleanLiteral(false), st),
        TokenView::Bang => parse_prefix(ts, st),
        TokenView::Minus => parse_prefix(ts, st),
        TokenView::OpenParen => parse_grouped(ts, st),
        TokenView::If => parse_if(ts, st),
        TokenView::Function => parse_function(ts, st),
        _ => failed(ParseErrorView::ExpectedExpression, st),
    }
}

/// A prefix operator, which is the current token, with its operand: the
/// expression after it that binds tighter than any infix operator.
pub open spec fn parse_prefix(ts: Seq<TokenView>, st: State) -> Parsed<ExprView>
    decreases tokens_left(ts, st.pos), 2nat,
{
    match operator_of(token_at(ts, st.pos)) {
        Err(e) => failed(e, st),
        Ok(op) => {
            let right = parse_expression(ts, step(st), Precedence::Prefix);
            match right.value {
                Err(e) => right,
                Ok(operand) => parsed(ExprView::Prefix(op, Box::new(operand)), right.state),
            }
        },
    }
}

/// An infix operator, which is the current token, applied to `left` and to
/// its right operand: the expression after it that binds tighter than the
/// operator itself, which makes operators of one precedence associate to
/// the left.
pub open spec fn parse_infix(ts: Seq<TokenView>, st: State, left: ExprView) -> Parsed<ExprView>
    decreases tokens_left(ts, st.pos), 2nat,
{
    match operator_of(token_at(ts, st.pos)) {
        Err(e) => failed(e, st),
        Ok(op) => {
            let right = parse_expression(ts, step(st), precedence_of(token_at(ts, st.pos)));
            match right.value {
                Err(e) => right,
                Ok(operand) => parsed(
                    ExprView::Infix(Box::new(left), op, Box::new(operand)),
                    right.state,
                ),
            }
        },
    }
}

/// A call of `func`, whose `(` is the current token, with its arguments.
pub open spec fn parse_call(ts: Seq<TokenView>, st: State, func: ExprView) -> Parsed<ExprView>
    decreases tokens_left(ts, st.pos), 6nat,
    when token_at(ts, st.pos) is OpenParen
{
    let args = parse_arguments(ts, step(st), Seq::empty());
    match args.value {
        Err(e) => failed(e, args.state),
        Ok(list) => parsed(ExprView::Call { func: Box::new(func), args: list }, args.state),
    }
}

/// A parenthesized expression, whose `(` is the current token.
pub open spec fn parse_grouped(ts: Seq<TokenView>, st: State) -> Parsed<ExprView>
    decreases tokens_left(ts, st.pos), 2nat,
    when token_at(ts, st.pos) is OpenParen
{
    let inner = parse_expression(ts, step(st), Precedence::Lowest);
    match inner.value {
        Err(e) => inner,
        Ok(expr) => {
            let close = expect_next(ts, inner.state, TokenView::CloseParen);
            match close.value {
                Err(e) => failed(e, close.state),
                Ok(_) => parsed(expr, close.state),
            }
        },
    }
}

/// An `if` expression, whose `if` is the current token: the condition in
/// parentheses and the consequence in braces, then the alternative, if any.
pub open spec fn parse_if(ts: Seq<TokenView>, st: State) -> Parsed<ExprView>
    decreases tokens_left(ts, st.pos), 2nat,
    when token_at(ts, st.pos) is If
{
    let open = expect_next(ts, st, TokenView::OpenParen);
    match open.value {
        Err(e) => failed(e, open.state),
        Ok(_) => {
            let check = parse_expression(ts, step(open.state), Precedence::Lowest);
            match check.value {
                Err(e) => check,
                Ok(condition) => {
                    let close = expect_next(
                        ts,
                        forward(st.pos + 2, check.state),
                        TokenView::CloseParen,
                    );
                    match close.value {
                        Err(e) => failed(e, close.state),
                        Ok(_) => {
                            let curly = expect_next(ts, close.state, TokenView::OpenCurly);
                            match curly.value {
                                Err(e) => failed(e, curly.state),
                                Ok(_) => {
                                    let block = parse_block(ts, curly.state);
                                    parse_else(
                                        ts,
                                        forward(st.pos + 4, block.state),
                                        condition,
                                        block.stmts,
                                    )
                                },
                            }
                        },
                    }
                },
            }
        },
    }
}

/// The end of an `if` expression, whose consequence ends on the current
/// token: if an `else` follows, the alternative in braces.
pub open spec fn parse_else(
    ts: Seq<TokenView>,
    st: State,
    condition: ExprView,
    consequence: Seq<StmtView>,
) -> Parsed<ExprView>
    decreases tokens_left(ts, st.pos), 10nat,
{
    if token_at(ts, st.pos + 1) is Else {
        let curly = expect_next(ts, step(st), TokenView::OpenCurly);
        match curly.value {
            Err(e) => failed(e, curly.state),
            Ok(_) => {
                let alt = parse_block(ts, curly.state);
                parsed(
                    ExprView::If {
                        check: Box::new(condition),
                        block: consequence,
                        alt: Some(alt.stmts),
                    },
                    alt.state,
                )
            },
        }
    } else {
        parsed(ExprView::If { check: Box::new(condition), block: consequence, alt: None }, st)
    }
}

/// A function literal, whose `fn` is the current token: the parameter names
/// in parentheses and the body in braces.
pub open spec fn parse_function(ts: Seq<TokenView>, st: State) -> Parsed<ExprView>
    decreases tokens_left(ts, st.pos), 2nat,
    when token_at(ts, st.pos) is Function
{
    let open = expect_next(ts, st, TokenView::OpenParen);
    match open.value {
        Err(e) => failed(e, open.state),
        Ok(_) => {
            let params = parse_parameters(ts, open.state);
            match params.value {
                Err(e) => failed(e, params.state),
                Ok(names) => {
                    let curly = expect_next(
                        ts,
                        forward(st.pos + 1, params.state),
                        TokenView::OpenCurly,
                    );
                    match curly.value {
                        Err(e) => failed(e, curly.state),
                        Ok(_) => {
                            let body = parse_block(ts, curly.state);
                            parsed(
                                ExprView::FuncLiteral { params: names, body: body.stmts },
                                body.state,
                            )
                        },
                    }
                },
            }
        },
    }
}

} // verus!
