//! What holds of every parse.

use vstd::prelude::*;
use crate::ast::{ExprView, StmtView};
use crate::parse::model::{
    expect_ident, expect_next, operator_of, parse_arguments, parse_block, parse_call, parse_else,
    parse_expression, parse_function, parse_grouped, parse_if, parse_infix, parse_let,
    parse_operators, parse_parameter_names, parse_parameters, parse_prefix, parse_primary,
    failed, lemma_resume_moves_on, parse_program, parse_statement, parse_statements,
    parse_tokens, parsed, precedence_of, record, resume, skip_statement, step, token_at,
    tokens_left, ParsedBlock, State,
};
use crate::parse::{ParseErrorView, Precedence};
use crate::token::TokenView;

verus! {

/// The parser has gone from `before` to `after` without moving back and
/// without dropping an error: the errors of `before` are the first errors
/// of `after`.
pub open spec fn moved_on(before: State, after: State) -> bool {
    &&& after.pos >= before.pos
    &&& before.errors.is_prefix_of(after.errors)
}

/// A parameter list is parsed without moving back or dropping an error.
pub proof fn lemma_parameter_names_move_on(ts: Seq<TokenView>, st: State, seen: Seq<Seq<char>>)
    requires
        token_at(ts, st.pos) is Ident,
    ensures
        moved_on(st, parse_parameter_names(ts, st, seen).state),
    decreases tokens_left(ts, st.pos),
{
    if token_at(ts, st.pos + 1) is Comma {
        let name = expect_ident(ts, step(st));
        if name.value is Ok {
            lemma_parameter_names_move_on(
                ts,
                name.state,
                seen.push(token_at(ts, st.pos).text()),
            );
        }
    }
}

/// Statements are parsed without moving back or dropping an error.
pub proof fn lemma_statements_move_on(
    ts: Seq<TokenView>,
    st: State,
    nested: bool,
    seen: Seq<StmtView>,
)
    ensures
        moved_on(st, parse_statements(ts, st, nested, seen).state),
    decreases tokens_left(ts, st.pos), 8nat,
{
    let token = token_at(ts, st.pos);
    if !(token is Eof || (nested && token is CloseCurly)) {
        lemma_statement_moves_on(ts, st);
        let first = parse_statement(ts, st);
        match first.value {
            Ok(stmt) => {
                lemma_statements_move_on(ts, step(first.state), nested, seen.push(stmt));
            },
            Err(e) => {
                lemma_resume_moves_on(ts, record(first.state, e), nested);
                lemma_statements_move_on(
                    ts,
                    resume(ts, record(first.state, e), nested),
                    nested,
                    seen,
                );
            },
        }
    }
}

/// A block is parsed without moving back or dropping an error.
pub proof fn lemma_block_moves_on(ts: Seq<TokenView>, st: State)
    ensures
        moved_on(st, parse_block(ts, st).state),
    decreases tokens_left(ts, st.pos), 9nat,
{
    lemma_statements_move_on(ts, step(st), true, Seq::empty());
}

/// A statement is parsed without moving back or dropping an error.
pub proof fn lemma_statement_moves_on(ts: Seq<TokenView>, st: State)
    ensures
        moved_on(st, parse_statement(ts, st).state),
    decreases tokens_left(ts, st.pos), 7nat,
{
    match token_at(ts, st.pos) {
        TokenView::Let => {
            lemma_let_moves_on(ts, st);
        },
        TokenView::Return => {
            lemma_expression_moves_on(ts, step(st), Precedence::Lowest);
        },
        _ => {
            lemma_expression_moves_on(ts, st, Precedence::Lowest);
        },
    }
}

/// A `let` is parsed without moving back or dropping an error.
pub proof fn lemma_let_moves_on(ts: Seq<TokenView>, st: State)
    ensures
        moved_on(st, parse_let(ts, st).state),
    decreases tokens_left(ts, st.pos), 6nat,
{
    let name = expect_ident(ts, st);
    if name.value is Ok {
        let assign = expect_next(ts, name.state, TokenView::Assign);
        if assign.value is Ok {
            lemma_expression_moves_on(ts, step(assign.state), Precedence::Lowest);
        }
    }
}

/// Arguments are parsed without moving back or dropping an error.
pub proof fn lemma_arguments_move_on(ts: Seq<TokenView>, st: State, seen: Seq<ExprView>)
    ensures
        moved_on(st, parse_arguments(ts, st, seen).state),
    decreases tokens_left(ts, st.pos), 5nat,
{
    if !(token_at(ts, st.pos) is CloseParen) && !(token_at(ts, st.pos) is Eof) {
        lemma_expression_moves_on(ts, st, Precedence::Lowest);
        let first = parse_expression(ts, st, Precedence::Lowest);
        match first.value {
            Ok(arg) => {
                if token_at(ts, first.state.pos + 1) is Comma {
                    lemma_arguments_move_on(ts, step(step(first.state)), seen.push(arg));
                }
            },
            Err(_) => {},
        }
    }
}

/// An expression is parsed without moving back or dropping an error.
pub proof fn lemma_expression_moves_on(ts: Seq<TokenView>, st: State, prec: Precedence)
    ensures
        moved_on(st, parse_expression(ts, st, prec).state),
    decreases tokens_left(ts, st.pos), 4nat,
{
    lemma_primary_moves_on(ts, st);
    let left = parse_primary(ts, st);
    match left.value {
        Ok(expr) => {
            lemma_operators_move_on(ts, left.state, prec, expr);
        },
        Err(_) => {},
    }
}

/// Operators and calls are parsed without moving back or dropping an
/// error.
pub proof fn lemma_operators_move_on(
    ts: Seq<TokenView>,
    st: State,
    prec: Precedence,
    left: ExprView,
)
    ensures
        moved_on(st, parse_operators(ts, st, prec, left).state),
    decreases tokens_left(ts, st.pos), 3nat,
{
    let ahead = token_at(ts, st.pos + 1);
    if !(token_at(ts, st.pos) is Semicolon || prec.rank() >= precedence_of(ahead).rank()) {
        let next = if ahead is OpenParen {
            lemma_call_moves_on(ts, step(st), left);
            parse_call(ts, step(st), left)
        } else {
            lemma_infix_moves_on(ts, step(st), left);
            parse_infix(ts, step(st), left)
        };
        match next.value {
            Ok(expr) => {
                lemma_operators_move_on(ts, next.state, prec, expr);
            },
            Err(_) => {},
        }
    }
}

/// A primary production is parsed without moving back or dropping an
/// error.
pub proof fn lemma_primary_moves_on(ts: Seq<TokenView>, st: State)
    ensures
        moved_on(st, parse_primary(ts, st).state),
    decreases tokens_left(ts, st.pos), 3nat,
{
    match token_at(ts, st.pos) {
        TokenView::Bang => {
            lemma_prefix_moves_on(ts, st);
        },
        TokenView::Minus => {
            lemma_prefix_moves_on(ts, st);
        },
        TokenView::OpenParen => {
            lemma_grouped_moves_on(ts, st);
        },
        TokenView::If => {
            lemma_if_moves_on(ts, st);
        },
        TokenView::Function => {
            lemma_function_moves_on(ts, st);
        },
        _ => {},
    }
}

/// A prefix operator and its operand are parsed without moving back or
/// dropping an error.
pub proof fn lemma_prefix_moves_on(ts: Seq<TokenView>, st: State)
    ensures
        moved_on(st, parse_prefix(ts, st).state),
    decreases tokens_left(ts, st.pos), 2nat,
{
    if operator_of(token_at(ts, st.pos)) is Ok {
        lemma_expression_moves_on(ts, step(st), Precedence::Prefix);
    }
}

/// An infix operator and its right operand are parsed without moving back
/// or dropping an error.
pub proof fn lemma_infix_moves_on(ts: Seq<TokenView>, st: State, left: ExprView)
    ensures
        moved_on(st, parse_infix(ts, st, left).state),
    decreases tokens_left(ts, st.pos), 2nat,
{
    if operator_of(token_at(ts, st.pos)) is Ok {
        lemma_expression_moves_on(
            ts,
            step(st),
            precedence_of(token_at(ts, st.pos)),
        );
    }
}

/// A call is parsed without moving back or dropping an error.
pub proof fn lemma_call_moves_on(ts: Seq<TokenView>, st: State, func: ExprView)
    requires
        token_at(ts, st.pos) is OpenParen,
    ensures
        moved_on(st, parse_call(ts, st, func).state),
    decreases tokens_left(ts, st.pos), 6nat,
{
    lemma_arguments_move_on(ts, step(st), Seq::empty());
}

/// A parenthesized expression is parsed without moving back or dropping
/// an error.
pub proof fn lemma_grouped_moves_on(ts: Seq<TokenView>, st: State)
    requires
        token_at(ts, st.pos) is OpenParen,
    ensures
        moved_on(st, parse_grouped(ts, st).state),
    decreases tokens_left(ts, st.pos), 2nat,
{
    lemma_expression_moves_on(ts, step(st), Precedence::Lowest);
}

/// An `if` is parsed without moving back or dropping an error.
pub proof fn lemma_if_moves_on(ts: Seq<TokenView>, st: State)
    requires
        token_at(ts, st.pos) is If,
    ensures
        moved_on(st, parse_if(ts, st).state),
    decreases tokens_left(ts, st.pos), 2nat,
{
    let open = expect_next(ts, st, TokenView::OpenParen);
    if open.value is Ok {
        lemma_expression_moves_on(ts, step(open.state), Precedence::Lowest);
        let check = parse_expression(ts, step(open.state), Precedence::Lowest);
        match check.value {
            Ok(condition) => {
                let close = expect_next(ts, check.state, TokenView::CloseParen);
                if close.value is Ok {
                    let curly = expect_next(ts, close.state, TokenView::OpenCurly);
                    if curly.value is Ok {
                        lemma_block_moves_on(ts, curly.state);
                        let block = parse_block(ts, curly.state);
                        lemma_else_moves_on(ts, block.state, condition, block.stmts);
                    }
                }
            },
            Err(_) => {},
        }
    }
}

/// The end of an `if` is parsed without moving back or dropping an error.
pub proof fn lemma_else_moves_on(
    ts: Seq<TokenView>,
    st: State,
    condition: ExprView,
    consequence: Seq<StmtView>,
)
    ensures
        moved_on(st, parse_else(ts, st, condition, consequence).state),
    decreases tokens_left(ts, st.pos), 10nat,
{
    if token_at(ts, st.pos + 1) is Else {
        let curly = expect_next(ts, step(st), TokenView::OpenCurly);
        if curly.value is Ok {
            lemma_block_moves_on(ts, curly.state);
        }
    }
}

/// A function literal is parsed without moving back or dropping an error.
pub proof fn lemma_function_moves_on(ts: Seq<TokenView>, st: State)
    requires
        token_at(ts, st.pos) is Function,
    ensures
        moved_on(st, parse_function(ts, st).state),
    decreases tokens_left(ts, st.pos), 2nat,
{
    let open = expect_next(ts, st, TokenView::OpenParen);
    if open.value is Ok {
        if !(token_at(ts, open.state.pos + 1) is CloseParen) {
            let name = expect_ident(ts, open.state);
            if name.value is Ok {
                lemma_parameter_names_move_on(ts, name.state, Seq::empty());
            }
        }
        let params = parse_parameters(ts, open.state);
        if params.value is Ok {
            let curly = expect_next(ts, params.state, TokenView::OpenCurly);
            if curly.value is Ok {
                lemma_block_moves_on(ts, curly.state);
            }
        }
    }
}

/// Parsing a program never moves back in the token sequence and never
/// drops an error: whatever was recorded before is still there afterwards,
/// in the same order, before what the program added.
pub proof fn lemma_program_moves_on(ts: Seq<TokenView>, st: State)
    ensures
        moved_on(st, parse_program(ts, st).state),
{
    lemma_statements_move_on(ts, step(st), false, Seq::empty());
}

/// Whether a token is an infix operator.
pub open spec fn is_infix_operator(token: TokenView) -> bool {
    operator_of(token) is Ok && precedence_of(token).rank() > Precedence::Lowest.rank()
}

/// The tree of `a op b`.
pub open spec fn infix_of(left: ExprView, token: TokenView, right: ExprView) -> ExprView {
    ExprView::Infix(Box::new(left), operator_of(token)->Ok_0, Box::new(right))
}

/// Operators bind by precedence, and operators of one precedence from the
/// left: `a op b op' c` is `(a op b) op' c` unless `op'` binds tighter than
/// `op`, and then it is `a op (b op' c)`.
pub proof fn lemma_infix_precedence(
    a: Seq<char>,
    first: TokenView,
    b: Seq<char>,
    second: TokenView,
    c: Seq<char>,
)
    requires
        is_infix_operator(first),
        is_infix_operator(second),
    ensures
        ({
            let ts = seq![
                TokenView::Ident(a),
                first,
                TokenView::Ident(b),
                second,
                TokenView::Ident(c),
                TokenView::Eof,
            ];
            let tree = if precedence_of(first).rank() >= precedence_of(second).rank() {
                infix_of(
                    infix_of(ExprView::Ident(a), first, ExprView::Ident(b)),
                    second,
                    ExprView::Ident(c),
                )
            } else {
                infix_of(
                    ExprView::Ident(a),
                    first,
                    infix_of(ExprView::Ident(b), second, ExprView::Ident(c)),
                )
            };
            &&& parse_tokens(ts).stmts == seq![StmtView::Expression(tree)]
            &&& parse_tokens(ts).state.errors == Seq::<ParseErrorView>::empty()
        }),
{
    let ts = seq![
        TokenView::Ident(a),
        first,
        TokenView::Ident(b),
        second,
        TokenView::Ident(c),
        TokenView::Eof,
    ];
    let none = Seq::<ParseErrorView>::empty();
    let at = |pos: int| State { pos, errors: none };
    let ea = ExprView::Ident(a);
    let eb = ExprView::Ident(b);
    let ec = ExprView::Ident(c);
    let first_prec = precedence_of(first);
    let second_prec = precedence_of(second);
    assert(token_at(ts, 0) == TokenView::Ident(a));
    assert(token_at(ts, 1) == first);
    assert(token_at(ts, 2) == TokenView::Ident(b));
    assert(token_at(ts, 3) == second);
    assert(token_at(ts, 4) == TokenView::Ident(c));
    assert(token_at(ts, 5) == TokenView::Eof);
    assert(token_at(ts, 6) == TokenView::Eof);
    // `c` is the last operand, whatever comes before it.
    assert(parse_primary(ts, at(4)) == parsed(ec, at(4)));
    assert(parse_operators(ts, at(4), second_prec, ec) == parsed(ec, at(4)));
    assert(parse_expression(ts, at(4), second_prec) == parsed(ec, at(4)));
    assert(parse_infix(ts, at(3), eb) == parsed(infix_of(eb, second, ec), at(4)));
    assert(parse_primary(ts, at(2)) == parsed(eb, at(2)));
    let whole = if first_prec.rank() >= second_prec.rank() {
        // The first operator takes `b` alone; the second one takes the
        // whole of `a op b` as its left operand.
        let left = infix_of(ea, first, eb);
        assert(parse_operators(ts, at(2), first_prec, eb) == parsed(eb, at(2)));
        assert(parse_expression(ts, at(2), first_prec) == parsed(eb, at(2)));
        assert(parse_infix(ts, at(1), ea) == parsed(left, at(2)));
        assert(parse_infix(ts, at(3), left) == parsed(infix_of(left, second, ec), at(4)));
        let tree = infix_of(left, second, ec);
        assert(parse_operators(ts, at(4), Precedence::Lowest, tree) == parsed(tree, at(4)));
        assert(parse_operators(ts, at(2), Precedence::Lowest, left) == parsed(tree, at(4)));
        assert(parse_operators(ts, at(0), Precedence::Lowest, ea) == parsed(tree, at(4)));
        tree
    } else {
        // The second operator binds tighter and takes `b` away from the
        // first one.
        let right = infix_of(eb, second, ec);
        assert(parse_operators(ts, at(4), first_prec, right) == parsed(right, at(4)));
        assert(parse_operators(ts, at(2), first_prec, eb) == parsed(right, at(4)));
        assert(parse_expression(ts, at(2), first_prec) == parsed(right, at(4)));
        let tree = infix_of(ea, first, right);
        assert(parse_infix(ts, at(1), ea) == parsed(tree, at(4)));
        assert(parse_operators(ts, at(4), Precedence::Lowest, tree) == parsed(tree, at(4)));
        assert(parse_operators(ts, at(0), Precedence::Lowest, ea) == parsed(tree, at(4)));
        tree
    };
    assert(parse_primary(ts, at(0)) == parsed(ea, at(0)));
    assert(parse_expression(ts, at(0), Precedence::Lowest) == parsed(whole, at(4)));
    assert(parse_statement(ts, at(0)) == parsed(StmtView::Expression(whole), at(4)));
    let stmts = Seq::<StmtView>::empty().push(StmtView::Expression(whole));
    assert(parse_statements(ts, at(5), false, stmts) == (ParsedBlock { stmts, state: at(5) }));
    assert(parse_statements(ts, at(0), false, Seq::empty()) == (ParsedBlock {
        stmts,
        state: at(5),
    }));
    assert(step(at(-1)) == at(0));
    assert(stmts =~= seq![StmtView::Expression(whole)]);
}

/// A prefix operator binds tighter than any infix operator: `-a op b` is
/// `(-a) op b`.
pub proof fn lemma_prefix_binds_tighter(
    prefix: TokenView,
    a: Seq<char>,
    infix: TokenView,
    b: Seq<char>,
)
    requires
        prefix is Bang || prefix is Minus,
        is_infix_operator(infix),
    ensures
        ({
            let ts = seq![prefix, TokenView::Ident(a), infix, TokenView::Ident(b), TokenView::Eof];
            let operand = ExprView::Prefix(operator_of(prefix)->Ok_0, Box::new(ExprView::Ident(a)));
            let tree = infix_of(operand, infix, ExprView::Ident(b));
            &&& parse_tokens(ts).stmts == seq![StmtView::Expression(tree)]
            &&& parse_tokens(ts).state.errors == Seq::<ParseErrorView>::empty()
        }),
{
    let ts = seq![prefix, TokenView::Ident(a), infix, TokenView::Ident(b), TokenView::Eof];
    let none = Seq::<ParseErrorView>::empty();
    let at = |pos: int| State { pos, errors: none };
    let ea = ExprView::Ident(a);
    let eb = ExprView::Ident(b);
    let operand = ExprView::Prefix(operator_of(prefix)->Ok_0, Box::new(ea));
    let tree = infix_of(operand, infix, eb);
    let p = precedence_of(infix);
    assert(token_at(ts, 0) == prefix);
    assert(token_at(ts, 1) == TokenView::Ident(a));
    assert(token_at(ts, 2) == infix);
    assert(token_at(ts, 3) == TokenView::Ident(b));
    assert(token_at(ts, 4) == TokenView::Eof);
    assert(token_at(ts, 5) == TokenView::Eof);
    assert(parse_primary(ts, at(1)) == parsed(ea, at(1)));
    assert(parse_operators(ts, at(1), Precedence::Prefix, ea) == parsed(ea, at(1)));
    assert(parse_expression(ts, at(1), Precedence::Prefix) == parsed(ea, at(1)));
    assert(parse_prefix(ts, at(0)) == parsed(operand, at(1)));
    assert(parse_primary(ts, at(0)) == parsed(operand, at(1)));
    assert(parse_primary(ts, at(3)) == parsed(eb, at(3)));
    assert(parse_operators(ts, at(3), p, eb) == parsed(eb, at(3)));
    assert(parse_expression(ts, at(3), p) == parsed(eb, at(3)));
    assert(parse_infix(ts, at(2), operand) == parsed(tree, at(3)));
    assert(parse_operators(ts, at(3), Precedence::Lowest, tree) == parsed(tree, at(3)));
    assert(parse_operators(ts, at(1), Precedence::Lowest, operand) == parsed(tree, at(3)));
    assert(parse_expression(ts, at(0), Precedence::Lowest) == parsed(tree, at(3)));
    assert(parse_statement(ts, at(0)) == parsed(StmtView::Expression(tree), at(3)));
    let stmts = Seq::<StmtView>::empty().push(StmtView::Expression(tree));
    assert(parse_statements(ts, at(4), false, stmts) == (ParsedBlock { stmts, state: at(4) }));
    assert(parse_statements(ts, at(0), false, Seq::empty()) == (ParsedBlock {
        stmts,
        state: at(4),
    }));
    assert(step(at(-1)) == at(0));
    assert(stmts =~= seq![StmtView::Expression(tree)]);
}

/// Parentheses bind tightest of all: `a op (b op' c)` is `a op (b op' c)`
/// whatever the precedences of `op` and `op'`.
pub proof fn lemma_parentheses_group(
    a: Seq<char>,
    first: TokenView,
    b: Seq<char>,
    second: TokenView,
    c: Seq<char>,
)
    requires
        is_infix_operator(first),
        is_infix_operator(second),
    ensures
        ({
            let ts = seq![
                TokenView::Ident(a),
                first,
                TokenView::OpenParen,
                TokenView::Ident(b),
                second,
                TokenView::Ident(c),
                TokenView::CloseParen,
                TokenView::Eof,
            ];
            let tree = infix_of(
                ExprView::Ident(a),
                first,
                infix_of(ExprView::Ident(b), second, ExprView::Ident(c)),
            );
            &&& parse_tokens(ts).stmts == seq![StmtView::Expression(tree)]
            &&& parse_tokens(ts).state.errors == Seq::<ParseErrorView>::empty()
        }),
{
    let ts = seq![
        TokenView::Ident(a),
        first,
        TokenView::OpenParen,
        TokenView::Ident(b),
        second,
        TokenView::Ident(c),
        TokenView::CloseParen,
        TokenView::Eof,
    ];
    let none = Seq::<ParseErrorView>::empty();
    let at = |pos: int| State { pos, errors: none };
    let ea = ExprView::Ident(a);
    let eb = ExprView::Ident(b);
    let ec = ExprView::Ident(c);
    let inner = infix_of(eb, second, ec);
    let tree = infix_of(ea, first, inner);
    let first_prec = precedence_of(first);
    let second_prec = precedence_of(second);
    assert(token_at(ts, 0) == TokenView::Ident(a));
    assert(token_at(ts, 1) == first);
    assert(token_at(ts, 2) == TokenView::OpenParen);
    assert(token_at(ts, 3) == TokenView::Ident(b));
    assert(token_at(ts, 4) == second);
    assert(token_at(ts, 5) == TokenView::Ident(c));
    assert(token_at(ts, 6) == TokenView::CloseParen);
    assert(token_at(ts, 7) == TokenView::Eof);
    assert(token_at(ts, 8) == TokenView::Eof);
    assert(parse_primary(ts, at(5)) == parsed(ec, at(5)));
    assert(parse_operators(ts, at(5), second_prec, ec) == parsed(ec, at(5)));
    assert(parse_expression(ts, at(5), second_prec) == parsed(ec, at(5)));
    assert(parse_infix(ts, at(4), eb) == parsed(inner, at(5)));
    assert(parse_primary(ts, at(3)) == parsed(eb, at(3)));
    assert(parse_operators(ts, at(5), Precedence::Lowest, inner) == parsed(inner, at(5)));
    assert(parse_operators(ts, at(3), Precedence::Lowest, eb) == parsed(inner, at(5)));
    assert(parse_expression(ts, at(3), Precedence::Lowest) == parsed(inner, at(5)));
    assert(TokenView::CloseParen.same_kind(TokenView::CloseParen));
    assert(expect_next(ts, at(5), TokenView::CloseParen) == parsed((), at(6)));
    assert(parse_grouped(ts, at(2)) == parsed(inner, at(6)));
    assert(parse_primary(ts, at(2)) == parsed(inner, at(6)));
    assert(parse_operators(ts, at(6), first_prec, inner) == parsed(inner, at(6)));
    assert(parse_expression(ts, at(2), first_prec) == parsed(inner, at(6)));
    assert(parse_infix(ts, at(1), ea) == parsed(tree, at(6)));
    assert(parse_operators(ts, at(6), Precedence::Lowest, tree) == parsed(tree, at(6)));
    assert(parse_primary(ts, at(0)) == parsed(ea, at(0)));
    assert(parse_operators(ts, at(0), Precedence::Lowest, ea) == parsed(tree, at(6)));
    assert(parse_expression(ts, at(0), Precedence::Lowest) == parsed(tree, at(6)));
    assert(parse_statement(ts, at(0)) == parsed(StmtView::Expression(tree), at(6)));
    let stmts = Seq::<StmtView>::empty().push(StmtView::Expression(tree));
    assert(parse_statements(ts, at(7), false, stmts) == (ParsedBlock { stmts, state: at(7) }));
    assert(parse_statements(ts, at(0), false, Seq::empty()) == (ParsedBlock {
        stmts,
        state: at(7),
    }));
    assert(step(at(-1)) == at(0));
    assert(stmts =~= seq![StmtView::Expression(tree)]);
}

/// Where skipping stops: on a `;`, at the end of input or, inside a block,
/// on the `}` of the block; and nothing that it passed was one of these.
pub proof fn lemma_skip_statement_stops(ts: Seq<TokenView>, st: State, nested: bool)
    ensures
        ({
            let token = token_at(ts, skip_statement(ts, st, nested).pos);
            token is Semicolon || token is Eof || (nested && token is CloseCurly)
        }),
        forall|i: int|
            st.pos <= i < skip_statement(ts, st, nested).pos ==> !(#[trigger] token_at(ts, i)
                is Semicolon) && !(token_at(ts, i) is Eof),
    decreases tokens_left(ts, st.pos),
{
    let token = token_at(ts, st.pos);
    if !(token is Eof || token is Semicolon || (nested && token is CloseCurly)) {
        lemma_skip_statement_stops(ts, step(st), nested);
    }
}

/// One error for each statement that failed: a statement that fails adds
/// its one error to those that were recorded while it was parsed, nothing
/// of it becomes a statement, and parsing goes on behind the next `;`, or
/// ends with the input or the block.
pub proof fn lemma_failed_statement_records_one_error(
    ts: Seq<TokenView>,
    st: State,
    nested: bool,
    seen: Seq<StmtView>,
)
    requires
        !(token_at(ts, st.pos) is Eof),
        !(nested && token_at(ts, st.pos) is CloseCurly),
        parse_statement(ts, st).value is Err,
    ensures
        ({
            let first = parse_statement(ts, st);
            let next = resume(ts, record(first.state, first.value->Err_0), nested);
            &&& parse_statements(ts, st, nested, seen) == parse_statements(ts, next, nested, seen)
            &&& next.errors == first.state.errors.push(first.value->Err_0)
            &&& next.pos > st.pos
            &&& token_at(ts, next.pos - 1) is Semicolon || token_at(ts, next.pos) is Eof || (nested
                && token_at(ts, next.pos) is CloseCurly)
        }),
{
    let first = parse_statement(ts, st);
    let failed_in = record(first.state, first.value->Err_0);
    lemma_statement_moves_on(ts, st);
    lemma_resume_moves_on(ts, failed_in, nested);
    lemma_skip_statement_stops(ts, failed_in, nested);
}

/// A `let` that no name follows fails with `ExpectedIdentifier`, on the
/// `let` itself.
pub proof fn lemma_let_without_name(ts: Seq<TokenView>, st: State)
    requires
        token_at(ts, st.pos) is Let,
        !(token_at(ts, st.pos + 1) is Ident),
    ensures
        parse_statement(ts, st) == failed::<StmtView>(ParseErrorView::ExpectedIdentifier, st),
{
    assert(parse_let(ts, st) == failed::<(Seq<char>, ExprView)>(
        ParseErrorView::ExpectedIdentifier,
        st,
    ));
}

/// A `let` with a name that no `=` follows fails with `UnexpectedToken`, on
/// the name, and tells which token stood where the `=` had to.
pub proof fn lemma_let_without_assign(ts: Seq<TokenView>, st: State)
    requires
        token_at(ts, st.pos) is Let,
        token_at(ts, st.pos + 1) is Ident,
        !(token_at(ts, st.pos + 2) is Assign),
    ensures
        parse_statement(ts, st) == failed::<StmtView>(
            ParseErrorView::UnexpectedToken {
                expected: TokenView::Assign,
                received: token_at(ts, st.pos + 2),
            },
            step(st),
        ),
{
    assert(parse_let(ts, st) == failed::<(Seq<char>, ExprView)>(
        ParseErrorView::UnexpectedToken {
            expected: TokenView::Assign,
            received: token_at(ts, st.pos + 2),
        },
        step(st),
    ));
}

/// Whether a token can stand inside a statement that is skipped: it is no
/// `;` and not the end of input.
pub open spec fn is_skipped(token: TokenView) -> bool {
    !(token is Semicolon) && !(token is Eof)
}

/// Two broken `let` statements back to back, the first without a name and
/// the second without a `=`, give two errors, one for each, in their order,
/// and no statement: `let a b; let y c d;` for any tokens `a`, `b`, `c` and
/// `d` but `;`, where `a` is no identifier and `c` no `=`.
pub proof fn lemma_two_broken_lets(
    a: TokenView,
    b: TokenView,
    y: Seq<char>,
    c: TokenView,
    d: TokenView,
)
    requires
        is_skipped(a) && is_skipped(b) && is_skipped(c) && is_skipped(d),
        !(a is Ident),
        !(c is Assign),
    ensures
        ({
            let ts = seq![
                TokenView::Let,
                a,
                b,
                TokenView::Semicolon,
                TokenView::Let,
                TokenView::Ident(y),
                c,
                d,
                TokenView::Semicolon,
                TokenView::Eof,
            ];
            &&& parse_tokens(ts).stmts == Seq::<StmtView>::empty()
            &&& parse_tokens(ts).state.errors == seq![
                ParseErrorView::ExpectedIdentifier,
                ParseErrorView::UnexpectedToken { expected: TokenView::Assign, received: c },
            ]
        }),
{
    let ts = seq![
        TokenView::Let,
        a,
        b,
        TokenView::Semicolon,
        TokenView::Let,
        TokenView::Ident(y),
        c,
        d,
        TokenView::Semicolon,
        TokenView::Eof,
    ];
    let none = Seq::<ParseErrorView>::empty();
    let no_stmts = Seq::<StmtView>::empty();
    let first = ParseErrorView::ExpectedIdentifier;
    let second = ParseErrorView::UnexpectedToken { expected: TokenView::Assign, received: c };
    let one = none.push(first);
    let two = one.push(second);
    assert(token_at(ts, 0) == TokenView::Let);
    assert(token_at(ts, 1) == a);
    assert(token_at(ts, 2) == b);
    assert(token_at(ts, 3) == TokenView::Semicolon);
    assert(token_at(ts, 4) == TokenView::Let);
    assert(token_at(ts, 5) == TokenView::Ident(y));
    assert(token_at(ts, 6) == c);
    assert(token_at(ts, 7) == d);
    assert(token_at(ts, 8) == TokenView::Semicolon);
    assert(token_at(ts, 9) == TokenView::Eof);
    let s0 = State { pos: 0, errors: none };
    lemma_let_without_name(ts, s0);
    // The first `let` is skipped up to its `;`.
    assert(skip_statement(ts, State { pos: 3, errors: one }, false) == (State {
        pos: 3,
        errors: one,
    }));
    assert(skip_statement(ts, State { pos: 2, errors: one }, false).pos == 3);
    assert(skip_statement(ts, State { pos: 1, errors: one }, false).pos == 3);
    assert(skip_statement(ts, State { pos: 0, errors: one }, false) == (State {
        pos: 3,
        errors: one,
    }));
    assert(resume(ts, record(s0, first), false) == (State { pos: 4, errors: one }));
    let s4 = State { pos: 4, errors: one };
    lemma_let_without_assign(ts, s4);
    // The second one is skipped from its name on.
    assert(skip_statement(ts, State { pos: 8, errors: two }, false) == (State {
        pos: 8,
        errors: two,
    }));
    assert(skip_statement(ts, State { pos: 7, errors: two }, false).pos == 8);
    assert(skip_statement(ts, State { pos: 6, errors: two }, false).pos == 8);
    assert(skip_statement(ts, State { pos: 5, errors: two }, false) == (State {
        pos: 8,
        errors: two,
    }));
    assert(resume(ts, record(step(s4), second), false) == (State { pos: 9, errors: two }));
    let s9 = State { pos: 9, errors: two };
    assert(parse_statements(ts, s9, false, no_stmts) == (ParsedBlock {
        stmts: no_stmts,
        state: s9,
    }));
    assert(parse_statements(ts, s4, false, no_stmts) == (ParsedBlock {
        stmts: no_stmts,
        state: s9,
    }));
    assert(parse_statements(ts, s0, false, no_stmts) == (ParsedBlock {
        stmts: no_stmts,
        state: s9,
    }));
    assert(step(State { pos: -1, errors: none }) == s0);
    assert(two =~= seq![first, second]);
}

} // verus!
