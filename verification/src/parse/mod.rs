//! The parser: from a token stream to a syntax tree, by operator precedence.
//!
//! A statement that fails is left out of the tree and recorded as one
//! error. What is left of it, up to the next `;`, is skipped, and parsing
//! resumes with the statement after that, so every source has a tree and a
//! list of errors, one for each statement that failed. What the tree and the
//! errors of a token sequence are is laid down in [`model`]; the executable
//! [`Parser`] pulls its tokens from a [`Lexer`] and is proved to compute
//! exactly that.

pub mod laws;
pub mod model;

use vstd::prelude::*;
use vstd::string::StringSliceAdditionalSpecFns;
use crate::ast::{
    expr_views, lemma_ast_view, lemma_expression_list_view, names_view, stmt_views, Ast, Expr,
    ExprView, ExpressionList, Operator, Stmt, StmtView,
};
use crate::lex::{
    lemma_reading_follows_the_stream, lemma_token_stream_ends_in_single_eof, token_stream,
    token_stream_from, unread, Lexer,
};
use crate::text::parse_i64;
use crate::token::{Token, TokenView};
use model::{
    expect_ident, expect_next, operator_of, parse_arguments, parse_block, parse_call, parse_else,
    parse_expression, parse_function, parse_grouped, parse_if, parse_infix, parse_let,
    parse_operators, parse_parameter_names, parse_parameters, parse_prefix, parse_program,
    lemma_resume_moves_on, parse_statement, parse_statements, parse_tokens, precedence_of, record,
    resume, skip_statement, step, token_at, tokens_left, State,
};

verus! {

/// How tightly an operator binds, from loosest to tightest.
#[derive(Debug, PartialEq, Eq, Clone, Copy, Structural)]
pub enum Precedence {
    Lowest,
    /// `==` and `!=`
    Equality,
    /// `<` and `>`
    LessGreater,
    /// `+` and `-`
    AddSub,
    /// `*` and `/`
    MultDiv,
    /// unary `-` and `!`
    Prefix,
    /// a call, `f(x)`
    Call,
}

impl Precedence {
    /// The place of this precedence in the order, from 1 for the loosest.
    pub open spec fn rank(self) -> int {
        match self {
            Precedence::Lowest => 1,
            Precedence::Equality => 2,
            Precedence::LessGreater => 3,
            Precedence::AddSub => 4,
            Precedence::MultDiv => 5,
            Precedence::Prefix => 6,
            Precedence::Call => 7,
        }
    }

    /// The place of this precedence in the order, from 1 for the loosest.
    pub fn level(&self) -> (r: u8)
        ensures
            r == self.rank(),
    {
        match self {
            Precedence::Lowest => 1,
            Precedence::Equality => 2,
            Precedence::LessGreater => 3,
            Precedence::AddSub => 4,
            Precedence::MultDiv => 5,
            Precedence::Prefix => 6,
            Precedence::Call => 7,
        }
    }
}

impl From<&Token> for Precedence {
    /// The precedence that a token has where an infix operator may stand.
    fn from(token: &Token) -> (r: Precedence) {
        match token {
            Token::OpenParen => Precedence::Call,
            Token::Asterisk | Token::Slash => Precedence::MultDiv,
            Token::Plus | Token::Minus => Precedence::AddSub,
            Token::LessThan | Token::GreaterThan => Precedence::LessGreater,
            Token::Equal | Token::NotEqual => Precedence::Equality,
            _ => Precedence::Lowest,
        }
    }
}

impl vstd::std_specs::convert::FromSpecImpl<&Token> for Precedence {
    open spec fn obeys_from_spec() -> bool {
        true
    }

    open spec fn from_spec(token: &Token) -> Precedence {
        precedence_of(token@)
    }
}

/// A syntax error.
#[derive(Debug, PartialEq, Eq)]
pub enum ParseError {
    /// A token of the kind of `expected` had to follow, and `received` did.
    UnexpectedToken { expected: Token, received: Token },
    /// No expression can start with the current token.
    ExpectedExpression,
    /// The digits of an integer literal denote no 64-bit integer.
    ParseIntError,
    /// The current token is no operator.
    ExpectedOperator,
    /// An identifier had to follow.
    ExpectedIdentifier,
}

/// The mathematical value of a [`ParseError`].
pub ghost enum ParseErrorView {
    UnexpectedToken { expected: TokenView, received: TokenView },
    ExpectedExpression,
    ParseIntError,
    ExpectedOperator,
    ExpectedIdentifier,
}

impl View for ParseError {
    type V = ParseErrorView;

    open spec fn view(&self) -> ParseErrorView {
        match self {
            ParseError::UnexpectedToken { expected, received } => ParseErrorView::UnexpectedToken {
                expected: expected@,
                received: received@,
            },
            ParseError::ExpectedExpression => ParseErrorView::ExpectedExpression,
            ParseError::ParseIntError => ParseErrorView::ParseIntError,
            ParseError::ExpectedOperator => ParseErrorView::ExpectedOperator,
            ParseError::ExpectedIdentifier => ParseErrorView::ExpectedIdentifier,
        }
    }
}

/// The mathematical values of a list of errors.
pub open spec fn error_views(errors: Seq<ParseError>) -> Seq<ParseErrorView> {
    Seq::new(errors.len(), |i: int| errors[i]@)
}

/// The mathematical value of the outcome of parsing an expression.
pub open spec fn expr_outcome(r: Result<Expr, ParseError>) -> Result<ExprView, ParseErrorView> {
    match r {
        Ok(expr) => Ok(expr@),
        Err(e) => Err(e@),
    }
}

/// The mathematical value of the outcome of parsing a statement.
pub open spec fn stmt_outcome(r: Result<Stmt, ParseError>) -> Result<StmtView, ParseErrorView> {
    match r {
        Ok(stmt) => Ok(stmt@),
        Err(e) => Err(e@),
    }
}

/// The mathematical value of the outcome of parsing a parameter list.
pub open spec fn names_outcome(r: Result<Vec<String>, ParseError>) -> Result<
    Seq<Seq<char>>,
    ParseErrorView,
> {
    match r {
        Ok(names) => Ok(names_view(names@)),
        Err(e) => Err(e@),
    }
}

/// The mathematical value of the outcome of parsing an argument list.
pub open spec fn args_outcome(r: Result<ExpressionList, ParseError>) -> Result<
    Seq<ExprView>,
    ParseErrorView,
> {
    match r {
        Ok(args) => Ok(args@),
        Err(e) => Err(e@),
    }
}

/// The mathematical value of the outcome of parsing a name and its value.
pub open spec fn binding_outcome(r: Result<(String, Expr), ParseError>) -> Result<
    (Seq<char>, ExprView),
    ParseErrorView,
> {
    match r {
        Ok((name, value)) => Ok((name@, value@)),
        Err(e) => Err(e@),
    }
}

/// The mathematical value of the outcome of a step that yields no value.
pub open spec fn unit_outcome(r: Result<(), ParseError>) -> Result<(), ParseErrorView> {
    match r {
        Ok(_) => Ok(()),
        Err(e) => Err(e@),
    }
}

impl TryFrom<&Token> for Operator {
    type Error = ParseError;

    /// The operator that `token` denotes.
    fn try_from(token: &Token) -> (r: Result<Operator, ParseError>) {
        match token {
            Token::Equal => Ok(Operator::Equals),
            Token::NotEqual => Ok(Operator::NotEquals),
            Token::LessThan => Ok(Operator::LessThan),
            Token::GreaterThan => Ok(Operator::GreaterThan),
            Token::Plus => Ok(Operator::Plus),
            Token::Minus => Ok(Operator::Minus),
            Token::Asterisk => Ok(Operator::Multiplication),
            Token::Slash => Ok(Operator::Division),
            Token::Bang => Ok(Operator::Bang),
            _ => Err(ParseError::ExpectedOperator),
        }
    }
}

impl vstd::std_specs::convert::TryFromSpecImpl<&Token> for Operator {
    open spec fn obeys_try_from_spec() -> bool {
        true
    }

    open spec fn try_from_spec(token: &Token) -> Result<Operator, ParseError> {
        match operator_of(token@) {
            Ok(op) => Ok(op),
            Err(_) => Err(ParseError::ExpectedOperator),
        }
    }
}

/// A parser over one source text. It keeps the current token and one token
/// of look-ahead, and collects the errors of the statements that failed.
pub struct Parser<'p> {
    lexer: Lexer<'p>,
    curr_token: Token,
    next_token: Token,
    pub errors: Vec<ParseError>,
    cursor: Ghost<int>,
}

impl<'p> Parser<'p> {
    /// The token stream of the source.
    pub closed spec fn tokens(&self) -> Seq<TokenView> {
        token_stream(self.lexer.source())
    }

    /// The state of the parser: the position of the current token in the
    /// token stream, which is -1 before the first token has become current,
    /// and the errors recorded so far.
    pub closed spec fn state(&self) -> State {
        State { pos: self.cursor@, errors: error_views(self.errors@) }
    }

    /// The current token and the look-ahead are the tokens at the cursor
    /// and after it, and the tokenizer stands behind the look-ahead.
    pub closed spec fn wf(&self) -> bool {
        &&& self.lexer.wf()
        &&& self.cursor@ >= -1
        &&& self.curr_token@ == token_at(self.tokens(), self.cursor@)
        &&& self.next_token@ == token_at(self.tokens(), self.cursor@ + 1)
        &&& token_stream_from(self.lexer.source(), self.lexer.offset()) == unread(
            self.tokens(),
            self.cursor@ + 2,
        )
    }

    /// The parser has gone from the state of `before` to `state`, over the
    /// same tokens and without moving back.
    pub open spec fn went(&self, before: Parser<'p>, state: State) -> bool {
        &&& self.wf()
        &&& self.tokens() == before.tokens()
        &&& self.state() == state
        &&& self.state().pos >= before.state().pos
    }

    /// The errors recorded so far, in the order in which they came up.
    pub fn errors(&self) -> (r: &Vec<ParseError>)
        ensures
            error_views(r@) == self.state().errors,
    {
        &self.errors
    }

    /// A parser at the start of `src`, with no token current yet.
    pub fn new(src: &'p str) -> (parser: Parser<'p>)
        ensures
            parser.wf(),
            parser.tokens() == token_stream(src.spec_bytes()),
            parser.state() == (State { pos: -1, errors: Seq::empty() }),
    {
        let mut lexer = Lexer::new(src);
        proof {
            let bytes = lexer.source();
            lemma_token_stream_ends_in_single_eof(bytes, 0);
            assert(token_stream(bytes).skip(0) =~= token_stream(bytes));
            lemma_reading_follows_the_stream(bytes, 0, 0);
        }
        let next_token = lexer.next_token();
        let parser = Parser {
            lexer,
            curr_token: Token::default(),
            next_token,
            errors: Vec::new(),
            cursor: Ghost(-1),
        };
        assert(parser.state().errors =~= Seq::<ParseErrorView>::empty());
        parser
    }

    /// Makes the look-ahead token current and pulls a new look-ahead.
    fn step(&mut self)
        requires
            old(self).wf(),
        ensures
            final(self).went(*old(self), step(old(self).state())),
    {
        proof {
            self.lexer.lemma_offset_in_source();
            lemma_reading_follows_the_stream(self.lexer.source(), self.lexer.offset(), self.cursor@ + 2);
        }
        core::mem::swap(&mut self.curr_token, &mut self.next_token);
        self.next_token = self.lexer.next_token();
        self.cursor = Ghost(self.cursor@ + 1);
    }

    /// Records the error of a statement that failed.
    fn record(&mut self, error: ParseError)
        requires
            old(self).wf(),
        ensures
            final(self).went(*old(self), record(old(self).state(), error@)),
    {
        self.errors.push(error);
        assert(error_views(self.errors@) =~= error_views(old(self).errors@).push(error@));
    }

    /// Moves onto the look-ahead token if it is of the kind of `expected`.
    fn expect_next(&mut self, expected: Token) -> (r: Result<(), ParseError>)
        requires
            old(self).wf(),
        ensures
            final(self).went(
                *old(self),
                expect_next(old(self).tokens(), old(self).state(), expected@).state,
            ),
            unit_outcome(r) == expect_next(old(self).tokens(), old(self).state(), expected@).value,
    {
        if self.next_token.is(&expected) {
            self.step();
            Ok(())
        } else {
            Err(ParseError::UnexpectedToken { expected, received: self.next_token.clone() })
        }
    }

    /// Moves onto the look-ahead token if it is an identifier.
    fn expect_ident(&mut self) -> (r: Result<(), ParseError>)
        requires
            old(self).wf(),
        ensures
            final(self).went(*old(self), expect_ident(old(self).tokens(), old(self).state()).state),
            unit_outcome(r) == expect_ident(old(self).tokens(), old(self).state()).value,
    {
        match self.next_token {
            Token::Ident(_) => {
                self.step();
                Ok(())
            },
            _ => Err(ParseError::ExpectedIdentifier),
        }
    }

    /// Parses the whole source: every statement up to the end of input. A
    /// statement that failed is left out of the tree, its error is added to
    /// `errors`, and what is left of it up to the next `;` is skipped.
    pub fn parse(&mut self) -> (ast: Ast)
        requires
            old(self).wf(),
        ensures
            final(self).went(*old(self), parse_program(old(self).tokens(), old(self).state()).state),
            ast@ == parse_program(old(self).tokens(), old(self).state()).stmts,
    {
        self.step();
        self.parse_stmts(false)
    }

    /// Parses a block whose `{` is the current token.
    fn parse_block(&mut self) -> (ast: Ast)
        requires
            old(self).wf(),
        ensures
            final(self).went(*old(self), parse_block(old(self).tokens(), old(self).state()).state),
            ast@ == parse_block(old(self).tokens(), old(self).state()).stmts,
        decreases tokens_left(old(self).tokens(), old(self).state().pos), 9nat,
    {
        self.step();
        self.parse_stmts(true)
    }

    /// Parses statements from the current token on, up to the end of input
    /// or, if `nested`, up to a `}`.
    fn parse_stmts(&mut self, nested: bool) -> (ast: Ast)
        requires
            old(self).wf(),
        ensures
            final(self).went(
                *old(self),
                parse_statements(old(self).tokens(), old(self).state(), nested, Seq::empty()).state,
            ),
            ast@ == parse_statements(
                old(self).tokens(),
                old(self).state(),
                nested,
                Seq::empty(),
            ).stmts,
        decreases tokens_left(old(self).tokens(), old(self).state().pos), 8nat,
    {
        let mut statements: Vec<Stmt> = Vec::new();
        let ghost ts = self.tokens();
        let ghost total = parse_statements(ts, self.state(), nested, Seq::empty());
        assert(stmt_views(statements@) =~= Seq::<StmtView>::empty());
        loop
            invariant_except_break
                parse_statements(ts, self.state(), nested, stmt_views(statements@)) == total,
            invariant
                self.wf(),
                self.tokens() == ts,
                self.state().pos >= old(self).state().pos,
                ts == old(self).tokens(),
            ensures
                self.state() == total.state,
                stmt_views(statements@) == total.stmts,
            decreases tokens_left(ts, self.state().pos),
        {
            if self.curr_token.is(&Token::Eof) || (nested && self.curr_token.is(&Token::CloseCurly)) {
                break ;
            }
            let ghost seen = stmt_views(statements@);
            match self.parse_stmt() {
                Ok(stmt) => {
                    statements.push(stmt);
                    assert(stmt_views(statements@) =~= seen.push(stmt@));
                },
                Err(e) => {
                    self.record(e);
                    proof {
                        lemma_resume_moves_on(ts, self.state(), nested);
                    }
                    self.resume(nested);
                    continue ;
                },
            }
            self.step();
        }
        let ast = Ast(statements);
        proof {
            lemma_ast_view(ast);
        }
        ast
    }

    /// Skips what is left of a statement that failed: moves on to the token
    /// after the next `;`, or to the end of input or, if `nested`, to the
    /// `}` of the block.
    fn resume(&mut self, nested: bool)
        requires
            old(self).wf(),
        ensures
            final(self).went(*old(self), resume(old(self).tokens(), old(self).state(), nested)),
    {
        let ghost ts = self.tokens();
        let ghost start = self.state();
        proof {
            lemma_resume_moves_on(ts, start, nested);
        }
        loop
            invariant_except_break
                skip_statement(ts, self.state(), nested) == skip_statement(ts, start, nested),
            invariant
                self.wf(),
                self.tokens() == ts,
                self.state().pos >= start.pos,
                ts == old(self).tokens(),
                start == old(self).state(),
            ensures
                self.state() == resume(ts, start, nested),
            decreases tokens_left(ts, self.state().pos),
        {
            if self.curr_token.is(&Token::Semicolon) {
                self.step();
                break ;
            }
            if self.curr_token.is(&Token::Eof) || (nested && self.curr_token.is(&Token::CloseCurly)) {
                break ;
            }
            self.step();
        }
    }

    /// Parses one statement at the current token.
    fn parse_stmt(&mut self) -> (r: Result<Stmt, ParseError>)
        requires
            old(self).wf(),
        ensures
            final(self).went(*old(self), parse_statement(old(self).tokens(), old(self).state()).state),
            stmt_outcome(r) == parse_statement(old(self).tokens(), old(self).state()).value,
        decreases tokens_left(old(self).tokens(), old(self).state().pos), 7nat,
    {
        let statement = if self.curr_token.is(&Token::Let) {
            match self.parse_let_stmt() {
                Ok((ident, val)) => Stmt::Let { ident, val },
                Err(e) => {
                    return Err(e);
                },
            }
        } else if self.curr_token.is(&Token::Return) {
            self.step();
            match self.parse_expr(Precedence::Lowest) {
                Ok(val) => Stmt::Return(val),
                Err(e) => {
                    return Err(e);
                },
            }
        } else {
            match self.parse_expr(Precedence::Lowest) {
                Ok(val) => Stmt::Expression(val),
                Err(e) => {
                    return Err(e);
                },
            }
        };
        if self.next_token.is(&Token::Semicolon) {
            self.step();
        }
        Ok(statement)
    }

    /// Parses the name and the value of a `let` statement whose `let` is the
    /// current token.
    fn parse_let_stmt(&mut self) -> (r: Result<(String, Expr), ParseError>)
        requires
            old(self).wf(),
        ensures
            final(self).went(*old(self), parse_let(old(self).tokens(), old(self).state()).state),
            binding_outcome(r) == parse_let(old(self).tokens(), old(self).state()).value,
        decreases tokens_left(old(self).tokens(), old(self).state().pos), 6nat,
    {
        match self.expect_ident() {
            Err(e) => {
                return Err(e);
            },
            Ok(_) => {},
        }
        let name = self.curr_token.literal().to_owned();
        match self.expect_next(Token::Assign) {
            Err(e) => {
                return Err(e);
            },
            Ok(_) => {},
        }
        self.step();
        match self.parse_expr(Precedence::Lowest) {
            Err(e) => Err(e),
            Ok(value) => Ok((name, value)),
        }
    }

    /// Parses an expression at the current token that binds tighter than
    /// `prec`.
    fn parse_expr(&mut self, prec: Precedence) -> (r: Result<Expr, ParseError>)
        requires
            old(self).wf(),
        ensures
            final(self).went(
                *old(self),
                parse_expression(old(self).tokens(), old(self).state(), prec).state,
            ),
            expr_outcome(r) == parse_expression(old(self).tokens(), old(self).state(), prec).value,
        decreases tokens_left(old(self).tokens(), old(self).state().pos), 4nat,
    {
        let ghost ts = self.tokens();
        let ghost total = parse_expression(ts, self.state(), prec);
        let primary = match &self.curr_token {
            Token::Ident(name) => Ok(Expr::Ident(name.clone())),
            Token::Int(digits) => match parse_i64(digits.as_str()) {
                Some(value) => Ok(Expr::IntLiteral(value)),
                None => Err(ParseError::ParseIntError),
            },
            Token::True => Ok(Expr::BooleanLiteral(true)),
            Token::False => Ok(Expr::BooleanLiteral(false)),
            Token::Bang | Token::Minus => self.parse_prefix_expr(),
            Token::OpenParen => self.parse_grouped_expr(),
            Token::If => self.parse_if_expr(),
            Token::Function => self.parse_func_literal_expr(),
            _ => Err(ParseError::ExpectedExpression),
        };
        let mut expression = match primary {
            Ok(expr) => expr,
            Err(e) => {
                return Err(e);
            },
        };
        loop
            invariant_except_break
                parse_operators(ts, self.state(), prec, expression@) == total,
            invariant
                self.wf(),
                self.tokens() == ts,
                self.state().pos >= old(self).state().pos,
                ts == old(self).tokens(),
                total == parse_expression(ts, old(self).state(), prec),
            ensures
                self.state() == total.state,
                Ok::<ExprView, ParseErrorView>(expression@) == total.value,
            decreases tokens_left(ts, self.state().pos),
        {
            if self.curr_token.is(&Token::Semicolon) || prec.level() >= Precedence::from(
                &self.next_token,
            ).level() {
                break ;
            }
            self.step();
            let combined = if self.curr_token.is(&Token::OpenParen) {
                self.parse_func_call_expr(expression)
            } else {
                self.parse_infix_expr(expression)
            };
            match combined {
                Ok(expr) => {
                    expression = expr;
                },
                Err(e) => {
                    return Err(e);
                },
            }
        }
        Ok(expression)
    }

    /// Parses a prefix operator, which is the current token, and its operand.
    fn parse_prefix_expr(&mut self) -> (r: Result<Expr, ParseError>)
        requires
            old(self).wf(),
        ensures
            final(self).went(*old(self), parse_prefix(old(self).tokens(), old(self).state()).state),
            expr_outcome(r) == parse_prefix(old(self).tokens(), old(self).state()).value,
        decreases tokens_left(old(self).tokens(), old(self).state().pos), 2nat,
    {
        let operator = match Operator::try_from(&self.curr_token) {
            Ok(op) => op,
            Err(e) => {
                return Err(e);
            },
        };
        self.step();
        match self.parse_expr(Precedence::Prefix) {
            Ok(right) => Ok(Expr::Prefix(operator, Box::new(right))),
            Err(e) => Err(e),
        }
    }

    /// Parses an infix operator, which is the current token, and its right
    /// operand, and applies the operator to `left` and to that operand.
    fn parse_infix_expr(&mut self, left: Expr) -> (r: Result<Expr, ParseError>)
        requires
            old(self).wf(),
        ensures
            final(self).went(
                *old(self),
                parse_infix(old(self).tokens(), old(self).state(), left@).state,
            ),
            expr_outcome(r) == parse_infix(old(self).tokens(), old(self).state(), left@).value,
        decreases tokens_left(old(self).tokens(), old(self).state().pos), 2nat,
    {
        let operator = match Operator::try_from(&self.curr_token) {
            Ok(op) => op,
            Err(e) => {
                return Err(e);
            },
        };
        let prec = Precedence::from(&self.curr_token);
        self.step();
        match self.parse_expr(prec) {
            Ok(right) => Ok(Expr::Infix(Box::new(left), operator, Box::new(right))),
            Err(e) => Err(e),
        }
    }

    /// Parses a parenthesized expression whose `(` is the current token.
    fn parse_grouped_expr(&mut self) -> (r: Result<Expr, ParseError>)
        requires
            old(self).wf(),
            token_at(old(self).tokens(), old(self).state().pos) is OpenParen,
        ensures
            final(self).went(*old(self), parse_grouped(old(self).tokens(), old(self).state()).state),
            expr_outcome(r) == parse_grouped(old(self).tokens(), old(self).state()).value,
        decreases tokens_left(old(self).tokens(), old(self).state().pos), 2nat,
    {
        self.step();
        let expression = match self.parse_expr(Precedence::Lowest) {
            Ok(expr) => expr,
            Err(e) => {
                return Err(e);
            },
        };
        match self.expect_next(Token::CloseParen) {
            Ok(_) => Ok(expression),
            Err(e) => Err(e),
        }
    }

    /// Parses an `if` expression whose `if` is the current token.
    fn parse_if_expr(&mut self) -> (r: Result<Expr, ParseError>)
        requires
            old(self).wf(),
            token_at(old(self).tokens(), old(self).state().pos) is If,
        ensures
            final(self).went(*old(self), parse_if(old(self).tokens(), old(self).state()).state),
            expr_outcome(r) == parse_if(old(self).tokens(), old(self).state()).value,
        decreases tokens_left(old(self).tokens(), old(self).state().pos), 2nat,
    {
        match self.expect_next(Token::OpenParen) {
            Err(e) => {
                return Err(e);
            },
            Ok(_) => {},
        }
        self.step();
        let condition = match self.parse_expr(Precedence::Lowest) {
            Ok(expr) => expr,
            Err(e) => {
                return Err(e);
            },
        };
        match self.expect_next(Token::CloseParen) {
            Err(e) => {
                return Err(e);
            },
            Ok(_) => {},
        }
        match self.expect_next(Token::OpenCurly) {
            Err(e) => {
                return Err(e);
            },
            Ok(_) => {},
        }
        let block = self.parse_block();
        self.parse_else(condition, block)
    }

    /// Parses the end of an `if` expression whose consequence ends on the
    /// current token.
    fn parse_else(&mut self, condition: Expr, consequence: Ast) -> (r: Result<Expr, ParseError>)
        requires
            old(self).wf(),
        ensures
            final(self).went(
                *old(self),
                parse_else(old(self).tokens(), old(self).state(), condition@, consequence@).state,
            ),
            expr_outcome(r) == parse_else(
                old(self).tokens(),
                old(self).state(),
                condition@,
                consequence@,
            ).value,
        decreases tokens_left(old(self).tokens(), old(self).state().pos), 10nat,
    {
        let alt = if self.next_token.is(&Token::Else) {
            self.step();
            match self.expect_next(Token::OpenCurly) {
                Err(e) => {
                    return Err(e);
                },
                Ok(_) => {},
            }
            Some(self.parse_block())
        } else {
            None
        };
        Ok(Expr::If { check: Box::new(condition), block: consequence, alt })
    }

    /// Parses a function literal whose `fn` is the current token.
    fn parse_func_literal_expr(&mut self) -> (r: Result<Expr, ParseError>)
        requires
            old(self).wf(),
            token_at(old(self).tokens(), old(self).state().pos) is Function,
        ensures
            final(self).went(*old(self), parse_function(old(self).tokens(), old(self).state()).state),
            expr_outcome(r) == parse_function(old(self).tokens(), old(self).state()).value,
        decreases tokens_left(old(self).tokens(), old(self).state().pos), 2nat,
    {
        match self.expect_next(Token::OpenParen) {
            Err(e) => {
                return Err(e);
            },
            Ok(_) => {},
        }
        let params = match self.parse_func_params() {
            Ok(names) => names,
            Err(e) => {
                return Err(e);
            },
        };
        match self.expect_next(Token::OpenCurly) {
            Err(e) => {
                return Err(e);
            },
            Ok(_) => {},
        }
        let body = self.parse_block();
        Ok(Expr::FuncLiteral { params, body })
    }

    /// Parses a call of `function` whose `(` is the current token.
    fn parse_func_call_expr(&mut self, function: Expr) -> (r: Result<Expr, ParseError>)
        requires
            old(self).wf(),
            token_at(old(self).tokens(), old(self).state().pos) is OpenParen,
        ensures
            final(self).went(
                *old(self),
                parse_call(old(self).tokens(), old(self).state(), function@).state,
            ),
            expr_outcome(r) == parse_call(old(self).tokens(), old(self).state(), function@).value,
        decreases tokens_left(old(self).tokens(), old(self).state().pos), 6nat,
    {
        match self.parse_func_args() {
            Ok(args) => Ok(Expr::Call { func: Box::new(function), args }),
            Err(e) => Err(e),
        }
    }

    /// Parses the parameter list of a function literal whose `(` is the
    /// current token.
    fn parse_func_params(&mut self) -> (r: Result<Vec<String>, ParseError>)
        requires
            old(self).wf(),
        ensures
            final(self).went(*old(self), parse_parameters(old(self).tokens(), old(self).state()).state),
            names_outcome(r) == parse_parameters(old(self).tokens(), old(self).state()).value,
    {
        let mut params: Vec<String> = Vec::new();
        let ghost ts = self.tokens();
        let ghost total = parse_parameters(ts, self.state());
        assert(names_view(params@) =~= Seq::<Seq<char>>::empty());
        if self.next_token.is(&Token::CloseParen) {
            self.step();
            return Ok(params);
        }
        match self.expect_ident() {
            Err(e) => {
                return Err(e);
            },
            Ok(_) => {},
        }
        loop
            invariant
                self.wf(),
                self.tokens() == ts,
                self.state().pos >= old(self).state().pos,
                ts == old(self).tokens(),
                token_at(ts, self.state().pos) is Ident,
                parse_parameter_names(ts, self.state(), names_view(params@)) == total,
                total == parse_parameters(old(self).tokens(), old(self).state()),
            decreases tokens_left(ts, self.state().pos),
        {
            let ghost seen = names_view(params@);
            let name = self.curr_token.literal().to_owned();
            params.push(name);
            assert(names_view(params@) =~= seen.push(name@));
            if self.next_token.is(&Token::Comma) {
                self.step();
                match self.expect_ident() {
                    Err(e) => {
                        return Err(e);
                    },
                    Ok(_) => {},
                }
            } else {
                match self.expect_next(Token::CloseParen) {
                    Err(e) => {
                        return Err(e);
                    },
                    Ok(_) => {
                        return Ok(params);
                    },
                }
            }
        }
    }

    /// Parses the arguments of a call whose `(` is the current token.
    fn parse_func_args(&mut self) -> (r: Result<ExpressionList, ParseError>)
        requires
            old(self).wf(),
            token_at(old(self).tokens(), old(self).state().pos) is OpenParen,
        ensures
            final(self).went(
                *old(self),
                parse_arguments(old(self).tokens(), step(old(self).state()), Seq::empty()).state,
            ),
            args_outcome(r) == parse_arguments(
                old(self).tokens(),
                step(old(self).state()),
                Seq::empty(),
            ).value,
        decreases tokens_left(old(self).tokens(), old(self).state().pos), 5nat,
    {
        let mut args: Vec<Expr> = Vec::new();
        let ghost ts = self.tokens();
        let ghost total = parse_arguments(ts, step(self.state()), Seq::empty());
        assert(expr_views(args@) =~= Seq::<ExprView>::empty());
        self.step();
        loop
            invariant_except_break
                parse_arguments(ts, self.state(), expr_views(args@)) == total,
            invariant
                self.wf(),
                self.tokens() == ts,
                self.state().pos > old(self).state().pos,
                ts == old(self).tokens(),
                total == parse_arguments(ts, step(old(self).state()), Seq::empty()),
            ensures
                self.state() == total.state,
                total.value == Ok::<Seq<ExprView>, ParseErrorView>(expr_views(args@)),
            decreases tokens_left(ts, self.state().pos),
        {
            if self.curr_token.is(&Token::CloseParen) {
                break ;
            }
            let ghost seen = expr_views(args@);
            let arg = match self.parse_expr(Precedence::Lowest) {
                Ok(expr) => expr,
                Err(e) => {
                    return Err(e);
                },
            };
            args.push(arg);
            assert(expr_views(args@) =~= seen.push(arg@));
            if self.next_token.is(&Token::Comma) {
                self.step();
                self.step();
            } else {
                match self.expect_next(Token::CloseParen) {
                    Err(e) => {
                        return Err(e);
                    },
                    Ok(_) => {},
                }
            }
        }
        let list = ExpressionList(args);
        proof {
            lemma_expression_list_view(list);
        }
        Ok(list)
    }
}

/// Parses `src`: the statements that parsed, in order, and the errors of
/// those that did not.
pub fn parse_source(src: &str) -> (r: (Ast, Vec<ParseError>))
    ensures
        r.0@ == parse_tokens(token_stream(src.spec_bytes())).stmts,
        error_views(r.1@) == parse_tokens(token_stream(src.spec_bytes())).state.errors,
{
    let mut parser = Parser::new(src);
    let ast = parser.parse();
    (ast, parser.errors)
}

} // verus!
