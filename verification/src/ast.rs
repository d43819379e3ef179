//! The syntax tree: programs, statements, expressions and operators, with
//! their mathematical views and their canonical rendering as text.

use vstd::prelude::*;
use vstd::string::StringExecFns;
use crate::text::{decimal, i64_to_string};

verus! {

/// The prefix and infix operators of the language.
#[derive(Debug, PartialEq, Eq, Clone, Copy, Structural)]
pub enum Operator {
    Bang,
    Plus,
    Minus,
    Multiplication,
    Division,
    GreaterThan,
    LessThan,
    Equals,
    NotEquals,
}

/// An ordered sequence of statements: a whole program, or the block between
/// a pair of braces.
#[derive(Debug, PartialEq, Eq)]
pub struct Ast(pub Vec<Stmt>);

/// A statement.
#[derive(Debug, PartialEq, Eq)]
pub enum Stmt {
    Let { ident: String, val: Expr },
    Return(Expr),
    Expression(Expr),
}

/// An expression. Every node owns its children.
#[derive(Debug, PartialEq, Eq)]
pub enum Expr {
    Ident(String),
    IntLiteral(i64),
    BooleanLiteral(bool),
    Prefix(Operator, Box<Expr>),
    Infix(Box<Expr>, Operator, Box<Expr>),
    If { check: Box<Expr>, block: Ast, alt: Option<Ast> },
    FuncLiteral { params: Vec<String>, body: Ast },
    Call { func: Box<Expr>, args: ExpressionList },
}

/// The argument expressions of a call, in order.
#[derive(Debug, PartialEq, Eq)]
pub struct ExpressionList(pub Vec<Expr>);

pub type Args = ExpressionList;

/// The mathematical value of a [`Stmt`].
pub ghost enum StmtView {
    Let { ident: Seq<char>, val: ExprView },
    Return(ExprView),
    Expression(ExprView),
}

/// The mathematical value of an [`Expr`]: the same tree over sequences.
pub ghost enum ExprView {
    Ident(Seq<char>),
    IntLiteral(i64),
    BooleanLiteral(bool),
    Prefix(Operator, Box<ExprView>),
    Infix(Box<ExprView>, Operator, Box<ExprView>),
    If { check: Box<ExprView>, block: Seq<StmtView>, alt: Option<Seq<StmtView>> },
    FuncLiteral { params: Seq<Seq<char>>, body: Seq<StmtView> },
    Call { func: Box<ExprView>, args: Seq<ExprView> },
}

/// The mathematical value of a list of names.
pub open spec fn names_view(names: Seq<String>) -> Seq<Seq<char>> {
    Seq::new(names.len(), |i: int| names[i]@)
}

impl Expr {
    /// The tree that this expression stands for.
    pub open spec fn model(self) -> ExprView
        decreases self,
    {
        match self {
            Expr::Ident(name) => ExprView::Ident(name@),
            Expr::IntLiteral(value) => ExprView::IntLiteral(value),
            Expr::BooleanLiteral(value) => ExprView::BooleanLiteral(value),
            Expr::Prefix(op, right) => ExprView::Prefix(op, Box::new(right.model())),
            Expr::Infix(left, op, right) => ExprView::Infix(
                Box::new(left.model()),
                op,
                Box::new(right.model()),
            ),
            Expr::If { check, block, alt } => ExprView::If {
                check: Box::new(check.model()),
                block: block.model(),
                alt: match alt {
                    Some(stmts) => Some(stmts.model()),
                    None => None,
                },
            },
            Expr::FuncLiteral { params, body } => ExprView::FuncLiteral {
                params: names_view(params@),
                body: body.model(),
            },
            Expr::Call { func, args } => ExprView::Call {
                func: Box::new(func.model()),
                args: args.model(),
            },
        }
    }
}

impl ExpressionList {
    /// The trees that the expressions of this list stand for.
    pub open spec fn model(self) -> Seq<ExprView>
        decreases self,
    {
        Seq::new(
            self.0.len() as nat,
            |i: int|
                if 0 <= i < self.0.len() {
                    self.0[i].model()
                } else {
                    ExprView::BooleanLiteral(false)
                },
        )
    }
}

impl Stmt {
    /// The tree that this statement stands for.
    pub open spec fn model(self) -> StmtView
        decreases self,
    {
        match self {
            Stmt::Let { ident, val } => StmtView::Let { ident: ident@, val: val.model() },
            Stmt::Return(value) => StmtView::Return(value.model()),
            Stmt::Expression(value) => StmtView::Expression(value.model()),
        }
    }
}

impl Ast {
    /// The trees that the statements of this block stand for.
    pub open spec fn model(self) -> Seq<StmtView>
        decreases self,
    {
        Seq::new(
            self.0.len() as nat,
            |i: int|
                if 0 <= i < self.0.len() {
                    self.0[i].model()
                } else {
                    StmtView::Expression(ExprView::BooleanLiteral(false))
                },
        )
    }
}

/// The mathematical values of a run of statements.
pub open spec fn stmt_views(stmts: Seq<Stmt>) -> Seq<StmtView> {
    Seq::new(stmts.len(), |i: int| stmts[i]@)
}

/// The mathematical values of a run of expressions.
pub open spec fn expr_views(exprs: Seq<Expr>) -> Seq<ExprView> {
    Seq::new(exprs.len(), |i: int| exprs[i]@)
}

/// The view of a block is the views of its statements.
pub proof fn lemma_ast_view(ast: Ast)
    ensures
        ast@ == stmt_views(ast.0@),
{
    assert(ast@ =~= stmt_views(ast.0@));
}

/// The view of an argument list is the views of its expressions.
pub proof fn lemma_expression_list_view(list: ExpressionList)
    ensures
        list@ == expr_views(list.0@),
{
    assert(list@ =~= expr_views(list.0@));
}

impl View for Expr {
    type V = ExprView;

    open spec fn view(&self) -> ExprView {
        self.model()
    }
}

impl View for ExpressionList {
    type V = Seq<ExprView>;

    open spec fn view(&self) -> Seq<ExprView> {
        self.model()
    }
}

impl View for Stmt {
    type V = StmtView;

    open spec fn view(&self) -> StmtView {
        self.model()
    }
}

impl View for Ast {
    type V = Seq<StmtView>;

    open spec fn view(&self) -> Seq<StmtView> {
        self.model()
    }
}

/// The symbol of an operator.
pub open spec fn render_operator(op: Operator) -> Seq<char> {
    match op {
        Operator::Bang => "!"@,
        Operator::Plus => "+"@,
        Operator::Minus => "-"@,
        Operator::Multiplication => "*"@,
        Operator::Division => "/"@,
        Operator::GreaterThan => ">"@,
        Operator::LessThan => "<"@,
        Operator::Equals => "=="@,
        Operator::NotEquals => "!="@,
    }
}

/// The first `count` names, separated by a comma and a space.
pub open spec fn render_names(names: Seq<Seq<char>>, count: nat) -> Seq<char>
    decreases count,
{
    if count == 0 || count > names.len() {
        Seq::empty()
    } else if count == 1 {
        names[0]
    } else {
        render_names(names, (count - 1) as nat) + ", "@ + names[count - 1]
    }
}

/// The canonical text of an expression. Every prefix and infix node is
/// wrapped in parentheses, so the text shows how the operators bind.
pub open spec fn render_expr(expr: ExprView) -> Seq<char>
    decreases expr, 0nat,
{
    match expr {
        ExprView::Ident(name) => name,
        ExprView::IntLiteral(value) => decimal(value as int),
        ExprView::BooleanLiteral(value) => if value {
            "true"@
        } else {
            "false"@
        },
        ExprView::Prefix(op, right) => "("@ + render_operator(op) + render_expr(*right) + ")"@,
        ExprView::Infix(left, op, right) => "("@ + render_expr(*left) + " "@ + render_operator(op)
            + " "@ + render_expr(*right) + ")"@,
        ExprView::If { check, block, alt } => {
            let head = "if "@ + render_expr(*check) + " "@ + render_block(block, block.len());
            match alt {
                Some(stmts) => head + " else "@ + render_block(stmts, stmts.len()),
                None => head,
            }
        },
        ExprView::FuncLiteral { params, body } => "fn("@ + render_names(params, params.len())
            + ") { "@ + render_block(body, body.len()) + " }"@,
        ExprView::Call { func, args } => render_expr(*func) + "("@ + render_exprs(
            args,
            args.len(),
        ) + ")"@,
    }
}

/// The canonical texts of the first `count` expressions, separated by a
/// comma and a space.
pub open spec fn render_exprs(exprs: Seq<ExprView>, count: nat) -> Seq<char>
    decreases exprs, count,
{
    if count == 0 || count > exprs.len() {
        Seq::empty()
    } else if count == 1 {
        render_expr(exprs[0])
    } else {
        render_exprs(exprs, (count - 1) as nat) + ", "@ + render_expr(exprs[count - 1])
    }
}

/// The canonical text of a statement.
pub open spec fn render_stmt(stmt: StmtView) -> Seq<char>
    decreases stmt, 0nat,
{
    match stmt {
        StmtView::Let { ident, val } => "let "@ + ident + " = "@ + render_expr(val) + ";"@,
        StmtView::Return(value) => "return "@ + render_expr(value) + ";"@,
        StmtView::Expression(value) => render_expr(value),
    }
}

/// The canonical texts of the first `count` statements, separated by a
/// comma and a space.
pub open spec fn render_block(stmts: Seq<StmtView>, count: nat) -> Seq<char>
    decreases stmts, count,
{
    if count == 0 || count > stmts.len() {
        Seq::empty()
    } else if count == 1 {
        render_stmt(stmts[0])
    } else {
        render_block(stmts, (count - 1) as nat) + ", "@ + render_stmt(stmts[count - 1])
    }
}

impl Operator {
    /// The symbol of this operator.
    pub fn to_string(&self) -> (text: String)
        ensures
            text@ == render_operator(*self),
    {
        String::from_str(self.symbol())
    }

    /// The symbol of this operator.
    pub fn symbol(&self) -> (text: &'static str)
        ensures
            text@ == render_operator(*self),
    {
        match self {
            Operator::Bang => "!",
            Operator::Plus => "+",
            Operator::Minus => "-",
            Operator::Multiplication => "*",
            Operator::Division => "/",
            Operator::GreaterThan => ">",
            Operator::LessThan => "<",
            Operator::Equals => "==",
            Operator::NotEquals => "!=",
        }
    }
}

/// The names, separated by a comma and a space.
pub fn names_to_string(names: &Vec<String>) -> (text: String)
    ensures
        text@ == render_names(names_view(names@), names.len() as nat),
{
    let mut text = String::new();
    let mut i: usize = 0;
    let ghost all = names_view(names@);
    while i < names.len()
        invariant
            i <= names.len(),
            all == names_view(names@),
            all.len() == names.len(),
            text@ == render_names(all, i as nat),
        decreases names.len() - i,
    {
        if i > 0 {
            text.append(", ");
        }
        text.append(names[i].as_str());
        proof {
            if i == 0 {
                assert(text@ =~= names[0]@);
            }
        }
        i += 1;
    }
    text
}

impl Expr {
    /// The canonical, fully parenthesized text of this expression.
    pub fn to_string(&self) -> (text: String)
        ensures
            text@ == render_expr(self@),
        decreases self, 0nat,
    {
        match self {
            Expr::Ident(name) => name.clone(),
            Expr::IntLiteral(value) => i64_to_string(*value),
            Expr::BooleanLiteral(value) => if *value {
                String::from_str("true")
            } else {
                String::from_str("false")
            },
            Expr::Prefix(op, right) => {
                let mut text = String::from_str("(");
                text.append(op.symbol());
                text.append(right.to_string().as_str());
                text.append(")");
                text
            },
            Expr::Infix(left, op, right) => {
                let mut text = String::from_str("(");
                text.append(left.to_string().as_str());
                text.append(" ");
                text.append(op.symbol());
                text.append(" ");
                text.append(right.to_string().as_str());
                text.append(")");
                text
            },
            Expr::If { check, block, alt } => {
                let mut text = String::from_str("if ");
                text.append(check.to_string().as_str());
                text.append(" ");
                text.append(block.to_string().as_str());
                match alt {
                    Some(stmts) => {
                        text.append(" else ");
                        text.append(stmts.to_string().as_str());
                    },
                    None => {},
                }
                text
            },
            Expr::FuncLiteral { params, body } => {
                let mut text = String::from_str("fn(");
                text.append(names_to_string(params).as_str());
                text.append(") { ");
                text.append(body.to_string().as_str());
                text.append(" }");
                text
            },
            Expr::Call { func, args } => {
                let mut text = func.to_string();
                text.append("(");
                text.append(args.to_string().as_str());
                text.append(")");
                text
            },
        }
    }
}

impl From<Vec<Expr>> for ExpressionList {
    /// Wraps a list of expressions.
    fn from(value: Vec<Expr>) -> (list: ExpressionList) {
        ExpressionList(value)
    }
}

impl vstd::std_specs::convert::FromSpecImpl<Vec<Expr>> for ExpressionList {
    open spec fn obeys_from_spec() -> bool {
        true
    }

    open spec fn from_spec(value: Vec<Expr>) -> ExpressionList {
        ExpressionList(value)
    }
}

impl ExpressionList {
    /// The canonical texts of the expressions, separated by a comma and a
    /// space.
    pub fn to_string(&self) -> (text: String)
        ensures
            text@ == render_exprs(self@, self@.len()),
        decreases self, 1nat,
    {
        let mut text = String::new();
        let mut i: usize = 0;
        while i < self.0.len()
            invariant
                i <= self.0.len(),
                self@.len() == self.0.len(),
                text@ == render_exprs(self@, i as nat),
            decreases self.0.len() - i,
        {
            if i > 0 {
                text.append(", ");
            }
            let item = self.0[i].to_string();
            text.append(item.as_str());
            proof {
                assert(self@[i as int] == self.0[i as int]@);
                if i == 0 {
                    assert(text@ =~= item@);
                }
            }
            i += 1;
        }
        text
    }
}

impl Stmt {
    /// The canonical text of this statement.
    pub fn to_string(&self) -> (text: String)
        ensures
            text@ == render_stmt(self@),
        decreases self, 0nat,
    {
        match self {
            Stmt::Let { ident, val } => {
                let mut text = String::from_str("let ");
                text.append(ident.as_str());
                text.append(" = ");
                text.append(val.to_string().as_str());
                text.append(";");
                text
            },
            Stmt::Return(value) => {
                let mut text = String::from_str("return ");
                text.append(value.to_string().as_str());
                text.append(";");
                text
            },
            Stmt::Expression(value) => value.to_string(),
        }
    }
}

impl From<Vec<Stmt>> for Ast {
    /// Wraps a list of statements.
    fn from(value: Vec<Stmt>) -> (ast: Ast) {
        Ast(value)
    }
}

impl vstd::std_specs::convert::FromSpecImpl<Vec<Stmt>> for Ast {
    open spec fn obeys_from_spec() -> bool {
        true
    }

    open spec fn from_spec(value: Vec<Stmt>) -> Ast {
        Ast(value)
    }
}

impl Ast {
    /// The canonical texts of the statements, separated by a comma and a
    /// space.
    pub fn to_string(&self) -> (text: String)
        ensures
            text@ == render_block(self@, self@.len()),
        decreases self, 1nat,
    {
        let mut text = String::new();
        let mut i: usize = 0;
        while i < self.0.len()
            invariant
                i <= self.0.len(),
                self@.len() == self.0.len(),
                text@ == render_block(self@, i as nat),
            decreases self.0.len() - i,
        {
            if i > 0 {
                text.append(", ");
            }
            let item = self.0[i].to_string();
            text.append(item.as_str());
            proof {
                assert(self@[i as int] == self.0[i as int]@);
                if i == 0 {
                    assert(text@ =~= item@);
                }
            }
            i += 1;
        }
        text
    }
}

/// A copy of a list of names.
pub fn clone_names(names: &Vec<String>) -> (copy: Vec<String>)
    ensures
        names_view(copy@) == names_view(names@),
{
    let mut copy: Vec<String> = Vec::new();
    let mut i: usize = 0;
    while i < names.len()
        invariant
            i <= names.len(),
            copy.len() == i,
            forall|j: int| 0 <= j < i ==> copy[j]@ == names[j]@,
        decreases names.len() - i,
    {
        copy.push(names[i].clone());
        i += 1;
    }
    assert(names_view(copy@) =~= names_view(names@));
    copy
}

impl Expr {
    /// A copy of this expression and of everything below it.
    pub fn deep_clone(&self) -> (copy: Expr)
        ensures
            copy@ == self@,
        decreases self, 0nat,
    {
        match self {
            Expr::Ident(name) => Expr::Ident(name.clone()),
            Expr::IntLiteral(value) => Expr::IntLiteral(*value),
            Expr::BooleanLiteral(value) => Expr::BooleanLiteral(*value),
            Expr::Prefix(op, right) => Expr::Prefix(*op, Box::new(right.deep_clone())),
            Expr::Infix(left, op, right) => Expr::Infix(
                Box::new(left.deep_clone()),
                *op,
                Box::new(right.deep_clone()),
            ),
            Expr::If { check, block, alt } => Expr::If {
                check: Box::new(check.deep_clone()),
                block: block.deep_clone(),
                alt: match alt {
                    Some(stmts) => Some(stmts.deep_clone()),
                    None => None,
                },
            },
            Expr::FuncLiteral { params, body } => Expr::FuncLiteral {
                params: clone_names(params),
                body: body.deep_clone(),
            },
            Expr::Call { func, args } => Expr::Call {
                func: Box::new(func.deep_clone()),
                args: args.deep_clone(),
            },
        }
    }
}

impl ExpressionList {
    /// A copy of this list and of everything below it.
    pub fn deep_clone(&self) -> (copy: ExpressionList)
        ensures
            copy@ == self@,
        decreases self, 1nat,
    {
        let mut copy: Vec<Expr> = Vec::new();
        let mut i: usize = 0;
        while i < self.0.len()
            invariant
                i <= self.0.len(),
                copy.len() == i,
                forall|j: int| 0 <= j < i ==> copy[j]@ == self.0[j]@,
            decreases self.0.len() - i,
        {
            copy.push(self.0[i].deep_clone());
            i += 1;
        }
        let copy = ExpressionList(copy);
        assert(copy@ =~= self@);
        copy
    }
}

impl Stmt {
    /// A copy of this statement and of everything below it.
    pub fn deep_clone(&self) -> (copy: Stmt)
        ensures
            copy@ == self@,
        decreases self, 0nat,
    {
        match self {
            Stmt::Let { ident, val } => Stmt::Let { ident: ident.clone(), val: val.deep_clone() },
            Stmt::Return(value) => Stmt::Return(value.deep_clone()),
            Stmt::Expression(value) => Stmt::Expression(value.deep_clone()),
        }
    }
}

impl Ast {
    /// A copy of this block and of everything below it.
    pub fn deep_clone(&self) -> (copy: Ast)
        ensures
            copy@ == self@,
        decreases self, 1nat,
    {
        let mut copy: Vec<Stmt> = Vec::new();
        let mut i: usize = 0;
        while i < self.0.len()
            invariant
                i <= self.0.len(),
                copy.len() == i,
                forall|j: int| 0 <= j < i ==> copy[j]@ == self.0[j]@,
            decreases self.0.len() - i,
        {
            copy.push(self.0[i].deep_clone());
            i += 1;
        }
        let copy = Ast(copy);
        assert(copy@ =~= self@);
        copy
    }
}

impl Clone for Expr {
    fn clone(&self) -> (copy: Expr)
        ensures
            copy@ == self@,
    {
        self.deep_clone()
    }
}

impl Clone for ExpressionList {
    fn clone(&self) -> (copy: ExpressionList)
        ensures
            copy@ == self@,
    {
        self.deep_clone()
    }
}

impl Clone for Stmt {
    fn clone(&self) -> (copy: Stmt)
        ensures
            copy@ == self@,
    {
        self.deep_clone()
    }
}

impl Clone for Ast {
    fn clone(&self) -> (copy: Ast)
        ensures
            copy@ == self@,
    {
        self.deep_clone()
    }
}

} // verus!
