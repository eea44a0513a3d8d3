use vstd::prelude::*;
use crate::number::Number;
use crate::token::{Token, TokenView};

verus! {

/// A runtime value, also the payload of a literal expression.
#[derive(Debug)]
pub enum LiteralValue {
    String(Vec<char>),
    Number(Number),
    Bool(bool),
    Nil,
}

/// What a value denotes.
pub enum ValueView {
    String(Seq<char>),
    Number(Number),
    Bool(bool),
    Nil,
}

impl View for LiteralValue {
    type V = ValueView;

    open spec fn view(&self) -> ValueView {
        match self {
            LiteralValue::String(t) => ValueView::String(t@),
            LiteralValue::Number(n) => ValueView::Number(*n),
            LiteralValue::Bool(b) => ValueView::Bool(*b),
            LiteralValue::Nil => ValueView::Nil,
        }
    }
}

impl LiteralValue {
    pub fn duplicate(&self) -> (r: LiteralValue)
        ensures
            r@ == self@,
    {
        match self {
            LiteralValue::String(t) => LiteralValue::String(t.clone()),
            LiteralValue::Number(n) => LiteralValue::Number(*n),
            LiteralValue::Bool(b) => LiteralValue::Bool(*b),
            LiteralValue::Nil => LiteralValue::Nil,
        }
    }
}

#[derive(Debug)]
pub enum Expr {
    AssignExpr(Box<AssignExpr>),
    UnaryExpr(Box<UnaryExpr>),
    LiteralExpr(LiteralExpr),
    GroupingExpr(Box<GroupingExpr>),
    BinaryExpr(Box<BinaryExpr>),
    VariableExpr(VariableExpr),
    LogicalExpr(Box<LogicalExpr>),
}

#[derive(Debug)]
pub struct AssignExpr {
    pub name: Token,
    pub value: Expr,
}

#[derive(Debug)]
pub struct LiteralExpr {
    pub value: LiteralValue,
}

#[derive(Debug)]
pub struct UnaryExpr {
    pub operator: Token,
    pub right: Expr,
}

#[derive(Debug)]
pub struct BinaryExpr {
    pub left: Expr,
    pub operator: Token,
    pub right: Expr,
}

#[derive(Debug)]
pub struct GroupingExpr {
    pub expression: Expr,
}

#[derive(Debug)]
pub struct VariableExpr {
    pub name: Token,
}

#[derive(Debug)]
pub struct LogicalExpr {
    pub left: Expr,
    pub operator: Token,
    pub right: Expr,
}

#[derive(Debug)]
pub enum Stmt {
    BlockStmt(BlockStmt),
    ExpressionStmt(ExpressionStmt),
    PrintStmt(PrintStmt),
    VarStmt(VarStmt),
    IfStmt(Box<IfStmt>),
    WhileStmt(Box<WhileStmt>),
}

#[derive(Debug)]
pub struct ExpressionStmt {
    pub expression: Expr,
}

#[derive(Debug)]
pub struct PrintStmt {
    pub expression: Expr,
}

#[derive(Debug)]
pub struct VarStmt {
    pub name: Token,
    pub initializer: Option<Expr>,
}

#[derive(Debug)]
pub struct BlockStmt {
    pub statements: Vec<Stmt>,
}

#[derive(Debug)]
pub struct IfStmt {
    pub condition: Expr,
    pub then_branch: Stmt,
    pub else_branch: Option<Stmt>,
}

#[derive(Debug)]
pub struct WhileStmt {
    pub condition: Expr,
    pub body: Stmt,
}

/// What an expression denotes: the same tree over token and value views.
pub enum ExprView {
    Assign(TokenView, Box<ExprView>),
    Unary(TokenView, Box<ExprView>),
    Literal(ValueView),
    Grouping(Box<ExprView>),
    Binary(Box<ExprView>, TokenView, Box<ExprView>),
    Variable(TokenView),
    Logical(Box<ExprView>, TokenView, Box<ExprView>),
}

/// What a statement denotes.
pub enum StmtView {
    Block(Seq<StmtView>),
    Expression(ExprView),
    Print(ExprView),
    Var(TokenView, Option<ExprView>),
    If(ExprView, Box<StmtView>, Option<Box<StmtView>>),
    While(ExprView, Box<StmtView>),
}

pub open spec fn expr_view(e: Expr) -> ExprView
    decreases e,
{
    match e {
        Expr::AssignExpr(a) => ExprView::Assign(a.name@, Box::new(expr_view(a.value))),
        Expr::UnaryExpr(u) => ExprView::Unary(u.operator@, Box::new(expr_view(u.right))),
        Expr::LiteralExpr(l) => ExprView::Literal(l.value@),
        Expr::GroupingExpr(g) => ExprView::Grouping(Box::new(expr_view(g.expression))),
        Expr::BinaryExpr(b) => ExprView::Binary(
            Box::new(expr_view(b.left)),
            b.operator@,
            Box::new(expr_view(b.right)),
        ),
        Expr::VariableExpr(v) => ExprView::Variable(v.name@),
        Expr::LogicalExpr(l) => ExprView::Logical(
            Box::new(expr_view(l.left)),
            l.operator@,
            Box::new(expr_view(l.right)),
        ),
    }
}

pub open spec fn opt_expr_view(e: Option<Expr>) -> Option<ExprView> {
    match e {
        Some(x) => Some(expr_view(x)),
        None => None,
    }
}

pub open spec fn stmt_view(s: Stmt) -> StmtView
    decreases s,
{
    match s {
        Stmt::BlockStmt(b) => StmtView::Block(stmts_view(b.statements@)),
        Stmt::ExpressionStmt(x) => StmtView::Expression(expr_view(x.expression)),
        Stmt::PrintStmt(p) => StmtView::Print(expr_view(p.expression)),
        Stmt::VarStmt(v) => StmtView::Var(v.name@, opt_expr_view(v.initializer)),
        Stmt::IfStmt(i) => StmtView::If(
            expr_view(i.condition),
            Box::new(stmt_view(i.then_branch)),
            match i.else_branch {
                Some(e) => Some(Box::new(stmt_view(e))),
                None => None,
            },
        ),
        Stmt::WhileStmt(w) => StmtView::While(expr_view(w.condition), Box::new(stmt_view(w.body))),
    }
}

pub open spec fn stmts_view(ss: Seq<Stmt>) -> Seq<StmtView>
    decreases ss,
{
    Seq::new(ss.len(), |i: int| if 0 <= i < ss.len() { stmt_view(ss[i]) } else { StmtView::Block(Seq::empty()) })
}

} // verus!
