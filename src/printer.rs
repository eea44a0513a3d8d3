use vstd::prelude::*;
use crate::ast::{expr_view, Expr, ExprView};
use crate::diagnostics::push_str;
use crate::interpret::value_text;

verus! {

/// The parenthesized prefix form of an expression: `(op operand...)`, `(group e)`, a literal's
/// text or a variable's name.
pub open spec fn expr_text(e: ExprView) -> Seq<char>
    decreases e,
{
    match e {
        ExprView::Literal(v) => value_text(v),
        ExprView::Variable(name) => name.lexeme,
        ExprView::Grouping(g) => "(group "@ + expr_text(*g) + ")"@,
        ExprView::Unary(op, right) => "("@ + op.lexeme + " "@ + expr_text(*right) + ")"@,
        ExprView::Binary(left, op, right) => "("@ + op.lexeme + " "@ + expr_text(*left) + " "@
            + expr_text(*right) + ")"@,
        ExprView::Logical(left, op, right) => "("@ + op.lexeme + " "@ + expr_text(*left) + " "@
            + expr_text(*right) + ")"@,
        ExprView::Assign(name, value) => "(= "@ + name.lexeme + " "@ + expr_text(*value) + ")"@,
    }
}

fn push_all(out: &mut Vec<char>, s: &Vec<char>)
    ensures
        final(out)@ == old(out)@ + s@,
{
    let mut i: usize = 0;
    while i < s.len()
        invariant
            i <= s@.len(),
            out@ == old(out)@ + s@.subrange(0, i as int),
        decreases s@.len() - i,
    {
        out.push(s[i]);
        i = i + 1;
        assert(out@ =~= old(out)@ + s@.subrange(0, i as int));
    }
    assert(s@.subrange(0, s@.len() as int) =~= s@);
}

fn write_expr(e: &Expr, out: &mut Vec<char>)
    ensures
        final(out)@ == old(out)@ + expr_text(expr_view(*e)),
    decreases e,
{
    match e {
        Expr::LiteralExpr(l) => {
            let t = l.value.text();
            push_all(out, &t);
        },
        Expr::VariableExpr(v) => push_all(out, &v.name.lexeme),
        Expr::GroupingExpr(g) => {
            push_str(out, "(group ");
            write_expr(&g.expression, out);
            push_str(out, ")");
        },
        Expr::UnaryExpr(u) => {
            push_str(out, "(");
            push_all(out, &u.operator.lexeme);
            push_str(out, " ");
            write_expr(&u.right, out);
            push_str(out, ")");
        },
        Expr::BinaryExpr(b) => {
            push_str(out, "(");
            push_all(out, &b.operator.lexeme);
            push_str(out, " ");
            write_expr(&b.left, out);
            push_str(out, " ");
            write_expr(&b.right, out);
            push_str(out, ")");
        },
        Expr::LogicalExpr(l) => {
            push_str(out, "(");
            push_all(out, &l.operator.lexeme);
            push_str(out, " ");
            write_expr(&l.left, out);
            push_str(out, " ");
            write_expr(&l.right, out);
            push_str(out, ")");
        },
        Expr::AssignExpr(a) => {
            push_str(out, "(= ");
            push_all(out, &a.name.lexeme);
            push_str(out, " ");
            write_expr(&a.value, out);
            push_str(out, ")");
        },
    }
    assert(final(out)@ =~= old(out)@ + expr_text(expr_view(*e)));
}

impl Expr {
    /// The parenthesized prefix form of this expression.
    pub fn print(&self) -> (r: Vec<char>)
        ensures
            r@ == expr_text(expr_view(*self)),
    {
        let mut out: Vec<char> = Vec::new();
        write_expr(self, &mut out);
        assert(out@ =~= expr_text(expr_view(*self)));
        out
    }
}

} // verus!
