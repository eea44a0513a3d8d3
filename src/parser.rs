use vstd::prelude::*;
use crate::ast::{
    expr_view, opt_expr_view, stmt_view, stmts_view, ExprView, StmtView, ValueView, AssignExpr, BinaryExpr, BlockStmt, Expr, ExpressionStmt, GroupingExpr, IfStmt, LiteralExpr,
    LiteralValue, LogicalExpr, PrintStmt, Stmt, UnaryExpr, VarStmt, VariableExpr, WhileStmt,
};
use crate::parse_error::{ExpectAfter, ParseError, ParseErrorMessage, ParseErrorView};
use crate::lexer::token_views;
use crate::token::{LiteralView, Token, TokenLiteral, TokenType, TokenView};

verus! {

/// A token sequence that the parser accepts: it ends with the end-of-input token.
pub open spec fn tokens_wf(ts: Seq<Token>) -> bool {
    ts.len() > 0 && ts[ts.len() - 1].token_type == TokenType::Eof
}

pub open spec fn is_fatal(e: ParseError) -> bool {
    e.message != ParseErrorMessage::InvalidAssignmentTarget
}

/// How many of the diagnostics stop a parse (all but invalid assignment targets).
pub open spec fn fatal_count(ds: Seq<ParseError>) -> nat
    decreases ds.len(),
{
    if ds.len() == 0 {
        0
    } else {
        fatal_count(ds.drop_last()) + if is_fatal(ds.last()) { 1nat } else { 0nat }
    }
}

impl ParseError {
    pub fn duplicate(&self) -> (r: ParseError)
        ensures
            r.token@ == self.token@,
            r.message == self.message,
    {
        ParseError { token: self.token.duplicate(), message: self.message }
    }
}

/// Records a diagnostic.
fn report(diags: &mut Vec<ParseError>, e: &ParseError)
    ensures
        diag_views(final(diags)@) == diag_views(old(diags)@) + seq![e@],
        final(diags)@.len() == old(diags)@.len() + 1,
        final(diags)@.last().message == e.message,
        fatal_count(final(diags)@) == fatal_count(old(diags)@) + if is_fatal(*e) { 1nat } else { 0nat },
{
    let d = e.duplicate();
    diags.push(d);
    assert(final(diags)@.drop_last() =~= old(diags)@);
    assert(diag_views(final(diags)@) =~= diag_views(old(diags)@) + seq![e@]);
}

/// A syntax error at the token at `pos`, recorded.
fn error_at(
    ts: &Vec<Token>,
    pos: usize,
    message: ParseErrorMessage,
    diags: &mut Vec<ParseError>,
) -> (r:
    ParseError)
    requires
        pos < ts@.len(),
    ensures
        r.message == message,
        r@ == (ParseErrorView { token: ts@[pos as int]@, message }),
        diag_views(final(diags)@) == diag_views(old(diags)@) + seq![r@],
        fatal_count(final(diags)@) == fatal_count(old(diags)@) + if is_fatal(r) { 1nat } else { 0nat },
{
    let e = ParseError { token: ts[pos].duplicate(), message };
    report(diags, &e);
    e
}

fn at_end(ts: &Vec<Token>, pos: usize) -> (r: bool)
    requires
        pos < ts@.len(),
    ensures
        r == (ts@[pos as int].token_type == TokenType::Eof),
{
    ts[pos].token_type == TokenType::Eof
}

fn check(ts: &Vec<Token>, pos: usize, t: TokenType) -> (r: bool)
    requires
        tokens_wf(ts@),
        pos < ts@.len(),
    ensures
        r == (ts@[pos as int].token_type != TokenType::Eof && ts@[pos as int].token_type == t),
        r ==> pos + 1 < ts@.len() <= usize::MAX,
{
    let n = ts.len();
    !at_end(ts, pos) && ts[pos].token_type == t
}

fn advance(ts: &Vec<Token>, pos: usize) -> (r: usize)
    requires
        tokens_wf(ts@),
        pos < ts@.len(),
    ensures
        r < ts@.len(),
        ts@[pos as int].token_type == TokenType::Eof ==> r == pos,
        ts@[pos as int].token_type != TokenType::Eof ==> r == pos + 1,
{
    let n = ts.len();
    if at_end(ts, pos) {
        pos
    } else {
        assert(pos + 1 < n);
        pos + 1
    }
}

/// Takes a token of type `t` at `pos`, or records `message` there.
fn consume(ts: &Vec<Token>, pos: usize, t: TokenType, message: ParseErrorMessage, diags: &mut Vec<
    ParseError,
>) -> (r: (Result<Token, ParseError>, usize))
    requires
        tokens_wf(ts@),
        pos < ts@.len(),
        is_fatal(ParseError { token: ts@[0], message }),
    ensures
        pos <= r.1 < ts@.len(),
        r.0 is Ok ==> pos < r.1 && fatal_count(final(diags)@) == fatal_count(old(diags)@),
        r.0 is Err ==> fatal_count(final(diags)@) > fatal_count(old(diags)@),
        r.1 == s_consume(token_views(ts@), pos as int, t, message).pos,
        diag_views(final(diags)@) == diag_views(old(diags)@) + s_consume(token_views(ts@), pos as int, t, message).diags,
        match r.0 {
            Ok(tok) => s_consume(token_views(ts@), pos as int, t, message).result == Ok::<TokenView, ParseErrorView>(tok@),
            Err(e) => s_consume(token_views(ts@), pos as int, t, message).result == Err::<TokenView, ParseErrorView>(e@),
        },
{
    let n = ts.len();
    proof {
        lemma_diags_same(diags@);
    }
    if check(ts, pos, t) {
        assert(pos + 1 < n);
        (Ok(ts[pos].duplicate()), pos + 1)
    } else {
        let e = error_at(ts, pos, message, diags);
        (Err(e), pos)
    }
}

/// Skips tokens after a syntax error, up to the start of what looks like the next statement.
fn synchronize(ts: &Vec<Token>, pos: usize) -> (r: usize)
    requires
        tokens_wf(ts@),
        pos < ts@.len(),
    ensures
        pos <= r < ts@.len(),
        ts@[pos as int].token_type != TokenType::Eof ==> pos < r,
        r == s_synchronize(token_views(ts@), pos as int),
{
    let ghost tv = token_views(ts@);
    proof {
        assert(tv[pos as int] == ts@[pos as int]@);
    }
    let mut p = advance(ts, pos);
    while !at_end(ts, p)
        invariant
            tokens_wf(ts@),
            tv == token_views(ts@),
            pos <= p < ts@.len(),
            ts@[pos as int].token_type != TokenType::Eof ==> pos < p,
            s_synchronize(tv, pos as int) == s_skip(tv, p as int),
        decreases ts@.len() - p,
    {
        proof {
            assert(tv[p as int] == ts@[p as int]@);
            assert(tv[p - 1] == ts@[p - 1]@);
        }
        if p > 0 && ts[p - 1].token_type == TokenType::Semicolon {
            return p;
        }
        match ts[p].token_type {
            TokenType::Class | TokenType::Fun | TokenType::Var | TokenType::For | TokenType::If
            | TokenType::While | TokenType::Print | TokenType::Return => {
                return p;
            },
            _ => {},
        }
        p = advance(ts, p);
    }
    proof {
        assert(tv[p as int] == ts@[p as int]@);
    }
    p
}


pub open spec fn diag_views(ds: Seq<ParseError>) -> Seq<ParseErrorView> {
    ds.map_values(|e: ParseError| e@)
}

pub open spec fn expr_result_view(r: Result<Expr, ParseError>) -> Result<ExprView, ParseErrorView> {
    match r {
        Ok(e) => Ok(expr_view(e)),
        Err(e) => Err(e@),
    }
}

/// The outcome `r` of a parsing function, with diagnostics going from `d0` to `d1`, is what
/// the grammar says.
pub open spec fn matches_expr(
    sp: Parsed<ExprView>,
    r: (Result<Expr, ParseError>, usize),
    d0: Seq<ParseError>,
    d1: Seq<ParseError>,
) -> bool {
    &&& r.1 == sp.pos
    &&& expr_result_view(r.0) == sp.result
    &&& diag_views(d1) == diag_views(d0) + sp.diags
}

proof fn lemma_diags_join(
    a: Seq<ParseError>,
    b: Seq<ParseError>,
    c: Seq<ParseError>,
    d1: Seq<ParseErrorView>,
    d2: Seq<ParseErrorView>,
)
    requires
        diag_views(b) == diag_views(a) + d1,
        diag_views(c) == diag_views(b) + d2,
    ensures
        diag_views(c) == diag_views(a) + (d1 + d2),
{
    assert(diag_views(a) + d1 + d2 =~= diag_views(a) + (d1 + d2));
}

proof fn lemma_diags_same(a: Seq<ParseError>)
    ensures
        diag_views(a) == diag_views(a) + Seq::<ParseErrorView>::empty(),
{
    assert(diag_views(a) =~= diag_views(a) + Seq::<ParseErrorView>::empty());
}
fn expression(
    ts: &Vec<Token>,
    pos: usize,
    diags: &mut Vec<ParseError>,
) -> (r: (Result<Expr, ParseError>, usize))
    requires
        tokens_wf(ts@),
        pos < ts@.len(),
    ensures
        pos <= r.1 < ts@.len(),
        r.0 is Ok ==> pos < r.1 && fatal_count(final(diags)@) == fatal_count(old(diags)@),
        r.0 is Err ==> fatal_count(final(diags)@) > fatal_count(old(diags)@),
        matches_expr(s_expression(token_views(ts@), pos as int), r, old(diags)@, final(diags)@),
    decreases ts@.len() - pos, 10nat,
{
    assignment(ts, pos, diags)
}

/// Assignment is right-associative and needs a variable on its left; any other target is
/// recorded, and the left-hand expression stands.
fn assignment(
    ts: &Vec<Token>,
    pos: usize,
    diags: &mut Vec<ParseError>,
) -> (r: (Result<Expr, ParseError>, usize))
    requires
        tokens_wf(ts@),
        pos < ts@.len(),
    ensures
        pos <= r.1 < ts@.len(),
        r.0 is Ok ==> pos < r.1 && fatal_count(final(diags)@) == fatal_count(old(diags)@),
        r.0 is Err ==> fatal_count(final(diags)@) > fatal_count(old(diags)@),
        matches_expr(s_assignment(token_views(ts@), pos as int), r, old(diags)@, final(diags)@),
    decreases ts@.len() - pos, 9nat,
{
    let ghost tv = token_views(ts@);
    let (lhs, p) = or_expr(ts, pos, diags);
    let target = match lhs {
        Ok(e) => e,
        Err(e) => {
            return (Err(e), p);
        },
    };
    if check(ts, p, TokenType::Equal) {
        let ghost before = diags@;
        let (value, q) = assignment(ts, p + 1, diags);
        proof {
            lemma_diags_join(
                old(diags)@,
                before,
                diags@,
                s_tier(tv, pos as int, 6).diags,
                s_assignment(tv, p + 1).diags,
            );
        }
        let value = match value {
            Ok(v) => v,
            Err(e) => {
                return (Err(e), q);
            },
        };
        match target {
            Expr::VariableExpr(v) => (Ok(Expr::AssignExpr(Box::new(AssignExpr { name: v.name, value }))), q),
            other => {
                let ghost mid = diags@;
                let e = error_at(ts, p, ParseErrorMessage::InvalidAssignmentTarget, diags);
                proof {
                    lemma_diags_join(
                        old(diags)@,
                        mid,
                        diags@,
                        s_tier(tv, pos as int, 6).diags + s_assignment(tv, p + 1).diags,
                        seq![e@],
                    );
                }
                (Ok(other), q)
            },
        }
    } else {
        (Ok(target), p)
    }
}

fn or_expr(
    ts: &Vec<Token>,
    pos: usize,
    diags: &mut Vec<ParseError>,
) -> (r: (Result<Expr, ParseError>, usize))
    requires
        tokens_wf(ts@),
        pos < ts@.len(),
    ensures
        pos <= r.1 < ts@.len(),
        r.0 is Ok ==> pos < r.1 && fatal_count(final(diags)@) == fatal_count(old(diags)@),
        r.0 is Err ==> fatal_count(final(diags)@) > fatal_count(old(diags)@),
        matches_expr(s_tier(token_views(ts@), pos as int, 6), r, old(diags)@, final(diags)@),
    decreases ts@.len() - pos, 8nat,
{
    let ghost tv = token_views(ts@);
    let (first, at0) = and_expr(ts, pos, diags);
    let mut expr = match first {
        Ok(e) => e,
        Err(e) => {
            return (Err(e), at0);
        },
    };
    let mut p = at0;
    let ghost mut dacc = s_operand(tv, pos as int, 5).diags;
    loop
        invariant
            tokens_wf(ts@),
            tv == token_views(ts@),
            pos < p < ts@.len(),
            fatal_count(diags@) == fatal_count(old(diags)@),
            diag_views(diags@) == diag_views(old(diags)@) + dacc,
            s_tier(tv, pos as int, 6) == s_fold(tv, p as int, 6, expr_view(expr), dacc),
        decreases ts@.len() - p,
    {
        if check(ts, p, TokenType::Or) {
            let operator = ts[p].duplicate();
            let ghost before = diags@;
            let (right, q) = and_expr(ts, p + 1, diags);
            proof {
                lemma_diags_join(old(diags)@, before, diags@, dacc, s_operand(tv, p + 1, 5).diags);
            }
            match right {
                Ok(right) => {
                    expr = Expr::LogicalExpr(Box::new(LogicalExpr { left: expr, operator, right }));
                    proof {
                        dacc = dacc + s_operand(tv, p + 1, 5).diags;
                    }
                    p = q;
                },
                Err(e) => {
                    return (Err(e), q);
                },
            }
        } else {
            proof {
                assert(tv[p as int] == ts@[p as int]@);
            }
            return (Ok(expr), p);
        }
    }
}

fn and_expr(
    ts: &Vec<Token>,
    pos: usize,
    diags: &mut Vec<ParseError>,
) -> (r: (Result<Expr, ParseError>, usize))
    requires
        tokens_wf(ts@),
        pos < ts@.len(),
    ensures
        pos <= r.1 < ts@.len(),
        r.0 is Ok ==> pos < r.1 && fatal_count(final(diags)@) == fatal_count(old(diags)@),
        r.0 is Err ==> fatal_count(final(diags)@) > fatal_count(old(diags)@),
        matches_expr(s_tier(token_views(ts@), pos as int, 5), r, old(diags)@, final(diags)@),
    decreases ts@.len() - pos, 7nat,
{
    let ghost tv = token_views(ts@);
    let (first, at0) = equality(ts, pos, diags);
    let mut expr = match first {
        Ok(e) => e,
        Err(e) => {
            return (Err(e), at0);
        },
    };
    let mut p = at0;
    let ghost mut dacc = s_operand(tv, pos as int, 4).diags;
    loop
        invariant
            tokens_wf(ts@),
            tv == token_views(ts@),
            pos < p < ts@.len(),
            fatal_count(diags@) == fatal_count(old(diags)@),
            diag_views(diags@) == diag_views(old(diags)@) + dacc,
            s_tier(tv, pos as int, 5) == s_fold(tv, p as int, 5, expr_view(expr), dacc),
        decreases ts@.len() - p,
    {
        if check(ts, p, TokenType::And) {
            let operator = ts[p].duplicate();
            let ghost before = diags@;
            let (right, q) = equality(ts, p + 1, diags);
            proof {
                lemma_diags_join(old(diags)@, before, diags@, dacc, s_operand(tv, p + 1, 4).diags);
            }
            match right {
                Ok(right) => {
                    expr = Expr::LogicalExpr(Box::new(LogicalExpr { left: expr, operator, right }));
                    proof {
                        dacc = dacc + s_operand(tv, p + 1, 4).diags;
                    }
                    p = q;
                },
                Err(e) => {
                    return (Err(e), q);
                },
            }
        } else {
            proof {
                assert(tv[p as int] == ts@[p as int]@);
            }
            return (Ok(expr), p);
        }
    }
}

fn equality(
    ts: &Vec<Token>,
    pos: usize,
    diags: &mut Vec<ParseError>,
) -> (r: (Result<Expr, ParseError>, usize))
    requires
        tokens_wf(ts@),
        pos < ts@.len(),
    ensures
        pos <= r.1 < ts@.len(),
        r.0 is Ok ==> pos < r.1 && fatal_count(final(diags)@) == fatal_count(old(diags)@),
        r.0 is Err ==> fatal_count(final(diags)@) > fatal_count(old(diags)@),
        matches_expr(s_tier(token_views(ts@), pos as int, 4), r, old(diags)@, final(diags)@),
    decreases ts@.len() - pos, 6nat,
{
    let ghost tv = token_views(ts@);
    let (first, at0) = comparison(ts, pos, diags);
    let mut expr = match first {
        Ok(e) => e,
        Err(e) => {
            return (Err(e), at0);
        },
    };
    let mut p = at0;
    let ghost mut dacc = s_operand(tv, pos as int, 3).diags;
    loop
        invariant
            tokens_wf(ts@),
            tv == token_views(ts@),
            pos < p < ts@.len(),
            fatal_count(diags@) == fatal_count(old(diags)@),
            diag_views(diags@) == diag_views(old(diags)@) + dacc,
            s_tier(tv, pos as int, 4) == s_fold(tv, p as int, 4, expr_view(expr), dacc),
        decreases ts@.len() - p,
    {
        if check(ts, p, TokenType::BangEqual) || check(ts, p, TokenType::EqualEqual) {
            let operator = ts[p].duplicate();
            let ghost before = diags@;
            let (right, q) = comparison(ts, p + 1, diags);
            proof {
                lemma_diags_join(old(diags)@, before, diags@, dacc, s_operand(tv, p + 1, 3).diags);
            }
            match right {
                Ok(right) => {
                    expr = Expr::BinaryExpr(Box::new(BinaryExpr { left: expr, operator, right }));
                    proof {
                        dacc = dacc + s_operand(tv, p + 1, 3).diags;
                    }
                    p = q;
                },
                Err(e) => {
                    return (Err(e), q);
                },
            }
        } else {
            proof {
                assert(tv[p as int] == ts@[p as int]@);
            }
            return (Ok(expr), p);
        }
    }
}

fn comparison(
    ts: &Vec<Token>,
    pos: usize,
    diags: &mut Vec<ParseError>,
) -> (r: (Result<Expr, ParseError>, usize))
    requires
        tokens_wf(ts@),
        pos < ts@.len(),
    ensures
        pos <= r.1 < ts@.len(),
        r.0 is Ok ==> pos < r.1 && fatal_count(final(diags)@) == fatal_count(old(diags)@),
        r.0 is Err ==> fatal_count(final(diags)@) > fatal_count(old(diags)@),
        matches_expr(s_tier(token_views(ts@), pos as int, 3), r, old(diags)@, final(diags)@),
    decreases ts@.len() - pos, 5nat,
{
    let ghost tv = token_views(ts@);
    let (first, at0) = term(ts, pos, diags);
    let mut expr = match first {
        Ok(e) => e,
        Err(e) => {
            return (Err(e), at0);
        },
    };
    let mut p = at0;
    let ghost mut dacc = s_operand(tv, pos as int, 2).diags;
    loop
        invariant
            tokens_wf(ts@),
            tv == token_views(ts@),
            pos < p < ts@.len(),
            fatal_count(diags@) == fatal_count(old(diags)@),
            diag_views(diags@) == diag_views(old(diags)@) + dacc,
            s_tier(tv, pos as int, 3) == s_fold(tv, p as int, 3, expr_view(expr), dacc),
        decreases ts@.len() - p,
    {
        if check(ts, p, TokenType::Greater) || check(ts, p, TokenType::GreaterEqual) || check(ts, p, TokenType::Less) || check(ts, p, TokenType::LessEqual) {
            let operator = ts[p].duplicate();
            let ghost before = diags@;
            let (right, q) = term(ts, p + 1, diags);
            proof {
                lemma_diags_join(old(diags)@, before, diags@, dacc, s_operand(tv, p + 1, 2).diags);
            }
            match right {
                Ok(right) => {
                    expr = Expr::BinaryExpr(Box::new(BinaryExpr { left: expr, operator, right }));
                    proof {
                        dacc = dacc + s_operand(tv, p + 1, 2).diags;
                    }
                    p = q;
                },
                Err(e) => {
                    return (Err(e), q);
                },
            }
        } else {
            proof {
                assert(tv[p as int] == ts@[p as int]@);
            }
            return (Ok(expr), p);
        }
    }
}

fn term(
    ts: &Vec<Token>,
    pos: usize,
    diags: &mut Vec<ParseError>,
) -> (r: (Result<Expr, ParseError>, usize))
    requires
        tokens_wf(ts@),
        pos < ts@.len(),
    ensures
        pos <= r.1 < ts@.len(),
        r.0 is Ok ==> pos < r.1 && fatal_count(final(diags)@) == fatal_count(old(diags)@),
        r.0 is Err ==> fatal_count(final(diags)@) > fatal_count(old(diags)@),
        matches_expr(s_tier(token_views(ts@), pos as int, 2), r, old(diags)@, final(diags)@),
    decreases ts@.len() - pos, 4nat,
{
    let ghost tv = token_views(ts@);
    let (first, at0) = factor(ts, pos, diags);
    let mut expr = match first {
        Ok(e) => e,
        Err(e) => {
            return (Err(e), at0);
        },
    };
    let mut p = at0;
    let ghost mut dacc = s_operand(tv, pos as int, 1).diags;
    loop
        invariant
            tokens_wf(ts@),
            tv == token_views(ts@),
            pos < p < ts@.len(),
            fatal_count(diags@) == fatal_count(old(diags)@),
            diag_views(diags@) == diag_views(old(diags)@) + dacc,
            s_tier(tv, pos as int, 2) == s_fold(tv, p as int, 2, expr_view(expr), dacc),
        decreases ts@.len() - p,
    {
        if check(ts, p, TokenType::Minus) || check(ts, p, TokenType::Plus) {
            let operator = ts[p].duplicate();
            let ghost before = diags@;
            let (right, q) = factor(ts, p + 1, diags);
            proof {
                lemma_diags_join(old(diags)@, before, diags@, dacc, s_operand(tv, p + 1, 1).diags);
            }
            match right {
                Ok(right) => {
                    expr = Expr::BinaryExpr(Box::new(BinaryExpr { left: expr, operator, right }));
                    proof {
                        dacc = dacc + s_operand(tv, p + 1, 1).diags;
                    }
                    p = q;
                },
                Err(e) => {
                    return (Err(e), q);
                },
            }
        } else {
            proof {
                assert(tv[p as int] == ts@[p as int]@);
            }
            return (Ok(expr), p);
        }
    }
}

fn factor(
    ts: &Vec<Token>,
    pos: usize,
    diags: &mut Vec<ParseError>,
) -> (r: (Result<Expr, ParseError>, usize))
    requires
        tokens_wf(ts@),
        pos < ts@.len(),
    ensures
        pos <= r.1 < ts@.len(),
        r.0 is Ok ==> pos < r.1 && fatal_count(final(diags)@) == fatal_count(old(diags)@),
        r.0 is Err ==> fatal_count(final(diags)@) > fatal_count(old(diags)@),
        matches_expr(s_tier(token_views(ts@), pos as int, 1), r, old(diags)@, final(diags)@),
    decreases ts@.len() - pos, 3nat,
{
    let ghost tv = token_views(ts@);
    let (first, at0) = unary(ts, pos, diags);
    let mut expr = match first {
        Ok(e) => e,
        Err(e) => {
            return (Err(e), at0);
        },
    };
    let mut p = at0;
    let ghost mut dacc = s_operand(tv, pos as int, 0).diags;
    loop
        invariant
            tokens_wf(ts@),
            tv == token_views(ts@),
            pos < p < ts@.len(),
            fatal_count(diags@) == fatal_count(old(diags)@),
            diag_views(diags@) == diag_views(old(diags)@) + dacc,
            s_tier(tv, pos as int, 1) == s_fold(tv, p as int, 1, expr_view(expr), dacc),
        decreases ts@.len() - p,
    {
        if check(ts, p, TokenType::Slash) || check(ts, p, TokenType::Star) {
            let operator = ts[p].duplicate();
            let ghost before = diags@;
            let (right, q) = unary(ts, p + 1, diags);
            proof {
                lemma_diags_join(old(diags)@, before, diags@, dacc, s_operand(tv, p + 1, 0).diags);
            }
            match right {
                Ok(right) => {
                    expr = Expr::BinaryExpr(Box::new(BinaryExpr { left: expr, operator, right }));
                    proof {
                        dacc = dacc + s_operand(tv, p + 1, 0).diags;
                    }
                    p = q;
                },
                Err(e) => {
                    return (Err(e), q);
                },
            }
        } else {
            proof {
                assert(tv[p as int] == ts@[p as int]@);
            }
            return (Ok(expr), p);
        }
    }
}

fn unary(
    ts: &Vec<Token>,
    pos: usize,
    diags: &mut Vec<ParseError>,
) -> (r: (Result<Expr, ParseError>, usize))
    requires
        tokens_wf(ts@),
        pos < ts@.len(),
    ensures
        pos <= r.1 < ts@.len(),
        r.0 is Ok ==> pos < r.1 && fatal_count(final(diags)@) == fatal_count(old(diags)@),
        r.0 is Err ==> fatal_count(final(diags)@) > fatal_count(old(diags)@),
        matches_expr(s_unary(token_views(ts@), pos as int), r, old(diags)@, final(diags)@),
    decreases ts@.len() - pos, 2nat,
{
    if check(ts, pos, TokenType::Bang) || check(ts, pos, TokenType::Minus) {
        let operator = ts[pos].duplicate();
        let (right, q) = unary(ts, pos + 1, diags);
        match right {
            Ok(right) => (Ok(Expr::UnaryExpr(Box::new(UnaryExpr { operator, right }))), q),
            Err(e) => (Err(e), q),
        }
    } else {
        primary(ts, pos, diags)
    }
}

fn primary(
    ts: &Vec<Token>,
    pos: usize,
    diags: &mut Vec<ParseError>,
) -> (r: (Result<Expr, ParseError>, usize))
    requires
        tokens_wf(ts@),
        pos < ts@.len(),
    ensures
        pos <= r.1 < ts@.len(),
        r.0 is Ok ==> pos < r.1 && fatal_count(final(diags)@) == fatal_count(old(diags)@),
        r.0 is Err ==> fatal_count(final(diags)@) > fatal_count(old(diags)@),
        matches_expr(s_primary(token_views(ts@), pos as int), r, old(diags)@, final(diags)@),
    decreases ts@.len() - pos, 1nat,
{
    if check(ts, pos, TokenType::False) {
        (Ok(Expr::LiteralExpr(LiteralExpr { value: LiteralValue::Bool(false) })), pos + 1)
    } else if check(ts, pos, TokenType::True) {
        (Ok(Expr::LiteralExpr(LiteralExpr { value: LiteralValue::Bool(true) })), pos + 1)
    } else if check(ts, pos, TokenType::Nil) {
        (Ok(Expr::LiteralExpr(LiteralExpr { value: LiteralValue::Nil })), pos + 1)
    } else if check(ts, pos, TokenType::Number) || check(ts, pos, TokenType::String) {
        let value = match &ts[pos].literal {
            TokenLiteral::Number(n) => LiteralValue::Number(*n),
            TokenLiteral::String(text) => LiteralValue::String(text.clone()),
            TokenLiteral::Nothing => LiteralValue::Nil,
        };
        (Ok(Expr::LiteralExpr(LiteralExpr { value })), pos + 1)
    } else if check(ts, pos, TokenType::Identifier) {
        (Ok(Expr::VariableExpr(VariableExpr { name: ts[pos].duplicate() })), pos + 1)
    } else if check(ts, pos, TokenType::LeftParen) {
        let (inner, q) = expression(ts, pos + 1, diags);
        let expression = match inner {
            Ok(e) => e,
            Err(e) => {
                return (Err(e), q);
            },
        };
        let ghost before = diags@;
        let (closing, q2) = consume(
            ts,
            q,
            TokenType::RightParen,
            ParseErrorMessage::ExpectRightParen(ExpectAfter::Expression),
            diags,
        );
        proof {
            lemma_diags_join(old(diags)@, before, diags@, s_expression(token_views(ts@), pos + 1).diags,
                s_consume(token_views(ts@), q as int, TokenType::RightParen, ParseErrorMessage::ExpectRightParen(ExpectAfter::Expression)).diags);
        }
        match closing {
            Ok(_) => (Ok(Expr::GroupingExpr(Box::new(GroupingExpr { expression }))), q2),
            Err(e) => (Err(e), q2),
        }
    } else {
        let e = error_at(ts, pos, ParseErrorMessage::ExpectExpression, diags);
        (Err(e), pos)
    }
}


pub open spec fn opt_stmt_view(s: Option<Stmt>) -> Option<StmtView> {
    match s {
        Some(x) => Some(stmt_view(x)),
        None => None,
    }
}

pub open spec fn stmt_result_view(r: Result<Stmt, ParseError>) -> Result<StmtView, ParseErrorView> {
    match r {
        Ok(s) => Ok(stmt_view(s)),
        Err(e) => Err(e@),
    }
}

pub open spec fn matches_stmt(
    sp: Parsed<StmtView>,
    r: (Result<Stmt, ParseError>, usize),
    d0: Seq<ParseError>,
    d1: Seq<ParseError>,
) -> bool {
    &&& r.1 == sp.pos
    &&& stmt_result_view(r.0) == sp.result
    &&& diag_views(d1) == diag_views(d0) + sp.diags
}

pub open spec fn matches_opt_stmt(
    sp: Parsed<Option<StmtView>>,
    r: (Result<Option<Stmt>, ParseError>, usize),
    d0: Seq<ParseError>,
    d1: Seq<ParseError>,
) -> bool {
    &&& r.1 == sp.pos
    &&& match r.0 {
        Ok(Some(s)) => sp.result == Ok::<Option<StmtView>, ParseErrorView>(Some(stmt_view(s))),
        Ok(None) => sp.result == Ok::<Option<StmtView>, ParseErrorView>(None),
        Err(e) => sp.result == Err::<Option<StmtView>, ParseErrorView>(e@),
    }
    &&& diag_views(d1) == diag_views(d0) + sp.diags
}

pub open spec fn matches_opt_expr(
    sp: Parsed<Option<ExprView>>,
    r: (Result<Option<Expr>, ParseError>, usize),
    d0: Seq<ParseError>,
    d1: Seq<ParseError>,
) -> bool {
    &&& r.1 == sp.pos
    &&& match r.0 {
        Ok(Some(x)) => sp.result == Ok::<Option<ExprView>, ParseErrorView>(Some(expr_view(x))),
        Ok(None) => sp.result == Ok::<Option<ExprView>, ParseErrorView>(None),
        Err(e) => sp.result == Err::<Option<ExprView>, ParseErrorView>(e@),
    }
    &&& diag_views(d1) == diag_views(d0) + sp.diags
}

pub open spec fn matches_block(
    sp: Parsed<Seq<StmtView>>,
    r: (Result<Vec<Stmt>, ParseError>, usize),
    d0: Seq<ParseError>,
    d1: Seq<ParseError>,
) -> bool {
    &&& r.1 == sp.pos
    &&& match r.0 {
        Ok(v) => sp.result == Ok::<Seq<StmtView>, ParseErrorView>(stmts_view(v@)),
        Err(e) => sp.result == Err::<Seq<StmtView>, ParseErrorView>(e@),
    }
    &&& diag_views(d1) == diag_views(d0) + sp.diags
}

/// A declaration or statement; after a syntax error, skips to the next statement.
fn declaration(
    ts: &Vec<Token>,
    pos: usize,
    diags: &mut Vec<ParseError>,
) -> (r: (Result<Stmt, ParseError>, usize))
    requires
        tokens_wf(ts@),
        pos < ts@.len(),
    ensures
        pos <= r.1 < ts@.len(),
        r.0 is Ok ==> pos < r.1 && fatal_count(final(diags)@) == fatal_count(old(diags)@),
        r.0 is Err ==> fatal_count(final(diags)@) > fatal_count(old(diags)@),
        ts@[pos as int].token_type != TokenType::Eof ==> pos < r.1,
        matches_stmt(s_declaration(token_views(ts@), pos as int), r, old(diags)@, final(diags)@),
    decreases ts@.len() - pos, 20nat,
{
    let (res, q) = if check(ts, pos, TokenType::Var) {
        var_declaration(ts, pos + 1, diags)
    } else {
        statement(ts, pos, diags)
    };
    match res {
        Ok(s) => (Ok(s), q),
        Err(e) => (Err(e), synchronize(ts, q)),
    }
}

fn var_declaration(
    ts: &Vec<Token>,
    pos: usize,
    diags: &mut Vec<ParseError>,
) -> (r: (Result<Stmt, ParseError>, usize))
    requires
        tokens_wf(ts@),
        pos < ts@.len(),
    ensures
        pos <= r.1 < ts@.len(),
        r.0 is Ok ==> pos < r.1 && fatal_count(final(diags)@) == fatal_count(old(diags)@),
        r.0 is Err ==> fatal_count(final(diags)@) > fatal_count(old(diags)@),
        matches_stmt(s_var_declaration(token_views(ts@), pos as int), r, old(diags)@, final(diags)@),
    decreases ts@.len() - pos, 18nat,
{
    let ghost tv = token_views(ts@);
    let (name_r, at1) = consume(
        ts,
        pos,
        TokenType::Identifier,
        ParseErrorMessage::ExpectVariableName,
        diags,
    );
    let name = match name_r {
        Ok(v) => v,
        Err(e) => {
            return (Err(e), at1);
        },
    };
    let ghost dn = s_consume(tv, pos as int, TokenType::Identifier, ParseErrorMessage::ExpectVariableName).diags;
    if check(ts, at1, TokenType::Equal) {
        let ghost d1 = diags@;
        let (init_r, at2) = expression(ts, at1 + 1, diags);
        proof {
            lemma_diags_join(old(diags)@, d1, diags@, dn, s_expression(tv, at1 + 1).diags);
        }
        let init = match init_r {
            Ok(v) => v,
            Err(e) => {
                return (Err(e), at2);
            },
        };
        let ghost d2 = diags@;
        let (semi_r, at3) = consume(
            ts,
            at2,
            TokenType::Semicolon,
            ParseErrorMessage::ExpectSemicolon(ExpectAfter::Declaration),
            diags,
        );
        proof {
            lemma_diags_join(old(diags)@, d2, diags@, dn + s_expression(tv, at1 + 1).diags,
                s_consume(tv, at2 as int, TokenType::Semicolon, ParseErrorMessage::ExpectSemicolon(ExpectAfter::Declaration)).diags);
        }
        match semi_r {
            Ok(_) => (Ok(Stmt::VarStmt(VarStmt { name, initializer: Some(init) })), at3),
            Err(e) => (Err(e), at3),
        }
    } else {
        let ghost d1 = diags@;
        let (semi_r, at3) = consume(
            ts,
            at1,
            TokenType::Semicolon,
            ParseErrorMessage::ExpectSemicolon(ExpectAfter::Declaration),
            diags,
        );
        proof {
            lemma_diags_join(old(diags)@, d1, diags@, dn,
                s_consume(tv, at1 as int, TokenType::Semicolon, ParseErrorMessage::ExpectSemicolon(ExpectAfter::Declaration)).diags);
        }
        match semi_r {
            Ok(_) => (Ok(Stmt::VarStmt(VarStmt { name, initializer: None })), at3),
            Err(e) => (Err(e), at3),
        }
    }
}

fn statement(
    ts: &Vec<Token>,
    pos: usize,
    diags: &mut Vec<ParseError>,
) -> (r: (Result<Stmt, ParseError>, usize))
    requires
        tokens_wf(ts@),
        pos < ts@.len(),
    ensures
        pos <= r.1 < ts@.len(),
        r.0 is Ok ==> pos < r.1 && fatal_count(final(diags)@) == fatal_count(old(diags)@),
        r.0 is Err ==> fatal_count(final(diags)@) > fatal_count(old(diags)@),
        matches_stmt(s_statement(token_views(ts@), pos as int), r, old(diags)@, final(diags)@),
    decreases ts@.len() - pos, 19nat,
{
    if check(ts, pos, TokenType::For) {
        for_statement(ts, pos + 1, diags)
    } else if check(ts, pos, TokenType::If) {
        if_statement(ts, pos + 1, diags)
    } else if check(ts, pos, TokenType::Print) {
        print_statement(ts, pos + 1, diags)
    } else if check(ts, pos, TokenType::While) {
        while_statement(ts, pos + 1, diags)
    } else if check(ts, pos, TokenType::LeftBrace) {
        let (res, q) = block(ts, pos + 1, diags);
        match res {
            Ok(statements) => (Ok(Stmt::BlockStmt(BlockStmt { statements })), q),
            Err(e) => (Err(e), q),
        }
    } else {
        expression_statement(ts, pos, diags)
    }
}

fn terminated(
    ts: &Vec<Token>,
    pos: usize,
    after: ExpectAfter,
    print: bool,
    diags: &mut Vec<ParseError>,
) -> (r: (Result<Stmt, ParseError>, usize))
    requires
        tokens_wf(ts@),
        pos < ts@.len(),
    ensures
        pos <= r.1 < ts@.len(),
        r.0 is Ok ==> pos < r.1 && fatal_count(final(diags)@) == fatal_count(old(diags)@),
        r.0 is Err ==> fatal_count(final(diags)@) > fatal_count(old(diags)@),
        matches_stmt(s_terminated(token_views(ts@), pos as int, after, print), r, old(diags)@, final(diags)@),
    decreases ts@.len() - pos, 15nat,
{
    let ghost tv = token_views(ts@);
    let (value_r, at1) = expression(ts, pos, diags);
    let value = match value_r {
        Ok(v) => v,
        Err(e) => {
            return (Err(e), at1);
        },
    };
    let ghost d1 = diags@;
    let (semi_r, at2) = consume(
        ts,
        at1,
        TokenType::Semicolon,
        ParseErrorMessage::ExpectSemicolon(after),
        diags,
    );
    proof {
        lemma_diags_join(old(diags)@, d1, diags@, s_expression(tv, pos as int).diags,
            s_consume(tv, at1 as int, TokenType::Semicolon, ParseErrorMessage::ExpectSemicolon(after)).diags);
    }
    match semi_r {
        Ok(_) => if print {
            (Ok(Stmt::PrintStmt(PrintStmt { expression: value })), at2)
        } else {
            (Ok(Stmt::ExpressionStmt(ExpressionStmt { expression: value })), at2)
        },
        Err(e) => (Err(e), at2),
    }
}

fn expression_statement(
    ts: &Vec<Token>,
    pos: usize,
    diags: &mut Vec<ParseError>,
) -> (r: (Result<Stmt, ParseError>, usize))
    requires
        tokens_wf(ts@),
        pos < ts@.len(),
    ensures
        pos <= r.1 < ts@.len(),
        r.0 is Ok ==> pos < r.1 && fatal_count(final(diags)@) == fatal_count(old(diags)@),
        r.0 is Err ==> fatal_count(final(diags)@) > fatal_count(old(diags)@),
        matches_stmt(s_expression_statement(token_views(ts@), pos as int), r, old(diags)@, final(diags)@),
    decreases ts@.len() - pos, 17nat,
{
    terminated(ts, pos, ExpectAfter::Expression, false, diags)
}

fn print_statement(
    ts: &Vec<Token>,
    pos: usize,
    diags: &mut Vec<ParseError>,
) -> (r: (Result<Stmt, ParseError>, usize))
    requires
        tokens_wf(ts@),
        pos < ts@.len(),
    ensures
        pos <= r.1 < ts@.len(),
        r.0 is Ok ==> pos < r.1 && fatal_count(final(diags)@) == fatal_count(old(diags)@),
        r.0 is Err ==> fatal_count(final(diags)@) > fatal_count(old(diags)@),
        matches_stmt(s_print(token_views(ts@), pos as int), r, old(diags)@, final(diags)@),
    decreases ts@.len() - pos, 16nat,
{
    terminated(ts, pos, ExpectAfter::Value, true, diags)
}

/// `( condition )` and the statement after it.
fn guarded(
    ts: &Vec<Token>,
    pos: usize,
    after: ExpectAfter,
    diags: &mut Vec<ParseError>,
) -> (r: (Result<(Expr, Stmt), ParseError>, usize))
    requires
        tokens_wf(ts@),
        pos < ts@.len(),
    ensures
        pos <= r.1 < ts@.len(),
        r.0 is Ok ==> pos < r.1 && fatal_count(final(diags)@) == fatal_count(old(diags)@),
        r.0 is Err ==> fatal_count(final(diags)@) > fatal_count(old(diags)@),
        r.1 == s_guarded(token_views(ts@), pos as int, after).1.pos,
        diag_views(final(diags)@) == diag_views(old(diags)@) + s_guarded(token_views(ts@), pos as int, after).1.diags,
        match r.0 {
            Ok((c, b)) => s_guarded(token_views(ts@), pos as int, after).0.result == Ok::<ExprView, ParseErrorView>(expr_view(c))
                && s_guarded(token_views(ts@), pos as int, after).1.result == Ok::<StmtView, ParseErrorView>(stmt_view(b)),
            Err(e) => s_guarded(token_views(ts@), pos as int, after).1.result == Err::<StmtView, ParseErrorView>(e@)
                && !(s_guarded(token_views(ts@), pos as int, after).0.result is Ok && s_guarded(token_views(ts@), pos as int, after).1.result is Ok),
        },
    decreases ts@.len() - pos, 15nat,
{
    let ghost tv = token_views(ts@);
    let (open_r, at1) = consume(
        ts,
        pos,
        TokenType::LeftParen,
        ParseErrorMessage::ExpectLeftParen(after),
        diags,
    );
    match open_r {
        Ok(_) => {},
        Err(e) => {
            return (Err(e), at1);
        },
    }
    let ghost d1 = diags@;
    let (cond_r, at2) = expression(ts, at1, diags);
    proof {
        lemma_diags_join(old(diags)@, d1, diags@, Seq::empty(), s_expression(tv, at1 as int).diags);
        assert(Seq::<ParseErrorView>::empty() + s_expression(tv, at1 as int).diags =~= s_expression(tv, at1 as int).diags);
    }
    let condition = match cond_r {
        Ok(c) => c,
        Err(e) => {
            return (Err(e), at2);
        },
    };
    let ghost d2 = diags@;
    let (close_r, at3) = consume(
        ts,
        at2,
        TokenType::RightParen,
        ParseErrorMessage::ExpectRightParen(ExpectAfter::Condition),
        diags,
    );
    proof {
        lemma_diags_join(old(diags)@, d2, diags@, s_expression(tv, at1 as int).diags,
            s_consume(tv, at2 as int, TokenType::RightParen, ParseErrorMessage::ExpectRightParen(ExpectAfter::Condition)).diags);
    }
    match close_r {
        Ok(_) => {},
        Err(e) => {
            return (Err(e), at3);
        },
    }
    let ghost d3 = diags@;
    let (body_r, at4) = statement(ts, at3, diags);
    proof {
        lemma_diags_join(old(diags)@, d3, diags@, s_expression(tv, at1 as int).diags
            + s_consume(tv, at2 as int, TokenType::RightParen, ParseErrorMessage::ExpectRightParen(ExpectAfter::Condition)).diags,
            s_statement(tv, at3 as int).diags);
    }
    match body_r {
        Ok(body) => (Ok((condition, body)), at4),
        Err(e) => (Err(e), at4),
    }
}

fn while_statement(
    ts: &Vec<Token>,
    pos: usize,
    diags: &mut Vec<ParseError>,
) -> (r: (Result<Stmt, ParseError>, usize))
    requires
        tokens_wf(ts@),
        pos < ts@.len(),
    ensures
        pos <= r.1 < ts@.len(),
        r.0 is Ok ==> pos < r.1 && fatal_count(final(diags)@) == fatal_count(old(diags)@),
        r.0 is Err ==> fatal_count(final(diags)@) > fatal_count(old(diags)@),
        matches_stmt(s_while(token_views(ts@), pos as int), r, old(diags)@, final(diags)@),
    decreases ts@.len() - pos, 16nat,
{
    let (res, q) = guarded(ts, pos, ExpectAfter::While, diags);
    match res {
        Ok((condition, body)) => (Ok(Stmt::WhileStmt(Box::new(WhileStmt { condition, body }))), q),
        Err(e) => (Err(e), q),
    }
}

fn if_statement(
    ts: &Vec<Token>,
    pos: usize,
    diags: &mut Vec<ParseError>,
) -> (r: (Result<Stmt, ParseError>, usize))
    requires
        tokens_wf(ts@),
        pos < ts@.len(),
    ensures
        pos <= r.1 < ts@.len(),
        r.0 is Ok ==> pos < r.1 && fatal_count(final(diags)@) == fatal_count(old(diags)@),
        r.0 is Err ==> fatal_count(final(diags)@) > fatal_count(old(diags)@),
        matches_stmt(s_if(token_views(ts@), pos as int), r, old(diags)@, final(diags)@),
    decreases ts@.len() - pos, 16nat,
{
    let ghost tv = token_views(ts@);
    let (res, at1) = guarded(ts, pos, ExpectAfter::If, diags);
    let (condition, then_branch) = match res {
        Ok(x) => x,
        Err(e) => {
            return (Err(e), at1);
        },
    };
    if check(ts, at1, TokenType::Else) {
        let ghost d1 = diags@;
        let (other_r, at2) = statement(ts, at1 + 1, diags);
        proof {
            lemma_diags_join(
                old(diags)@,
                d1,
                diags@,
                s_guarded(tv, pos as int, ExpectAfter::If).1.diags,
                s_statement(tv, at1 + 1).diags,
            );
        }
        match other_r {
            Ok(other) => (Ok(Stmt::IfStmt(Box::new(IfStmt { condition, then_branch, else_branch: Some(other) }))), at2),
            Err(e) => (Err(e), at2),
        }
    } else {
        (Ok(Stmt::IfStmt(Box::new(IfStmt { condition, then_branch, else_branch: None }))), at1)
    }
}

fn for_init(
    ts: &Vec<Token>,
    pos: usize,
    diags: &mut Vec<ParseError>,
) -> (r: (Result<Option<Stmt>, ParseError>, usize))
    requires
        tokens_wf(ts@),
        pos < ts@.len(),
    ensures
        pos <= r.1 < ts@.len(),
        r.0 is Ok ==> pos < r.1 && fatal_count(final(diags)@) == fatal_count(old(diags)@),
        r.0 is Err ==> fatal_count(final(diags)@) > fatal_count(old(diags)@),
        matches_opt_stmt(s_for_init(token_views(ts@), pos as int), r, old(diags)@, final(diags)@),
    decreases ts@.len() - pos, 19nat,
{
    if check(ts, pos, TokenType::Semicolon) {
        proof {
            lemma_diags_same(diags@);
        }
        return (Ok(None), pos + 1);
    }
    let (res, q) = if check(ts, pos, TokenType::Var) {
        var_declaration(ts, pos + 1, diags)
    } else {
        expression_statement(ts, pos, diags)
    };
    match res {
        Ok(s) => (Ok(Some(s)), q),
        Err(e) => (Err(e), q),
    }
}

fn for_clause(
    ts: &Vec<Token>,
    pos: usize,
    stop: TokenType,
    m: ParseErrorMessage,
    diags: &mut Vec<ParseError>,
) -> (r: (Result<Option<Expr>, ParseError>, usize))
    requires
        tokens_wf(ts@),
        pos < ts@.len(),
        is_fatal(ParseError { token: ts@[0], message: m }),
    ensures
        pos <= r.1 < ts@.len(),
        r.0 is Ok ==> pos < r.1 && fatal_count(final(diags)@) == fatal_count(old(diags)@),
        r.0 is Err ==> fatal_count(final(diags)@) > fatal_count(old(diags)@),
        matches_opt_expr(s_for_clause(token_views(ts@), pos as int, stop, m), r, old(diags)@, final(diags)@),
    decreases ts@.len() - pos, 16nat,
{
    let ghost tv = token_views(ts@);
    if !check(ts, pos, stop) {
        let (e_r, at1) = expression(ts, pos, diags);
        let x = match e_r {
            Ok(x) => x,
            Err(e) => {
                return (Err(e), at1);
            },
        };
        let ghost d1 = diags@;
        let (c_r, at2) = consume(ts, at1, stop, m, diags);
        proof {
            lemma_diags_join(
                old(diags)@,
                d1,
                diags@,
                s_expression(tv, pos as int).diags,
                s_consume(tv, at1 as int, stop, m).diags,
            );
        }
        match c_r {
            Ok(_) => (Ok(Some(x)), at2),
            Err(e) => (Err(e), at2),
        }
    } else {
        let (c_r, at2) = consume(ts, pos, stop, m, diags);
        match c_r {
            Ok(_) => (Ok(None), at2),
            Err(e) => (Err(e), at2),
        }
    }
}

/// The loop that a `for` statement stands for, built.
fn build_for(
    initializer: Option<Stmt>,
    condition: Option<Expr>,
    increment: Option<Expr>,
    body: Stmt,
) -> (r: Stmt)
    ensures
        stmt_view(r) == desugar_for(opt_stmt_view(initializer), opt_expr_view(condition), opt_expr_view(increment), stmt_view(body)),
{
    let ghost bv = stmt_view(body);
    let ghost nv = opt_expr_view(increment);
    let looped = match increment {
        Some(incr) => {
            let ghost iv = expr_view(incr);
            let pair = vec![body, Stmt::ExpressionStmt(ExpressionStmt { expression: incr })];
            proof {
                assert(stmts_view(pair@) =~= seq![bv, StmtView::Expression(iv)]);
            }
            Stmt::BlockStmt(BlockStmt { statements: pair })
        },
        None => body,
    };
    let ghost lv = stmt_view(looped);
    assert(lv == match nv {
        Some(i) => StmtView::Block(seq![bv, StmtView::Expression(i)]),
        None => bv,
    });
    let ghost cv = opt_expr_view(condition);
    let condition = match condition {
        Some(c) => c,
        None => Expr::LiteralExpr(LiteralExpr { value: LiteralValue::Bool(true) }),
    };
    let ghost wv = StmtView::While(expr_view(condition), Box::new(lv));
    assert(expr_view(condition) == match cv {
        Some(c) => c,
        None => ExprView::Literal(ValueView::Bool(true)),
    });
    let looped = Stmt::WhileStmt(Box::new(WhileStmt { condition, body: looped }));
    assert(stmt_view(looped) == wv);
    let ghost sv = opt_stmt_view(initializer);
    match initializer {
        Some(init) => {
            let ghost inv = stmt_view(init);
            let pair = vec![init, looped];
            proof {
                assert(stmts_view(pair@) =~= seq![inv, wv]);
            }
            Stmt::BlockStmt(BlockStmt { statements: pair })
        },
        None => looped,
    }
}

/// `for (init; cond; incr) body`, desugared: the body and the increment in a block, that in a
/// loop on the condition (`true` if absent), that in a block after the initializer.
#[verifier::rlimit(60)]
fn for_statement(
    ts: &Vec<Token>,
    pos: usize,
    diags: &mut Vec<ParseError>,
) -> (r: (Result<Stmt, ParseError>, usize))
    requires
        tokens_wf(ts@),
        pos < ts@.len(),
    ensures
        pos <= r.1 < ts@.len(),
        r.0 is Ok ==> pos < r.1 && fatal_count(final(diags)@) == fatal_count(old(diags)@),
        r.0 is Err ==> fatal_count(final(diags)@) > fatal_count(old(diags)@),
        matches_stmt(s_for(token_views(ts@), pos as int), r, old(diags)@, final(diags)@),
    decreases ts@.len() - pos, 16nat,
{
    let ghost tv = token_views(ts@);
    let (open_r, at1) = consume(
        ts,
        pos,
        TokenType::LeftParen,
        ParseErrorMessage::ExpectLeftParen(ExpectAfter::For),
        diags,
    );
    match open_r {
        Ok(_) => {},
        Err(e) => {
            return (Err(e), at1);
        },
    }
    let ghost d1 = diags@;
    let (init_r, at2) = for_init(ts, at1, diags);
    let ghost di = s_for_init(tv, at1 as int).diags;
    proof {
        assert(diag_views(d1) =~= diag_views(old(diags)@));
    }
    let initializer = match init_r {
        Ok(i) => i,
        Err(e) => {
            return (Err(e), at2);
        },
    };
    let ghost d2 = diags@;
    let (cond_r, at3) = for_clause(
        ts,
        at2,
        TokenType::Semicolon,
        ParseErrorMessage::ExpectSemicolon(ExpectAfter::LoopCondition),
        diags,
    );
    let ghost dc = s_for_clause(tv, at2 as int, TokenType::Semicolon, ParseErrorMessage::ExpectSemicolon(ExpectAfter::LoopCondition)).diags;
    proof {
        lemma_diags_join(old(diags)@, d2, diags@, di, dc);
    }
    let condition = match cond_r {
        Ok(c) => c,
        Err(e) => {
            return (Err(e), at3);
        },
    };
    let ghost d3 = diags@;
    let (incr_r, at4) = for_clause(
        ts,
        at3,
        TokenType::RightParen,
        ParseErrorMessage::ExpectRightParen(ExpectAfter::ForClauses),
        diags,
    );
    let ghost dn = s_for_clause(tv, at3 as int, TokenType::RightParen, ParseErrorMessage::ExpectRightParen(ExpectAfter::ForClauses)).diags;
    proof {
        lemma_diags_join(old(diags)@, d3, diags@, di + dc, dn);
    }
    let increment = match incr_r {
        Ok(n) => n,
        Err(e) => {
            return (Err(e), at4);
        },
    };
    let ghost d4 = diags@;
    let (body_r, at5) = statement(ts, at4, diags);
    proof {
        lemma_diags_join(old(diags)@, d4, diags@, di + dc + dn, s_statement(tv, at4 as int).diags);
    }
    let body = match body_r {
        Ok(b) => b,
        Err(e) => {
            return (Err(e), at5);
        },
    };
    let result = build_for(initializer, condition, increment, body);
    (Ok(result), at5)
}

fn block(
    ts: &Vec<Token>,
    pos: usize,
    diags: &mut Vec<ParseError>,
) -> (r: (Result<Vec<Stmt>, ParseError>, usize))
    requires
        tokens_wf(ts@),
        pos < ts@.len(),
    ensures
        pos <= r.1 < ts@.len(),
        r.0 is Ok ==> pos < r.1 && fatal_count(final(diags)@) == fatal_count(old(diags)@),
        r.0 is Err ==> fatal_count(final(diags)@) > fatal_count(old(diags)@),
        matches_block(s_block(token_views(ts@), pos as int), r, old(diags)@, final(diags)@),
    decreases ts@.len() - pos, 21nat,
{
    let ghost tv = token_views(ts@);
    let mut statements: Vec<Stmt> = Vec::new();
    let mut p = pos;
    let ghost mut dacc = Seq::<ParseErrorView>::empty();
    proof {
        lemma_diags_same(diags@);
        assert(stmts_view(statements@) =~= Seq::<StmtView>::empty());
    }
    while !check(ts, p, TokenType::RightBrace) && !at_end(ts, p)
        invariant
            tokens_wf(ts@),
            tv == token_views(ts@),
            pos <= p < ts@.len(),
            fatal_count(diags@) == fatal_count(old(diags)@),
            diag_views(diags@) == diag_views(old(diags)@) + dacc,
            s_block(tv, pos as int) == s_block_from(tv, p as int, stmts_view(statements@), dacc),
        decreases ts@.len() - p,
    {
        let ghost before = diags@;
        let (res, q) = declaration(ts, p, diags);
        proof {
            lemma_diags_join(old(diags)@, before, diags@, dacc, s_declaration(tv, p as int).diags);
        }
        match res {
            Ok(s) => {
                let ghost sv = stmts_view(statements@);
                statements.push(s);
                proof {
                    assert(stmts_view(statements@) =~= sv.push(stmt_view(s)));
                    dacc = dacc + s_declaration(tv, p as int).diags;
                }
                p = q;
            },
            Err(e) => {
                return (Err(e), q);
            },
        }
    }
    let ghost before = diags@;
    let (close_r, at2) = consume(
        ts,
        p,
        TokenType::RightBrace,
        ParseErrorMessage::ExpectBraceAfterBlock,
        diags,
    );
    proof {
        lemma_diags_join(
            old(diags)@,
            before,
            diags@,
            dacc,
            s_consume(tv, p as int, TokenType::RightBrace, ParseErrorMessage::ExpectBraceAfterBlock).diags,
        );
    }
    match close_r {
        Ok(_) => (Ok(statements), at2),
        Err(e) => (Err(e), at2),
    }
}

/// Builds the statements of a program from its tokens.
pub struct Parser {
    pub tokens: Vec<Token>,
}

impl Parser {
    pub fn new(tokens: Vec<Token>) -> (r: Parser)
        ensures
            r.tokens@ == tokens@,
    {
        Parser { tokens }
    }

    /// Parses every declaration up to the end of input, recovering after each syntax error.
    /// Returns the statements when no error stopped a declaration, and every diagnostic in the
    /// order found; an invalid assignment target is recorded without stopping anything.
    pub fn parse(&self) -> (r: (Option<Vec<Stmt>>, Vec<ParseError>))
        requires
            tokens_wf(self.tokens@),
        ensures
            r.0 is None <==> fatal_count(r.1@) > 0,
            (match r.0 {
                Some(v) => Some(stmts_view(v@)),
                None => None,
            }, diag_views(r.1@)) == parse_tokens(token_views(self.tokens@)),
    {
        let ts = &self.tokens;
        let ghost tv = token_views(ts@);
        let mut diags: Vec<ParseError> = Vec::new();
        let mut statements: Vec<Stmt> = Vec::new();
        let mut failed = false;
        let mut p: usize = 0;
        proof {
            assert(diag_views(diags@) =~= Seq::<ParseErrorView>::empty());
            assert(stmts_view(statements@) =~= Seq::<StmtView>::empty());
        }
        while !at_end(ts, p)
            invariant
                tokens_wf(ts@),
                tv == token_views(ts@),
                p < ts@.len(),
                failed <==> fatal_count(diags@) > 0,
                parse_tokens(tv) == s_program_from(tv, p as int, stmts_view(statements@), diag_views(diags@), failed),
            decreases ts@.len() - p,
        {
            proof {
                assert(tv[p as int] == ts@[p as int]@);
            }
            let ghost before = diags@;
            let (res, q) = declaration(ts, p, &mut diags);
            match res {
                Ok(s) => {
                    let ghost sv = stmts_view(statements@);
                    statements.push(s);
                    proof {
                        assert(stmts_view(statements@) =~= sv.push(stmt_view(s)));
                    }
                },
                Err(_) => {
                    failed = true;
                },
            }
            p = q;
        }
        proof {
            assert(tv[p as int] == ts@[p as int]@);
        }
        if failed {
            (None, diags)
        } else {
            (Some(statements), diags)
        }
    }
}

// The grammar, as functions on token views: each gives the result at position `p`, the position
// after it, and the diagnostics recorded on the way, in order.

pub struct Parsed<T> {
    pub result: Result<T, ParseErrorView>,
    pub pos: int,
    pub diags: Seq<ParseErrorView>,
}

pub open spec fn ok_at<T>(v: T, pos: int, diags: Seq<ParseErrorView>) -> Parsed<T> {
    Parsed { result: Ok(v), pos, diags }
}

pub open spec fn fail_at<T>(e: ParseErrorView, pos: int, diags: Seq<ParseErrorView>) -> Parsed<T> {
    Parsed { result: Err(e), pos, diags }
}

pub open spec fn s_valid(ts: Seq<TokenView>, p: int) -> bool {
    0 <= p < ts.len()
}

pub open spec fn s_at_end(ts: Seq<TokenView>, p: int) -> bool {
    ts[p].token_type == TokenType::Eof
}

pub open spec fn s_check(ts: Seq<TokenView>, p: int, t: TokenType) -> bool {
    !s_at_end(ts, p) && ts[p].token_type == t
}

pub open spec fn s_error(ts: Seq<TokenView>, p: int, m: ParseErrorMessage) -> ParseErrorView {
    ParseErrorView { token: ts[p], message: m }
}

/// Takes a token of type `t`, or records `m` at `p`.
pub open spec fn s_consume(
    ts: Seq<TokenView>,
    p: int,
    t: TokenType,
    m: ParseErrorMessage,
) -> Parsed<TokenView> {
    if s_check(ts, p, t) {
        ok_at(ts[p], p + 1, Seq::empty())
    } else {
        fail_at(s_error(ts, p, m), p, seq![s_error(ts, p, m)])
    }
}

pub open spec fn s_advance(ts: Seq<TokenView>, p: int) -> int {
    if s_at_end(ts, p) { p } else { p + 1 }
}

pub open spec fn is_statement_start(t: TokenType) -> bool {
    t == TokenType::Class || t == TokenType::Fun || t == TokenType::Var || t == TokenType::For
        || t == TokenType::If || t == TokenType::While || t == TokenType::Print || t == TokenType::Return
}

/// Skipping from `q` to just after a semicolon, just before a statement keyword, or the end.
pub open spec fn s_skip(ts: Seq<TokenView>, q: int) -> int
    decreases ts.len() - q,
{
    if !s_valid(ts, q) || s_at_end(ts, q) || q + 1 >= ts.len() {
        q
    } else if q > 0 && ts[q - 1].token_type == TokenType::Semicolon {
        q
    } else if is_statement_start(ts[q].token_type) {
        q
    } else {
        s_skip(ts, q + 1)
    }
}

pub open spec fn s_synchronize(ts: Seq<TokenView>, p: int) -> int {
    s_skip(ts, s_advance(ts, p))
}

/// The operators of binary tier `level`: 1 factor, 2 term, 3 comparison, 4 equality, 5 and,
/// 6 or (level 0 is the unary level below them all).
pub open spec fn tier_ops(level: nat, t: TokenType) -> bool {
    if level == 1 {
        t == TokenType::Slash || t == TokenType::Star
    } else if level == 2 {
        t == TokenType::Minus || t == TokenType::Plus
    } else if level == 3 {
        t == TokenType::Greater || t == TokenType::GreaterEqual || t == TokenType::Less
            || t == TokenType::LessEqual
    } else if level == 4 {
        t == TokenType::BangEqual || t == TokenType::EqualEqual
    } else if level == 5 {
        t == TokenType::And
    } else {
        t == TokenType::Or
    }
}

pub open spec fn tier_node(level: nat, left: ExprView, op: TokenView, right: ExprView) -> ExprView {
    if level >= 5 {
        ExprView::Logical(Box::new(left), op, Box::new(right))
    } else {
        ExprView::Binary(Box::new(left), op, Box::new(right))
    }
}

/// A binary tier (1 to 6): operands of the next tighter tier, folded to the left.
pub open spec fn s_tier(ts: Seq<TokenView>, p: int, level: nat) -> Parsed<ExprView>
    decreases ts.len() - p, 3 * level + 1,
{
    if !s_valid(ts, p) || level == 0 || level > 6 {
        fail_at(s_error(ts, 0, ParseErrorMessage::ExpectExpression), p, Seq::empty())
    } else {
        let first = s_operand(ts, p, (level - 1) as nat);
        match first.result {
            Err(e) => first,
            Ok(left) => if first.pos < p || !s_valid(ts, first.pos) {
                first
            } else {
                s_fold(ts, first.pos, level, left, first.diags)
            },
        }
    }
}

/// Continuing a tier at `q` with `left` parsed so far and `diags` recorded so far.
pub open spec fn s_fold(
    ts: Seq<TokenView>,
    q: int,
    level: nat,
    left: ExprView,
    diags: Seq<ParseErrorView>,
) -> Parsed<ExprView>
    decreases ts.len() - q, 3 * level,
{
    if !s_valid(ts, q) || level == 0 || level > 6 {
        ok_at(left, q, diags)
    } else if !s_at_end(ts, q) && tier_ops(level, ts[q].token_type) && q + 1 < ts.len() {
        let right = s_operand(ts, q + 1, (level - 1) as nat);
        match right.result {
            Err(e) => fail_at(e, right.pos, diags + right.diags),
            Ok(r) => if right.pos <= q || !s_valid(ts, right.pos) {
                ok_at(left, q, diags)
            } else {
                s_fold(ts, right.pos, level, tier_node(level, left, ts[q], r), diags + right.diags)
            },
        }
    } else {
        ok_at(left, q, diags)
    }
}

/// An operand of a tier: a unary expression at level 0, else the tier below.
pub open spec fn s_operand(ts: Seq<TokenView>, p: int, level: nat) -> Parsed<ExprView>
    decreases ts.len() - p, 3 * level + 2,
{
    if level == 0 {
        s_unary(ts, p)
    } else {
        s_tier(ts, p, level)
    }
}

pub open spec fn s_unary(ts: Seq<TokenView>, p: int) -> Parsed<ExprView>
    decreases ts.len() - p, 1nat,
{
    if !s_valid(ts, p) {
        fail_at(s_error(ts, 0, ParseErrorMessage::ExpectExpression), p, Seq::empty())
    } else if (s_check(ts, p, TokenType::Bang) || s_check(ts, p, TokenType::Minus)) && p + 1 < ts.len() {
        let right = s_unary(ts, p + 1);
        match right.result {
            Ok(r) => ok_at(ExprView::Unary(ts[p], Box::new(r)), right.pos, right.diags),
            Err(e) => right,
        }
    } else {
        s_primary(ts, p)
    }
}

pub open spec fn literal_of(t: TokenView) -> ValueView {
    match t.literal {
        LiteralView::Number(n) => ValueView::Number(n),
        LiteralView::String(s) => ValueView::String(s),
        LiteralView::Nothing => ValueView::Nil,
    }
}

pub open spec fn s_primary(ts: Seq<TokenView>, p: int) -> Parsed<ExprView>
    decreases ts.len() - p, 0nat,
{
    if !s_valid(ts, p) || p + 1 >= ts.len() {
        fail_at(s_error(ts, p, ParseErrorMessage::ExpectExpression), p, seq![s_error(ts, p, ParseErrorMessage::ExpectExpression)])
    } else if s_check(ts, p, TokenType::False) {
        ok_at(ExprView::Literal(ValueView::Bool(false)), p + 1, Seq::empty())
    } else if s_check(ts, p, TokenType::True) {
        ok_at(ExprView::Literal(ValueView::Bool(true)), p + 1, Seq::empty())
    } else if s_check(ts, p, TokenType::Nil) {
        ok_at(ExprView::Literal(ValueView::Nil), p + 1, Seq::empty())
    } else if s_check(ts, p, TokenType::Number) || s_check(ts, p, TokenType::String) {
        ok_at(ExprView::Literal(literal_of(ts[p])), p + 1, Seq::empty())
    } else if s_check(ts, p, TokenType::Identifier) {
        ok_at(ExprView::Variable(ts[p]), p + 1, Seq::empty())
    } else if s_check(ts, p, TokenType::LeftParen) {
        let inner = s_expression(ts, p + 1);
        match inner.result {
            Err(e) => inner,
            Ok(x) => if !s_valid(ts, inner.pos) {
                inner
            } else {
                let close = s_consume(ts, inner.pos, TokenType::RightParen, ParseErrorMessage::ExpectRightParen(ExpectAfter::Expression));
                match close.result {
                    Ok(_) => ok_at(ExprView::Grouping(Box::new(x)), close.pos, inner.diags + close.diags),
                    Err(e) => fail_at(e, close.pos, inner.diags + close.diags),
                }
            },
        }
    } else {
        fail_at(s_error(ts, p, ParseErrorMessage::ExpectExpression), p, seq![s_error(ts, p, ParseErrorMessage::ExpectExpression)])
    }
}

/// Assignment: right-associative, with a variable on its left; another target is recorded and
/// the left-hand expression stands.
pub open spec fn s_assignment(ts: Seq<TokenView>, p: int) -> Parsed<ExprView>
    decreases ts.len() - p, 25nat,
{
    let lhs = s_tier(ts, p, 6);
    match lhs.result {
        Err(e) => lhs,
        Ok(target) => if !s_valid(ts, lhs.pos) || lhs.pos < p {
            lhs
        } else if s_check(ts, lhs.pos, TokenType::Equal) && lhs.pos + 1 < ts.len() {
            let value = s_assignment(ts, lhs.pos + 1);
            match value.result {
                Err(e) => fail_at(e, value.pos, lhs.diags + value.diags),
                Ok(v) => match target {
                    ExprView::Variable(name) => ok_at(ExprView::Assign(name, Box::new(v)), value.pos, lhs.diags + value.diags),
                    _ => ok_at(target, value.pos, lhs.diags + value.diags
                        + seq![s_error(ts, lhs.pos, ParseErrorMessage::InvalidAssignmentTarget)]),
                },
            }
        } else {
            lhs
        },
    }
}

pub open spec fn s_expression(ts: Seq<TokenView>, p: int) -> Parsed<ExprView>
    decreases ts.len() - p, 26nat,
{
    s_assignment(ts, p)
}

pub open spec fn as_stmt(r: Parsed<ExprView>) -> Parsed<StmtView> {
    match r.result {
        Ok(_) => fail_at(s_error(Seq::empty(), 0, ParseErrorMessage::ExpectExpression), r.pos, r.diags),
        Err(e) => fail_at(e, r.pos, r.diags),
    }
}

/// A declaration or statement; after a syntax error, the position is past the skipped tokens.
pub open spec fn s_declaration(ts: Seq<TokenView>, p: int) -> Parsed<StmtView>
    decreases ts.len() - p, 40nat,
{
    if !s_valid(ts, p) {
        fail_at(s_error(ts, 0, ParseErrorMessage::ExpectExpression), p, Seq::empty())
    } else {
        let res = if s_check(ts, p, TokenType::Var) && p + 1 < ts.len() {
            s_var_declaration(ts, p + 1)
        } else {
            s_statement(ts, p)
        };
        match res.result {
            Ok(_) => res,
            Err(e) => if !s_valid(ts, res.pos) {
                res
            } else {
                fail_at(e, s_synchronize(ts, res.pos), res.diags)
            },
        }
    }
}

pub open spec fn s_var_declaration(ts: Seq<TokenView>, p: int) -> Parsed<StmtView>
    decreases ts.len() - p, 38nat,
{
    let name = s_consume(ts, p, TokenType::Identifier, ParseErrorMessage::ExpectVariableName);
    match name.result {
        Err(e) => fail_at(e, name.pos, name.diags),
        Ok(n) => {
            let q = name.pos;
            if !s_valid(ts, q) || q <= p {
                fail_at(s_error(ts, 0, ParseErrorMessage::ExpectVariableName), q, Seq::empty())
            } else if s_check(ts, q, TokenType::Equal) && q + 1 < ts.len() {
                let init = s_expression(ts, q + 1);
                match init.result {
                    Err(e) => fail_at(e, init.pos, name.diags + init.diags),
                    Ok(x) => if !s_valid(ts, init.pos) {
                        fail_at(s_error(ts, 0, ParseErrorMessage::ExpectVariableName), init.pos, Seq::empty())
                    } else {
                        let semi = s_consume(ts, init.pos, TokenType::Semicolon, ParseErrorMessage::ExpectSemicolon(ExpectAfter::Declaration));
                        match semi.result {
                            Ok(_) => ok_at(StmtView::Var(n, Some(x)), semi.pos, name.diags + init.diags + semi.diags),
                            Err(e) => fail_at(e, semi.pos, name.diags + init.diags + semi.diags),
                        }
                    },
                }
            } else {
                let semi = s_consume(ts, q, TokenType::Semicolon, ParseErrorMessage::ExpectSemicolon(ExpectAfter::Declaration));
                match semi.result {
                    Ok(_) => ok_at(StmtView::Var(n, None), semi.pos, name.diags + semi.diags),
                    Err(e) => fail_at(e, semi.pos, name.diags + semi.diags),
                }
            }
        },
    }
}

pub open spec fn s_statement(ts: Seq<TokenView>, p: int) -> Parsed<StmtView>
    decreases ts.len() - p, 39nat,
{
    if !s_valid(ts, p) || p + 1 >= ts.len() {
        s_expression_statement(ts, p)
    } else if s_check(ts, p, TokenType::For) {
        s_for(ts, p + 1)
    } else if s_check(ts, p, TokenType::If) {
        s_if(ts, p + 1)
    } else if s_check(ts, p, TokenType::Print) {
        s_print(ts, p + 1)
    } else if s_check(ts, p, TokenType::While) {
        s_while(ts, p + 1)
    } else if s_check(ts, p, TokenType::LeftBrace) {
        let b = s_block(ts, p + 1);
        match b.result {
            Ok(ss) => ok_at(StmtView::Block(ss), b.pos, b.diags),
            Err(e) => fail_at(e, b.pos, b.diags),
        }
    } else {
        s_expression_statement(ts, p)
    }
}

/// An expression followed by `;`: a print statement when `print`, else an expression statement.
pub open spec fn s_terminated(
    ts: Seq<TokenView>,
    p: int,
    after: ExpectAfter,
    print: bool,
) -> Parsed<StmtView>
    decreases ts.len() - p, 30nat,
{
    let e = s_expression(ts, p);
    match e.result {
        Err(err) => fail_at(err, e.pos, e.diags),
        Ok(x) => if !s_valid(ts, e.pos) {
            as_stmt(e)
        } else {
            let semi = s_consume(ts, e.pos, TokenType::Semicolon, ParseErrorMessage::ExpectSemicolon(after));
            match semi.result {
                Ok(_) => ok_at(
                    if print { StmtView::Print(x) } else { StmtView::Expression(x) },
                    semi.pos,
                    e.diags + semi.diags,
                ),
                Err(err) => fail_at(err, semi.pos, e.diags + semi.diags),
            }
        },
    }
}

pub open spec fn s_expression_statement(ts: Seq<TokenView>, p: int) -> Parsed<StmtView>
    decreases ts.len() - p, 31nat,
{
    s_terminated(ts, p, ExpectAfter::Expression, false)
}

pub open spec fn s_print(ts: Seq<TokenView>, p: int) -> Parsed<StmtView>
    decreases ts.len() - p, 31nat,
{
    s_terminated(ts, p, ExpectAfter::Value, true)
}

/// `( condition )` after `while` or `if`, then a statement.
pub open spec fn s_guarded(
    ts: Seq<TokenView>,
    p: int,
    after: ExpectAfter,
) -> (Parsed<ExprView>, Parsed<StmtView>)
    decreases ts.len() - p, 30nat,
{
    let open = s_consume(ts, p, TokenType::LeftParen, ParseErrorMessage::ExpectLeftParen(after));
    match open.result {
        Err(e) => (fail_at(e, open.pos, open.diags), fail_at(e, open.pos, open.diags)),
        Ok(_) => if !s_valid(ts, open.pos) || open.pos <= p {
            (fail_at(s_error(ts, 0, ParseErrorMessage::ExpectExpression), p, Seq::empty()), fail_at(s_error(ts, 0, ParseErrorMessage::ExpectExpression), p, Seq::empty()))
        } else {
            let cond = s_expression(ts, open.pos);
            match cond.result {
                Err(e) => (cond, fail_at(e, cond.pos, cond.diags)),
                Ok(c) => if !s_valid(ts, cond.pos) || cond.pos <= p {
                    (cond, as_stmt(cond))
                } else {
                    let close = s_consume(ts, cond.pos, TokenType::RightParen, ParseErrorMessage::ExpectRightParen(ExpectAfter::Condition));
                    match close.result {
                        Err(e) => (cond, fail_at(e, close.pos, cond.diags + close.diags)),
                        Ok(_) => if !s_valid(ts, close.pos) || close.pos <= p {
                            (cond, as_stmt(cond))
                        } else {
                            let body = s_statement(ts, close.pos);
                            (cond, Parsed { result: body.result, pos: body.pos, diags: cond.diags + close.diags + body.diags })
                        },
                    }
                },
            }
        },
    }
}

pub open spec fn s_while(ts: Seq<TokenView>, p: int) -> Parsed<StmtView>
    decreases ts.len() - p, 31nat,
{
    let (cond, body) = s_guarded(ts, p, ExpectAfter::While);
    match (cond.result, body.result) {
        (Ok(c), Ok(b)) => ok_at(StmtView::While(c, Box::new(b)), body.pos, body.diags),
        _ => body,
    }
}

pub open spec fn s_if(ts: Seq<TokenView>, p: int) -> Parsed<StmtView>
    decreases ts.len() - p, 31nat,
{
    let (cond, then_b) = s_guarded(ts, p, ExpectAfter::If);
    match (cond.result, then_b.result) {
        (Ok(c), Ok(t)) => if !s_valid(ts, then_b.pos) || then_b.pos <= p {
            then_b
        } else if s_check(ts, then_b.pos, TokenType::Else) && then_b.pos + 1 < ts.len() {
            let other = s_statement(ts, then_b.pos + 1);
            match other.result {
                Ok(o) => ok_at(StmtView::If(c, Box::new(t), Some(Box::new(o))), other.pos, then_b.diags + other.diags),
                Err(e) => fail_at(e, other.pos, then_b.diags + other.diags),
            }
        } else {
            ok_at(StmtView::If(c, Box::new(t), None), then_b.pos, then_b.diags)
        },
        _ => then_b,
    }
}

/// The loop that a `for` statement stands for.
pub open spec fn desugar_for(
    init: Option<StmtView>,
    cond: Option<ExprView>,
    incr: Option<ExprView>,
    body: StmtView,
) -> StmtView {
    let looped = match incr {
        Some(i) => StmtView::Block(seq![body, StmtView::Expression(i)]),
        None => body,
    };
    let c = match cond {
        Some(c) => c,
        None => ExprView::Literal(ValueView::Bool(true)),
    };
    let w = StmtView::While(c, Box::new(looped));
    match init {
        Some(s) => StmtView::Block(seq![s, w]),
        None => w,
    }
}

/// The clauses of a `for` statement from the initializer on; `q` is just after `(`.
pub open spec fn s_for_init(ts: Seq<TokenView>, q: int) -> Parsed<Option<StmtView>>
    decreases ts.len() - q, 32nat,
{
    if !s_valid(ts, q) {
        fail_at(s_error(ts, 0, ParseErrorMessage::ExpectExpression), q, Seq::empty())
    } else if s_check(ts, q, TokenType::Semicolon) {
        ok_at(None, q + 1, Seq::empty())
    } else {
        let init = if s_check(ts, q, TokenType::Var) {
            s_var_declaration(ts, q + 1)
        } else {
            s_expression_statement(ts, q)
        };
        match init.result {
            Ok(s) => ok_at(Some(s), init.pos, init.diags),
            Err(e) => fail_at(e, init.pos, init.diags),
        }
    }
}

/// An optional expression before `stop`, then `stop` itself.
pub open spec fn s_for_clause(
    ts: Seq<TokenView>,
    q: int,
    stop: TokenType,
    m: ParseErrorMessage,
) -> Parsed<Option<ExprView>>
    decreases ts.len() - q, 32nat,
{
    if !s_valid(ts, q) {
        fail_at(s_error(ts, 0, ParseErrorMessage::ExpectExpression), q, Seq::empty())
    } else if !s_check(ts, q, stop) {
        let e = s_expression(ts, q);
        match e.result {
            Err(err) => fail_at(err, e.pos, e.diags),
            Ok(x) => if !s_valid(ts, e.pos) {
                fail_at(s_error(ts, 0, ParseErrorMessage::ExpectExpression), e.pos, Seq::empty())
            } else {
                let c = s_consume(ts, e.pos, stop, m);
                match c.result {
                    Ok(_) => ok_at(Some(x), c.pos, e.diags + c.diags),
                    Err(err) => fail_at(err, c.pos, e.diags + c.diags),
                }
            },
        }
    } else {
        let c = s_consume(ts, q, stop, m);
        match c.result {
            Ok(_) => ok_at(None, c.pos, c.diags),
            Err(err) => fail_at(err, c.pos, c.diags),
        }
    }
}

pub open spec fn s_for(ts: Seq<TokenView>, p: int) -> Parsed<StmtView>
    decreases ts.len() - p, 33nat,
{
    let open = s_consume(ts, p, TokenType::LeftParen, ParseErrorMessage::ExpectLeftParen(ExpectAfter::For));
    match open.result {
        Err(e) => fail_at(e, open.pos, open.diags),
        Ok(_) => if !s_valid(ts, open.pos) || open.pos <= p {
            fail_at(s_error(ts, 0, ParseErrorMessage::ExpectExpression), p, Seq::empty())
        } else {
            let init = s_for_init(ts, open.pos);
            match init.result {
                Err(e) => fail_at(e, init.pos, init.diags),
                Ok(i) => if !s_valid(ts, init.pos) || init.pos <= p {
                    fail_at(s_error(ts, 0, ParseErrorMessage::ExpectExpression), p, Seq::empty())
                } else {
                    let cond = s_for_clause(ts, init.pos, TokenType::Semicolon, ParseErrorMessage::ExpectSemicolon(ExpectAfter::LoopCondition));
                    match cond.result {
                        Err(e) => fail_at(e, cond.pos, init.diags + cond.diags),
                        Ok(c) => if !s_valid(ts, cond.pos) || cond.pos <= p {
                            fail_at(s_error(ts, 0, ParseErrorMessage::ExpectExpression), p, Seq::empty())
                        } else {
                            let incr = s_for_clause(ts, cond.pos, TokenType::RightParen, ParseErrorMessage::ExpectRightParen(ExpectAfter::ForClauses));
                            match incr.result {
                                Err(e) => fail_at(e, incr.pos, init.diags + cond.diags + incr.diags),
                                Ok(n) => if !s_valid(ts, incr.pos) || incr.pos <= p {
                                    fail_at(s_error(ts, 0, ParseErrorMessage::ExpectExpression), p, Seq::empty())
                                } else {
                                    let body = s_statement(ts, incr.pos);
                                    let d = init.diags + cond.diags + incr.diags + body.diags;
                                    match body.result {
                                        Ok(b) => ok_at(desugar_for(i, c, n, b), body.pos, d),
                                        Err(e) => fail_at(e, body.pos, d),
                                    }
                                },
                            }
                        },
                    }
                },
            }
        },
    }
}

/// The declarations of a block from `q` on, `acc` parsed and `d` recorded so far, then `}`.
pub open spec fn s_block_from(
    ts: Seq<TokenView>,
    q: int,
    acc: Seq<StmtView>,
    d: Seq<ParseErrorView>,
) -> Parsed<Seq<StmtView>>
    decreases ts.len() - q, 41nat,
{
    if !s_valid(ts, q) {
        fail_at(s_error(ts, 0, ParseErrorMessage::ExpectBraceAfterBlock), q, d)
    } else if !s_check(ts, q, TokenType::RightBrace) && !s_at_end(ts, q) {
        let dcl = s_declaration(ts, q);
        match dcl.result {
            Ok(st) => if dcl.pos <= q || !s_valid(ts, dcl.pos) {
                fail_at(s_error(ts, 0, ParseErrorMessage::ExpectBraceAfterBlock), q, d)
            } else {
                s_block_from(ts, dcl.pos, acc.push(st), d + dcl.diags)
            },
            Err(e) => fail_at(e, dcl.pos, d + dcl.diags),
        }
    } else {
        let close = s_consume(ts, q, TokenType::RightBrace, ParseErrorMessage::ExpectBraceAfterBlock);
        match close.result {
            Ok(_) => ok_at(acc, close.pos, d + close.diags),
            Err(e) => fail_at(e, close.pos, d + close.diags),
        }
    }
}

pub open spec fn s_block(ts: Seq<TokenView>, p: int) -> Parsed<Seq<StmtView>>
    decreases ts.len() - p, 42nat,
{
    s_block_from(ts, p, Seq::empty(), Seq::empty())
}

/// The declarations of a program from `q` on: the statements, when no declaration failed, and
/// every diagnostic.
pub open spec fn s_program_from(
    ts: Seq<TokenView>,
    q: int,
    acc: Seq<StmtView>,
    d: Seq<ParseErrorView>,
    failed: bool,
) -> (Option<Seq<StmtView>>, Seq<ParseErrorView>)
    decreases ts.len() - q,
{
    if !s_valid(ts, q) || s_at_end(ts, q) {
        (if failed { None } else { Some(acc) }, d)
    } else {
        let dcl = s_declaration(ts, q);
        if dcl.pos <= q || !s_valid(ts, dcl.pos) {
            (None, d)
        } else {
            match dcl.result {
                Ok(st) => s_program_from(ts, dcl.pos, acc.push(st), d + dcl.diags, failed),
                Err(_) => s_program_from(ts, dcl.pos, acc, d + dcl.diags, true),
            }
        }
    }
}

/// What parsing a token sequence gives: the program, when no declaration failed, and every
/// diagnostic in order.
pub open spec fn parse_tokens(ts: Seq<TokenView>) -> (Option<Seq<StmtView>>, Seq<ParseErrorView>) {
    s_program_from(ts, 0, Seq::empty(), Seq::empty(), false)
}

} // verus!
