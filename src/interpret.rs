use vstd::prelude::*;
use crate::ast::{expr_view, stmt_view, stmts_view, Expr, ExprView, LiteralValue, Stmt, StmtView, ValueView};
use crate::environment::{same_chars, Environment};
use crate::number::Number;
use crate::runtime_error::{Interrupt, RuntimeError, RuntimeErrorMessage};
use crate::environment::{env_assign, env_define, env_get, EnvView};
use crate::number::{num_add, num_div, num_eq, num_le, num_lt, num_mul, num_neg, num_sub, num_text};
use crate::runtime_error::{InterruptView, MessageView, RuntimeErrorView};
use crate::token::{Token, TokenType, TokenView};

verus! {

/// `nil` and `false` are falsy; every other value is truthy.
pub open spec fn truthy(v: ValueView) -> bool {
    match v {
        ValueView::Nil => false,
        ValueView::Bool(b) => b,
        _ => true,
    }
}

/// Equality of values: same variant and equal payloads; never an error.
pub open spec fn values_equal(a: ValueView, b: ValueView) -> bool {
    match (a, b) {
        (ValueView::String(x), ValueView::String(y)) => x == y,
        (ValueView::Number(x), ValueView::Number(y)) => num_eq(x, y),
        (ValueView::Bool(x), ValueView::Bool(y)) => x == y,
        (ValueView::Nil, ValueView::Nil) => true,
        _ => false,
    }
}

/// How a value is printed.
pub open spec fn value_text(v: ValueView) -> Seq<char> {
    match v {
        ValueView::String(t) => t,
        ValueView::Number(n) => num_text(n),
        ValueView::Bool(b) => if b { seq!['t', 'r', 'u', 'e'] } else { seq!['f', 'a', 'l', 's', 'e'] },
        ValueView::Nil => seq!['n', 'i', 'l'],
    }
}

/// A unary operator applied to a value: `-` negates a number; any other operator (the parser
/// makes only `!`) negates truthiness.
pub open spec fn unary_result(op: TokenType, v: ValueView) -> Result<ValueView, MessageView> {
    if op == TokenType::Minus {
        match v {
            ValueView::Number(n) => Ok(ValueView::Number(num_neg(n))),
            _ => Err(MessageView::OperandMustBeNumber),
        }
    } else {
        Ok(ValueView::Bool(!truthy(v)))
    }
}

pub open spec fn numeric(
    l: ValueView,
    r: ValueView,
    f: spec_fn(Number, Number) -> ValueView,
) -> Result<ValueView, MessageView> {
    match (l, r) {
        (ValueView::Number(x), ValueView::Number(y)) => Ok(f(x, y)),
        _ => Err(MessageView::OperandsMustBeNumbers),
    }
}

/// A binary operator applied to two values. The parser makes only the ten arithmetic,
/// comparison and equality operators; any other behaves as `!=`.
pub open spec fn binary_result(
    op: TokenType,
    l: ValueView,
    r: ValueView,
) -> Result<ValueView, MessageView> {
    match op {
        TokenType::Plus => match (l, r) {
            (ValueView::Number(x), ValueView::Number(y)) => Ok(ValueView::Number(num_add(x, y))),
            (ValueView::String(x), ValueView::String(y)) => Ok(ValueView::String(x + y)),
            _ => Err(MessageView::OperandsMustBeNumberOrString),
        },
        TokenType::Minus => numeric(l, r, |x, y| ValueView::Number(num_sub(x, y))),
        TokenType::Slash => numeric(l, r, |x, y| ValueView::Number(num_div(x, y))),
        TokenType::Star => numeric(l, r, |x, y| ValueView::Number(num_mul(x, y))),
        TokenType::Less => numeric(l, r, |x, y| ValueView::Bool(num_lt(x, y))),
        TokenType::LessEqual => numeric(l, r, |x, y| ValueView::Bool(num_le(x, y))),
        TokenType::Greater => numeric(l, r, |x, y| ValueView::Bool(num_lt(y, x))),
        TokenType::GreaterEqual => numeric(l, r, |x, y| ValueView::Bool(num_le(y, x))),
        TokenType::EqualEqual => Ok(ValueView::Bool(values_equal(l, r))),
        _ => Ok(ValueView::Bool(!values_equal(l, r))),
    }
}

pub open spec fn error_at(t: TokenView, m: MessageView) -> RuntimeErrorView {
    RuntimeErrorView { token: t, message: m }
}

pub open spec fn undefined(name: TokenView) -> RuntimeErrorView {
    error_at(name, MessageView::UndefinedVariable(name.lexeme))
}

/// Evaluating an expression in a scope chain: the chain afterwards (assignments change it) and
/// the value or the error.
pub open spec fn eval(e: ExprView, env: EnvView) -> (EnvView, Result<ValueView, RuntimeErrorView>)
    decreases e,
{
    match e {
        ExprView::Literal(v) => (env, Ok(v)),
        ExprView::Grouping(g) => eval(*g, env),
        ExprView::Variable(name) => match env_get(env, name.lexeme) {
            Some(x) => (env, Ok(x)),
            None => (env, Err(undefined(name))),
        },
        ExprView::Assign(name, value) => {
            let (env1, r) = eval(*value, env);
            match r {
                Ok(x) => match env_assign(env1, name.lexeme, x) {
                    Some(env2) => (env2, Ok(x)),
                    None => (env1, Err(undefined(name))),
                },
                Err(err) => (env1, Err(err)),
            }
        },
        ExprView::Unary(op, right) => {
            let (env1, r) = eval(*right, env);
            match r {
                Ok(x) => match unary_result(op.token_type, x) {
                    Ok(y) => (env1, Ok(y)),
                    Err(m) => (env1, Err(error_at(op, m))),
                },
                Err(err) => (env1, Err(err)),
            }
        },
        ExprView::Binary(left, op, right) => {
            let (env1, r1) = eval(*left, env);
            match r1 {
                Ok(x) => {
                    let (env2, r2) = eval(*right, env1);
                    match r2 {
                        Ok(y) => match binary_result(op.token_type, x, y) {
                            Ok(z) => (env2, Ok(z)),
                            Err(m) => (env2, Err(error_at(op, m))),
                        },
                        Err(err) => (env2, Err(err)),
                    }
                },
                Err(err) => (env1, Err(err)),
            }
        },
        ExprView::Logical(left, op, right) => {
            let (env1, r1) = eval(*left, env);
            match r1 {
                Ok(x) => if (op.token_type == TokenType::Or && truthy(x)) || (op.token_type
                    == TokenType::And && !truthy(x)) {
                    (env1, Ok(x))
                } else {
                    eval(*right, env1)
                },
                Err(err) => (env1, Err(err)),
            }
        },
    }
}

/// The state that statements act on: the scope chain and the lines printed so far.
pub struct Machine {
    pub env: EnvView,
    pub out: Seq<Seq<char>>,
}

/// Executing a statement with a step budget of `fuel` loop iterations for each loop.
pub open spec fn exec(s: StmtView, m: Machine, fuel: nat) -> (Machine, Result<(), InterruptView>)
    decreases fuel, s, 0nat,
{
    match s {
        StmtView::Expression(x) => {
            let (env1, r) = eval(x, m.env);
            let m1 = Machine { env: env1, out: m.out };
            match r {
                Ok(_) => (m1, Ok(())),
                Err(err) => (m1, Err(InterruptView::Error(err))),
            }
        },
        StmtView::Print(x) => {
            let (env1, r) = eval(x, m.env);
            match r {
                Ok(v) => (Machine { env: env1, out: m.out.push(value_text(v)) }, Ok(())),
                Err(err) => (Machine { env: env1, out: m.out }, Err(InterruptView::Error(err))),
            }
        },
        StmtView::Var(name, initializer) => match initializer {
            Some(init) => {
                let (env1, r) = eval(init, m.env);
                match r {
                    Ok(x) => (Machine { env: env_define(env1, name.lexeme, x), out: m.out }, Ok(())),
                    Err(err) => (Machine { env: env1, out: m.out }, Err(InterruptView::Error(err))),
                }
            },
            None => (Machine { env: env_define(m.env, name.lexeme, ValueView::Nil), out: m.out }, Ok(())),
        },
        StmtView::Block(ss) => {
            let inner = Machine { env: m.env.push(Seq::empty()), out: m.out };
            let (m1, r) = exec_block(ss, 0, inner, fuel);
            (Machine { env: m1.env.drop_last(), out: m1.out }, r)
        },
        StmtView::If(cond, then_branch, else_branch) => {
            let (env1, r) = eval(cond, m.env);
            let m1 = Machine { env: env1, out: m.out };
            match r {
                Ok(c) => if truthy(c) {
                    exec(*then_branch, m1, fuel)
                } else {
                    match else_branch {
                        Some(e) => exec(*e, m1, fuel),
                        None => (m1, Ok(())),
                    }
                },
                Err(err) => (m1, Err(InterruptView::Error(err))),
            }
        },
        StmtView::While(cond, body) => exec_while(cond, *body, m, fuel),
    }
}

/// A loop: each iteration takes one unit of the budget; with none left, it stops.
pub open spec fn exec_while(
    cond: ExprView,
    body: StmtView,
    m: Machine,
    fuel: nat,
) -> (Machine, Result<(), InterruptView>)
    decreases fuel, body, 0nat,
{
    if fuel == 0 {
        (m, Err(InterruptView::StepLimit))
    } else {
        let (env1, r) = eval(cond, m.env);
        let m1 = Machine { env: env1, out: m.out };
        match r {
            Ok(c) => if truthy(c) {
                let (m2, r2) = exec(body, m1, (fuel - 1) as nat);
                match r2 {
                    Ok(_) => exec_while(cond, body, m2, (fuel - 1) as nat),
                    Err(i) => (m2, Err(i)),
                }
            } else {
                (m1, Ok(()))
            },
            Err(err) => (m1, Err(InterruptView::Error(err))),
        }
    }
}

/// The statements `ss[i..]` in order, stopping at the first that fails.
pub open spec fn exec_block(
    ss: Seq<StmtView>,
    i: int,
    m: Machine,
    fuel: nat,
) -> (Machine, Result<(), InterruptView>)
    decreases fuel, ss, ss.len() - i,
{
    if i < 0 || i >= ss.len() {
        (m, Ok(()))
    } else {
        let (m1, r) = exec(ss[i], m, fuel);
        match r {
            Ok(_) => exec_block(ss, i + 1, m1, fuel),
            Err(e) => (m1, Err(e)),
        }
    }
}

pub open spec fn value_result_view(
    r: Result<LiteralValue, RuntimeError>,
) -> Result<ValueView, RuntimeErrorView> {
    match r {
        Ok(v) => Ok(v@),
        Err(e) => Err(e@),
    }
}

pub open spec fn unit_result_view(r: Result<(), Interrupt>) -> Result<(), InterruptView> {
    match r {
        Ok(_) => Ok(()),
        Err(i) => Err(i@),
    }
}

pub open spec fn lines_view(out: Seq<Vec<char>>) -> Seq<Seq<char>> {
    out.map_values(|l: Vec<char>| l@)
}

/// Whether a value counts as true in a condition.
pub fn is_truthy(value: &LiteralValue) -> (r: bool)
    ensures
        r == truthy(value@),
{
    match value {
        LiteralValue::Nil => false,
        LiteralValue::Bool(b) => *b,
        _ => true,
    }
}

impl LiteralValue {
    /// Equality of values; values of different variants are unequal.
    pub fn equals(&self, other: &LiteralValue) -> (r: bool)
        ensures
            r == values_equal(self@, other@),
    {
        match (self, other) {
            (LiteralValue::String(x), LiteralValue::String(y)) => same_chars(x, y),
            (LiteralValue::Number(x), LiteralValue::Number(y)) => x.equals(*y),
            (LiteralValue::Bool(x), LiteralValue::Bool(y)) => *x == *y,
            (LiteralValue::Nil, LiteralValue::Nil) => true,
            _ => false,
        }
    }

    /// The text that printing this value shows.
    pub fn text(&self) -> (r: Vec<char>)
        ensures
            r@ == value_text(self@),
    {
        match self {
            LiteralValue::String(t) => t.clone(),
            LiteralValue::Number(n) => {
                let mut out: Vec<char> = Vec::new();
                n.write_to(&mut out);
                assert(out@ =~= num_text(*n));
                out
            },
            LiteralValue::Bool(b) => if *b {
                let r = vec!['t', 'r', 'u', 'e'];
                assert(r@ =~= seq!['t', 'r', 'u', 'e']);
                r
            } else {
                let r = vec!['f', 'a', 'l', 's', 'e'];
                assert(r@ =~= seq!['f', 'a', 'l', 's', 'e']);
                r
            },
            LiteralValue::Nil => {
                let r = vec!['n', 'i', 'l'];
                assert(r@ =~= seq!['n', 'i', 'l']);
                r
            },
        }
    }
}

fn concat(a: &Vec<char>, b: &Vec<char>) -> (r: Vec<char>)
    ensures
        r@ == a@ + b@,
{
    let mut r = a.clone();
    let mut i: usize = 0;
    while i < b.len()
        invariant
            i <= b@.len(),
            r@ == a@ + b@.subrange(0, i as int),
        decreases b@.len() - i,
    {
        r.push(b[i]);
        i = i + 1;
        assert(r@ =~= a@ + b@.subrange(0, i as int));
    }
    assert(b@.subrange(0, b@.len() as int) =~= b@);
    r
}

fn fail(op: &Token, message: RuntimeErrorMessage) -> (r: Result<LiteralValue, RuntimeError>)
    ensures
        value_result_view(r) == Err::<ValueView, RuntimeErrorView>(error_at(op@, message@)),
{
    Err(RuntimeError { token: op.duplicate(), message })
}

pub open spec fn op_result_view(
    op: TokenView,
    r: Result<ValueView, MessageView>,
) -> Result<ValueView, RuntimeErrorView> {
    match r {
        Ok(z) => Ok(z),
        Err(m) => Err(error_at(op, m)),
    }
}

fn unary_op(op: &Token, v: LiteralValue) -> (r: Result<LiteralValue, RuntimeError>)
    ensures
        value_result_view(r) == op_result_view(op@, unary_result(op.token_type, v@)),
{
    if op.token_type == TokenType::Minus {
        match v {
            LiteralValue::Number(n) => Ok(LiteralValue::Number(n.negated())),
            _ => fail(op, RuntimeErrorMessage::OperandMustBeNumber),
        }
    } else {
        Ok(LiteralValue::Bool(!is_truthy(&v)))
    }
}

fn binary_op(
    op: &Token,
    l: LiteralValue,
    r: LiteralValue,
) -> (res: Result<LiteralValue, RuntimeError>)
    ensures
        value_result_view(res) == op_result_view(op@, binary_result(op.token_type, l@, r@)),
{
    match op.token_type {
        TokenType::Plus => match (&l, &r) {
            (LiteralValue::Number(x), LiteralValue::Number(y)) => Ok(LiteralValue::Number(x.plus(*y))),
            (LiteralValue::String(x), LiteralValue::String(y)) => Ok(LiteralValue::String(concat(x, y))),
            _ => fail(op, RuntimeErrorMessage::OperandsMustBeNumberOrString),
        },
        TokenType::EqualEqual => Ok(LiteralValue::Bool(l.equals(&r))),
        TokenType::Minus | TokenType::Slash | TokenType::Star | TokenType::Less
        | TokenType::LessEqual | TokenType::Greater | TokenType::GreaterEqual => match (&l, &r) {
            (LiteralValue::Number(x), LiteralValue::Number(y)) => {
                let (x, y) = (*x, *y);
                Ok(
                    match op.token_type {
                        TokenType::Minus => LiteralValue::Number(x.minus(y)),
                        TokenType::Slash => LiteralValue::Number(x.divided_by(y)),
                        TokenType::Star => LiteralValue::Number(x.times(y)),
                        TokenType::Less => LiteralValue::Bool(x.less_than(y)),
                        TokenType::LessEqual => LiteralValue::Bool(x.at_most(y)),
                        TokenType::Greater => LiteralValue::Bool(y.less_than(x)),
                        _ => LiteralValue::Bool(y.at_most(x)),
                    },
                )
            },
            _ => fail(op, RuntimeErrorMessage::OperandsMustBeNumbers),
        },
        _ => Ok(LiteralValue::Bool(!l.equals(&r))),
    }
}

impl Expr {
    /// Evaluates this expression in `env`: exactly what `eval` says, in value, error and effect
    /// on the scope chain.
    pub fn interpret(&self, env: &mut Environment) -> (r: Result<LiteralValue, RuntimeError>)
        requires
            old(env).wf(),
        ensures
            final(env).wf(),
            final(env)@.len() == old(env)@.len(),
            (final(env)@, value_result_view(r)) == eval(expr_view(*self), old(env)@),
        decreases self,
    {
        match self {
            Expr::LiteralExpr(l) => Ok(l.value.duplicate()),
            Expr::GroupingExpr(g) => g.expression.interpret(env),
            Expr::VariableExpr(v) => match env.get(&v.name.lexeme) {
                Some(x) => Ok(x),
                None => Err(
                    RuntimeError {
                        token: v.name.duplicate(),
                        message: RuntimeErrorMessage::UndefinedVariable(v.name.lexeme.clone()),
                    },
                ),
            },
            Expr::AssignExpr(a) => {
                let x = a.value.interpret(env)?;
                let kept = x.duplicate();
                if env.assign(&a.name.lexeme, x) {
                    Ok(kept)
                } else {
                    Err(
                        RuntimeError {
                            token: a.name.duplicate(),
                            message: RuntimeErrorMessage::UndefinedVariable(a.name.lexeme.clone()),
                        },
                    )
                }
            },
            Expr::UnaryExpr(u) => {
                let x = u.right.interpret(env)?;
                unary_op(&u.operator, x)
            },
            Expr::BinaryExpr(b) => {
                let x = b.left.interpret(env)?;
                let y = b.right.interpret(env)?;
                binary_op(&b.operator, x, y)
            },
            Expr::LogicalExpr(l) => {
                let x = l.left.interpret(env)?;
                if (l.operator.token_type == TokenType::Or && is_truthy(&x)) || (l.operator.token_type
                    == TokenType::And && !is_truthy(&x)) {
                    Ok(x)
                } else {
                    l.right.interpret(env)
                }
            },
        }
    }
}

impl Stmt {
    /// Executes this statement: exactly what `exec` says, in outcome, scope chain and printed
    /// lines. Each loop may run at most `fuel` iterations.
    pub fn evaluate(
        &self,
        env: &mut Environment,
        out: &mut Vec<Vec<char>>,
        fuel: u64,
    ) -> (r: Result<(), Interrupt>)
        requires
            old(env).wf(),
        ensures
            final(env).wf(),
            final(env)@.len() == old(env)@.len(),
            exec(stmt_view(*self), Machine { env: old(env)@, out: lines_view(old(out)@) }, fuel as nat) == (
            Machine { env: final(env)@, out: lines_view(final(out)@) }, unit_result_view(r)),
        decreases fuel, self, 0nat,
    {
        let ghost m0 = Machine { env: env@, out: lines_view(out@) };
        match self {
            Stmt::ExpressionStmt(x) => {
                match x.expression.interpret(env) {
                    Ok(_) => Ok(()),
                    Err(e) => Err(Interrupt::Error(e)),
                }
            },
            Stmt::PrintStmt(p) => {
                match p.expression.interpret(env) {
                    Ok(v) => {
                        let line = v.text();
                        out.push(line);
                        proof {
                            assert(lines_view(out@) =~= lines_view(old(out)@).push(value_text(v@)));
                        }
                        Ok(())
                    },
                    Err(e) => Err(Interrupt::Error(e)),
                }
            },
            Stmt::VarStmt(v) => {
                match &v.initializer {
                    Some(init) => match init.interpret(env) {
                        Ok(x) => {
                            env.define(v.name.lexeme.clone(), x);
                            Ok(())
                        },
                        Err(e) => Err(Interrupt::Error(e)),
                    },
                    None => {
                        env.define(v.name.lexeme.clone(), LiteralValue::Nil);
                        Ok(())
                    },
                }
            },
            Stmt::BlockStmt(b) => {
                assert(old(env)@.len() == old(env).scopes@.len());
                env.push_scope();
                let ghost ss = stmts_view(b.statements@);
                let ghost inner = Machine { env: env@, out: lines_view(out@) };
                let mut i: usize = 0;
                while i < b.statements.len()
                    invariant
                        env.wf(),
                        env@.len() == old(env)@.len() + 1,
                        old(env)@.len() >= 1,
                        *self == Stmt::BlockStmt(*b),
                        ss == stmts_view(b.statements@),
                        i <= ss.len(),
                        inner == (Machine { env: old(env)@.push(Seq::empty()), out: lines_view(old(out)@) }),
                        exec_block(ss, 0, inner, fuel as nat) == exec_block(ss, i as int, Machine { env: env@, out: lines_view(out@) }, fuel as nat),
                    decreases ss.len() - i,
                {
                    proof {
                        vstd::std_specs::vec::axiom_vec_index_decreases(b.statements, i as int);
                        assert(decreases_to!(b.statements => b.statements[i as int]));
                        let sv: Stmt = *self;
                        assert(sv is BlockStmt);
                        assert(decreases_to!(sv => sv->BlockStmt_0));
                        assert(sv->BlockStmt_0 == *b);
                        assert(decreases_to!(*self => *b));
                        assert(decreases_to!(*b => b.statements));
                    }
                    let ghost before = Machine { env: env@, out: lines_view(out@) };
                    let r = b.statements[i].evaluate(env, out, fuel);
                    proof {
                        let after = Machine { env: env@, out: lines_view(out@) };
                        assert(exec(ss[i as int], before, fuel as nat) == (after, unit_result_view(r)));
                        assert(exec_block(ss, i as int, before, fuel as nat) == match unit_result_view(r) {
                            Ok(_) => exec_block(ss, i + 1, after, fuel as nat),
                            Err(x) => (after, Err(x)),
                        });
                    }
                    match r {
                        Ok(_) => {
                            i = i + 1;
                        },
                        Err(e) => {
                            env.pop_scope();
                            return Err(e);
                        },
                    }
                }
                env.pop_scope();
                Ok(())
            },
            Stmt::IfStmt(s) => {
                match s.condition.interpret(env) {
                    Ok(c) => if is_truthy(&c) {
                        s.then_branch.evaluate(env, out, fuel)
                    } else {
                        match &s.else_branch {
                            Some(e) => e.evaluate(env, out, fuel),
                            None => Ok(()),
                        }
                    },
                    Err(e) => Err(Interrupt::Error(e)),
                }
            },
            Stmt::WhileStmt(w) => {
                let mut f: u64 = fuel;
                loop
                    invariant
                        env.wf(),
                        env@.len() == old(env)@.len(),
                        f <= fuel,
                        m0 == (Machine { env: old(env)@, out: lines_view(old(out)@) }),
                        exec(stmt_view(*self), m0, fuel as nat) == exec_while(expr_view(w.condition), stmt_view(w.body), Machine { env: env@, out: lines_view(out@) }, f as nat),
                    decreases f,
                {
                    if f == 0 {
                        return Err(Interrupt::StepLimit);
                    }
                    let c = match w.condition.interpret(env) {
                        Ok(c) => c,
                        Err(e) => {
                            return Err(Interrupt::Error(e));
                        },
                    };
                    if !is_truthy(&c) {
                        return Ok(());
                    }
                    let r = w.body.evaluate(env, out, f - 1);
                    match r {
                        Ok(_) => {},
                        Err(e) => {
                            return Err(e);
                        },
                    }
                    f = f - 1;
                }
            },
        }
    }
}

pub open spec fn same_variant(a: ValueView, b: ValueView) -> bool {
    match (a, b) {
        (ValueView::String(_), ValueView::String(_)) => true,
        (ValueView::Number(_), ValueView::Number(_)) => true,
        (ValueView::Bool(_), ValueView::Bool(_)) => true,
        (ValueView::Nil, ValueView::Nil) => true,
        _ => false,
    }
}

/// Comparing two values with `==` or `!=` never fails, whatever their variants; values of
/// different variants are unequal.
pub proof fn lemma_equality_never_fails(l: ValueView, r: ValueView)
    ensures
        binary_result(TokenType::EqualEqual, l, r) == Ok::<ValueView, MessageView>(ValueView::Bool(values_equal(l, r))),
        binary_result(TokenType::BangEqual, l, r) == Ok::<ValueView, MessageView>(ValueView::Bool(!values_equal(l, r))),
        !same_variant(l, r) ==> !values_equal(l, r),
{
}

/// An equality expression whose operands evaluate without error evaluates without error, to a
/// boolean.
pub proof fn lemma_equality_expression_never_fails(
    left: ExprView,
    op: TokenView,
    right: ExprView,
    env: EnvView,
)
    requires
        op.token_type == TokenType::EqualEqual,
        eval(left, env).1 is Ok,
        eval(right, eval(left, env).0).1 is Ok,
    ensures
        eval(ExprView::Binary(Box::new(left), op, Box::new(right)), env).1 == Ok::<
            ValueView,
            RuntimeErrorView,
        >(ValueView::Bool(values_equal(
            eval(left, env).1->Ok_0,
            eval(right, eval(left, env).0).1->Ok_0,
        ))),
{
}

} // verus!
