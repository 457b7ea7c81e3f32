//! Evaluation of statements against a context.
//!
//! Expression evaluation is read-only; an assignment evaluates its right
//! side and, only on success, binds the result, which is also the
//! statement's own result. Every executable function returns exactly the
//! value of its specification counterpart.

use vstd::prelude::*;
use vstd::string::StringSliceAdditionalSpecFns;
use crate::ast::{Expr, Stmt};
use crate::context::{Context, ctx_wf, lemma_lookup_wf, spec_lookup};
use crate::error::EvalError;
use crate::ratio::{
    BOUND, Ratio, ratio_add, ratio_div, ratio_mul, ratio_neg, ratio_sub, ratio_wf, spec_add,
    spec_div, spec_mul, spec_neg, spec_sub,
};

verus! {

/// The outcome of evaluating one expression or statement.
pub enum EvalOut {
    /// Success, with the resulting value.
    Val(Ratio),
    /// The named variable was unbound.
    Unbound(Seq<u8>),
    /// Division by zero.
    DivZero,
    /// The exact result no longer fits the value representation.
    Overflow,
}

/// The outcome an executable result stands for.
pub open spec fn out_of(r: Result<Ratio, EvalError>) -> EvalOut {
    match r {
        Ok(v) => EvalOut::Val(v),
        Err(EvalError::UnboundVariable(n)) => EvalOut::Unbound(n@),
        Err(EvalError::DivisionByZero) => EvalOut::DivZero,
        Err(EvalError::Overflow) => EvalOut::Overflow,
    }
}

/// An overflow-checked value as an outcome.
pub open spec fn opt_out(o: Option<Ratio>) -> EvalOut {
    match o {
        Some(v) => EvalOut::Val(v),
        None => EvalOut::Overflow,
    }
}

/// The name a span of the batch text denotes; empty for a span that does
/// not lie inside the text (the parser never produces one).
pub open spec fn spec_name(t: Seq<u8>, lo: int, hi: int) -> Seq<u8> {
    if 0 <= lo <= hi <= t.len() {
        t.subrange(lo, hi)
    } else {
        Seq::empty()
    }
}

/// Evaluate an expression against the text it was parsed from and a
/// context. Errors propagate left to right: the left operand's error wins.
pub open spec fn spec_eval_expr(e: Expr, t: Seq<u8>, ctx: Seq<(Seq<u8>, Ratio)>) -> EvalOut
    decreases e,
{
    match e {
        Expr::Num(r) => if ratio_wf(r) {
            EvalOut::Val(r)
        } else {
            EvalOut::Overflow
        },
        Expr::Var { lo, hi } => {
            let nm = spec_name(t, lo as int, hi as int);
            match spec_lookup(ctx, nm) {
                Some(v) => EvalOut::Val(v),
                None => EvalOut::Unbound(nm),
            }
        },
        Expr::Neg(b) => match spec_eval_expr(*b, t, ctx) {
            EvalOut::Val(v) => EvalOut::Val(spec_neg(v)),
            o => o,
        },
        Expr::Add(a, b) => match spec_eval_expr(*a, t, ctx) {
            EvalOut::Val(x) => match spec_eval_expr(*b, t, ctx) {
                EvalOut::Val(y) => opt_out(spec_add(x, y)),
                o => o,
            },
            o => o,
        },
        Expr::Sub(a, b) => match spec_eval_expr(*a, t, ctx) {
            EvalOut::Val(x) => match spec_eval_expr(*b, t, ctx) {
                EvalOut::Val(y) => opt_out(spec_sub(x, y)),
                o => o,
            },
            o => o,
        },
        Expr::Mul(a, b) => match spec_eval_expr(*a, t, ctx) {
            EvalOut::Val(x) => match spec_eval_expr(*b, t, ctx) {
                EvalOut::Val(y) => opt_out(spec_mul(x, y)),
                o => o,
            },
            o => o,
        },
        Expr::Div(a, b) => match spec_eval_expr(*a, t, ctx) {
            EvalOut::Val(x) => match spec_eval_expr(*b, t, ctx) {
                EvalOut::Val(y) => if y.num == 0 {
                    EvalOut::DivZero
                } else {
                    opt_out(spec_div(x, y))
                },
                o => o,
            },
            o => o,
        },
    }
}

/// Evaluate one statement: its outcome, and the context afterwards. Only a
/// successful assignment changes the context.
pub open spec fn spec_eval_stmt(st: Stmt, t: Seq<u8>, ctx: Seq<(Seq<u8>, Ratio)>) -> (
    EvalOut,
    Seq<(Seq<u8>, Ratio)>,
) {
    match st {
        Stmt::Expr(e) => (spec_eval_expr(e, t, ctx), ctx),
        Stmt::Assign { lo, hi, rhs } => match spec_eval_expr(rhs, t, ctx) {
            EvalOut::Val(v) => (
                EvalOut::Val(v),
                ctx.push((spec_name(t, lo as int, hi as int), v)),
            ),
            o => (o, ctx),
        },
    }
}

/// A successful evaluation in a well-formed context yields a well-formed
/// value.
pub proof fn lemma_eval_expr_wf(e: Expr, t: Seq<u8>, ctx: Seq<(Seq<u8>, Ratio)>)
    requires
        ctx_wf(ctx),
    ensures
        spec_eval_expr(e, t, ctx) matches EvalOut::Val(v) ==> ratio_wf(v),
    decreases e,
{
    match e {
        Expr::Num(_) => {},
        Expr::Var { lo, hi } => {
            lemma_lookup_wf(ctx, spec_name(t, lo as int, hi as int));
        },
        Expr::Neg(b) => {
            lemma_eval_expr_wf(*b, t, ctx);
        },
        Expr::Add(a, b) => {
            lemma_eval_expr_wf(*a, t, ctx);
            lemma_eval_expr_wf(*b, t, ctx);
        },
        Expr::Sub(a, b) => {
            lemma_eval_expr_wf(*a, t, ctx);
            lemma_eval_expr_wf(*b, t, ctx);
        },
        Expr::Mul(a, b) => {
            lemma_eval_expr_wf(*a, t, ctx);
            lemma_eval_expr_wf(*b, t, ctx);
        },
        Expr::Div(a, b) => {
            lemma_eval_expr_wf(*a, t, ctx);
            lemma_eval_expr_wf(*b, t, ctx);
        },
    }
}

/// Copy the bytes of a span out of the text; empty for a span that does
/// not lie inside the text.
fn copy_span(t: &[u8], lo: usize, hi: usize) -> (r: Vec<u8>)
    ensures
        r@ == spec_name(t@, lo as int, hi as int),
{
    let mut v: Vec<u8> = Vec::new();
    if !(lo <= hi && hi <= t.len()) {
        proof {
            assert(v@ =~= spec_name(t@, lo as int, hi as int));
        }
        return v;
    }
    let mut k = lo;
    while k < hi
        invariant
            lo <= k <= hi <= t@.len(),
            v@ == t@.subrange(lo as int, k as int),
        decreases hi - k,
    {
        v.push(t[k]);
        proof {
            assert(v@ =~= t@.subrange(lo as int, k + 1));
        }
        k = k + 1;
    }
    proof {
        assert(v@ =~= spec_name(t@, lo as int, hi as int));
    }
    v
}

/// Evaluate an expression in a context, without changing it.
fn eval_expr(e: &Expr, t: &[u8], ctx: &Context) -> (r: Result<Ratio, EvalError>)
    requires
        ctx.wf(),
    ensures
        out_of(r) == spec_eval_expr(*e, t@, ctx@),
        r matches Ok(v) ==> ratio_wf(v),
    decreases *e,
{
    proof {
        lemma_eval_expr_wf(*e, t@, ctx@);
    }
    match e {
        Expr::Num(r) => {
            if r.den >= 1 && r.den < BOUND && r.num > -BOUND && r.num < BOUND {
                Ok(*r)
            } else {
                Err(EvalError::Overflow)
            }
        },
        Expr::Var { lo, hi } => {
            let nm = copy_span(t, *lo, *hi);
            match ctx.get(nm.as_slice()) {
                Some(v) => Ok(v),
                None => Err(EvalError::UnboundVariable(nm)),
            }
        },
        Expr::Neg(b) => {
            match eval_expr(b, t, ctx) {
                Ok(v) => Ok(ratio_neg(&v)),
                Err(err) => Err(err),
            }
        },
        Expr::Add(a, b) => {
            match eval_expr(a, t, ctx) {
                Ok(x) => match eval_expr(b, t, ctx) {
                    Ok(y) => match ratio_add(&x, &y) {
                        Some(v) => Ok(v),
                        None => Err(EvalError::Overflow),
                    },
                    Err(err) => Err(err),
                },
                Err(err) => Err(err),
            }
        },
        Expr::Sub(a, b) => {
            match eval_expr(a, t, ctx) {
                Ok(x) => match eval_expr(b, t, ctx) {
                    Ok(y) => match ratio_sub(&x, &y) {
                        Some(v) => Ok(v),
                        None => Err(EvalError::Overflow),
                    },
                    Err(err) => Err(err),
                },
                Err(err) => Err(err),
            }
        },
        Expr::Mul(a, b) => {
            match eval_expr(a, t, ctx) {
                Ok(x) => match eval_expr(b, t, ctx) {
                    Ok(y) => match ratio_mul(&x, &y) {
                        Some(v) => Ok(v),
                        None => Err(EvalError::Overflow),
                    },
                    Err(err) => Err(err),
                },
                Err(err) => Err(err),
            }
        },
        Expr::Div(a, b) => {
            match eval_expr(a, t, ctx) {
                Ok(x) => match eval_expr(b, t, ctx) {
                    Ok(y) => {
                        if y.is_zero() {
                            Err(EvalError::DivisionByZero)
                        } else {
                            match ratio_div(&x, &y) {
                                Some(v) => Ok(v),
                                None => Err(EvalError::Overflow),
                            }
                        }
                    },
                    Err(err) => Err(err),
                },
                Err(err) => Err(err),
            }
        },
    }
}

/// Evaluate one statement against the text it was parsed from, updating
/// the context exactly when the statement is an assignment that succeeded.
pub fn eval_stmt(stmt: &Stmt, text: &str, ctx: &mut Context) -> (r: Result<Ratio, EvalError>)
    requires
        old(ctx).wf(),
    ensures
        final(ctx).wf(),
        out_of(r) == spec_eval_stmt(*stmt, text.spec_bytes(), old(ctx)@).0,
        final(ctx)@ == spec_eval_stmt(*stmt, text.spec_bytes(), old(ctx)@).1,
        r matches Ok(v) ==> ratio_wf(v),
{
    let t = text.as_bytes();
    match stmt {
        Stmt::Expr(e) => eval_expr(e, t, ctx),
        Stmt::Assign { lo, hi, rhs } => {
            match eval_expr(rhs, t, ctx) {
                Ok(v) => {
                    let nm = copy_span(t, *lo, *hi);
                    ctx.set(nm, v);
                    proof {
                        assert forall|k: int| 0 <= k < ctx@.len() implies ratio_wf(
                            #[trigger] ctx@[k].1,
                        ) by {
                            if k < old(ctx)@.len() {
                                assert(ratio_wf(old(ctx)@[k].1));
                            }
                        }
                    }
                    Ok(v)
                },
                Err(err) => Err(err),
            }
        },
    }
}

} // verus!
