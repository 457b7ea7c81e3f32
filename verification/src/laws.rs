//! Properties of the engine, stated on their own and proved once.

use vstd::prelude::*;
use crate::ast::{Expr, Stmt};
use crate::context::spec_lookup;
use crate::eval::{EvalOut, spec_eval_expr, spec_eval_stmt, spec_name};
use crate::ratio::{
    lemma_make_exact, lemma_make_reduced, ratio_reduced, ratio_wf, spec_add, spec_div, spec_mul,
    spec_neg, spec_sub, Ratio,
};

verus! {

/// Precision of addition: the reduced result denotes exactly the sum of
/// the two operands — `r = x + y` as rational numbers, with no rounding.
pub proof fn lemma_add_exact(x: Ratio, y: Ratio)
    requires
        ratio_wf(x),
        ratio_wf(y),
        spec_add(x, y) is Some,
    ensures
        (spec_add(x, y)->Some_0.num as int) * (x.den * y.den) == (x.num * y.den + y.num * x.den)
            * (spec_add(x, y)->Some_0.den as int),
{
    assert(x.den * y.den >= 1) by (nonlinear_arith)
        requires
            x.den >= 1,
            y.den >= 1,
    ;
    lemma_make_exact(x.num * y.den + y.num * x.den, x.den * y.den);
}

/// Precision of subtraction: `r = x - y` exactly.
pub proof fn lemma_sub_exact(x: Ratio, y: Ratio)
    requires
        ratio_wf(x),
        ratio_wf(y),
        spec_sub(x, y) is Some,
    ensures
        (spec_sub(x, y)->Some_0.num as int) * (x.den * y.den) == (x.num * y.den - y.num * x.den)
            * (spec_sub(x, y)->Some_0.den as int),
{
    assert(x.den * y.den >= 1) by (nonlinear_arith)
        requires
            x.den >= 1,
            y.den >= 1,
    ;
    lemma_make_exact(x.num * y.den - y.num * x.den, x.den * y.den);
}

/// Precision of multiplication: `r = x * y` exactly.
pub proof fn lemma_mul_exact(x: Ratio, y: Ratio)
    requires
        ratio_wf(x),
        ratio_wf(y),
        spec_mul(x, y) is Some,
    ensures
        (spec_mul(x, y)->Some_0.num as int) * (x.den * y.den) == (x.num * y.num) * (spec_mul(
            x,
            y,
        )->Some_0.den as int),
{
    assert(x.den * y.den >= 1) by (nonlinear_arith)
        requires
            x.den >= 1,
            y.den >= 1,
    ;
    lemma_make_exact(x.num * y.num, x.den * y.den);
}

/// Precision of division: for a non-zero divisor, `r = x / y` exactly.
pub proof fn lemma_div_exact(x: Ratio, y: Ratio)
    requires
        ratio_wf(x),
        ratio_wf(y),
        y.num != 0,
        spec_div(x, y) is Some,
    ensures
        (spec_div(x, y)->Some_0.num as int) * (x.den * y.num) == (x.num * y.den) * (spec_div(
            x,
            y,
        )->Some_0.den as int),
{
    let nn = x.num * y.den;
    let dd = x.den * y.num;
    let r = spec_div(x, y)->Some_0;
    if dd < 0 {
        lemma_make_exact(-nn, -dd);
        assert((r.num as int) * dd == nn * (r.den as int)) by (nonlinear_arith)
            requires
                (r.num as int) * (-dd) == (-nn) * (r.den as int),
        ;
    } else {
        assert(dd >= 1) by (nonlinear_arith)
            requires
                x.den >= 1,
                y.num != 0,
                dd == x.den * y.num,
                dd >= 0,
        ;
        lemma_make_exact(nn, dd);
    }
}

/// Canonical form: the value of every arithmetic operation is in lowest
/// terms, so equal rational results have identical representations and
/// identical display strings, run after run.
pub proof fn lemma_ops_canonical(x: Ratio, y: Ratio)
    requires
        ratio_wf(x),
        ratio_wf(y),
    ensures
        spec_add(x, y) matches Some(r) ==> ratio_reduced(r),
        spec_sub(x, y) matches Some(r) ==> ratio_reduced(r),
        spec_mul(x, y) matches Some(r) ==> ratio_reduced(r),
        y.num != 0 ==> (spec_div(x, y) matches Some(r) ==> ratio_reduced(r)),
        ratio_reduced(x) ==> ratio_reduced(spec_neg(x)),
{
    assert(x.den * y.den >= 1) by (nonlinear_arith)
        requires
            x.den >= 1,
            y.den >= 1,
    ;
    if spec_add(x, y) is Some {
        lemma_make_reduced(x.num * y.den + y.num * x.den, x.den * y.den);
    }
    if spec_sub(x, y) is Some {
        lemma_make_reduced(x.num * y.den - y.num * x.den, x.den * y.den);
    }
    if spec_mul(x, y) is Some {
        lemma_make_reduced(x.num * y.num, x.den * y.den);
    }
    if y.num != 0 {
        let dd = x.den * y.num;
        assert(dd != 0) by (nonlinear_arith)
            requires
                x.den >= 1,
                y.num != 0,
                dd == x.den * y.num,
        ;
        if spec_div(x, y) is Some {
            if dd < 0 {
                lemma_make_reduced(-(x.num * y.den), -dd);
            } else {
                lemma_make_reduced(x.num * y.den, dd);
            }
        }
    }
}

/// An assignment statement of the expression to the identifier at bytes
/// `lo..hi` of the text.
pub open spec fn assign_stmt(lo: usize, hi: usize, rhs: Expr) -> Stmt {
    Stmt::Assign { lo, hi, rhs }
}

/// A variable reference to the identifier at bytes `lo..hi` of the text.
pub open spec fn var_expr(lo: usize, hi: usize) -> Expr {
    Expr::Var { lo, hi }
}

/// A quotient expression.
pub open spec fn div_expr(a: Expr, b: Expr) -> Expr {
    Expr::Div(Box::new(a), Box::new(b))
}

/// Assignment visibility. When an assignment succeeds with value `v`, its
/// name is bound to `v` in the resulting context, and a later reference to
/// that name evaluates to `v`. When the assignment's right side fails, the
/// context is unchanged, so a name that was unbound before stays unbound.
pub proof fn lemma_assign_visibility(
    lo: usize,
    hi: usize,
    rhs: Expr,
    t: Seq<u8>,
    ctx: Seq<(Seq<u8>, Ratio)>,
)
    ensures
        spec_eval_stmt(assign_stmt(lo, hi, rhs), t, ctx).0 matches EvalOut::Val(v) ==> {
            let ctx2 = spec_eval_stmt(assign_stmt(lo, hi, rhs), t, ctx).1;
            &&& spec_lookup(ctx2, spec_name(t, lo as int, hi as int)) == Some(v)
            &&& spec_eval_expr(var_expr(lo, hi), t, ctx2) == EvalOut::Val(v)
        },
        !(spec_eval_stmt(assign_stmt(lo, hi, rhs), t, ctx).0 matches EvalOut::Val(_)) ==> spec_eval_stmt(
            assign_stmt(lo, hi, rhs),
            t,
            ctx,
        ).1 == ctx,
{
}

/// A lookup of an unbound name is reported as an error, never a silent
/// default value.
pub proof fn lemma_unbound_reported(lo: usize, hi: usize, t: Seq<u8>, ctx: Seq<(Seq<u8>, Ratio)>)
    ensures
        spec_lookup(ctx, spec_name(t, lo as int, hi as int)) is None ==> spec_eval_expr(
            var_expr(lo, hi),
            t,
            ctx,
        ) == EvalOut::Unbound(spec_name(t, lo as int, hi as int)),
{
}

/// Division by an expression that evaluates to zero is reported as a
/// division-by-zero error, not a crash and not a value.
pub proof fn lemma_div_by_zero(a: Expr, b: Expr, t: Seq<u8>, ctx: Seq<(Seq<u8>, Ratio)>)
    requires
        spec_eval_expr(a, t, ctx) matches EvalOut::Val(_),
        spec_eval_expr(b, t, ctx) matches EvalOut::Val(y) && y.num == 0,
    ensures
        spec_eval_expr(div_expr(a, b), t, ctx) == EvalOut::DivZero,
{
}

} // verus!
