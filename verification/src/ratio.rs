//! Exact rational numbers: the engine's value model.
//!
//! A `Ratio` stores a signed numerator and a positive denominator, each kept
//! strictly below 2^63 in magnitude so that every cross product computed
//! during arithmetic fits in an `i128`. Every operation reduces its result by
//! the greatest common divisor, so repeated runs of the same input produce
//! the same representation bit for bit. A result whose reduced components
//! would leave the permitted range is reported as an overflow, never wrapped.

use vstd::prelude::*;
use vstd::arithmetic::div_mod::{
    lemma_fundamental_div_mod, lemma_mod_bound, lemma_mod_multiples_basic, lemma_mod_self_0,
    lemma_small_mod,
};

verus! {

/// Exclusive magnitude bound for a stored numerator or denominator (2^63).
pub const BOUND: i128 = 0x8000_0000_0000_0000;

/// A rational number: `num / den`.
#[derive(Clone, Copy, PartialEq, Eq, Structural, Debug)]
pub struct Ratio {
    pub num: i128,
    pub den: i128,
}

/// Well-formedness: the denominator is positive and both components are
/// small enough that cross products fit in `i128`.
pub open spec fn ratio_wf(r: Ratio) -> bool {
    &&& -BOUND < r.num < BOUND
    &&& 0 < r.den < BOUND
}

/// Euclid's greatest common divisor on non-negative arguments.
pub open spec fn spec_gcd(a: int, b: int) -> int
    recommends
        a >= 0,
        b >= 0,
    decreases b,
{
    if b <= 0 {
        a
    } else {
        spec_gcd(b, a % b)
    }
}

/// Normalisation: reduce `n / d` (with `d >= 1`) by the greatest common
/// divisor of the magnitudes; `None` when the reduced components do not fit
/// in the permitted range.
pub open spec fn spec_make(n: int, d: int) -> Option<Ratio>
    recommends
        d >= 1,
{
    let a = if n < 0 { -n } else { n };
    let g = spec_gcd(a, d);
    if g >= 1 {
        let a2 = a / g;
        let d2 = d / g;
        if a2 < BOUND && 0 < d2 < BOUND {
            Some(
                Ratio {
                    num: if n < 0 { (-a2) as i128 } else { a2 as i128 },
                    den: d2 as i128,
                },
            )
        } else {
            None
        }
    } else {
        None
    }
}

/// Exact sum of two rationals, reduced; `None` on overflow.
pub open spec fn spec_add(x: Ratio, y: Ratio) -> Option<Ratio>
    recommends
        ratio_wf(x),
        ratio_wf(y),
{
    spec_make(x.num * y.den + y.num * x.den, x.den * y.den)
}

/// Exact difference of two rationals, reduced; `None` on overflow.
pub open spec fn spec_sub(x: Ratio, y: Ratio) -> Option<Ratio>
    recommends
        ratio_wf(x),
        ratio_wf(y),
{
    spec_make(x.num * y.den - y.num * x.den, x.den * y.den)
}

/// Exact product of two rationals, reduced; `None` on overflow.
pub open spec fn spec_mul(x: Ratio, y: Ratio) -> Option<Ratio>
    recommends
        ratio_wf(x),
        ratio_wf(y),
{
    spec_make(x.num * y.num, x.den * y.den)
}

/// Exact quotient of two rationals, reduced; `None` on overflow.
/// The divisor must not be zero: the evaluator reports that case as a
/// division-by-zero error before this function is consulted.
pub open spec fn spec_div(x: Ratio, y: Ratio) -> Option<Ratio>
    recommends
        ratio_wf(x),
        ratio_wf(y),
        y.num != 0,
{
    let nn = x.num * y.den;
    let dd = x.den * y.num;
    if dd < 0 {
        spec_make(-nn, -dd)
    } else {
        spec_make(nn, dd)
    }
}

/// Exact negation; never overflows on a well-formed value.
pub open spec fn spec_neg(x: Ratio) -> Ratio
    recommends
        ratio_wf(x),
{
    Ratio { num: (-x.num) as i128, den: x.den }
}

impl Ratio {
    /// The rational zero.
    pub fn zero() -> (r: Ratio)
        ensures
            r == (Ratio { num: 0, den: 1 }),
            ratio_wf(r),
    {
        Ratio { num: 0, den: 1 }
    }

    /// Whether this value is zero.
    pub fn is_zero(&self) -> (b: bool)
        ensures
            b == (self.num == 0),
    {
        self.num == 0
    }
}

/// Euclid's algorithm, matching `spec_gcd`.
fn gcd(a: i128, b: i128) -> (r: i128)
    requires
        0 <= a,
        0 <= b,
    ensures
        r == spec_gcd(a as int, b as int),
    decreases b,
{
    if b == 0 {
        a
    } else {
        gcd(b, a % b)
    }
}

/// Reduce `n / d` to a well-formed `Ratio`, or report overflow as `None`.
pub fn make_ratio(n: i128, d: i128) -> (r: Option<Ratio>)
    requires
        d >= 1,
        n > i128::MIN,
    ensures
        r == spec_make(n as int, d as int),
        r is Some ==> ratio_wf(r->Some_0),
{
    let a: i128 = if n < 0 {
        -n
    } else {
        n
    };
    let g = gcd(a, d);
    if g >= 1 {
        let a2 = a / g;
        let d2 = d / g;
        if a2 < BOUND && 0 < d2 && d2 < BOUND {
            let num = if n < 0 {
                -a2
            } else {
                a2
            };
            Some(Ratio { num, den: d2 })
        } else {
            None
        }
    } else {
        None
    }
}

/// Add two well-formed rationals; `None` on overflow.
pub fn ratio_add(x: &Ratio, y: &Ratio) -> (r: Option<Ratio>)
    requires
        ratio_wf(*x),
        ratio_wf(*y),
    ensures
        r == spec_add(*x, *y),
        r is Some ==> ratio_wf(r->Some_0),
{
    proof {
        lemma_cross_bounds(*x, *y);
    }
    let n = x.num * y.den + y.num * x.den;
    let d = x.den * y.den;
    make_ratio(n, d)
}

/// Subtract two well-formed rationals; `None` on overflow.
pub fn ratio_sub(x: &Ratio, y: &Ratio) -> (r: Option<Ratio>)
    requires
        ratio_wf(*x),
        ratio_wf(*y),
    ensures
        r == spec_sub(*x, *y),
        r is Some ==> ratio_wf(r->Some_0),
{
    proof {
        lemma_cross_bounds(*x, *y);
    }
    let n = x.num * y.den - y.num * x.den;
    let d = x.den * y.den;
    make_ratio(n, d)
}

/// Multiply two well-formed rationals; `None` on overflow.
pub fn ratio_mul(x: &Ratio, y: &Ratio) -> (r: Option<Ratio>)
    requires
        ratio_wf(*x),
        ratio_wf(*y),
    ensures
        r == spec_mul(*x, *y),
        r is Some ==> ratio_wf(r->Some_0),
{
    proof {
        lemma_cross_bounds(*x, *y);
    }
    let n = x.num * y.num;
    let d = x.den * y.den;
    make_ratio(n, d)
}

/// Divide two well-formed rationals; the divisor must be non-zero.
/// `None` on overflow.
pub fn ratio_div(x: &Ratio, y: &Ratio) -> (r: Option<Ratio>)
    requires
        ratio_wf(*x),
        ratio_wf(*y),
        y.num != 0,
    ensures
        r == spec_div(*x, *y),
        r is Some ==> ratio_wf(r->Some_0),
{
    proof {
        lemma_cross_bounds(*x, *y);
        assert(x.den * y.num != 0) by (nonlinear_arith)
            requires
                x.den > 0,
                y.num != 0,
        ;
    }
    let nn = x.num * y.den;
    let dd = x.den * y.num;
    if dd < 0 {
        make_ratio(-nn, -dd)
    } else {
        make_ratio(nn, dd)
    }
}

/// Negate a well-formed rational.
pub fn ratio_neg(x: &Ratio) -> (r: Ratio)
    requires
        ratio_wf(*x),
    ensures
        r == spec_neg(*x),
        ratio_wf(r),
{
    Ratio { num: -x.num, den: x.den }
}

/// A greatest common divisor of arguments that are not both zero is at
/// least one.
proof fn lemma_gcd_pos(a: int, b: int)
    requires
        a >= 0,
        b >= 0,
        a + b >= 1,
    ensures
        spec_gcd(a, b) >= 1,
    decreases b,
{
    if b >= 1 {
        lemma_mod_bound(a, b);
        lemma_gcd_pos(b, a % b);
    }
}

/// The greatest common divisor divides both of its arguments.
proof fn lemma_gcd_divides(a: int, b: int)
    requires
        a >= 0,
        b >= 0,
        a + b >= 1,
    ensures
        a % spec_gcd(a, b) == 0,
        b % spec_gcd(a, b) == 0,
    decreases b,
{
    if b == 0 {
        lemma_mod_self_0(a);
        lemma_mod_multiples_basic(0, a);
    } else {
        let r = a % b;
        lemma_mod_bound(a, b);
        lemma_gcd_divides(b, r);
        lemma_gcd_pos(b, r);
        let g = spec_gcd(b, r);
        lemma_fundamental_div_mod(a, b);
        lemma_fundamental_div_mod(b, g);
        lemma_fundamental_div_mod(r, g);
        let k = (a / b) * (b / g) + (r / g);
        assert(a == k * g) by (nonlinear_arith)
            requires
                a == b * (a / b) + r,
                b == g * (b / g),
                r == g * (r / g),
                k == (a / b) * (b / g) + (r / g),
        ;
        lemma_mod_multiples_basic(k, g);
    }
}

/// Normalisation is exact: the reduced components denote the same rational
/// number as the components they were reduced from.
pub proof fn lemma_make_exact(n: int, d: int)
    requires
        d >= 1,
        spec_make(n, d) is Some,
    ensures
        (spec_make(n, d)->Some_0.num as int) * d == n * (spec_make(n, d)->Some_0.den as int),
{
    let a = if n < 0 { -n } else { n };
    let g = spec_gcd(a, d);
    lemma_gcd_pos(a, d);
    lemma_gcd_divides(a, d);
    lemma_fundamental_div_mod(a, g);
    lemma_fundamental_div_mod(d, g);
    let a2 = a / g;
    let d2 = d / g;
    assert(a2 * d == a * d2) by (nonlinear_arith)
        requires
            a == g * a2,
            d == g * d2,
    ;
    let r = spec_make(n, d)->Some_0;
    assert(r.den as int == d2);
    if n < 0 {
        assert(r.num as int == -a2);
        assert((-a2) * d == n * d2) by (nonlinear_arith)
            requires
                a2 * d == a * d2,
                a == -n,
        ;
    } else {
        assert(r.num as int == a2);
    }
}

/// A rational is in lowest terms: its magnitude and denominator have no
/// common divisor above one.
pub open spec fn ratio_reduced(r: Ratio) -> bool {
    spec_gcd(
        if r.num < 0 {
            -(r.num as int)
        } else {
            r.num as int
        },
        r.den as int,
    ) == 1
}

/// Every common divisor of the two arguments divides their greatest
/// common divisor.
proof fn lemma_gcd_greatest(a: int, b: int, e: int)
    requires
        a >= 0,
        b >= 0,
        a + b >= 1,
        e >= 1,
        a % e == 0,
        b % e == 0,
    ensures
        spec_gcd(a, b) % e == 0,
    decreases b,
{
    if b >= 1 {
        let r = a % b;
        lemma_mod_bound(a, b);
        lemma_fundamental_div_mod(a, b);
        lemma_fundamental_div_mod(a, e);
        lemma_fundamental_div_mod(b, e);
        let k = (a / e) - (b / e) * (a / b);
        assert(r == k * e) by (nonlinear_arith)
            requires
                a == b * (a / b) + r,
                a == e * (a / e),
                b == e * (b / e),
                k == (a / e) - (b / e) * (a / b),
        ;
        lemma_mod_multiples_basic(k, e);
        lemma_gcd_greatest(b, r, e);
    }
}

/// Normalisation produces a value in lowest terms.
pub proof fn lemma_make_reduced(n: int, d: int)
    requires
        d >= 1,
        spec_make(n, d) is Some,
    ensures
        ratio_reduced(spec_make(n, d)->Some_0),
{
    let a = if n < 0 {
        -n
    } else {
        n
    };
    let g = spec_gcd(a, d);
    lemma_gcd_pos(a, d);
    lemma_gcd_divides(a, d);
    lemma_fundamental_div_mod(a, g);
    lemma_fundamental_div_mod(d, g);
    let a2 = a / g;
    let d2 = d / g;
    assert(a2 >= 0) by (nonlinear_arith)
        requires
            a == g * a2,
            a >= 0,
            g >= 1,
    ;
    let e = spec_gcd(a2, d2);
    lemma_gcd_pos(a2, d2);
    lemma_gcd_divides(a2, d2);
    lemma_fundamental_div_mod(a2, e);
    lemma_fundamental_div_mod(d2, e);
    let k1 = a2 / e;
    let k2 = d2 / e;
    assert(e * g >= 1 && e * g >= e && a == k1 * (e * g) && d == k2 * (e * g)) by (
    nonlinear_arith)
        requires
            a == g * a2,
            d == g * d2,
            a2 == e * k1,
            d2 == e * k2,
            e >= 1,
            g >= 1,
    ;
    lemma_mod_multiples_basic(k1, e * g);
    lemma_mod_multiples_basic(k2, e * g);
    lemma_gcd_greatest(a, d, e * g);
    if e >= 2 {
        assert(g < e * g) by (nonlinear_arith)
            requires
                e >= 2,
                g >= 1,
        ;
        lemma_small_mod(g as nat, (e * g) as nat);
        assert(false);
    }
}

/// Largest magnitude a cross product of two well-formed components can
/// reach: (2^63 - 1)^2 < 2^126 - 1.
pub const CROSS: i128 = 0x3fff_ffff_ffff_ffff_ffff_ffff_ffff_ffff;

/// Cross products of two well-formed rationals stay well inside `i128`:
/// each has magnitude at most `CROSS` = 2^126 - 1, so a sum or difference
/// of two of them still fits.
proof fn lemma_cross_bounds(x: Ratio, y: Ratio)
    requires
        ratio_wf(x),
        ratio_wf(y),
    ensures
        -CROSS <= x.num * y.den <= CROSS,
        -CROSS <= y.num * x.den <= CROSS,
        -CROSS <= x.num * y.num <= CROSS,
        0 < x.den * y.den <= CROSS,
        -CROSS <= x.den * y.num <= CROSS,
{
    assert(-CROSS <= x.num * y.den <= CROSS) by (nonlinear_arith)
        requires
            -BOUND < x.num < BOUND,
            0 < y.den < BOUND,
            BOUND == 0x8000_0000_0000_0000,
            CROSS == 0x3fff_ffff_ffff_ffff_ffff_ffff_ffff_ffff,
    ;
    assert(-CROSS <= y.num * x.den <= CROSS) by (nonlinear_arith)
        requires
            -BOUND < y.num < BOUND,
            0 < x.den < BOUND,
            BOUND == 0x8000_0000_0000_0000,
            CROSS == 0x3fff_ffff_ffff_ffff_ffff_ffff_ffff_ffff,
    ;
    assert(-CROSS <= x.num * y.num <= CROSS) by (nonlinear_arith)
        requires
            -BOUND < x.num < BOUND,
            -BOUND < y.num < BOUND,
            BOUND == 0x8000_0000_0000_0000,
            CROSS == 0x3fff_ffff_ffff_ffff_ffff_ffff_ffff_ffff,
    ;
    assert(0 < x.den * y.den <= CROSS) by (nonlinear_arith)
        requires
            0 < x.den < BOUND,
            0 < y.den < BOUND,
            BOUND == 0x8000_0000_0000_0000,
            CROSS == 0x3fff_ffff_ffff_ffff_ffff_ffff_ffff_ffff,
    ;
    assert(-CROSS <= x.den * y.num <= CROSS) by (nonlinear_arith)
        requires
            0 < x.den < BOUND,
            -BOUND < y.num < BOUND,
            BOUND == 0x8000_0000_0000_0000,
            CROSS == 0x3fff_ffff_ffff_ffff_ffff_ffff_ffff_ffff,
    ;
}

} // verus!
