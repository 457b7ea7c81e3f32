//! Lexing and parsing of a batch of calculator statements.
//!
//! Grammar (precedence low to high):
//!   batch      := sep* (stmt (sep+ stmt)* sep*)?
//!   stmt       := assignment | expression
//!   assignment := identifier "=" expression
//!   expression := term (("+" | "-") term)*
//!   term       := factor (("*" | "/") factor)*
//!   factor     := number | identifier | "(" expression ")" | "-" factor
//! Separators are newline and ";"; spaces, tabs and carriage returns are
//! insignificant between tokens. Unary minus binds tighter than the binary
//! operators; the binary operators associate left to right.
//!
//! The parser consumes the longest prefix of the text that matches the
//! grammar and reports the position where it stopped; the batch driver
//! treats a batch with unconsumed text as a parse failure and evaluates
//! nothing. Nesting of factors is limited to `MAX_DEPTH` so that parsing
//! and evaluation recurse to a bounded depth; a numeric literal whose
//! numerator or denominator would reach 2^63 is likewise rejected.
//!
//! Every executable function mirrors a specification function over the view
//! of the text and is proved to return exactly its value.

use vstd::prelude::*;
use vstd::string::StringSliceAdditionalSpecFns;
use crate::ast::{Expr, Stmt};
use crate::ratio::{Ratio, BOUND, spec_make, make_ratio};

verus! {

/// Maximum nesting depth of factors (parentheses and unary minus).
pub const MAX_DEPTH: usize = 64;

/// Insignificant whitespace between tokens: space, tab, carriage return.
pub open spec fn is_space(b: u8) -> bool {
    b == 32 || b == 9 || b == 13
}

/// Statement separators: newline and ";".
pub open spec fn is_sep(b: u8) -> bool {
    b == 10 || b == 59
}

/// ASCII decimal digit.
pub open spec fn is_digit(b: u8) -> bool {
    48 <= b <= 57
}

/// First byte of an identifier: ASCII letter or underscore.
pub open spec fn is_ident_start(b: u8) -> bool {
    (65 <= b <= 90) || (97 <= b <= 122) || b == 95
}

/// Later byte of an identifier: letter, underscore or digit.
pub open spec fn is_ident_cont(b: u8) -> bool {
    is_ident_start(b) || is_digit(b)
}

/// Clamp a position into `lo..=hi`; every position a sub-parser returns
/// already lies in that range, so in executable code this is the identity.
pub open spec fn clamp_pos(lo: int, j: int, hi: int) -> int {
    if j < lo {
        lo
    } else if j > hi {
        hi
    } else {
        j
    }
}

/// Position after any run of whitespace starting at `i`.
pub open spec fn spec_skip_ws(s: Seq<u8>, i: int) -> int
    decreases s.len() - i,
{
    if 0 <= i < s.len() && is_space(s[i]) {
        spec_skip_ws(s, i + 1)
    } else {
        i
    }
}

/// Position after any run of whitespace and statement separators.
pub open spec fn spec_skip_seps(s: Seq<u8>, i: int) -> int
    decreases s.len() - i,
{
    if 0 <= i < s.len() && (is_space(s[i]) || is_sep(s[i])) {
        spec_skip_seps(s, i + 1)
    } else {
        i
    }
}

/// Accumulate decimal digits starting at `i` onto `acc`; `None` when the
/// value would reach 2^63.
pub open spec fn spec_digits(s: Seq<u8>, i: int, acc: int) -> Option<(int, int)>
    decreases s.len() - i,
{
    if 0 <= i < s.len() && is_digit(s[i]) {
        let acc2 = acc * 10 + (s[i] - 48);
        if acc2 >= BOUND {
            None
        } else {
            spec_digits(s, i + 1, acc2)
        }
    } else {
        Some((acc, i))
    }
}

/// Accumulate fractional digits: each digit extends the numerator and
/// multiplies the denominator by ten; `None` when either would reach 2^63.
pub open spec fn spec_frac(s: Seq<u8>, i: int, num: int, den: int) -> Option<(int, int, int)>
    decreases s.len() - i,
{
    if 0 <= i < s.len() && is_digit(s[i]) {
        let num2 = num * 10 + (s[i] - 48);
        let den2 = den * 10;
        if num2 >= BOUND || den2 >= BOUND {
            None
        } else {
            spec_frac(s, i + 1, num2, den2)
        }
    } else {
        Some((num, den, i))
    }
}

/// A numeric literal: digits, optionally followed by "." and more digits.
/// Produces the literal's value as a normalised `Ratio`.
pub open spec fn spec_number(s: Seq<u8>, i: int) -> Option<(Ratio, int)> {
    if 0 <= i < s.len() && is_digit(s[i]) {
        match spec_digits(s, i, 0) {
            None => None,
            Some((n1, j)) => if j < s.len() && s[j] == 46 && j + 1 < s.len() && is_digit(
                s[j + 1],
            ) {
                match spec_frac(s, j + 1, n1, 1) {
                    None => None,
                    Some((n2, den, k)) => match spec_make(n2, den) {
                        None => None,
                        Some(r) => Some((r, k)),
                    },
                }
            } else {
                match spec_make(n1, 1) {
                    None => None,
                    Some(r) => Some((r, j)),
                }
            },
        }
    } else {
        None
    }
}

/// End of the identifier whose continuation bytes start at `i`.
pub open spec fn spec_ident_end(s: Seq<u8>, i: int) -> int
    decreases s.len() - i,
{
    if 0 <= i < s.len() && is_ident_cont(s[i]) {
        spec_ident_end(s, i + 1)
    } else {
        i
    }
}

/// factor := number | identifier | "(" expression ")" | "-" factor,
/// with leading whitespace skipped and nesting limited by `depth`.
pub open spec fn spec_factor(s: Seq<u8>, i: int, depth: int) -> Option<(Expr, int)>
    decreases s.len() - i, 0int,
{
    if depth <= 0 || !(0 <= i <= s.len()) {
        None
    } else {
        let j = clamp_pos(i, spec_skip_ws(s, i), s.len() as int);
        if j < s.len() && s[j] == 45 {
            match spec_factor(s, j + 1, depth - 1) {
                None => None,
                Some((e, k)) => Some((Expr::Neg(Box::new(e)), k)),
            }
        } else if j < s.len() && s[j] == 40 {
            match spec_expr(s, j + 1, depth - 1) {
                None => None,
                Some((e, k)) => {
                    let m = clamp_pos(
                        j + 1,
                        spec_skip_ws(s, clamp_pos(j + 1, k, s.len() as int)),
                        s.len() as int,
                    );
                    if m < s.len() && s[m] == 41 {
                        Some((e, m + 1))
                    } else {
                        None
                    }
                },
            }
        } else if j < s.len() && is_digit(s[j]) {
            match spec_number(s, j) {
                None => None,
                Some((r, k)) => Some((Expr::Num(r), k)),
            }
        } else if j < s.len() && is_ident_start(s[j]) {
            let hi = clamp_pos(j + 1, spec_ident_end(s, j + 1), s.len() as int);
            Some((Expr::Var { lo: j as usize, hi: hi as usize }, hi))
        } else {
            None
        }
    }
}

/// The iterated part of a term: ("*" | "/") factor, folded left onto `acc`.
pub open spec fn spec_term_tail(s: Seq<u8>, i: int, acc: Expr, depth: int) -> Option<(Expr, int)>
    decreases s.len() - i, 1int,
{
    if !(0 <= i <= s.len()) {
        None
    } else {
        let j = clamp_pos(i, spec_skip_ws(s, i), s.len() as int);
        if j < s.len() && (s[j] == 42 || s[j] == 47) {
            match spec_factor(s, j + 1, depth) {
                None => Some((acc, i)),
                Some((rhs, k)) => {
                    let k2 = clamp_pos(i + 1, k, s.len() as int);
                    let acc2 = if s[j] == 42 {
                        Expr::Mul(Box::new(acc), Box::new(rhs))
                    } else {
                        Expr::Div(Box::new(acc), Box::new(rhs))
                    };
                    spec_term_tail(s, k2, acc2, depth)
                },
            }
        } else {
            Some((acc, i))
        }
    }
}

/// term := factor (("*" | "/") factor)*.
pub open spec fn spec_term(s: Seq<u8>, i: int, depth: int) -> Option<(Expr, int)>
    decreases s.len() - i, 2int,
{
    if !(0 <= i <= s.len()) {
        None
    } else {
        match spec_factor(s, i, depth) {
            None => None,
            Some((e, j)) => spec_term_tail(s, clamp_pos(i, j, s.len() as int), e, depth),
        }
    }
}

/// The iterated part of an expression: ("+" | "-") term, folded left.
pub open spec fn spec_expr_tail(s: Seq<u8>, i: int, acc: Expr, depth: int) -> Option<(Expr, int)>
    decreases s.len() - i, 3int,
{
    if !(0 <= i <= s.len()) {
        None
    } else {
        let j = clamp_pos(i, spec_skip_ws(s, i), s.len() as int);
        if j < s.len() && (s[j] == 43 || s[j] == 45) {
            match spec_term(s, j + 1, depth) {
                None => Some((acc, i)),
                Some((rhs, k)) => {
                    let k2 = clamp_pos(i + 1, k, s.len() as int);
                    let acc2 = if s[j] == 43 {
                        Expr::Add(Box::new(acc), Box::new(rhs))
                    } else {
                        Expr::Sub(Box::new(acc), Box::new(rhs))
                    };
                    spec_expr_tail(s, k2, acc2, depth)
                },
            }
        } else {
            Some((acc, i))
        }
    }
}

/// expression := term (("+" | "-") term)*.
pub open spec fn spec_expr(s: Seq<u8>, i: int, depth: int) -> Option<(Expr, int)>
    decreases s.len() - i, 4int,
{
    if !(0 <= i <= s.len()) {
        None
    } else {
        match spec_term(s, i, depth) {
            None => None,
            Some((e, j)) => spec_expr_tail(s, clamp_pos(i, j, s.len() as int), e, depth),
        }
    }
}

/// stmt := assignment | expression. An identifier followed by "=" starts
/// an assignment; anything else is parsed as a bare expression.
pub open spec fn spec_stmt(s: Seq<u8>, i: int) -> Option<(Stmt, int)>
    decreases s.len() - i, 5int,
{
    if !(0 <= i <= s.len()) {
        None
    } else {
        let j = clamp_pos(i, spec_skip_ws(s, i), s.len() as int);
        let assign = if j < s.len() && is_ident_start(s[j]) {
            let hi = clamp_pos(j + 1, spec_ident_end(s, j + 1), s.len() as int);
            let m = clamp_pos(hi, spec_skip_ws(s, hi), s.len() as int);
            if m < s.len() && s[m] == 61 {
                match spec_expr(s, m + 1, MAX_DEPTH as int) {
                    None => None,
                    Some((e, k)) => Some(
                        (Stmt::Assign { lo: j as usize, hi: hi as usize, rhs: e }, k),
                    ),
                }
            } else {
                None
            }
        } else {
            None
        };
        match assign {
            Some(st) => Some(st),
            None => match spec_expr(s, i, MAX_DEPTH as int) {
                None => None,
                Some((e, k)) => Some((Stmt::Expr(e), k)),
            },
        }
    }
}

/// The batch: statements separated by one or more separators, with leading
/// and trailing separators permitted. Returns the statements parsed and the
/// position of the first byte that could not be consumed (the length of the
/// text when everything was consumed).
pub open spec fn spec_stmts(s: Seq<u8>, i: int, acc: Seq<Stmt>) -> (Seq<Stmt>, int)
    decreases s.len() - i, 6int,
{
    if !(0 <= i <= s.len()) {
        (acc, i)
    } else {
        let j = clamp_pos(i, spec_skip_seps(s, i), s.len() as int);
        if j >= s.len() {
            (acc, j)
        } else {
            match spec_stmt(s, j) {
                None => (acc, j),
                Some((st, k)) => {
                    let k2 = clamp_pos(j, k, s.len() as int);
                    let m = clamp_pos(k2, spec_skip_ws(s, k2), s.len() as int);
                    if m >= s.len() {
                        (acc.push(st), m)
                    } else if is_sep(s[m]) {
                        spec_stmts(s, m + 1, acc.push(st))
                    } else {
                        (acc.push(st), m)
                    }
                },
            }
        }
    }
}

/// The whole batch, from the start of the text.
pub open spec fn spec_parse(s: Seq<u8>) -> (Seq<Stmt>, int) {
    spec_stmts(s, 0, Seq::empty())
}

/// The batch parses completely when no unconsumed byte remains.
pub open spec fn spec_parse_total(s: Seq<u8>) -> bool {
    spec_parse(s).1 == s.len()
}

fn byte_is_space(b: u8) -> (r: bool)
    ensures
        r == is_space(b),
{
    b == 32 || b == 9 || b == 13
}

fn byte_is_sep(b: u8) -> (r: bool)
    ensures
        r == is_sep(b),
{
    b == 10 || b == 59
}

fn byte_is_digit(b: u8) -> (r: bool)
    ensures
        r == is_digit(b),
{
    48 <= b && b <= 57
}

fn byte_is_ident_start(b: u8) -> (r: bool)
    ensures
        r == is_ident_start(b),
{
    (65 <= b && b <= 90) || (97 <= b && b <= 122) || b == 95
}

fn byte_is_ident_cont(b: u8) -> (r: bool)
    ensures
        r == is_ident_cont(b),
{
    byte_is_ident_start(b) || byte_is_digit(b)
}

fn skip_ws(s: &[u8], i: usize) -> (r: usize)
    requires
        i <= s@.len(),
    ensures
        r == spec_skip_ws(s@, i as int),
        i <= r <= s@.len(),
{
    let mut j = i;
    while j < s.len() && byte_is_space(s[j])
        invariant
            i <= j <= s@.len(),
            spec_skip_ws(s@, i as int) == spec_skip_ws(s@, j as int),
        decreases s@.len() - j,
    {
        j = j + 1;
    }
    j
}

fn skip_seps(s: &[u8], i: usize) -> (r: usize)
    requires
        i <= s@.len(),
    ensures
        r == spec_skip_seps(s@, i as int),
        i <= r <= s@.len(),
{
    let mut j = i;
    while j < s.len() && (byte_is_space(s[j]) || byte_is_sep(s[j]))
        invariant
            i <= j <= s@.len(),
            spec_skip_seps(s@, i as int) == spec_skip_seps(s@, j as int),
        decreases s@.len() - j,
    {
        j = j + 1;
    }
    j
}

fn scan_digits(s: &[u8], i: usize, acc: i128) -> (r: Option<(i128, usize)>)
    requires
        i <= s@.len(),
        0 <= acc < BOUND,
    ensures
        match r {
            Some((a, j)) => {
                &&& spec_digits(s@, i as int, acc as int) == Some((a as int, j as int))
                &&& i <= j <= s@.len()
                &&& 0 <= a < BOUND
            },
            None => spec_digits(s@, i as int, acc as int) is None,
        },
{
    let mut j = i;
    let mut a = acc;
    while j < s.len() && byte_is_digit(s[j])
        invariant
            i <= j <= s@.len(),
            0 <= a < BOUND,
            spec_digits(s@, i as int, acc as int) == spec_digits(s@, j as int, a as int),
        decreases s@.len() - j,
    {
        let a2: i128 = a * 10 + ((s[j] - 48) as i128);
        if a2 >= BOUND {
            return None;
        }
        a = a2;
        j = j + 1;
    }
    Some((a, j))
}

fn scan_frac(s: &[u8], i: usize, num: i128, den: i128) -> (r: Option<(i128, i128, usize)>)
    requires
        i <= s@.len(),
        0 <= num < BOUND,
        1 <= den < BOUND,
    ensures
        match r {
            Some((n, d, j)) => {
                &&& spec_frac(s@, i as int, num as int, den as int) == Some(
                    (n as int, d as int, j as int),
                )
                &&& i <= j <= s@.len()
                &&& 0 <= n < BOUND
                &&& 1 <= d < BOUND
            },
            None => spec_frac(s@, i as int, num as int, den as int) is None,
        },
{
    let mut j = i;
    let mut n = num;
    let mut d = den;
    while j < s.len() && byte_is_digit(s[j])
        invariant
            i <= j <= s@.len(),
            0 <= n < BOUND,
            1 <= d < BOUND,
            spec_frac(s@, i as int, num as int, den as int) == spec_frac(
                s@,
                j as int,
                n as int,
                d as int,
            ),
        decreases s@.len() - j,
    {
        let n2: i128 = n * 10 + ((s[j] - 48) as i128);
        let d2: i128 = d * 10;
        if n2 >= BOUND || d2 >= BOUND {
            return None;
        }
        n = n2;
        d = d2;
        j = j + 1;
    }
    Some((n, d, j))
}

fn p_number(s: &[u8], i: usize) -> (r: Option<(Ratio, usize)>)
    requires
        i <= s@.len(),
    ensures
        match r {
            Some((v, j)) => {
                &&& spec_number(s@, i as int) == Some((v, j as int))
                &&& i <= j <= s@.len()
            },
            None => spec_number(s@, i as int) is None,
        },
{
    if !(i < s.len() && byte_is_digit(s[i])) {
        return None;
    }
    match scan_digits(s, i, 0) {
        None => None,
        Some((n1, j)) => {
            if j < s.len() && s[j] == 46 && j + 1 < s.len() && byte_is_digit(s[j + 1]) {
                match scan_frac(s, j + 1, n1, 1) {
                    None => None,
                    Some((n2, den, k)) => match make_ratio(n2, den) {
                        None => None,
                        Some(v) => Some((v, k)),
                    },
                }
            } else {
                match make_ratio(n1, 1) {
                    None => None,
                    Some(v) => Some((v, j)),
                }
            }
        },
    }
}

fn ident_end(s: &[u8], i: usize) -> (r: usize)
    requires
        i <= s@.len(),
    ensures
        r == spec_ident_end(s@, i as int),
        i <= r <= s@.len(),
{
    let mut j = i;
    while j < s.len() && byte_is_ident_cont(s[j])
        invariant
            i <= j <= s@.len(),
            spec_ident_end(s@, i as int) == spec_ident_end(s@, j as int),
        decreases s@.len() - j,
    {
        j = j + 1;
    }
    j
}

fn p_factor(s: &[u8], i: usize, depth: usize) -> (r: Option<(Expr, usize)>)
    requires
        i <= s@.len(),
    ensures
        match r {
            Some((e, j)) => {
                &&& spec_factor(s@, i as int, depth as int) == Some((e, j as int))
                &&& i <= j <= s@.len()
            },
            None => spec_factor(s@, i as int, depth as int) is None,
        },
    decreases s@.len() - i, 0int,
{
    if depth == 0 {
        return None;
    }
    let j = skip_ws(s, i);
    if j < s.len() && s[j] == 45 {
        match p_factor(s, j + 1, depth - 1) {
            None => None,
            Some((e, k)) => Some((Expr::Neg(Box::new(e)), k)),
        }
    } else if j < s.len() && s[j] == 40 {
        match p_expr(s, j + 1, depth - 1) {
            None => None,
            Some((e, k)) => {
                let m = skip_ws(s, k);
                if m < s.len() && s[m] == 41 {
                    Some((e, m + 1))
                } else {
                    None
                }
            },
        }
    } else if j < s.len() && byte_is_digit(s[j]) {
        match p_number(s, j) {
            None => None,
            Some((v, k)) => Some((Expr::Num(v), k)),
        }
    } else if j < s.len() && byte_is_ident_start(s[j]) {
        let hi = ident_end(s, j + 1);
        Some((Expr::Var { lo: j, hi }, hi))
    } else {
        None
    }
}

fn p_term_tail(s: &[u8], i: usize, acc: Expr, depth: usize) -> (r: Option<(Expr, usize)>)
    requires
        i <= s@.len(),
    ensures
        match r {
            Some((e, j)) => {
                &&& spec_term_tail(s@, i as int, acc, depth as int) == Some((e, j as int))
                &&& i <= j <= s@.len()
            },
            None => spec_term_tail(s@, i as int, acc, depth as int) is None,
        },
    decreases s@.len() - i, 1int,
{
    let j = skip_ws(s, i);
    if j < s.len() && (s[j] == 42 || s[j] == 47) {
        let is_mul = s[j] == 42;
        match p_factor(s, j + 1, depth) {
            None => Some((acc, i)),
            Some((rhs, k)) => {
                let acc2 = if is_mul {
                    Expr::Mul(Box::new(acc), Box::new(rhs))
                } else {
                    Expr::Div(Box::new(acc), Box::new(rhs))
                };
                p_term_tail(s, k, acc2, depth)
            },
        }
    } else {
        Some((acc, i))
    }
}

fn p_term(s: &[u8], i: usize, depth: usize) -> (r: Option<(Expr, usize)>)
    requires
        i <= s@.len(),
    ensures
        match r {
            Some((e, j)) => {
                &&& spec_term(s@, i as int, depth as int) == Some((e, j as int))
                &&& i <= j <= s@.len()
            },
            None => spec_term(s@, i as int, depth as int) is None,
        },
    decreases s@.len() - i, 2int,
{
    match p_factor(s, i, depth) {
        None => None,
        Some((e, j)) => p_term_tail(s, j, e, depth),
    }
}

fn p_expr_tail(s: &[u8], i: usize, acc: Expr, depth: usize) -> (r: Option<(Expr, usize)>)
    requires
        i <= s@.len(),
    ensures
        match r {
            Some((e, j)) => {
                &&& spec_expr_tail(s@, i as int, acc, depth as int) == Some((e, j as int))
                &&& i <= j <= s@.len()
            },
            None => spec_expr_tail(s@, i as int, acc, depth as int) is None,
        },
    decreases s@.len() - i, 3int,
{
    let j = skip_ws(s, i);
    if j < s.len() && (s[j] == 43 || s[j] == 45) {
        let is_add = s[j] == 43;
        match p_term(s, j + 1, depth) {
            None => Some((acc, i)),
            Some((rhs, k)) => {
                let acc2 = if is_add {
                    Expr::Add(Box::new(acc), Box::new(rhs))
                } else {
                    Expr::Sub(Box::new(acc), Box::new(rhs))
                };
                p_expr_tail(s, k, acc2, depth)
            },
        }
    } else {
        Some((acc, i))
    }
}

fn p_expr(s: &[u8], i: usize, depth: usize) -> (r: Option<(Expr, usize)>)
    requires
        i <= s@.len(),
    ensures
        match r {
            Some((e, j)) => {
                &&& spec_expr(s@, i as int, depth as int) == Some((e, j as int))
                &&& i <= j <= s@.len()
            },
            None => spec_expr(s@, i as int, depth as int) is None,
        },
    decreases s@.len() - i, 4int,
{
    match p_term(s, i, depth) {
        None => None,
        Some((e, j)) => p_expr_tail(s, j, e, depth),
    }
}

fn p_stmt(s: &[u8], i: usize) -> (r: Option<(Stmt, usize)>)
    requires
        i <= s@.len(),
    ensures
        match r {
            Some((st, j)) => {
                &&& spec_stmt(s@, i as int) == Some((st, j as int))
                &&& i <= j <= s@.len()
            },
            None => spec_stmt(s@, i as int) is None,
        },
{
    let j = skip_ws(s, i);
    if j < s.len() && byte_is_ident_start(s[j]) {
        let hi = ident_end(s, j + 1);
        let m = skip_ws(s, hi);
        if m < s.len() && s[m] == 61 {
            match p_expr(s, m + 1, MAX_DEPTH) {
                None => {},
                Some((e, k)) => {
                    return Some((Stmt::Assign { lo: j, hi, rhs: e }, k));
                },
            }
        }
    }
    match p_expr(s, i, MAX_DEPTH) {
        None => None,
        Some((e, k)) => Some((Stmt::Expr(e), k)),
    }
}

/// Parse a whole batch. Returns the parsed statements and the position of
/// the first byte of the text that was not consumed; the batch was parsed
/// completely exactly when that position equals the text's length in bytes.
pub fn parse_stmt_list(text: &str) -> (r: (Vec<Stmt>, usize))
    ensures
        r.0@ == spec_parse(text.spec_bytes()).0,
        r.1 as int == spec_parse(text.spec_bytes()).1,
        r.1 <= text.spec_bytes().len(),
{
    let s = text.as_bytes();
    let mut acc: Vec<Stmt> = Vec::new();
    let mut i: usize = 0;
    loop
        invariant
            i <= s@.len(),
            s@ == text.spec_bytes(),
            spec_parse(s@) == spec_stmts(s@, i as int, acc@),
        decreases s@.len() - i,
    {
        let j = skip_seps(s, i);
        if j >= s.len() {
            return (acc, j);
        }
        match p_stmt(s, j) {
            None => {
                return (acc, j);
            },
            Some((st, k)) => {
                let m = skip_ws(s, k);
                if m >= s.len() {
                    acc.push(st);
                    return (acc, m);
                } else if byte_is_sep(s[m]) {
                    acc.push(st);
                    i = m + 1;
                } else {
                    acc.push(st);
                    return (acc, m);
                }
            },
        }
    }
}

} // verus!
