use precise_calc::context::Context;
use precise_calc::error::{EvalError, ParseError};
use precise_calc::eval::eval_stmt;
use precise_calc::parser::parse_stmt_list;
use precise_calc::ratio::{make_ratio, ratio_add, Ratio};

#[test]
fn parse_reports_leftover_position() {
    let text = "2 + 3";
    let (stmts, pos) = parse_stmt_list(text);
    assert_eq!(stmts.len(), 1);
    assert_eq!(pos, text.len());

    let bad = "2 +";
    let (_, bad_pos) = parse_stmt_list(bad);
    assert!(bad_pos < bad.len());
}

#[test]
fn eval_stmt_updates_the_context() {
    let text = "x = 5";
    let (stmts, pos) = parse_stmt_list(text);
    assert_eq!(pos, text.len());
    let mut ctx = Context::new();
    let v = eval_stmt(&stmts[0], text, &mut ctx).expect("assignment should succeed");
    assert_eq!(v.num, 5);
    assert_eq!(v.den, 1);
    let bound = ctx.get(b"x").expect("x should now be bound");
    assert_eq!(bound.num, 5);
    assert_eq!(bound.den, 1);
    assert!(ctx.get(b"y").is_none());
}

#[test]
fn expression_statement_reads_only() {
    let text = "1 + 1";
    let (stmts, pos) = parse_stmt_list(text);
    assert_eq!(pos, text.len());
    let mut ctx = Context::new();
    let v = eval_stmt(&stmts[0], text, &mut ctx).expect("expression should succeed");
    assert_eq!((v.num, v.den), (2, 1));
}

#[test]
fn make_ratio_reduces() {
    let r = make_ratio(6, 4).expect("small components cannot overflow");
    assert_eq!((r.num, r.den), (3, 2));
    let z = make_ratio(0, 7).expect("zero reduces");
    assert_eq!((z.num, z.den), (0, 1));
    let n = make_ratio(-6, 4).expect("sign is kept on the numerator");
    assert_eq!((n.num, n.den), (-3, 2));
}

#[test]
fn ratio_add_is_exact() {
    let a = make_ratio(1, 10).unwrap();
    let b = make_ratio(2, 10).unwrap();
    let c = ratio_add(&a, &b).expect("no overflow");
    assert_eq!((c.num, c.den), (3, 10));
}

#[test]
fn value_display_strings() {
    let r = make_ratio(-7, 2).unwrap();
    assert_eq!(r.display(), "-7/2");
    let w = make_ratio(40, 4).unwrap();
    assert_eq!(w.display(), "10");
    let z = Ratio::zero();
    assert_eq!(z.display(), "0");
}

#[test]
fn error_display_strings() {
    assert_eq!(EvalError::DivisionByZero.display(), "Error: division by zero");
    assert_eq!(EvalError::Overflow.display(), "Error: numeric overflow");
    assert_eq!(
        EvalError::UnboundVariable(b"y".to_vec()).display(),
        "Error: unbound variable 'y'"
    );
    assert_eq!(ParseError.display(), "Error: parse error");
}

#[test]
fn division_by_zero_error_from_eval() {
    let text = "1 / 0";
    let (stmts, pos) = parse_stmt_list(text);
    assert_eq!(pos, text.len());
    let mut ctx = Context::new();
    let err = eval_stmt(&stmts[0], text, &mut ctx).expect_err("division by zero");
    assert!(matches!(err, EvalError::DivisionByZero));
}
