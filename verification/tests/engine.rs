use precise_calc::batch::eval_batch;

fn run(text: &str) -> Vec<String> {
    eval_batch(text).expect("batch should parse completely")
}

#[test]
fn single_addition() {
    assert_eq!(run("2 + 3"), vec!["5"]);
}

#[test]
fn assignment_then_use() {
    assert_eq!(run("x = 10\nx * 2"), vec!["10", "20"]);
}

#[test]
fn unbound_variable() {
    assert_eq!(run("y + 1"), vec!["Error: unbound variable 'y'"]);
}

#[test]
fn division_by_zero() {
    assert_eq!(run("1 / 0"), vec!["Error: division by zero"]);
}

#[test]
fn malformed_batch_is_one_parse_failure() {
    assert!(eval_batch("2 +").is_err());
}

#[test]
fn determinism_same_text_same_results() {
    let text = "a = 3\na * a - 1\nb";
    assert_eq!(run(text), run(text));
    assert_eq!(run(text), vec!["3", "8", "Error: unbound variable 'b'"]);
}

#[test]
fn precision_exact_decimal_addition() {
    // 0.1 + 0.2 is exactly 0.3: both render as the reduced fraction 3/10.
    assert_eq!(run("0.1 + 0.2"), run("0.3"));
    assert_eq!(run("0.1 + 0.2"), vec!["3/10"]);
}

#[test]
fn decimal_literal_reduces() {
    assert_eq!(run("0.5"), vec!["1/2"]);
    assert_eq!(run("2.50"), vec!["5/2"]);
    assert_eq!(run("10.0"), vec!["10"]);
}

#[test]
fn precedence_and_associativity() {
    assert_eq!(run("2 + 3 * 4"), vec!["14"]);
    assert_eq!(run("2 - 3 - 4"), vec!["-5"]);
    assert_eq!(run("20 / 2 / 5"), vec!["2"]);
    assert_eq!(run("2 * (3 + 4)"), vec!["14"]);
}

#[test]
fn unary_minus() {
    assert_eq!(run("-5"), vec!["-5"]);
    assert_eq!(run("2 * -3"), vec!["-6"]);
    assert_eq!(run("-(2 + 3)"), vec!["-5"]);
    assert_eq!(run("--4"), vec!["4"]);
}

#[test]
fn fraction_results() {
    assert_eq!(run("7 / 2"), vec!["7/2"]);
    assert_eq!(run("1 / 3"), vec!["1/3"]);
    assert_eq!(run("4 / 2"), vec!["2"]);
    assert_eq!(run("1 / 3 + 1 / 6"), vec!["1/2"]);
    assert_eq!(run("-7 / 2"), vec!["-7/2"]);
}

#[test]
fn failed_assignment_leaves_name_unbound() {
    assert_eq!(
        run("x = 1 / 0\nx"),
        vec!["Error: division by zero", "Error: unbound variable 'x'"]
    );
}

#[test]
fn later_statements_run_after_an_error() {
    assert_eq!(
        run("1 / 0\n2 + 2"),
        vec!["Error: division by zero", "4"]
    );
}

#[test]
fn assignment_shadows_earlier_binding() {
    assert_eq!(run("x = 1\nx = x + 1\nx"), vec!["1", "2", "2"]);
}

#[test]
fn names_are_case_sensitive() {
    assert_eq!(run("A = 1\na"), vec!["1", "Error: unbound variable 'a'"]);
}

#[test]
fn separators_and_whitespace() {
    assert_eq!(run("1;2;;3\n\n4;"), vec!["1", "2", "3", "4"]);
    assert_eq!(run("  \n ; "), Vec::<String>::new());
    assert_eq!(run(""), Vec::<String>::new());
}

#[test]
fn missing_separator_fails_the_batch() {
    assert!(eval_batch("1 2").is_err());
}

#[test]
fn order_one_result_per_statement() {
    let results = run("1\n2\n3\nq\n5");
    assert_eq!(results.len(), 5);
    assert_eq!(results[3], "Error: unbound variable 'q'");
    assert_eq!(results[4], "5");
}

#[test]
fn identifiers_with_digits_and_underscores() {
    assert_eq!(run("my_var2 = 8\nmy_var2 / 4"), vec!["8", "2"]);
    assert_eq!(run("_x = 1\n_x"), vec!["1", "1"]);
}

#[test]
fn double_negation_in_subtraction() {
    assert_eq!(run("2 - -3"), vec!["5"]);
    assert_eq!(run("5 -3"), vec!["2"]);
}

#[test]
fn dangling_operators_fail_the_batch() {
    assert!(eval_batch("2 + + 3").is_err());
    assert!(eval_batch("()").is_err());
    assert!(eval_batch("1.").is_err());
    assert!(eval_batch(".5").is_err());
    assert!(eval_batch("x =").is_err());
}

#[test]
fn tabs_and_carriage_returns_are_whitespace() {
    assert_eq!(run("\t1 +\t2\r\n3"), vec!["3", "3"]);
}

#[test]
fn numeric_overflow_is_reported() {
    assert_eq!(
        run("9000000000000000000 * 9000000000000000000"),
        vec!["Error: numeric overflow"]
    );
}

#[test]
fn oversized_literal_fails_the_parse() {
    assert!(eval_batch("99999999999999999999").is_err());
}

#[test]
fn deep_nesting_is_rejected() {
    let mut deep = String::new();
    for _ in 0..100 {
        deep.push('(');
    }
    deep.push('1');
    for _ in 0..100 {
        deep.push(')');
    }
    assert!(eval_batch(&deep).is_err());

    let mut shallow = String::new();
    for _ in 0..10 {
        shallow.push('(');
    }
    shallow.push('1');
    for _ in 0..10 {
        shallow.push(')');
    }
    assert_eq!(run(&shallow), vec!["1"]);
}
