use rlox::RunOutcome;
use rlox::error::LoxRuntimeException;
use rlox::interpreter::Interpreter;
use rlox::run;

const FUEL: u64 = 1_000_000;

fn run_at(source: &str, now_millis: u64) -> (Vec<String>, RunOutcome) {
    let mut interpreter = Interpreter::new(now_millis);
    let outcome = run(source, &mut interpreter, FUEL);
    (interpreter.output, outcome)
}

fn run_src(source: &str) -> (Vec<String>, RunOutcome) {
    run_at(source, 0)
}

fn output_of(source: &str) -> Vec<String> {
    let (output, outcome) = run_src(source);
    assert!(matches!(outcome, RunOutcome::Success), "run did not succeed");
    output
}

fn runtime_error_of(source: &str) -> String {
    let (_, outcome) = run_src(source);
    match outcome {
        RunOutcome::RuntimeError(LoxRuntimeException::Error(m)) => m,
        _ => panic!("expected a runtime error"),
    }
}

#[test]
fn precedence_product_before_sum() {
    assert_eq!(output_of("print 1 + 2 * 3;"), vec!["7".to_string()]);
}

#[test]
fn sum_of_variables() {
    assert_eq!(output_of("var a = 1; var b = 2; print a + b;"), vec!["3".to_string()]);
}

#[test]
fn string_concatenation() {
    assert_eq!(
        output_of("var a = \"foo\"; var b = \"bar\"; print a + b;"),
        vec!["\"foobar\"".to_string()],
    );
}

#[test]
fn function_call_returns() {
    assert_eq!(
        output_of("fun add(x, y) { return x + y; } print add(2, 3);"),
        vec!["5".to_string()],
    );
}

#[test]
fn counter_closure_observes_mutation() {
    let source = "fun makeCounter() { var i = 0; fun count() { i = i + 1; return i; } \
                  return count; } var c = makeCounter(); print c(); print c();";
    assert_eq!(output_of(source), vec!["1".to_string(), "2".to_string()]);
}

#[test]
fn for_loop_prints_each_index() {
    assert_eq!(
        output_of("for (var i = 0; i < 3; i = i + 1) print i;"),
        vec!["0".to_string(), "1".to_string(), "2".to_string()],
    );
}

#[test]
fn plus_on_mixed_operands_fails() {
    assert_eq!(
        runtime_error_of("print \"hi\" + 1;"),
        "Operands must be two numbers or two strings.",
    );
}

#[test]
fn undefined_variable_fails() {
    assert_eq!(runtime_error_of("print undefined;"), "Undefined variable undefined");
}

#[test]
fn assignment_yields_assigned_value() {
    assert_eq!(output_of("var a; print a = 3;"), vec!["3".to_string()]);
}

#[test]
fn and_skips_right_when_left_falsy() {
    let source = "var called = \"no\"; fun mark() { called = \"yes\"; return true; } \
                  var r = false and mark(); print called; print r;";
    assert_eq!(output_of(source), vec!["\"no\"".to_string(), "false".to_string()]);
}

#[test]
fn or_skips_right_when_left_truthy() {
    let source = "var called = \"no\"; fun mark() { called = \"yes\"; return true; } \
                  var r = 7 or mark(); print called; print r;";
    assert_eq!(output_of(source), vec!["\"no\"".to_string(), "7".to_string()]);
}

#[test]
fn and_evaluates_right_when_left_truthy() {
    let source = "var called = \"no\"; fun mark() { called = \"yes\"; return 3; } \
                  print true and mark(); print called;";
    assert_eq!(output_of(source), vec!["3".to_string(), "\"yes\"".to_string()]);
}

#[test]
fn truthiness_of_each_kind() {
    let source = "if (nil) print 1; else print 0; \
                  if (false) print 1; else print 0; \
                  if (0) print 1; else print 0; \
                  if (\"\") print 1; else print 0; \
                  if (true) print 1; else print 0;";
    assert_eq!(
        output_of(source),
        vec![
            "0".to_string(),
            "0".to_string(),
            "1".to_string(),
            "1".to_string(),
            "1".to_string(),
        ],
    );
}

#[test]
fn shadowing_keeps_outer_binding() {
    assert_eq!(
        output_of("var a = 1; { var a = 2; print a; } print a;"),
        vec!["2".to_string(), "1".to_string()],
    );
}

#[test]
fn number_display_forms() {
    assert_eq!(
        output_of("print 3.5; print 7; print 7.0; print 7 / 2; print 0 - 3.5;"),
        vec![
            "3.50".to_string(),
            "7".to_string(),
            "7".to_string(),
            "3.50".to_string(),
            "-3.50".to_string(),
        ],
    );
}

#[test]
fn division_by_zero_follows_ieee() {
    assert_eq!(
        output_of("print 1 / 0; print 0 - 1 / 0; print 0 / 0;"),
        vec!["inf".to_string(), "-inf".to_string(), "NaN".to_string()],
    );
}

#[test]
fn nan_is_not_equal_to_itself() {
    assert_eq!(
        output_of("var n = 0 / 0; print n == n; print n != n;"),
        vec!["false".to_string(), "true".to_string()],
    );
}

#[test]
fn equality_across_kinds() {
    let source = "print nil == nil; print 1 == 1; print 1 == 2; \
                  print \"a\" == \"a\"; print \"a\" == \"b\"; \
                  print true == true; print 1 == \"1\"; print nil == false;";
    assert_eq!(
        output_of(source),
        vec![
            "true".to_string(),
            "true".to_string(),
            "false".to_string(),
            "true".to_string(),
            "false".to_string(),
            "true".to_string(),
            "false".to_string(),
            "false".to_string(),
        ],
    );
}

#[test]
fn comparisons_on_numbers() {
    assert_eq!(
        output_of("print 1 < 2; print 2 <= 2; print 3 > 4; print 4 >= 4;"),
        vec![
            "true".to_string(),
            "true".to_string(),
            "false".to_string(),
            "true".to_string(),
        ],
    );
}

#[test]
fn comparison_on_string_fails() {
    assert_eq!(runtime_error_of("print \"a\" < 1;"), "\"a\" is not a number");
}

#[test]
fn arity_mismatch_fails() {
    assert_eq!(
        runtime_error_of("fun f(a) { return a; } f(1, 2);"),
        "Function f expected 1 arguments but got 2.",
    );
}

#[test]
fn calling_a_number_fails() {
    assert_eq!(runtime_error_of("var a = 1; a();"), "Can only call functions and classes");
}

#[test]
fn return_outside_function_is_reported() {
    let (_, outcome) = run_src("return 5;");
    match outcome {
        RunOutcome::RuntimeError(e) => {
            assert_eq!(e.to_display_string(), "Runtime error: 'return' outside function");
        },
        _ => panic!("expected a runtime error"),
    }
}

#[test]
fn function_without_return_yields_nil() {
    assert_eq!(output_of("fun f() { } print f();"), vec!["nil".to_string()]);
}

#[test]
fn callable_display_form() {
    assert_eq!(
        output_of("fun f() { } print f; print clock;"),
        vec!["<fn f>".to_string(), "<fn clock>".to_string()],
    );
}

#[test]
fn clock_reports_injected_seconds() {
    let (output, outcome) = run_at("print clock();", 5000);
    assert!(matches!(outcome, RunOutcome::Success));
    assert_eq!(output, vec!["5".to_string()]);
}

#[test]
fn clock_fractional_seconds() {
    let (output, outcome) = run_at("print clock();", 1250);
    assert!(matches!(outcome, RunOutcome::Success));
    assert_eq!(output, vec!["1.25".to_string()]);
}

#[test]
fn while_loop_counts_down() {
    assert_eq!(
        output_of("var i = 3; while (i > 0) { print i; i = i - 1; }"),
        vec!["3".to_string(), "2".to_string(), "1".to_string()],
    );
}

#[test]
fn runaway_recursion_exhausts_fuel() {
    let mut interpreter = Interpreter::new(0);
    let outcome = run("fun f() { f(); } f();", &mut interpreter, 100);
    match outcome {
        RunOutcome::RuntimeError(LoxRuntimeException::Error(m)) => {
            assert_eq!(m, "Stack overflow");
        },
        _ => panic!("expected the fuel to run out"),
    }
}

#[test]
fn global_state_survives_across_runs() {
    let mut interpreter = Interpreter::new(0);
    let first = run("var a = 40;", &mut interpreter, FUEL);
    assert!(matches!(first, RunOutcome::Success));
    let second = run("print a + 2;", &mut interpreter, FUEL);
    assert!(matches!(second, RunOutcome::Success));
    assert_eq!(interpreter.output, vec!["42".to_string()]);
}

#[test]
fn dangling_else_binds_to_nearest_if() {
    assert_eq!(
        output_of("if (true) if (false) print 1; else print 2;"),
        vec!["2".to_string()],
    );
}

#[test]
fn recursion_computes_factorial() {
    assert_eq!(
        output_of("fun fact(n) { if (n <= 1) return 1; return n * fact(n - 1); } print fact(5);"),
        vec!["120".to_string()],
    );
}

#[test]
fn number_with_trailing_dot_parses() {
    assert_eq!(output_of("print 123.;"), vec!["123".to_string()]);
}

#[test]
fn for_loop_without_initializer() {
    assert_eq!(
        output_of("var i = 0; for (; i < 2; i = i + 1) print i;"),
        vec!["0".to_string(), "1".to_string()],
    );
}

#[test]
fn blocks_discard_their_scope() {
    assert_eq!(
        runtime_error_of("{ var a = 1; } print a;"),
        "Undefined variable a",
    );
}

#[test]
fn nested_closures_share_the_captured_scope() {
    let source = "fun outer() { var n = 0; fun bump() { n = n + 1; } fun read() { return n; } \
                  bump(); bump(); return read; } var r = outer(); print r();";
    assert_eq!(output_of(source), vec!["2".to_string()]);
}

#[test]
fn string_comparison_is_by_content() {
    assert_eq!(
        output_of("var a = \"x\" + \"y\"; print a == \"xy\";"),
        vec!["true".to_string()],
    );
}

#[test]
fn long_loops_run_in_constant_stack() {
    assert_eq!(
        output_of("var i = 0; while (i < 100000) i = i + 1; print i;"),
        vec!["100000".to_string()],
    );
}

#[test]
fn empty_source_succeeds_quietly() {
    let (output, outcome) = run_src("");
    assert!(matches!(outcome, RunOutcome::Success));
    assert!(output.is_empty());
}

#[test]
fn whitespace_and_comments_only_succeed_quietly() {
    let (output, outcome) = run_src("  \t\n// nothing here\n");
    assert!(matches!(outcome, RunOutcome::Success));
    assert!(output.is_empty());
}

#[test]
fn huge_integral_numbers_print_their_full_digits() {
    let source = "var x = 1; var i = 0; while (i < 200) { x = x * 2; i = i + 1; } \
                  print x; print 0 - x;";
    let expected = "1606938044258990275541962092341162602522202993782792835301376";
    assert_eq!(
        output_of(source),
        vec![expected.to_string(), format!("-{expected}")],
    );
}
