use rlox::RunOutcome;
use rlox::grammar::Declaration;
use rlox::grammar::Expression;
use rlox::interpreter::Interpreter;
use rlox::parser::parse;
use rlox::run;
use rlox::scanner::scan;
use rlox::source::Source;
use rlox::token::Tokens;

fn parse_source(source: &str) -> Vec<Declaration> {
    let tokens = scan(Source::new(source)).expect("scanning should succeed");
    parse(Tokens::new(tokens)).expect("parsing should succeed")
}

fn first_expression(source: &str) -> Expression {
    let mut declarations = parse_source(source);
    assert_eq!(declarations.len(), 1);
    match declarations.remove(0) {
        Declaration::Expression(e) => e,
        _ => panic!("expected an expression statement"),
    }
}

#[test]
fn product_binds_tighter_than_sum() {
    let e = first_expression("a + b * c;");
    match e {
        Expression::Plus(l, r) => {
            assert!(matches!(*l, Expression::Variable(ref n) if n == "a"));
            match *r {
                Expression::Multiply(bl, br) => {
                    assert!(matches!(*bl, Expression::Variable(ref n) if n == "b"));
                    assert!(matches!(*br, Expression::Variable(ref n) if n == "c"));
                },
                _ => panic!("expected the product on the right"),
            }
        },
        _ => panic!("expected a sum at the top"),
    }
}

#[test]
fn equality_chains_to_the_right() {
    let e = first_expression("a == b == c;");
    match e {
        Expression::Equal(l, r) => {
            assert!(matches!(*l, Expression::Variable(ref n) if n == "a"));
            assert!(matches!(*r, Expression::Equal(_, _)));
        },
        _ => panic!("expected equality at the top"),
    }
}

#[test]
fn unary_minus_is_zero_minus() {
    let e = first_expression("0 - a * b;");
    assert!(matches!(e, Expression::Multiply(_, _)) == false);
    let e2 = first_expression("-a * b;");
    match e2 {
        Expression::Multiply(l, r) => {
            match *l {
                Expression::Minus(zl, zr) => {
                    assert!(matches!(*zl, Expression::Number(0)));
                    assert!(matches!(*zr, Expression::Variable(ref n) if n == "a"));
                },
                _ => panic!("expected the desugared unary minus"),
            }
            assert!(matches!(*r, Expression::Variable(ref n) if n == "b"));
        },
        _ => panic!("expected the product at the top"),
    }
}

#[test]
fn for_desugars_to_while_in_blocks() {
    let declarations = parse_source("for (var i = 0; i < 3; i = i + 1) print i;");
    assert_eq!(declarations.len(), 1);
    match &declarations[0] {
        Declaration::Block(items) => {
            assert_eq!(items.len(), 2);
            assert!(matches!(items[0], Declaration::Var(_, _)));
            match &items[1] {
                Declaration::While(_, body) => match &**body {
                    Declaration::Block(inner) => {
                        assert_eq!(inner.len(), 2);
                        assert!(matches!(inner[0], Declaration::Print(_)));
                        assert!(matches!(inner[1], Declaration::Expression(_)));
                    },
                    _ => panic!("expected the body block"),
                },
                _ => panic!("expected the while"),
            }
        },
        _ => panic!("expected the outer block"),
    }
}

#[test]
fn for_without_increment_parses() {
    let declarations = parse_source("for (var i = 0; i < 3;) i = i + 1;");
    assert_eq!(declarations.len(), 1);
    assert!(matches!(declarations[0], Declaration::Block(_)));
}

#[test]
fn parse_error_names_the_missing_token() {
    let tokens = scan(Source::new("print 1")).expect("scanning should succeed");
    let report = parse(Tokens::new(tokens)).expect_err("parsing should fail");
    let text = report.to_display_string();
    assert_eq!(text, "[Line 1] Error: Expected 'Semicolon', got '' instead\n");
}

#[test]
fn recovery_collects_several_errors() {
    let tokens = scan(Source::new("var 1; print (; var x = 1;")).expect("scan should succeed");
    let report = parse(Tokens::new(tokens)).expect_err("parsing should fail");
    let text = report.to_display_string();
    assert!(text.lines().count() >= 2, "expected at least two reported errors: {text}");
}

#[test]
fn invalid_assignment_target_is_reported() {
    let tokens = scan(Source::new("1 = 2;")).expect("scan should succeed");
    let report = parse(Tokens::new(tokens)).expect_err("parsing should fail");
    let text = report.to_display_string();
    assert!(text.contains("Invalid assignment target."), "{text}");
}

#[test]
fn too_many_arguments_is_reported() {
    let mut source = String::from("f(");
    for i in 0..255 {
        if i > 0 {
            source.push(',');
        }
        source.push('1');
    }
    source.push_str(");");
    let tokens = scan(Source::new(&source)).expect("scan should succeed");
    let report = parse(Tokens::new(tokens)).expect_err("parsing should fail");
    let text = report.to_display_string();
    assert!(text.contains("Can't have more than 255 arguments."), "{text}");
}

#[test]
fn grouping_parses_to_paren() {
    let e = first_expression("(a);");
    assert!(matches!(e, Expression::Paren(_)));
}

#[test]
fn parsing_twice_gives_equal_trees() {
    let src = "var a = 1 + 2 * 3; if (a > 3) print a; else print 0 - a;";
    let first = parse_source(src);
    let second = parse_source(src);
    assert_eq!(format!("{:?}", first), format!("{:?}", second));
}

#[test]
fn run_reports_static_errors_before_evaluating() {
    let mut interpreter = Interpreter::new(0);
    let outcome = run("print 1; var ;", &mut interpreter, 1000);
    assert!(matches!(outcome, RunOutcome::StaticError(_)));
    assert!(interpreter.output.is_empty());
}

fn reparse_printed(source: &str) {
    let first = parse_source(source);
    let printed = rlox::printer::print_declarations(&first, 0);
    let second = parse_source(&printed);
    assert_eq!(
        format!("{:?}", first),
        format!("{:?}", second),
        "printed form was: {printed}",
    );
}

#[test]
fn printing_then_parsing_is_identity_on_expressions() {
    // a desugared unary minus reprints as a plain `0 - ..` subtraction and
    // regroups under neighbouring operators, so it stays out of this round trip
    reparse_printed("a + b * c; a == b == c; !x and (y or z); f(1, 2)(3);");
}

#[test]
fn printing_then_parsing_is_identity_on_statements() {
    reparse_printed(
        "var a = 1; var b; print a; { a = 2; print a + b; } \
         if (a > 1) print 1; else print 2; while (a < 3) a = a + 1; \
         fun add(x, y) { return x + y; } return; return 1 + 2;",
    );
}

#[test]
fn printing_then_parsing_keeps_number_and_string_literals() {
    reparse_printed("print 3.5 + 7; print \"hi\" + \"there\"; print nil == false;");
}

#[test]
fn printing_a_for_loop_shows_its_desugared_form() {
    let first = parse_source("for (var i = 0; i < 3; i = i + 1) print i;");
    let printed = rlox::printer::print_declarations(&first, 0);
    assert_eq!(
        printed,
        "{ var i = 0; while (i < 3) { print i; i = i + 1; } } ",
    );
    let second = parse_source(&printed);
    assert_eq!(format!("{:?}", first), format!("{:?}", second));
}
