use minilisp::env::Env;
use minilisp::errors::EvalError;
use minilisp::eval::{eval, eval_symbol};
use minilisp::expr::Expr;

fn run(program: &str) -> Result<Expr, EvalError> {
    let mut env = Env::new();
    eval(program, &mut env)
}

#[test]
fn evaluates_arithmetic() {
    assert_eq!(run("(+ 2 1)").unwrap(), Expr::Int(3));
    assert_eq!(run("(- 9 3)").unwrap(), Expr::Int(6));
    assert_eq!(run("(/ 10 2)").unwrap(), Expr::Int(5));
}

#[test]
fn evaluates_comparisons() {
    assert_eq!(run("(= 3 3)").unwrap(), Expr::Bool(true));
    assert_eq!(run("(= 3 18)").unwrap(), Expr::Bool(false));
    assert_eq!(run("(< 30 70)").unwrap(), Expr::Bool(true));
    assert_eq!(run("(> 58 70)").unwrap(), Expr::Bool(false));
    assert_eq!(run("(!= 3 18)").unwrap(), Expr::Bool(true));
}

#[test]
fn evaluates_logical_or() {
    assert_eq!(run("(or #t #f)").unwrap(), Expr::Bool(true));
    assert_eq!(run("(or #f #f)").unwrap(), Expr::Bool(false));
}

#[test]
fn evaluates_pair_construction() {
    assert_eq!(
        run("(pair 3 2)").unwrap(),
        Expr::Pair(Box::new(Expr::Int(3)), Box::new(Expr::Int(2)))
    );
}

#[test]
fn sequencing_binds_and_drops_nil_results() {
    assert_eq!(
        run("((val x 10) (+ x x))").unwrap(),
        Expr::List(vec![Expr::Int(20)])
    );
}

#[test]
fn defines_and_calls_a_function() {
    assert_eq!(
        run("((val foo (fn (x y) (+ x y))) (foo 10 20))").unwrap(),
        Expr::List(vec![Expr::Int(30)])
    );
}

#[test]
fn truncating_division() {
    assert_eq!(run("(/ 7 2)").unwrap(), Expr::Int(3));
    assert_eq!(run("(/ -7 2)").unwrap(), Expr::Int(-3));
    assert_eq!(run("(/ 7 -2)").unwrap(), Expr::Int(-3));
    assert_eq!(run("(/ -7 -2)").unwrap(), Expr::Int(3));
}

#[test]
fn division_by_zero_is_reported() {
    assert!(matches!(run("(/ 1 0)"), Err(EvalError::DivisionByZero)));
}

#[test]
fn addition_wraps_around() {
    assert_eq!(run("(+ 2147483647 1)").unwrap(), Expr::Int(i32::MIN));
    assert_eq!(run("(- -2147483648 1)").unwrap(), Expr::Int(i32::MAX));
    assert_eq!(run("(/ -2147483648 -1)").unwrap(), Expr::Int(i32::MIN));
}

#[test]
fn operand_of_wrong_type_is_a_type_mismatch() {
    assert!(matches!(run("(+ 1 #t)"), Err(EvalError::TypeMismatch)));
    assert!(matches!(run("(< #f 2)"), Err(EvalError::TypeMismatch)));
    assert!(matches!(run("(or 1 #t)"), Err(EvalError::TypeMismatch)));
}

#[test]
fn unbound_symbol_is_reported() {
    match run("(+ x 1)") {
        Err(EvalError::UnboundSymbol(name)) => assert_eq!(name, "x"),
        other => panic!("expected an unbound-symbol failure, got {:?}", other),
    }
}

#[test]
fn unbound_symbol_lookup_fails_directly() {
    let env = Env::new();
    assert!(matches!(
        eval_symbol("nowhere".to_string(), &env, 0),
        Err(EvalError::UnboundSymbol(_))
    ));
}

#[test]
fn calling_a_non_lambda_is_not_callable() {
    assert!(matches!(
        run("((val x 1) (x 2))"),
        Err(EvalError::NotCallable(_))
    ));
}

#[test]
fn wrong_argument_count_is_an_arity_error() {
    assert!(matches!(
        run("((val foo (fn (x y) (+ x y))) (foo 10))"),
        Err(EvalError::ArityError)
    ));
    assert!(matches!(
        run("((val foo (fn (x y) (+ x y))) (foo 1 2 3))"),
        Err(EvalError::ArityError)
    ));
    assert!(matches!(run("(+ 1)"), Err(EvalError::ArityError)));
}

#[test]
fn runaway_recursion_is_reported_not_fatal() {
    assert!(matches!(
        run("((val f (fn (x) (f x))) (f 1))"),
        Err(EvalError::StackDepthExceeded)
    ));
}

#[test]
fn val_form_yields_nil_and_persists_across_lines() {
    let mut env = Env::new();
    assert_eq!(eval("(val x 41)", &mut env).unwrap(), Expr::Nil);
    assert_eq!(eval("(+ x 1)", &mut env).unwrap(), Expr::Int(42));
    // Redefinition overwrites the root binding.
    assert_eq!(eval("(val x 1)", &mut env).unwrap(), Expr::Nil);
    assert_eq!(eval("(+ x 1)", &mut env).unwrap(), Expr::Int(2));
}

#[test]
fn if_takes_the_matching_branch_only() {
    assert_eq!(run("(if #t 1 2)").unwrap(), Expr::Int(1));
    assert_eq!(run("(if #f 1 2)").unwrap(), Expr::Int(2));
    assert_eq!(run("(if (< 1 2) 10 20)").unwrap(), Expr::Int(10));
}

#[test]
fn non_boolean_condition_is_a_type_mismatch() {
    assert!(matches!(run("(if 1 2 3)"), Err(EvalError::TypeMismatch)));
}

#[test]
fn empty_checks_the_unevaluated_operand() {
    assert_eq!(run("(empty? ())").unwrap(), Expr::Bool(true));
    assert_eq!(run("(empty? (1))").unwrap(), Expr::Bool(false));
    assert_eq!(run("(empty? 1)").unwrap(), Expr::Bool(false));
}

#[test]
fn fn_form_builds_a_lambda_value() {
    match run("(fn (x y) (+ x y))").unwrap() {
        Expr::Lambda(params, body) => {
            assert_eq!(params, vec!["x".to_string(), "y".to_string()]);
            assert_eq!(body.len(), 3);
        },
        other => panic!("expected a lambda value, got {:?}", other),
    }
}

#[test]
fn fn_form_rejects_non_symbol_parameters() {
    assert!(matches!(
        run("(fn (1) (x))"),
        Err(EvalError::TypeMismatch)
    ));
}

#[test]
fn inner_definitions_shadow_without_touching_outer_frames() {
    assert_eq!(
        run("((val x 1) (val f (fn (y) ((val x 5) (+ x y)))) (f 10) (+ x 0))").unwrap(),
        Expr::List(vec![Expr::List(vec![Expr::Int(15)]), Expr::Int(1)])
    );
}

#[test]
fn reading_a_symbol_twice_gives_the_same_value() {
    assert_eq!(
        run("((val x 7) (+ x 0) (+ x 0))").unwrap(),
        Expr::List(vec![Expr::Int(7), Expr::Int(7)])
    );
}

#[test]
fn empty_program_evaluates_to_the_empty_list() {
    assert_eq!(run("()").unwrap(), Expr::List(vec![]));
}

#[test]
fn parse_failures_surface_through_eval() {
    assert!(matches!(run("x"), Err(EvalError::MalformedSyntax)));
    assert!(matches!(run("(2147483648)"), Err(EvalError::MalformedSyntax)));
}

#[test]
fn renders_values_for_display() {
    assert_eq!(run("(pair 3 2)").unwrap().to_text(), "(3 . 2)");
    assert_eq!(run("()").unwrap().to_text(), "()");
    assert_eq!(Expr::Nil.to_text(), "nil");
    assert_eq!(Expr::Bool(true).to_text(), "#t");
    assert_eq!(Expr::Bool(false).to_text(), "#f");
    assert_eq!(Expr::Int(-15).to_text(), "-15");
    assert_eq!(Expr::Int(2047).to_text(), "2047");
    assert_eq!(Expr::Symbol("abc".to_string()).to_text(), "abc");
    assert_eq!(
        Expr::List(vec![Expr::Int(1), Expr::Bool(false), Expr::Nil]).to_text(),
        "(1 #f nil)"
    );
}

#[test]
fn deep_copies_compare_equal() {
    let value = run("(pair 1 (pair 2 nil))").unwrap();
    let copy = value.duplicate();
    assert_eq!(value, copy);
}
