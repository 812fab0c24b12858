use compilisp::ast::Expr;
use compilisp::eval::{evaluate_expr, EvalError, EvaluateError};
use compilisp::runtime::{CompilispError, CompilispValue};

fn num(v: i32) -> Expr {
    Expr::Number(v)
}

fn sym(name: &str) -> Expr {
    Expr::Symbol(name.to_string())
}

fn call(name: &str, args: Vec<Expr>) -> Expr {
    Expr::Procedure(name.to_string(), args)
}

fn let_expr(bindings: Vec<(&str, Expr)>, body: Expr) -> Expr {
    Expr::LetProcedure(
        bindings.into_iter().map(|(n, e)| (n.to_string(), e)).collect(),
        Box::new(body),
    )
}

fn eval_value(expr: &Expr) -> CompilispValue {
    evaluate_expr(expr).expect("evaluation failed").0
}

#[test]
fn inner_let_shadows_outer() {
    // (let ((x 1)) (let ((x 2)) x)) evaluates to Number(2)
    let expr = let_expr(vec![("x", num(1))], let_expr(vec![("x", num(2))], sym("x")));
    assert!(matches!(eval_value(&expr), CompilispValue::Number(2)));
}

#[test]
fn outer_binding_visible_from_nested_scope() {
    // (let ((x 1)) (let ((y 2)) x)) evaluates to Number(1)
    let expr = let_expr(vec![("x", num(1))], let_expr(vec![("y", num(2))], sym("x")));
    assert!(matches!(eval_value(&expr), CompilispValue::Number(1)));
}

#[test]
fn sum_of_two_and_three_is_five() {
    // (+ 2 3) evaluates to Number(5)
    let expr = call("+", vec![num(2), num(3)]);
    assert!(matches!(eval_value(&expr), CompilispValue::Number(5)));
}

#[test]
fn sum_with_string_operand_is_arg_type_mismatch() {
    // (+ 2 "a") fails with argument-type-mismatch
    let expr = call("+", vec![num(2), Expr::String("a".to_string())]);
    let err = evaluate_expr(&expr).expect_err("must fail");
    assert!(matches!(
        err,
        EvaluateError::Eval(EvalError::Runtime(CompilispError::ArgTypeMismatch))
    ));
}

#[test]
fn increasing_chain_is_true() {
    // (< 1 2 3) evaluates to Boolean(true)
    let expr = call("<", vec![num(1), num(2), num(3)]);
    assert!(matches!(eval_value(&expr), CompilispValue::Boolean(true)));
}

#[test]
fn decreasing_chain_is_false() {
    // (< 3 2 1) evaluates to Boolean(false)
    let expr = call("<", vec![num(3), num(2), num(1)]);
    assert!(matches!(eval_value(&expr), CompilispValue::Boolean(false)));
}

#[test]
fn if_true_takes_then_branch() {
    // (if (< 1 2) 10 20) evaluates to Number(10)
    let cond = call("<", vec![num(1), num(2)]);
    let expr = call("if", vec![cond, num(10), num(20)]);
    assert!(matches!(eval_value(&expr), CompilispValue::Number(10)));
}

#[test]
fn if_false_takes_else_branch() {
    // (if (< 2 1) 10 20) evaluates to Number(20)
    let cond = call("<", vec![num(2), num(1)]);
    let expr = call("if", vec![cond, num(10), num(20)]);
    assert!(matches!(eval_value(&expr), CompilispValue::Number(20)));
}

#[test]
fn if_false_without_else_keeps_condition_value() {
    // (if (< 2 1) 10): the merge slot is the condition's own slot, so the
    // untaken-branch result is the condition value Boolean(false), a
    // defined value rather than stale storage.
    let cond = call("<", vec![num(2), num(1)]);
    let expr = call("if", vec![cond, num(10)]);
    assert!(matches!(eval_value(&expr), CompilispValue::Boolean(false)));
}

#[test]
fn nested_if_in_then_branch() {
    // (if (< 1 2) (if (< 2 1) 1 2) 3) evaluates to Number(2)
    let inner = call("if", vec![call("<", vec![num(2), num(1)]), num(1), num(2)]);
    let expr = call("if", vec![call("<", vec![num(1), num(2)]), inner, num(3)]);
    assert!(matches!(eval_value(&expr), CompilispValue::Number(2)));
}

#[test]
fn display_of_sum_produces_three() {
    // (display (+ 1 2)) produces the side-effecting output "3" and returns
    // Number(0)
    let expr = call("display", vec![call("+", vec![num(1), num(2)])]);
    let (value, output) = evaluate_expr(&expr).expect("evaluation failed");
    assert!(matches!(value, CompilispValue::Number(0)));
    assert_eq!(output, "3");
}

#[test]
fn unbound_variable_is_a_compile_diagnostic() {
    // (+ x 1) with x unbound produces an unbound-variable compile
    // diagnostic identifying x, and no runnable artifact
    let expr = call("+", vec![sym("x"), num(1)]);
    let err = evaluate_expr(&expr).expect_err("must fail at compile time");
    match err {
        EvaluateError::Compile(compilisp::error::CompilispError::UnboundVariable(name)) => {
            assert_eq!(name, "x");
        }
        other => panic!("expected an unbound-variable diagnostic, got {:?}", other),
    }
}

#[test]
fn boolean_literal_is_ill_formed() {
    let expr = Expr::Boolean(true);
    let err = evaluate_expr(&expr).expect_err("must fail at compile time");
    assert!(matches!(
        err,
        EvaluateError::Compile(compilisp::error::CompilispError::IllFormedSyntax)
    ));
}

#[test]
fn if_without_then_branch_is_ill_formed() {
    let expr = call("if", vec![num(1)]);
    let err = evaluate_expr(&expr).expect_err("must fail at compile time");
    assert!(matches!(
        err,
        EvaluateError::Compile(compilisp::error::CompilispError::IllFormedSyntax)
    ));
}

#[test]
fn unknown_procedure_fails_at_run_time() {
    // An unknown call name resolves to neither a builtin nor a known
    // native symbol: the interpreter reports it as an unbound variable at
    // run time.
    let expr = call("frobnicate", vec![num(1)]);
    let err = evaluate_expr(&expr).expect_err("must fail at run time");
    match err {
        EvaluateError::Eval(EvalError::Runtime(CompilispError::UnboundVariable(name))) => {
            assert_eq!(name, "frobnicate");
        }
        other => panic!("expected a runtime unbound-variable error, got {:?}", other),
    }
}

#[test]
fn sequential_let_bindings_see_earlier_ones() {
    // (let ((x 1) (y (+ x 1))) (+ x y)) evaluates to Number(3): each
    // binding is visible to the ones after it.
    let expr = let_expr(
        vec![("x", num(1)), ("y", call("+", vec![sym("x"), num(1)]))],
        call("+", vec![sym("x"), sym("y")]),
    );
    assert!(matches!(eval_value(&expr), CompilispValue::Number(3)));
}

#[test]
fn begin_returns_last_argument() {
    let expr = call("begin", vec![num(1), num(2), num(7)]);
    assert!(matches!(eval_value(&expr), CompilispValue::Number(7)));
}

#[test]
fn begin_with_no_arguments_is_arg_type_mismatch() {
    let expr = call("begin", vec![]);
    let err = evaluate_expr(&expr).expect_err("must fail");
    assert!(matches!(
        err,
        EvaluateError::Eval(EvalError::Runtime(CompilispError::ArgTypeMismatch))
    ));
}

#[test]
fn display_renders_strings_and_booleans() {
    let expr = call(
        "display",
        vec![
            Expr::String("x=".to_string()),
            num(-42),
            Expr::String(" ".to_string()),
            call("<", vec![num(1), num(2)]),
        ],
    );
    let (_, output) = evaluate_expr(&expr).expect("evaluation failed");
    assert_eq!(output, "x=-42 true");
}
