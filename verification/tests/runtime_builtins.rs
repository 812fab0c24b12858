use compilisp::runtime::{
    compilisp_le, compilisp_sum, status_code, CompilispError, CompilispObject, CompilispRuntime,
    CompilispType, CompilispValue,
};
use compilisp::text::{escape_newlines, render_bool, render_i32, str_eq};

fn nums(values: &[i32]) -> Vec<CompilispValue> {
    values.iter().map(|v| CompilispValue::Number(*v)).collect()
}

#[test]
fn sum_adds_numbers() {
    let r = compilisp_sum(&nums(&[2, 3])).expect("must succeed");
    assert!(matches!(r, CompilispValue::Number(5)));
}

#[test]
fn sum_of_nothing_is_zero() {
    let r = compilisp_sum(&nums(&[])).expect("must succeed");
    assert!(matches!(r, CompilispValue::Number(0)));
}

#[test]
fn sum_rejects_non_number() {
    let args = vec![CompilispValue::Number(2), CompilispValue::String("a".to_string())];
    let err = compilisp_sum(&args).expect_err("must fail");
    assert!(matches!(err, CompilispError::ArgTypeMismatch));
}

#[test]
fn sum_wraps_on_overflow() {
    let r = compilisp_sum(&nums(&[i32::MAX, 1])).expect("must succeed");
    assert!(matches!(r, CompilispValue::Number(i32::MIN)));
}

#[test]
fn le_is_strictly_increasing_check() {
    assert!(matches!(
        compilisp_le(&nums(&[1, 2, 3])).expect("ok"),
        CompilispValue::Boolean(true)
    ));
    assert!(matches!(
        compilisp_le(&nums(&[3, 2, 1])).expect("ok"),
        CompilispValue::Boolean(false)
    ));
    assert!(matches!(
        compilisp_le(&nums(&[1, 1])).expect("ok"),
        CompilispValue::Boolean(false)
    ));
    assert!(matches!(compilisp_le(&nums(&[7])).expect("ok"), CompilispValue::Boolean(true)));
    assert!(matches!(compilisp_le(&nums(&[])).expect("ok"), CompilispValue::Boolean(true)));
}

#[test]
fn le_rejects_non_number_pair() {
    let args = vec![CompilispValue::Number(1), CompilispValue::Boolean(true)];
    let err = compilisp_le(&args).expect_err("must fail");
    assert!(matches!(err, CompilispError::ArgTypeMismatch));
}

#[test]
fn le_rejects_non_number_whatever_the_arity() {
    // A single non-Number operand is received, so it is a mismatch even
    // though no adjacent pair exists.
    let lone = vec![CompilispValue::String("a".to_string())];
    assert!(matches!(compilisp_le(&lone).expect_err("must fail"), CompilispError::ArgTypeMismatch));
    // A non-Number after a deciding pair is still a mismatch: the operand
    // set is type-checked as received.
    let trailing = vec![
        CompilispValue::Number(3),
        CompilispValue::Number(2),
        CompilispValue::String("a".to_string()),
    ];
    assert!(matches!(
        compilisp_le(&trailing).expect_err("must fail"),
        CompilispError::ArgTypeMismatch
    ));
}

#[test]
fn procedure_call_dispatches_builtins() {
    let mut rt = CompilispRuntime::new();
    let r = rt.procedure_call("+", &nums(&[1, 2, 3])).expect("ok");
    assert!(matches!(r, CompilispValue::Number(6)));
    let r = rt.procedure_call("<", &nums(&[1, 2])).expect("ok");
    assert!(matches!(r, CompilispValue::Boolean(true)));
    let r = rt.procedure_call("begin", &nums(&[4, 5])).expect("ok");
    assert!(matches!(r, CompilispValue::Number(5)));
}

#[test]
fn procedure_call_unknown_name_is_unbound() {
    let mut rt = CompilispRuntime::new();
    let err = rt.procedure_call("nope", &nums(&[1])).expect_err("must fail");
    assert!(matches!(err, CompilispError::UnboundVariable(name) if name == "nope"));
}

#[test]
fn display_buffers_output_and_flush_clears_it() {
    let mut rt = CompilispRuntime::new();
    let args = vec![
        CompilispValue::String("n=".to_string()),
        CompilispValue::Number(12),
        CompilispValue::Boolean(false),
    ];
    let r = rt.procedure_call("display", &args).expect("ok");
    assert!(matches!(r, CompilispValue::Number(0)));
    assert_eq!(rt.output_buffer(), "n=12false");
    let flushed = rt.take_output();
    assert_eq!(flushed, "n=12false");
    assert_eq!(rt.output_buffer(), "");
}

#[test]
fn argument_stack_feeds_calls_in_push_order() {
    let mut rt = CompilispRuntime::new();
    rt.procedure_push_arg(CompilispValue::Number(10));
    rt.procedure_push_arg(CompilispValue::Number(20));
    rt.procedure_push_arg(CompilispValue::Number(30));
    // The call consumes exactly the last two pushed values, in the order
    // pushed: (< 20 30) is true.
    let r = rt.procedure_call_stacked("<", 2).expect("ok");
    assert!(matches!(r, CompilispValue::Boolean(true)));
    // The first pushed value is still pending.
    let r = rt.procedure_call_stacked("+", 1).expect("ok");
    assert!(matches!(r, CompilispValue::Number(10)));
}

#[test]
fn scope_stack_pushes_and_pops_frames() {
    let mut rt = CompilispRuntime::new();
    rt.push_let_context();
    rt.push_let_binding(&"x".to_string(), CompilispValue::Number(1));
    rt.push_let_context();
    rt.push_let_binding(&"x".to_string(), CompilispValue::Number(2));
    rt.pop_let_context();
    rt.pop_let_context();
}

#[test]
fn tagged_record_roundtrip_preserves_numbers_and_booleans() {
    let n = CompilispValue::Number(-7);
    let obj = CompilispObject::from(&n);
    assert!(matches!(CompilispValue::try_from(&obj), Ok(CompilispValue::Number(-7))));

    let b = CompilispValue::Boolean(true);
    let obj = CompilispObject::from(&b);
    assert!(matches!(CompilispValue::try_from(&obj), Ok(CompilispValue::Boolean(true))));
}

#[test]
fn symbol_tag_is_rejected_at_the_boundary() {
    let obj = CompilispObject {
        type_: CompilispType::Symbol,
        int_value: 0,
        bool_value: false,
        str_value: "s".to_string(),
    };
    assert!(CompilispValue::try_from(&obj).is_err());
}

#[test]
fn discriminants_follow_the_abi_table() {
    assert_eq!(CompilispType::Number.discriminant(), 0);
    assert_eq!(CompilispType::Boolean.discriminant(), 1);
    assert_eq!(CompilispType::String.discriminant(), 2);
    assert_eq!(CompilispType::Symbol.discriminant(), 3);
}

#[test]
fn decimal_rendering_matches_display_format() {
    assert_eq!(render_i32(0), "0");
    assert_eq!(render_i32(3), "3");
    assert_eq!(render_i32(42), "42");
    assert_eq!(render_i32(-1), "-1");
    assert_eq!(render_i32(1000000), "1000000");
    assert_eq!(render_i32(i32::MAX), "2147483647");
    assert_eq!(render_i32(i32::MIN), "-2147483648");
    assert_eq!(render_bool(true), "true");
    assert_eq!(render_bool(false), "false");
}

#[test]
fn escape_newlines_rewrites_backslash_n() {
    assert_eq!(escape_newlines("a\\nb"), "a\nb");
    assert_eq!(escape_newlines("\\n\\n"), "\n\n");
    assert_eq!(escape_newlines("plain"), "plain");
    assert_eq!(escape_newlines(""), "");
    assert_eq!(escape_newlines("end\\"), "end\\");
}

#[test]
fn status_codes_follow_the_abi_contract() {
    let mut rt = CompilispRuntime::new();
    let ok = rt.procedure_call("+", &nums(&[1, 2]));
    assert_eq!(status_code(&ok), 0);
    let unknown = rt.procedure_call("mystery", &nums(&[]));
    assert_eq!(status_code(&unknown), 1);
    let mismatch = rt.procedure_call("+", &vec![CompilispValue::Boolean(true)]);
    assert_eq!(status_code(&mismatch), 2);
}

#[test]
fn str_eq_compares_by_characters() {
    assert!(str_eq("abc", "abc"));
    assert!(!str_eq("abc", "abd"));
    assert!(!str_eq("abc", "ab"));
    assert!(str_eq("", ""));
}
