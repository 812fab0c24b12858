use compilisp::ast::Expr;
use compilisp::compilisp_ir::{Alloc, AllocType, CompilispIr, CompilispIrGenerator};
use compilisp::error::CompilispError;

fn num(v: i32) -> Expr {
    Expr::Number(v)
}

fn sym(name: &str) -> Expr {
    Expr::Symbol(name.to_string())
}

fn call(name: &str, args: Vec<Expr>) -> Expr {
    Expr::Procedure(name.to_string(), args)
}

fn let_expr(bindings: Vec<(&str, Expr)>, body: Expr) -> Expr {
    Expr::LetProcedure(
        bindings.into_iter().map(|(n, e)| (n.to_string(), e)).collect(),
        Box::new(body),
    )
}

fn defined_ids(ir: &[CompilispIr]) -> Vec<usize> {
    ir.iter()
        .filter_map(|inst| match inst {
            CompilispIr::ConstInt { alloc_id, .. } => Some(*alloc_id),
            CompilispIr::GlobalString { alloc_id, .. } => Some(*alloc_id),
            CompilispIr::ProcedureReturnValue(id) => Some(*id),
            _ => None,
        })
        .collect()
}

#[test]
fn number_literal_materializes_const_int() {
    let mut generator = CompilispIrGenerator::new();
    let alloc = generator.process(&num(5)).expect("must lower");
    assert_eq!(alloc.alloc_type, AllocType::Int);
    let ir = generator.ir_buffer();
    assert_eq!(ir.len(), 1);
    assert!(matches!(ir[0], CompilispIr::ConstInt { alloc_id, value: 5 } if alloc_id == alloc.id));
}

#[test]
fn string_literal_materializes_global_string() {
    let mut generator = CompilispIrGenerator::new();
    let alloc = generator.process(&Expr::String("hi".to_string())).expect("must lower");
    assert_eq!(alloc.alloc_type, AllocType::String);
    let ir = generator.ir_buffer();
    assert_eq!(ir.len(), 1);
    match &ir[0] {
        CompilispIr::GlobalString { alloc_id, value } => {
            assert_eq!(*alloc_id, alloc.id);
            assert_eq!(value, "hi");
        }
        other => panic!("unexpected instruction {:?}", other),
    }
}

#[test]
fn slot_ids_strictly_increase_and_are_never_reused() {
    // Slot identifiers are strictly increasing within one module compile,
    // across several top-level expressions.
    let mut generator = CompilispIrGenerator::new();
    generator.process(&call("+", vec![num(1), num(2)])).expect("must lower");
    generator
        .process(&let_expr(vec![("x", num(3))], call("+", vec![sym("x"), num(4)])))
        .expect("must lower");
    let ids = defined_ids(generator.ir_buffer());
    assert!(ids.len() >= 5);
    for window in ids.windows(2) {
        assert!(window[0] < window[1], "ids not strictly increasing: {:?}", ids);
    }
}

#[test]
fn call_return_slot_is_declared_before_the_call() {
    // Every invoke-procedure's return slot is declared by a preceding
    // declare-return-slot, and every argument slot is defined earlier in
    // program order.
    let mut generator = CompilispIrGenerator::new();
    generator
        .process(&call("+", vec![num(1), call("+", vec![num(2), num(3)])]))
        .expect("must lower");
    let ir = generator.ir_buffer();
    for (k, inst) in ir.iter().enumerate() {
        if let CompilispIr::CallProcedure { return_id, args, .. } = inst {
            let declared = ir[..k].iter().any(|earlier| {
                matches!(earlier, CompilispIr::ProcedureReturnValue(id) if id == return_id)
            });
            assert!(declared, "return slot {} not declared before the call", return_id);
            for Alloc { id, .. } in args {
                let defined = defined_ids(&ir[..k]).contains(id);
                assert!(defined, "argument slot {} not defined before the call", id);
            }
        }
    }
}

#[test]
fn generic_call_brackets_argument_evaluation() {
    let mut generator = CompilispIrGenerator::new();
    let alloc = generator.process(&call("+", vec![num(1), num(2)])).expect("must lower");
    let ir = generator.ir_buffer();
    // declare-return-slot, begin-scope, two constants, the call, end-scope
    assert_eq!(ir.len(), 6);
    assert!(matches!(ir[0], CompilispIr::ProcedureReturnValue(id) if id == alloc.id));
    assert!(matches!(ir[1], CompilispIr::ProcedureScopeStart));
    assert!(matches!(ir[2], CompilispIr::ConstInt { .. }));
    assert!(matches!(ir[3], CompilispIr::ConstInt { .. }));
    match &ir[4] {
        CompilispIr::CallProcedure { name, return_id, args } => {
            assert_eq!(name, "+");
            assert_eq!(*return_id, alloc.id);
            assert_eq!(args.len(), 2);
        }
        other => panic!("unexpected instruction {:?}", other),
    }
    assert!(matches!(ir[5], CompilispIr::ProcedureScopeEnd));
}

#[test]
fn if_lowering_reuses_condition_slot_as_merge_slot() {
    let mut generator = CompilispIrGenerator::new();
    let cond = call("<", vec![num(1), num(2)]);
    let alloc = generator.process(&call("if", vec![cond, num(10), num(20)])).expect("must lower");
    let ir = generator.ir_buffer();
    let mut eval_cond = None;
    let mut end_then = None;
    let mut end_else = None;
    for inst in ir.iter() {
        match inst {
            CompilispIr::IfExpressionEval { cond_alloc } => eval_cond = Some(*cond_alloc),
            CompilispIr::IfExpressionEndThen { cond_alloc, .. } => end_then = Some(*cond_alloc),
            CompilispIr::IfExpressionEndElse { cond_alloc, .. } => end_else = Some(*cond_alloc),
            _ => {}
        }
    }
    // The conditional's result slot is the condition's slot, and both
    // branch closers copy into exactly that merge slot.
    assert_eq!(eval_cond, Some(alloc.id));
    assert_eq!(end_then, Some(alloc.id));
    assert_eq!(end_else, Some(alloc.id));
    assert!(matches!(ir.last(), Some(CompilispIr::IfExpressionEndBlock)));
}

#[test]
fn if_without_else_emits_no_else_bracket() {
    let mut generator = CompilispIrGenerator::new();
    let cond = call("<", vec![num(2), num(1)]);
    generator.process(&call("if", vec![cond, num(10)])).expect("must lower");
    let ir = generator.ir_buffer();
    assert!(!ir.iter().any(|inst| matches!(inst, CompilispIr::IfExpressionElse)));
    assert!(!ir.iter().any(|inst| matches!(inst, CompilispIr::IfExpressionEndElse { .. })));
    assert!(ir.iter().any(|inst| matches!(inst, CompilispIr::IfExpressionEndThen { .. })));
    assert!(matches!(ir.last(), Some(CompilispIr::IfExpressionEndBlock)));
}

#[test]
fn symbol_resolves_to_binding_slot_without_reevaluation() {
    let mut generator = CompilispIrGenerator::new();
    let alloc = generator
        .process(&let_expr(vec![("x", num(7))], sym("x")))
        .expect("must lower");
    let ir = generator.ir_buffer();
    // Only the binding's constant is materialized; the symbol reference
    // reuses that slot.
    assert_eq!(ir.len(), 1);
    assert!(matches!(ir[0], CompilispIr::ConstInt { alloc_id, value: 7 } if alloc_id == alloc.id));
}

#[test]
fn unbound_symbol_reports_its_name() {
    let mut generator = CompilispIrGenerator::new();
    let err = generator.process(&sym("ghost_name")).expect_err("must fail");
    match err {
        CompilispError::UnboundVariable(name) => assert_eq!(name, "ghost_name"),
        other => panic!("expected an unbound-variable diagnostic, got {:?}", other),
    }
}

#[test]
fn let_frame_is_popped_on_exit() {
    // A name bound by an inner let is not visible after that let ends.
    let mut generator = CompilispIrGenerator::new();
    let first = let_expr(vec![("x", num(1))], sym("x"));
    generator.process(&first).expect("must lower");
    let err = generator.process(&sym("x")).expect_err("x must be out of scope");
    assert!(matches!(err, CompilispError::UnboundVariable(name) if name == "x"));
}
