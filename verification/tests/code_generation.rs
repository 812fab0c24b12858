use compilisp::abi::{native_of, CompilispType, FunctionBuilder, FunctionFactory, NativeType};
use compilisp::codegen::GepBuilder;
use compilisp::ast::{Expr, ModuleAst};
use compilisp::codegen::{compile_module, NativeGenerator, NativeInst};
use compilisp::compilisp_ir::CompilispIr;
use compilisp::error::CompilispError;

fn num(v: i32) -> Expr {
    Expr::Number(v)
}

fn call(name: &str, args: Vec<Expr>) -> Expr {
    Expr::Procedure(name.to_string(), args)
}

fn module(exprs: Vec<Expr>) -> ModuleAst {
    ModuleAst { source: "test.scheme".to_string(), expr_vec: exprs }
}

fn generator_with_slot(id: usize, value: i32) -> NativeGenerator {
    let mut gen = NativeGenerator::new();
    let factory = FunctionFactory::new_with_base();
    gen.build_instruction(&factory, &CompilispIr::ConstInt { alloc_id: id, value })
        .expect("materialization always succeeds");
    gen
}

#[test]
fn function_factory_registers_base_entry_points() {
    let factory = FunctionFactory::new_with_base();
    let init = factory.get("compilisp_init").expect("registered");
    assert!(init.1.args.is_empty());
    assert_eq!(init.1.ret, Some(NativeType::CharPtr));
    let destroy = factory.get("compilisp_destroy").expect("registered");
    assert_eq!(destroy.1.args, vec![NativeType::CharPtr]);
    assert!(destroy.1.ret.is_none());
    let call_entry = factory.get("compilisp_procedure_call").expect("registered");
    assert_eq!(
        call_entry.1.args,
        vec![NativeType::CharPtr, NativeType::ObjectPtr, NativeType::Int]
    );
    assert_eq!(call_entry.1.ret, Some(NativeType::Object));
    assert!(factory.get("no_such_entry").is_none());
}

#[test]
fn const_int_materializes_tagged_record() {
    let gen = generator_with_slot(1, 5);
    let insts = gen.instructions();
    // alloca, gep tag, const discriminant, store, gep payload, bitcast,
    // const value, store
    assert!(matches!(insts[0], NativeInst::Alloca { ty: NativeType::Object, .. }));
    assert!(insts.iter().any(|i| matches!(i, NativeInst::ConstInt { value: 0, .. })));
    assert!(insts.iter().any(|i| matches!(i, NativeInst::ConstInt { value: 5, .. })));
    assert!(insts.iter().any(|i| matches!(i, NativeInst::BitCast { ty: NativeType::IntPtr, .. })));
    assert_eq!(insts.iter().filter(|i| matches!(i, NativeInst::Store { .. })).count(), 2);
}

#[test]
fn builtin_call_goes_through_runtime_dispatch() {
    let mut gen = generator_with_slot(1, 2);
    let factory = FunctionFactory::new_with_base();
    gen.build_instruction(&factory, &CompilispIr::ProcedureReturnValue(2))
        .expect("return slot declared");
    let call_inst = CompilispIr::CallProcedure {
        name: "+".to_string(),
        return_id: 2,
        args: vec![compilisp::compilisp_ir::Alloc {
            alloc_type: compilisp::compilisp_ir::AllocType::Int,
            id: 1,
        }],
    };
    gen.build_instruction(&factory, &call_inst).expect("call lowers");
    let insts = gen.instructions();
    let runtime_call = insts
        .iter()
        .find_map(|i| match i {
            NativeInst::CallRuntime { callee, args, .. } => Some((callee.clone(), args.len())),
            _ => None,
        })
        .expect("builtin dispatch emits a runtime call");
    assert_eq!(runtime_call.0, "compilisp_procedure_call");
    assert_eq!(runtime_call.1, 3);
    // The operation name is interned as a global string.
    assert!(insts.iter().any(|i| matches!(
        i,
        NativeInst::GlobalString { value, .. } if value == "+"
    )));
    assert!(!insts.iter().any(|i| matches!(i, NativeInst::CallSymbol { .. })));
}

#[test]
fn user_defined_call_goes_through_native_symbol() {
    let mut gen = generator_with_slot(1, 2);
    let factory = FunctionFactory::new_with_base();
    gen.build_instruction(&factory, &CompilispIr::ProcedureReturnValue(2))
        .expect("return slot declared");
    let call_inst = CompilispIr::CallProcedure {
        name: "my_proc".to_string(),
        return_id: 2,
        args: vec![],
    };
    gen.build_instruction(&factory, &call_inst).expect("call lowers");
    let insts = gen.instructions();
    assert!(insts.iter().any(|i| matches!(
        i,
        NativeInst::CallSymbol { callee, .. } if callee == "my_proc"
    )));
    assert!(!insts.iter().any(|i| matches!(i, NativeInst::CallRuntime { .. })));
}

#[test]
fn call_with_unmapped_slot_is_rejected() {
    let mut gen = NativeGenerator::new();
    let factory = FunctionFactory::new_with_base();
    let call_inst = CompilispIr::CallProcedure {
        name: "+".to_string(),
        return_id: 9,
        args: vec![],
    };
    let err = gen.build_instruction(&factory, &call_inst).expect_err("slot 9 has no storage");
    assert!(matches!(err, CompilispError::IllFormedSyntax));
}

#[test]
fn conditional_bracket_needs_a_pending_frame() {
    let mut gen = NativeGenerator::new();
    let factory = FunctionFactory::new_with_base();
    let err = gen
        .build_instruction(&factory, &CompilispIr::IfExpressionEndBlock)
        .expect_err("no pending conditional");
    assert!(matches!(err, CompilispError::IllFormedSyntax));
}

#[test]
fn conditional_lowering_branches_and_merges() {
    let mut gen = generator_with_slot(1, 0);
    let factory = FunctionFactory::new_with_base();
    gen.build_instruction(&factory, &CompilispIr::IfExpressionEval { cond_alloc: 1 })
        .expect("condition lowers");
    gen.build_instruction(&factory, &CompilispIr::ConstInt { alloc_id: 2, value: 10 })
        .expect("then value lowers");
    gen.build_instruction(
        &factory,
        &CompilispIr::IfExpressionEndThen { result_alloc: 2, cond_alloc: 1 },
    )
    .expect("then closes");
    gen.build_instruction(&factory, &CompilispIr::IfExpressionElse).expect("else opens");
    gen.build_instruction(&factory, &CompilispIr::ConstInt { alloc_id: 3, value: 20 })
        .expect("else value lowers");
    gen.build_instruction(
        &factory,
        &CompilispIr::IfExpressionEndElse { result_alloc: 3, cond_alloc: 1 },
    )
    .expect("else closes");
    gen.build_instruction(&factory, &CompilispIr::IfExpressionEndBlock).expect("block closes");
    let insts = gen.instructions();
    assert!(insts.iter().any(|i| matches!(i, NativeInst::CondBr { .. })));
    assert_eq!(insts.iter().filter(|i| matches!(i, NativeInst::CreateBlock { .. })).count(), 3);
    // Both branch closers copy into the merge slot and jump to finally.
    assert_eq!(insts.iter().filter(|i| matches!(i, NativeInst::Br { .. })).count(), 2);
    // A second end-block has no pending frame left: the stack was popped.
    let err = gen
        .build_instruction(&factory, &CompilispIr::IfExpressionEndBlock)
        .expect_err("frame already popped");
    assert!(matches!(err, CompilispError::IllFormedSyntax));
}

#[test]
fn global_strings_are_interned_once() {
    let mut gen = NativeGenerator::new();
    let factory = FunctionFactory::new_with_base();
    gen.build_instruction(&factory, &CompilispIr::GlobalString {
        alloc_id: 1,
        value: "dup".to_string(),
    })
    .expect("lowers");
    gen.build_instruction(&factory, &CompilispIr::GlobalString {
        alloc_id: 2,
        value: "dup".to_string(),
    })
    .expect("lowers");
    let count = gen
        .instructions()
        .iter()
        .filter(|i| matches!(i, NativeInst::GlobalString { value, .. } if value == "dup"))
        .count();
    assert_eq!(count, 1);
}

#[test]
fn compile_module_brackets_body_with_init_and_destroy() {
    let root = module(vec![call("display", vec![call("+", vec![num(1), num(2)])])]);
    let compiled = compile_module(&root).expect("module compiles");
    assert!(!compiled.ir.is_empty());
    let insts = &compiled.native;
    assert!(matches!(insts[0], NativeInst::DeclareFunction { .. }));
    let init_pos = insts
        .iter()
        .position(|i| matches!(i, NativeInst::CallRuntime { callee, .. } if callee == "compilisp_init"))
        .expect("init call emitted");
    let destroy_pos = insts
        .iter()
        .position(
            |i| matches!(i, NativeInst::CallRuntime { callee, .. } if callee == "compilisp_destroy"),
        )
        .expect("destroy call emitted");
    assert!(init_pos < destroy_pos);
    assert!(matches!(insts.last(), Some(NativeInst::Ret { .. })));
}

#[test]
fn compile_module_stops_on_unbound_symbol() {
    let root = module(vec![call("+", vec![Expr::Symbol("x".to_string()), num(1)])]);
    let err = compile_module(&root).expect_err("must fail");
    assert!(matches!(err, CompilispError::UnboundVariable(name) if name == "x"));
}

#[test]
fn string_constant_is_unescaped_during_materialization() {
    let mut gen = NativeGenerator::new();
    let factory = FunctionFactory::new_with_base();
    gen.build_instruction(&factory, &CompilispIr::GlobalString {
        alloc_id: 1,
        value: "a\\nb".to_string(),
    })
    .expect("lowers");
    assert!(gen.instructions().iter().any(|i| matches!(
        i,
        NativeInst::GlobalString { value, .. } if value == "a\nb"
    )));
}

#[test]
fn gep_builder_emits_address_computation() {
    let mut gen = NativeGenerator::new();
    let dst = GepBuilder::build(&mut gen, 0, NativeType::Object, vec![0, 1]);
    match gen.instructions().last() {
        Some(NativeInst::Gep { dst: d, base, ty, indices }) => {
            assert_eq!(*d, dst);
            assert_eq!(*base, 0);
            assert_eq!(*ty, NativeType::Object);
            assert_eq!(indices, &vec![0, 1]);
        }
        other => panic!("unexpected instruction {:?}", other),
    }
}

#[test]
fn type_descriptors_map_to_native_forms() {
    assert_eq!(native_of(CompilispType::Char), NativeType::Char);
    assert_eq!(native_of(CompilispType::CharPtr), NativeType::CharPtr);
    assert_eq!(native_of(CompilispType::Int), NativeType::Int);
    assert_eq!(native_of(CompilispType::IntPtr), NativeType::IntPtr);
    assert_eq!(native_of(CompilispType::BoolPtr), NativeType::BoolPtr);
    assert_eq!(native_of(CompilispType::CompilispObject), NativeType::Object);
}

#[test]
fn function_builder_collects_signature_pieces() {
    let built = FunctionBuilder::new()
        .with_name("f")
        .with_ret_type(NativeType::Int)
        .add_arg(NativeType::CharPtr)
        .add_arg(NativeType::Object)
        .build();
    assert_eq!(built.0, "f");
    assert_eq!(built.1.args, vec![NativeType::CharPtr, NativeType::Object]);
    assert_eq!(built.1.ret, Some(NativeType::Int));
}
