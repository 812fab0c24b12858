//! Execution semantics for the IR: an interpreter that runs one lowered
//! instruction stream against a runtime instance. It defines what a
//! compiled module computes — native code generated from the same stream
//! must observe the same results — and it is how the compile pipeline is
//! exercised end to end without a native toolchain.

use vstd::prelude::*;

use crate::ast::Expr;
use crate::compilisp_ir::{
    alloc_bound, bound_names, frame_lookup, ir_shape, lower_fn, lower_status, scopes_lookup,
    shapes_of, Alloc, AllocId, CompilispIr, CompilispIrGenerator, IrShape,
};
use crate::runtime::{call_post, CompilispRuntime, CompilispValue};

verus! {

/// Why running an instruction stream failed.
#[derive(Debug)]
pub enum EvalError {
    /// The stream was not well formed at run time: a slot was read before
    /// any definition stored it on the executed path, a conditional
    /// bracket appeared without its opener, or a condition slot did not
    /// hold a boolean.
    MalformedIr,
    /// The runtime rejected a procedure call.
    Runtime(crate::runtime::CompilispError),
}

/// The slot store built while executing: later stores shadow earlier ones,
/// so the merge-slot copies of a conditional overwrite the condition's
/// original value.
pub type SlotStore = Vec<(AllocId, CompilispValue)>;

/// Innermost-last lookup in the slot store.
pub open spec fn store_lookup(store: Seq<(AllocId, CompilispValue)>, id: AllocId) -> Option<
    CompilispValue,
>
    decreases store.len(),
{
    if store.len() == 0 {
        None
    } else if store.last().0 == id {
        Some(store.last().1)
    } else {
        store_lookup(store.drop_last(), id)
    }
}

/// Reads the current value of a slot, the binding stored last winning.
pub fn slot_value(store: &SlotStore, id: AllocId) -> (r: Option<CompilispValue>)
    ensures
        r == store_lookup(store@, id),
{
    let ghost sseq = store@;
    let mut k = store.len();
    proof {
        assert(sseq.subrange(0, sseq.len() as int) =~= sseq);
    }
    while k > 0
        invariant
            k <= sseq.len(),
            sseq == store@,
            store_lookup(sseq, id) == store_lookup(sseq.subrange(0, k as int), id),
        decreases k,
    {
        k = k - 1;
        proof {
            let sub = sseq.subrange(0, k as int + 1);
            assert(sub.last() == sseq[k as int]);
            assert(sub.drop_last() =~= sseq.subrange(0, k as int));
        }
        if store[k].0 == id {
            return Some(store[k].1.duplicate());
        }
    }
    proof {
        assert(sseq.subrange(0, 0) =~= Seq::<(AllocId, CompilispValue)>::empty());
    }
    None
}


/// A runtime value as ghost code sees it: text as a character sequence.
pub enum ValueShape {
    Num(i32),
    Bool(bool),
    Text(Seq<char>),
    Sym(Seq<char>),
}

/// The shape of a runtime value.
pub open spec fn value_shape(v: CompilispValue) -> ValueShape {
    match v {
        CompilispValue::Number(n) => ValueShape::Num(n),
        CompilispValue::Boolean(b) => ValueShape::Bool(b),
        CompilispValue::String(s) => ValueShape::Text(s@),
        CompilispValue::Symbol(s) => ValueShape::Sym(s@),
    }
}

/// The shapes of a sequence of runtime values.
pub open spec fn shapes_of_values(vs: Seq<CompilispValue>) -> Seq<ValueShape> {
    vs.map_values(|v: CompilispValue| value_shape(v))
}

/// The shape of a slot store.
pub open spec fn store_view(s: Seq<(AllocId, CompilispValue)>) -> Seq<(AllocId, ValueShape)> {
    s.map_values(|e: (AllocId, CompilispValue)| (e.0, value_shape(e.1)))
}

/// Innermost-last lookup over a store of value shapes.
pub open spec fn store_lookup_s(store: Seq<(AllocId, ValueShape)>, id: AllocId) -> Option<
    ValueShape,
>
    decreases store.len(),
{
    if store.len() == 0 {
        None
    } else if store.last().0 == id {
        Some(store.last().1)
    } else {
        store_lookup_s(store.drop_last(), id)
    }
}

/// Every argument shape carries the Number tag.
pub open spec fn all_numbers_s(args: Seq<ValueShape>) -> bool {
    forall|i: int| 0 <= i < args.len() ==> (#[trigger] args[i]) is Num
}

/// The wrapped left-to-right sum, on value shapes.
pub open spec fn sum_wrapped_s(args: Seq<ValueShape>) -> i32
    decreases args,
{
    if args.len() == 0 {
        0i32
    } else {
        match args.last() {
            ValueShape::Num(n) => vstd::wrapping::i32_specs::wrapping_add(
                sum_wrapped_s(args.drop_last()),
                n,
            ),
            _ => sum_wrapped_s(args.drop_last()),
        }
    }
}

/// The strictly-increasing check, on value shapes.
pub open spec fn numbers_increasing_s(args: Seq<ValueShape>) -> bool {
    forall|i: int|
        0 <= i && i + 1 < args.len() ==> (#[trigger] args[i])->Num_0 < args[i + 1]->Num_0
}

/// The textual form of one value shape, as `display` prints it.
pub open spec fn value_text_s(v: ValueShape) -> Seq<char> {
    match v {
        ValueShape::Num(n) => crate::text::decimal_of_i32(n),
        ValueShape::Bool(b) => crate::text::bool_text(b),
        ValueShape::Text(t) => t,
        ValueShape::Sym(t) => t,
    }
}

/// The concatenated textual forms of a sequence of value shapes.
pub open spec fn display_text_s(args: Seq<ValueShape>) -> Seq<char>
    decreases args,
{
    if args.len() == 0 {
        Seq::empty()
    } else {
        display_text_s(args.drop_last()) + value_text_s(args.last())
    }
}

/// What one dispatched call computes, on value shapes: a returned value
/// plus the display text it appends, an unknown-procedure error carrying
/// the name, or an argument-type mismatch. Mirrors the runtime's
/// `call_post` exactly.
pub enum CallOutcome {
    Ret(ValueShape, Seq<char>),
    Unbound(Seq<char>),
    Mismatch,
}

pub open spec fn call_result_s(name: Seq<char>, args: Seq<ValueShape>) -> CallOutcome {
    if name == "+"@ {
        if all_numbers_s(args) {
            CallOutcome::Ret(ValueShape::Num(sum_wrapped_s(args)), Seq::empty())
        } else {
            CallOutcome::Mismatch
        }
    } else if name == "<"@ {
        if all_numbers_s(args) {
            CallOutcome::Ret(ValueShape::Bool(numbers_increasing_s(args)), Seq::empty())
        } else {
            CallOutcome::Mismatch
        }
    } else if name == "display"@ {
        CallOutcome::Ret(ValueShape::Num(0), display_text_s(args))
    } else if name == "begin"@ {
        if args.len() == 0 {
            CallOutcome::Mismatch
        } else {
            CallOutcome::Ret(args.last(), Seq::empty())
        }
    } else {
        CallOutcome::Unbound(name)
    }
}

/// A dispatched call's exact behavior agrees with its shape-level result.
proof fn lemma_call_agrees(
    name: Seq<char>,
    args: Seq<CompilispValue>,
    out0: Seq<char>,
    out1: Seq<char>,
    r: Result<CompilispValue, crate::runtime::CompilispError>,
)
    requires
        call_post(name, args, out0, out1, r),
    ensures
        match call_result_s(name, shapes_of_values(args)) {
            CallOutcome::Ret(v, t) => r matches Ok(rv) && value_shape(rv) == v && out1 == out0
                + t,
            CallOutcome::Unbound(n) => (r matches Err(crate::runtime::CompilispError::UnboundVariable(m))
                && m@ == n) && out1 == out0,
            CallOutcome::Mismatch => r matches Err(crate::runtime::CompilispError::ArgTypeMismatch)
                && out1 == out0,
        },
{
    let shapes = shapes_of_values(args);
    assert(crate::runtime::all_numbers(args) == all_numbers_s(shapes)) by {
        if crate::runtime::all_numbers(args) {
            assert forall|i: int| 0 <= i < shapes.len() implies (#[trigger] shapes[i]) is Num by {
                assert(args[i] is Number);
            }
        }
        if all_numbers_s(shapes) {
            assert forall|i: int| 0 <= i < args.len() implies (#[trigger] args[i]) is Number by {
                assert(shapes[i] is Num);
            }
        }
    }
    lemma_sum_shape(args);
    lemma_display_shape(args);
    if name == "<"@ && crate::runtime::all_numbers(args) {
        assert(crate::runtime::numbers_increasing(args) == numbers_increasing_s(shapes)) by {
            if crate::runtime::numbers_increasing(args) {
                assert forall|i: int|
                    0 <= i && i + 1 < shapes.len() implies (#[trigger] shapes[i])->Num_0 < shapes[i
                    + 1]->Num_0 by {
                    assert(args[i]->Number_0 < args[i + 1]->Number_0);
                    assert(shapes[i] == value_shape(args[i]));
                    assert(shapes[i + 1] == value_shape(args[i + 1]));
                }
            }
            if numbers_increasing_s(shapes) {
                assert forall|i: int|
                    0 <= i && i + 1 < args.len() implies (#[trigger] args[i])->Number_0 < args[i
                    + 1]->Number_0 by {
                    assert(shapes[i]->Num_0 < shapes[i + 1]->Num_0);
                    assert(shapes[i] == value_shape(args[i]));
                    assert(shapes[i + 1] == value_shape(args[i + 1]));
                }
            }
        }
    }
    if name == "begin"@ && args.len() > 0 {
        assert(shapes.last() == value_shape(args.last()));
    }
}

/// The wrapped sum agrees between values and their shapes.
proof fn lemma_sum_shape(args: Seq<CompilispValue>)
    ensures
        sum_wrapped_s(shapes_of_values(args)) == crate::runtime::sum_wrapped(args),
    decreases args.len(),
{
    if args.len() > 0 {
        lemma_sum_shape(args.drop_last());
        assert(shapes_of_values(args).drop_last() =~= shapes_of_values(args.drop_last()));
        assert(shapes_of_values(args).last() == value_shape(args.last()));
    }
}

/// The display text agrees between values and their shapes.
proof fn lemma_display_shape(args: Seq<CompilispValue>)
    ensures
        display_text_s(shapes_of_values(args)) == crate::runtime::display_text(args),
    decreases args.len(),
{
    if args.len() > 0 {
        lemma_display_shape(args.drop_last());
        assert(shapes_of_values(args).drop_last() =~= shapes_of_values(args.drop_last()));
        assert(shapes_of_values(args).last() == value_shape(args.last()));
    }
}


/// Where the interpreter stands relative to conditional brackets, as ghost
/// code sees it.
pub enum ModeShape {
    Run,
    ToElse(nat),
    ToEnd(nat),
}

/// The interpreter's state: the store of value shapes, the bracket mode,
/// and the display text appended so far.
pub struct EvalState {
    pub store: Seq<(AllocId, ValueShape)>,
    pub mode: ModeShape,
    pub out: Seq<char>,
}

/// How a run ends: the final state, a malformed-stream fault, an unknown
/// procedure (carrying its name), or an argument-type mismatch.
pub enum RunOutcome {
    Done(EvalState),
    Malformed,
    Unbound(Seq<char>),
    Mismatch,
}

/// Every argument slot of a call holds a value.
pub open spec fn args_present(store: Seq<(AllocId, ValueShape)>, args: Seq<Alloc>) -> bool {
    forall|k: int| 0 <= k < args.len() ==> store_lookup_s(store, (#[trigger] args[k]).id) is Some
}

/// The values of a call's argument slots, in order.
pub open spec fn arg_values_s(store: Seq<(AllocId, ValueShape)>, args: Seq<Alloc>) -> Seq<
    ValueShape,
> {
    Seq::new(args.len(), |k: int| store_lookup_s(store, args[k].id)->Some_0)
}

/// One interpreter step: executing mode stores materialized constants and
/// reserved return slots, dispatches calls, branches on condition slots
/// (entering skip mode on a false condition), and copies branch results
/// into the merge slot; the two skip modes track nested conditionals and
/// resume executing at the matching bracket. When a condition is false and
/// no else bracket exists, the closing bracket is reached with the merge
/// slot still holding the condition's value, `Bool(false)`.
pub open spec fn eval_step_s(st: EvalState, inst: IrShape) -> RunOutcome {
    match st.mode {
        ModeShape::Run => match inst {
            IrShape::ConstInt { alloc_id, value } => RunOutcome::Done(
                EvalState {
                    store: st.store.push((alloc_id, ValueShape::Num(value))),
                    mode: st.mode,
                    out: st.out,
                },
            ),
            IrShape::GlobalString { alloc_id, value } => RunOutcome::Done(
                EvalState {
                    store: st.store.push(
                        (alloc_id, ValueShape::Text(crate::text::unescape_newlines(value))),
                    ),
                    mode: st.mode,
                    out: st.out,
                },
            ),
            IrShape::ProcedureReturnValue(id) => RunOutcome::Done(
                EvalState {
                    store: st.store.push((id, ValueShape::Num(0))),
                    mode: st.mode,
                    out: st.out,
                },
            ),
            IrShape::ProcedureScopeStart => RunOutcome::Done(st),
            IrShape::ProcedureScopeEnd => RunOutcome::Done(st),
            IrShape::CallProcedure { name, return_id, args } => if !args_present(
                st.store,
                args,
            ) {
                RunOutcome::Malformed
            } else {
                match call_result_s(name, arg_values_s(st.store, args)) {
                    CallOutcome::Ret(v, t) => RunOutcome::Done(
                        EvalState {
                            store: st.store.push((return_id, v)),
                            mode: st.mode,
                            out: st.out + t,
                        },
                    ),
                    CallOutcome::Unbound(n) => RunOutcome::Unbound(n),
                    CallOutcome::Mismatch => RunOutcome::Mismatch,
                }
            },
            IrShape::IfExpressionEval { cond_alloc } => match store_lookup_s(
                st.store,
                cond_alloc,
            ) {
                Some(ValueShape::Bool(b)) => if b {
                    RunOutcome::Done(st)
                } else {
                    RunOutcome::Done(
                        EvalState { store: st.store, mode: ModeShape::ToElse(0), out: st.out },
                    )
                },
                _ => RunOutcome::Malformed,
            },
            IrShape::IfExpressionEndThen { result_alloc, cond_alloc } => match store_lookup_s(
                st.store,
                result_alloc,
            ) {
                Some(v) => RunOutcome::Done(
                    EvalState {
                        store: st.store.push((cond_alloc, v)),
                        mode: ModeShape::ToEnd(0),
                        out: st.out,
                    },
                ),
                None => RunOutcome::Malformed,
            },
            IrShape::IfExpressionElse => RunOutcome::Malformed,
            IrShape::IfExpressionEndElse { result_alloc, cond_alloc } => match store_lookup_s(
                st.store,
                result_alloc,
            ) {
                Some(v) => RunOutcome::Done(
                    EvalState {
                        store: st.store.push((cond_alloc, v)),
                        mode: st.mode,
                        out: st.out,
                    },
                ),
                None => RunOutcome::Malformed,
            },
            IrShape::IfExpressionEndBlock => RunOutcome::Done(st),
        },
        ModeShape::ToElse(d) => RunOutcome::Done(
            EvalState {
                store: st.store,
                mode: match inst {
                    IrShape::IfExpressionEval { .. } => ModeShape::ToElse(d + 1),
                    IrShape::IfExpressionElse => if d == 0 {
                        ModeShape::Run
                    } else {
                        ModeShape::ToElse(d)
                    },
                    IrShape::IfExpressionEndBlock => if d == 0 {
                        ModeShape::Run
                    } else {
                        ModeShape::ToElse((d - 1) as nat)
                    },
                    _ => st.mode,
                },
                out: st.out,
            },
        ),
        ModeShape::ToEnd(d) => RunOutcome::Done(
            EvalState {
                store: st.store,
                mode: match inst {
                    IrShape::IfExpressionEval { .. } => ModeShape::ToEnd(d + 1),
                    IrShape::IfExpressionEndBlock => if d == 0 {
                        ModeShape::Run
                    } else {
                        ModeShape::ToEnd((d - 1) as nat)
                    },
                    _ => st.mode,
                },
                out: st.out,
            },
        ),
    }
}

/// Running a whole stream: one step per instruction, in order; a stream
/// that ends inside a skipped region is malformed.
pub open spec fn eval_run_s(insts: Seq<IrShape>, st: EvalState) -> RunOutcome
    decreases insts.len(),
{
    if insts.len() == 0 {
        if st.mode is Run {
            RunOutcome::Done(st)
        } else {
            RunOutcome::Malformed
        }
    } else {
        match eval_step_s(st, insts[0]) {
            RunOutcome::Done(st2) => eval_run_s(insts.drop_first(), st2),
            RunOutcome::Malformed => RunOutcome::Malformed,
            RunOutcome::Unbound(n) => RunOutcome::Unbound(n),
            RunOutcome::Mismatch => RunOutcome::Mismatch,
        }
    }
}

/// The store lookup agrees with its shape-level mirror.
proof fn lemma_store_lookup_view(s: Seq<(AllocId, CompilispValue)>, id: AllocId)
    ensures
        match store_lookup(s, id) {
            Some(v) => store_lookup_s(store_view(s), id) == Some(value_shape(v)),
            None => store_lookup_s(store_view(s), id) is None,
        },
    decreases s.len(),
{
    if s.len() > 0 {
        assert(store_view(s).last() == (s.last().0, value_shape(s.last().1)));
        assert(store_view(s).drop_last() =~= store_view(s.drop_last()));
        lemma_store_lookup_view(s.drop_last(), id);
    }
}

/// Where the interpreter currently stands relative to conditional
/// brackets: executing, skipping a then-taken conditional's else region, or
/// skipping forward to a conditional's closing bracket. The counter tracks
/// conditionals nested inside the skipped region.
enum RunMode {
    Run,
    SkipToElse(usize),
    SkipToEnd(usize),
}

/// A sequence is a prefix of itself followed by anything.
proof fn lemma_prefix_grow(a: Seq<char>, t: Seq<char>)
    ensures
        a.is_prefix_of(a + t),
{
    assert(a =~= (a + t).subrange(0, a.len() as int));
}

/// The prefix relation on character sequences is transitive.
proof fn lemma_prefix_chain(a: Seq<char>, b: Seq<char>, c: Seq<char>)
    requires
        a.is_prefix_of(b),
        b.is_prefix_of(c),
    ensures
        a.is_prefix_of(c),
{
    assert(a =~= c.subrange(0, a.len() as int));
}

/// The interpreter's view of the executable mode.
spec fn mode_view(m: RunMode) -> ModeShape {
    match m {
        RunMode::Run => ModeShape::Run,
        RunMode::SkipToElse(d) => ModeShape::ToElse(d as nat),
        RunMode::SkipToEnd(d) => ModeShape::ToEnd(d as nat),
    }
}

/// The state a run starts from: empty store, executing, nothing printed.
pub open spec fn initial_state() -> EvalState {
    EvalState { store: Seq::empty(), mode: ModeShape::Run, out: Seq::empty() }
}

/// Runs one instruction stream against the runtime, returning the slot
/// store left behind. The outcome is exactly what the reference
/// interpreter (`eval_run_s`) computes on the stream's shapes from the
/// initial state: the final store and appended display output on success,
/// the matching fault otherwise. A call that reports a non-zero status
/// aborts the run and surfaces the error — this backend propagates
/// failures rather than substituting a default value. The runtime's scope
/// and argument stacks are exactly as before the run.
#[verifier::loop_isolation(false)]
#[verifier::rlimit(100)]
pub fn eval_ir(ir: &Vec<CompilispIr>, rt: &mut CompilispRuntime) -> (r: Result<
    SlotStore,
    EvalError,
>)
    ensures
        final(rt).scopes() == old(rt).scopes(),
        final(rt).arg_values() == old(rt).arg_values(),
        old(rt).output().is_prefix_of(final(rt).output()),
        ({
            match eval_run_s(shapes_of(ir@), initial_state()) {
                RunOutcome::Done(st) => (r matches Ok(store) && store_view(store@) == st.store
                    && final(rt).output() == old(rt).output() + st.out),
                RunOutcome::Malformed => r matches Err(EvalError::MalformedIr),
                RunOutcome::Unbound(n) => (r matches Err(EvalError::Runtime(
                    crate::runtime::CompilispError::UnboundVariable(m),
                )) && m@ == n),
                RunOutcome::Mismatch => r matches Err(EvalError::Runtime(
                    crate::runtime::CompilispError::ArgTypeMismatch,
                )),
            }
        }),
{
    let mut store: SlotStore = Vec::new();
    let mut mode = RunMode::Run;
    let mut i: usize = 0;
    let ghost out0 = old(rt).output();
    proof {
        assert(out0 =~= rt.output().subrange(0, out0.len() as int));
        assert(shapes_of(ir@).skip(0) =~= shapes_of(ir@));
        assert(store_view(store@) =~= Seq::<(AllocId, ValueShape)>::empty());
        assert(rt.output().skip(out0.len() as int) =~= Seq::<char>::empty());
    }
    while i < ir.len()
        invariant
            i <= ir@.len(),
            mode matches RunMode::SkipToElse(d) ==> d <= i,
            mode matches RunMode::SkipToEnd(d) ==> d <= i,
            rt.scopes() == old(rt).scopes(),
            rt.arg_values() == old(rt).arg_values(),
            old(rt).output().is_prefix_of(rt.output()),
            eval_run_s(shapes_of(ir@), initial_state()) == eval_run_s(
                shapes_of(ir@).skip(i as int),
                EvalState {
                    store: store_view(store@),
                    mode: mode_view(mode),
                    out: rt.output().skip(out0.len() as int),
                },
            ),
        decreases ir@.len() - i,
    {
        let ghost cur = EvalState {
            store: store_view(store@),
            mode: mode_view(mode),
            out: rt.output().skip(out0.len() as int),
        };
        proof {
            assert(shapes_of(ir@).skip(i as int)[0] == ir_shape(ir@[i as int]));
            assert(shapes_of(ir@).skip(i as int).drop_first() =~= shapes_of(ir@).skip(
                i as int + 1,
            ));
        }
        let inst = &ir[i];
        match mode {
            RunMode::Run => {
                match inst {
                    CompilispIr::ConstInt { alloc_id, value } => {
                        store.push((*alloc_id, CompilispValue::Number(*value)));
                        proof {
                            assert(store_view(store@) =~= cur.store.push(
                                (*alloc_id, ValueShape::Num(*value)),
                            ));
                        }
                    },
                    CompilispIr::GlobalString { alloc_id, value } => {
                        // String constants are unescaped exactly as the
                        // code generator materializes them.
                        let text = crate::text::escape_newlines(value.as_str());
                        let ghost gt = text@;
                        store.push((*alloc_id, CompilispValue::String(text)));
                        proof {
                            assert(store_view(store@) =~= cur.store.push(
                                (*alloc_id, ValueShape::Text(gt)),
                            ));
                        }
                    },
                    CompilispIr::ProcedureReturnValue(id) => {
                        store.push((*id, CompilispValue::Number(0)));
                        proof {
                            assert(store_view(store@) =~= cur.store.push(
                                (*id, ValueShape::Num(0)),
                            ));
                        }
                    },
                    CompilispIr::ProcedureScopeStart => {},
                    CompilispIr::ProcedureScopeEnd => {},
                    CompilispIr::CallProcedure { name, return_id, args } => {
                        let mut vals: Vec<CompilispValue> = Vec::new();
                        let mut j: usize = 0;
                        while j < args.len()
                            invariant
                                j <= args@.len(),
                                vals@.len() == j,
                                forall|k: int|
                                    0 <= k < j ==> store_lookup_s(
                                        cur.store,
                                        (#[trigger] args@[k]).id,
                                    ) == Some(value_shape(vals@[k])),
                            decreases args@.len() - j,
                        {
                            match slot_value(&store, args[j].id) {
                                Some(v) => {
                                    proof {
                                        lemma_store_lookup_view(store@, args@[j as int].id);
                                    }
                                    vals.push(v);
                                },
                                None => {
                                    proof {
                                        lemma_store_lookup_view(store@, args@[j as int].id);
                                        assert(!args_present(cur.store, args@));
                                        assert(eval_run_s(shapes_of(ir@).skip(i as int), cur)
                                            == RunOutcome::Malformed);
                                    }
                                    return Err(EvalError::MalformedIr);
                                },
                            }
                            j = j + 1;
                        }
                        proof {
                            assert(args_present(cur.store, args@));
                            assert(shapes_of_values(vals@) =~= arg_values_s(cur.store, args@));
                        }
                        let ghost out_pre = rt.output();
                        let call_r = rt.procedure_call(name.as_str(), &vals);
                        let ghost gcall = call_r;
                        proof {
                            lemma_call_agrees(name@, vals@, out_pre, rt.output(), gcall);
                        }
                        match call_r {
                            Ok(v) => {
                                let ghost gv = v;
                                store.push((*return_id, v));
                                proof {
                                    match call_result_s(name@, arg_values_s(cur.store, args@)) {
                                        CallOutcome::Ret(sv, t) => {
                                            assert(store_view(store@) =~= cur.store.push(
                                                (*return_id, sv),
                                            ));
                                            assert(rt.output() =~= out_pre + t);
                                            assert(rt.output().skip(out0.len() as int)
                                                =~= cur.out + t);
                                            lemma_prefix_grow(out_pre, t);
                                            lemma_prefix_chain(
                                                old(rt).output(),
                                                out_pre,
                                                rt.output(),
                                            );
                                        },
                                        _ => {
                                            assert(false);
                                        },
                                    }
                                }
                            },
                            Err(e) => {
                                proof {
                                    assert(rt.output() == out_pre);
                                    assert(eval_run_s(shapes_of(ir@).skip(i as int), cur)
                                        == eval_step_s(cur, ir_shape(ir@[i as int])));
                                }
                                return Err(EvalError::Runtime(e));
                            },
                        }
                    },
                    CompilispIr::IfExpressionEval { cond_alloc } => {
                        match slot_value(&store, *cond_alloc) {
                            Some(CompilispValue::Boolean(b)) => {
                                proof {
                                    lemma_store_lookup_view(store@, *cond_alloc);
                                }
                                if !b {
                                    mode = RunMode::SkipToElse(0);
                                }
                            },
                            _ => {
                                proof {
                                    lemma_store_lookup_view(store@, *cond_alloc);
                                }
                                return Err(EvalError::MalformedIr);
                            },
                        }
                    },
                    CompilispIr::IfExpressionEndThen { result_alloc, cond_alloc } => {
                        match slot_value(&store, *result_alloc) {
                            Some(v) => {
                                proof {
                                    lemma_store_lookup_view(store@, *result_alloc);
                                }
                                let ghost gv = v;
                                store.push((*cond_alloc, v));
                                proof {
                                    assert(store_view(store@) =~= cur.store.push(
                                        (*cond_alloc, value_shape(gv)),
                                    ));
                                }
                            },
                            None => {
                                proof {
                                    lemma_store_lookup_view(store@, *result_alloc);
                                }
                                return Err(EvalError::MalformedIr);
                            },
                        }
                        mode = RunMode::SkipToEnd(0);
                    },
                    CompilispIr::IfExpressionElse => {
                        return Err(EvalError::MalformedIr);
                    },
                    CompilispIr::IfExpressionEndElse { result_alloc, cond_alloc } => {
                        match slot_value(&store, *result_alloc) {
                            Some(v) => {
                                proof {
                                    lemma_store_lookup_view(store@, *result_alloc);
                                }
                                let ghost gv = v;
                                store.push((*cond_alloc, v));
                                proof {
                                    assert(store_view(store@) =~= cur.store.push(
                                        (*cond_alloc, value_shape(gv)),
                                    ));
                                }
                            },
                            None => {
                                proof {
                                    lemma_store_lookup_view(store@, *result_alloc);
                                }
                                return Err(EvalError::MalformedIr);
                            },
                        }
                    },
                    CompilispIr::IfExpressionEndBlock => {},
                }
            },
            RunMode::SkipToElse(depth) => {
                match inst {
                    CompilispIr::IfExpressionEval { .. } => {
                        mode = RunMode::SkipToElse(depth + 1);
                    },
                    CompilispIr::IfExpressionElse => {
                        if depth == 0 {
                            mode = RunMode::Run;
                        }
                    },
                    CompilispIr::IfExpressionEndBlock => {
                        if depth == 0 {
                            // No else branch: the merge slot keeps the
                            // condition's value, Boolean(false).
                            mode = RunMode::Run;
                        } else {
                            mode = RunMode::SkipToElse(depth - 1);
                        }
                    },
                    _ => {},
                }
            },
            RunMode::SkipToEnd(depth) => {
                match inst {
                    CompilispIr::IfExpressionEval { .. } => {
                        mode = RunMode::SkipToEnd(depth + 1);
                    },
                    CompilispIr::IfExpressionEndBlock => {
                        if depth == 0 {
                            mode = RunMode::Run;
                        } else {
                            mode = RunMode::SkipToEnd(depth - 1);
                        }
                    },
                    _ => {},
                }
            },
        }
        i = i + 1;
    }
    proof {
        assert(shapes_of(ir@).skip(ir@.len() as int) =~= Seq::<IrShape>::empty());
    }
    match mode {
        RunMode::Run => {
            proof {
                assert(out0 + rt.output().skip(out0.len() as int) =~= rt.output());
            }
            Ok(store)
        },
        _ => Err(EvalError::MalformedIr),
    }
}

/// Why compiling and running one expression failed: a compile diagnostic
/// from lowering, or a fault while executing the stream.
#[derive(Debug)]
pub enum EvaluateError {
    Compile(crate::error::CompilispError),
    Eval(EvalError),
}

/// Compiles one expression under an empty scope and runs its instruction
/// stream on a fresh runtime, returning the expression's value and the
/// display output the run produced.
pub fn evaluate_expr(expr: &Expr) -> (r: Result<(CompilispValue, String), EvaluateError>)
    requires
        alloc_bound(*expr) <= usize::MAX,
    ensures
        r matches Err(EvaluateError::Compile(e)) ==> crate::compilisp_ir::err_matches_status(
            e,
            lower_status(*expr, Set::empty()),
        ),
        !(r matches Err(EvaluateError::Compile(_))) ==> lower_status(
            *expr,
            Set::empty(),
        ) is Accepted,
        lower_status(*expr, Set::empty()) is Accepted ==> ({
            let lw = lower_fn(*expr, seq![Map::empty()], 0);
            match eval_run_s(lw.emitted, initial_state()) {
                RunOutcome::Done(st) => match store_lookup_s(st.store, lw.res.id) {
                    Some(sv) => (r matches Ok(vo) && value_shape(vo.0) == sv && vo.1@ == st.out),
                    None => r matches Err(EvaluateError::Eval(EvalError::MalformedIr)),
                },
                RunOutcome::Malformed => r matches Err(EvaluateError::Eval(EvalError::MalformedIr)),
                RunOutcome::Unbound(n) => (r matches Err(EvaluateError::Eval(EvalError::Runtime(
                    crate::runtime::CompilispError::UnboundVariable(m),
                ))) && m@ == n),
                RunOutcome::Mismatch => r matches Err(EvaluateError::Eval(EvalError::Runtime(
                    crate::runtime::CompilispError::ArgTypeMismatch,
                ))),
            }
        }),
{
    let mut generator = CompilispIrGenerator::new();
    proof {
        crate::compilisp_ir::lemma_initial_abs(&generator);
        assert forall|n: Seq<char>| !(#[trigger] bound_names(generator.scopes()).contains(n)) by {
            assert(generator.scopes().last()@ =~= Seq::<
                (String, crate::compilisp_ir::Alloc),
            >::empty());
            assert(generator.scopes().drop_last() =~= Seq::<
                Vec<(String, crate::compilisp_ir::Alloc)>,
            >::empty());
            assert(frame_lookup(
                Seq::<(String, crate::compilisp_ir::Alloc)>::empty(),
                n,
            ) is None);
            assert(scopes_lookup(
                Seq::<Vec<(String, crate::compilisp_ir::Alloc)>>::empty(),
                n,
            ) is None);
            assert(scopes_lookup(generator.scopes(), n) is None);
        }
        assert(bound_names(generator.scopes()) =~= Set::<Seq<char>>::empty());
    }
    let root = match generator.process(expr) {
        Ok(a) => a,
        Err(e) => {
            return Err(EvaluateError::Compile(e));
        },
    };
    proof {
        assert(generator.ir().skip(0) =~= generator.ir());
    }
    let mut rt = CompilispRuntime::new();
    proof {
        assert(rt.output() =~= Seq::<char>::empty());
    }
    let store = match eval_ir(generator.ir_buffer(), &mut rt) {
        Ok(s) => s,
        Err(e) => {
            return Err(EvaluateError::Eval(e));
        },
    };
    proof {
        lemma_store_lookup_view(store@, root.id);
    }
    let value = match slot_value(&store, root.id) {
        Some(v) => v,
        None => {
            return Err(EvaluateError::Eval(EvalError::MalformedIr));
        },
    };
    let ghost gvalue = value;
    let output = rt.take_output();
    proof {
        match eval_run_s(
            lower_fn(*expr, seq![Map::<Seq<char>, crate::compilisp_ir::Alloc>::empty()], 0).emitted,
            initial_state(),
        ) {
            RunOutcome::Done(st) => {
                assert(Seq::<char>::empty() + st.out =~= st.out);
                assert(output@ == st.out);
                assert(store_lookup_s(st.store, root.id) == Some(value_shape(gvalue)));
            },
            _ => {
                assert(false);
            },
        }
    }
    Ok((value, output))
}

} // verus!
