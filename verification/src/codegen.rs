//! The code generator: translates the IR stream, instruction by
//! instruction, into an abstract native instruction sequence, maintaining
//! a slot-to-storage map and a stack of pending conditionals for the
//! duration of one module compile. The embedder turns the abstract
//! sequence into a concrete native module; the decisions — value
//! materialization, conditional lowering with a shared merge slot, and the
//! split dispatch between builtin and user-defined procedures — are all
//! made and checked here.
//!
//! Every identifier of a native value or block equals the index of the
//! instruction that produced it, so identifiers are unique by
//! construction.

use vstd::prelude::*;

use crate::abi::{
    native_of, table_lookup, CompilispType, FunctionBuilder, FunctionFactory, FunctionSig,
    NativeType, BOOLEAN_DISCRIMINATOR, NUMBER_DISCRIMINATOR, STR_DISCRIMINATOR,
};
use crate::ast::{Expr, ModuleAst};
use crate::compilisp_ir::{
    abs_scopes, alloc_bound, bound_names, brackets_wf, call_wf_at, calls_resolved, cond_depth,
    cond_refs_wf_at, conds_resolved, ir_def_id, is_bracket_use, lemma_initial_abs,
    lemma_module_lower_snoc, lemma_shapes_add, lower_fn, lower_status, module_lower_fn,
    shapes_of, slot_defined_before, Alloc, AllocId, AllocType, CompilispIr, CompilispIrGenerator,
    LowerStatus,
};
use crate::error::{CompilispError, CompilispResult};
use crate::runtime::is_builtin_name;
use crate::text::{escape_newlines, str_eq};
use vstd::string::StringExecFns;

verus! {

broadcast use vstd::string::group_string_axioms;

/// Names one native value (a materialized constant, an address, a loaded
/// value or a call result) within the emitted sequence.
pub type StorageId = usize;

/// Names one native basic block within the emitted sequence.
pub type BlockId = usize;

/// One abstract native instruction. Each mirrors one native construction
/// step of the backend: stack allocation, constant and global
/// materialization, field addressing, loads and stores, block handling,
/// branches, calls and returns.
#[derive(Clone, Debug)]
pub enum NativeInst {
    /// Reserve stack storage of the given type; `dst` names its address.
    Alloca { dst: StorageId, ty: NativeType },
    /// Materialize a 32-bit integer constant.
    ConstInt { dst: StorageId, value: i32 },
    /// Intern a global string under a label; `dst` names its address.
    GlobalString { dst: StorageId, name: String, value: String },
    /// Address of a field: base pointer plus constant indices.
    Gep { dst: StorageId, base: StorageId, ty: NativeType, indices: Vec<usize> },
    /// Reinterpret a pointer as pointing to another type.
    BitCast { dst: StorageId, src: StorageId, ty: NativeType },
    /// Load a value of the given type from an address.
    Load { dst: StorageId, ty: NativeType, src: StorageId },
    /// Store the value named `src` through the address named `dst`.
    Store { src: StorageId, dst: StorageId },
    /// Create a native block with the given label.
    CreateBlock { block: BlockId, label: String },
    /// Branch on a one-bit condition value.
    CondBr { cond: StorageId, then_block: BlockId, else_block: BlockId },
    /// Branch unconditionally.
    Br { block: BlockId },
    /// Insert the block after the current one and continue emission there.
    PositionAtEnd { block: BlockId },
    /// Call a runtime entry point; `dst` names the returned value.
    CallRuntime { dst: StorageId, callee: String, args: Vec<StorageId> },
    /// Call a user-defined procedure through its native symbol.
    CallSymbol { dst: StorageId, callee: String, args: Vec<StorageId> },
    /// Declare a native function with the given signature.
    DeclareFunction { name: String, sig: FunctionSig },
    /// Return the value named `src` from the current function.
    Ret { src: StorageId },
}

/// A value the generator can materialize into native storage.
#[derive(Debug)]
pub enum Value<'a> {
    GlobalString { name: &'a str, value: &'a str },
    VariableString { value: &'a str },
    ConstInt(i32),
    VarInt32(&'a str, Option<i32>),
    VarBool(&'a str, Option<bool>),
}

/// One pending conditional: the three native blocks created when its
/// condition was evaluated. The frame is pushed by the condition
/// evaluation and popped when the conditional block ends.
#[derive(Clone, Copy, Debug)]
pub struct ConditionalBlock {
    pub block_then: BlockId,
    pub block_else: Option<BlockId>,
    pub block_finally: BlockId,
}

/// The global-string interning table: each distinct string constant is
/// materialized once and reused afterwards.
pub struct ValueBuilder {
    global_strings: Vec<(String, StorageId)>,
}

impl ValueBuilder {
    /// The interned strings and their storage.
    pub closed spec fn table(&self) -> Seq<(String, StorageId)> {
        self.global_strings@
    }
}

/// Lookup in the slot-to-storage map, the entry recorded last winning (the
/// map is only ever extended with fresh slot identifiers).
pub open spec fn map_lookup(m: Seq<(AllocId, StorageId)>, id: AllocId) -> Option<StorageId>
    decreases m.len(),
{
    if m.len() == 0 {
        None
    } else if m.last().0 == id {
        Some(m.last().1)
    } else {
        map_lookup(m.drop_last(), id)
    }
}

/// Lookup in the global-string interning table.
pub open spec fn gs_lookup(m: Seq<(String, StorageId)>, s: Seq<char>) -> Option<StorageId>
    decreases m.len(),
{
    if m.len() == 0 {
        None
    } else if m.last().0@ == s {
        Some(m.last().1)
    } else {
        gs_lookup(m.drop_last(), s)
    }
}

/// All of a call's argument slots have storage.
pub open spec fn args_mapped(m: Seq<(AllocId, StorageId)>, args: Seq<Alloc>) -> bool {
    forall|a: int| 0 <= a < args.len() ==> map_lookup(m, (#[trigger] args[a]).id) is Some
}

/// When translating one IR instruction succeeds: a call needs storage for
/// its return slot and every argument slot (and, on the builtin path, the
/// runtime dispatch entry point in the table); a condition needs its slot
/// mapped; each conditional bracket instruction needs a pending
/// conditional to work on. Everything else always succeeds.
pub open spec fn step_accepted(
    m: Seq<(AllocId, StorageId)>,
    conds: Seq<ConditionalBlock>,
    table: Seq<(String, FunctionSig)>,
    inst: CompilispIr,
) -> bool {
    match inst {
        CompilispIr::CallProcedure { name, return_id, args } => {
            &&& map_lookup(m, return_id) is Some
            &&& args_mapped(m, args@)
            &&& (is_builtin_name(name@) ==> table_lookup(table, "compilisp_procedure_call"@)
                is Some)
        },
        CompilispIr::IfExpressionEval { cond_alloc } => map_lookup(m, cond_alloc) is Some,
        CompilispIr::IfExpressionEndThen { result_alloc, cond_alloc } => conds.len() >= 1
            && map_lookup(m, result_alloc) is Some && map_lookup(m, cond_alloc) is Some,
        CompilispIr::IfExpressionEndElse { result_alloc, cond_alloc } => conds.len() >= 1
            && map_lookup(m, result_alloc) is Some && map_lookup(m, cond_alloc) is Some,
        CompilispIr::IfExpressionElse => conds.len() >= 1,
        CompilispIr::IfExpressionEndBlock => conds.len() >= 1,
        _ => true,
    }
}


/// The emitted suffix that materializes an integer variable holding `v`:
/// the tagged record is reserved, the Number tag is written through the
/// tag field's address, and the payload is written through the payload
/// field's address reinterpreted as an integer pointer. `r` names the
/// record's storage.
pub open spec fn materialize_int_emitted(
    pre: Seq<NativeInst>,
    post: Seq<NativeInst>,
    r: StorageId,
    v: i32,
) -> bool {
    let b = pre.len() as int;
    &&& post.len() == b + 8
    &&& post[b] == NativeInst::Alloca { dst: r, ty: NativeType::Object }
    &&& (post[b + 1] matches NativeInst::Gep { dst: g1, base, ty, indices } && base == r && ty
        == NativeType::Object && indices@ == seq![0usize, 0usize] && (post[b
        + 2] matches NativeInst::ConstInt { dst: d2, value: tag } && tag == NUMBER_DISCRIMINATOR
        && post[b + 3] == NativeInst::Store { src: d2, dst: g1 }))
    &&& (post[b + 4] matches NativeInst::Gep { dst: g2, base: b2, ty: t2, indices: ix2 } && b2
        == r && t2 == NativeType::Object && ix2@ == seq![0usize, 1usize] && (post[b
        + 5] matches NativeInst::BitCast { dst: c5, src: s5, ty: t5 } && s5 == g2 && t5
        == NativeType::IntPtr && (post[b + 6] matches NativeInst::ConstInt { dst: d6, value: v6 }
        && v6 == v && post[b + 7] == NativeInst::Store { src: d6, dst: c5 })))
}

/// The emitted suffix that materializes a string variable holding the
/// unescaped `text`: the tagged record is reserved, the String tag written
/// through the tag field's address, the text interned (one fresh global
/// exactly when it was not interned before), and the interned storage
/// written through the payload field's address. `r` names the record's
/// storage.
pub open spec fn materialize_string_emitted(
    pre: Seq<NativeInst>,
    pre_globals: Seq<(String, StorageId)>,
    post: Seq<NativeInst>,
    post_globals: Seq<(String, StorageId)>,
    r: StorageId,
    text: Seq<char>,
) -> bool {
    let b = pre.len() as int;
    let glen: int = if gs_lookup(pre_globals, text) is Some {
        0
    } else {
        1
    };
    &&& post.len() == b + 6 + glen
    &&& post[b] == NativeInst::Alloca { dst: r, ty: NativeType::Object }
    &&& (post[b + 1] matches NativeInst::Gep { dst: g1, base, ty, indices } && base == r && ty
        == NativeType::Object && indices@ == seq![0usize, 0usize] && (post[b
        + 2] matches NativeInst::ConstInt { dst: d2, value: tag } && tag == STR_DISCRIMINATOR
        && post[b + 3] == NativeInst::Store { src: d2, dst: g1 }))
    &&& (glen == 1 ==> (post[b + 4] matches NativeInst::GlobalString { value: gv, .. } && gv@
        == text))
    &&& gs_lookup(post_globals, text) is Some
    &&& (post[b + 4 + glen] matches NativeInst::Gep { dst: g2, base: b2, ty: t2, indices: ix2 }
        && b2 == r && t2 == NativeType::Object && ix2@ == seq![0usize, 1usize] && post[b + 5
        + glen] == NativeInst::Store {
        src: gs_lookup(post_globals, text)->Some_0,
        dst: g2,
    })
}


/// The discriminant written for each slot kind.
pub open spec fn spec_disc_of(t: AllocType) -> i32 {
    match t {
        AllocType::Int => NUMBER_DISCRIMINATOR,
        AllocType::String => STR_DISCRIMINATOR,
        AllocType::Bool => BOOLEAN_DISCRIMINATOR,
    }
}

/// The six-instruction block that marshals argument `k` into the call's
/// tagged array: the element and tag-field addresses are computed, the
/// discriminant derived from the slot kind is stored through the tag
/// field, and the slot's value is loaded from its storage and stored into
/// the element.
pub open spec fn marshal_block_emitted(
    s: Seq<NativeInst>,
    b: int,
    k: int,
    arg: Alloc,
    array: StorageId,
    arr_ty: NativeType,
    m: Seq<(AllocId, StorageId)>,
) -> bool {
    s[b] matches NativeInst::Gep { dst: ei, base, ty, indices } && base == array && ty == arr_ty
        && indices@ == seq![0usize, k as usize] && (s[b + 1] matches NativeInst::Gep {
        dst: ti,
        base: b1,
        ty: t1,
        indices: ix1,
    } && b1 == ei && t1 == NativeType::Object && ix1@ == seq![0usize, 0usize] && (s[b
        + 2] matches NativeInst::ConstInt { dst: d2, value: disc } && disc == spec_disc_of(
        arg.alloc_type,
    ) && s[b + 3] == NativeInst::Store { src: d2, dst: ti } && (s[b + 4] matches NativeInst::Load {
        dst: l4,
        ty: t4,
        src: vp,
    } && t4 == NativeType::Object && Some(vp) == map_lookup(m, arg.id) && s[b + 5]
        == NativeInst::Store { src: l4, dst: ei })))
}

/// Every argument marshalled, in order, each in its own six-instruction
/// block.
pub open spec fn marshal_emitted(
    pre: Seq<NativeInst>,
    post: Seq<NativeInst>,
    args: Seq<Alloc>,
    array: StorageId,
    arr_ty: NativeType,
    m: Seq<(AllocId, StorageId)>,
) -> bool {
    &&& post.len() == pre.len() + 6 * args.len()
    &&& forall|k: int|
        0 <= k < args.len() ==> marshal_block_emitted(
            post,
            pre.len() + 6 * k,
            k,
            #[trigger] args[k],
            array,
            arr_ty,
            m,
        )
}


/// The emitted suffix of the builtin call path: the argument count is
/// materialized, the tagged array reserved, the operation name interned (a
/// fresh global only when not seen before), every argument marshalled in
/// order, and the single fixed runtime dispatch entry point called with
/// (name, array, length), its returned tagged value stored into the call's
/// result storage.
pub open spec fn runtime_call_emitted(
    pre: Seq<NativeInst>,
    pre_globals: Seq<(String, StorageId)>,
    post: Seq<NativeInst>,
    post_globals: Seq<(String, StorageId)>,
    opname: Seq<char>,
    args: Seq<Alloc>,
    m: Seq<(AllocId, StorageId)>,
    result_alloc: StorageId,
) -> bool {
    let b = pre.len() as int;
    let esc = crate::text::unescape_newlines(opname);
    let glen: int = if gs_lookup(pre_globals, esc) is Some {
        0
    } else {
        1
    };
    let n = args.len() as int;
    &&& post.len() == b + 5 + glen + 6 * n
    &&& gs_lookup(post_globals, esc) is Some
    &&& (glen == 1 ==> (post[b + 2] matches NativeInst::GlobalString { value: gv, .. } && gv@
        == esc))
    &&& (post[b] matches NativeInst::ConstInt { dst: sz, value: szv } && szv == args.len() as i32
        && (post[b + 1] matches NativeInst::Alloca { dst: arr, ty: aty } && aty
        == NativeType::ObjectArray(args.len() as usize) && (forall|k: int|
        0 <= k < n ==> marshal_block_emitted(
            post,
            b + 2 + glen + 6 * k,
            k,
            #[trigger] args[k],
            arr,
            NativeType::ObjectArray(args.len() as usize),
            m,
        )) && (post[b + 2 + glen + 6 * n] matches NativeInst::Gep {
        dst: ap,
        base: ab,
        ty: at2,
        indices: ix,
    } && ab == arr && at2 == NativeType::ObjectArray(args.len() as usize) && ix@ == seq![
        0usize,
        0usize,
    ] && (post[b + 3 + glen + 6 * n] matches NativeInst::CallRuntime {
        dst: cv,
        callee,
        args: ca,
    } && callee@ == "compilisp_procedure_call"@ && ca@ == seq![
        gs_lookup(post_globals, esc)->Some_0,
        ap,
        sz,
    ] && post[b + 4 + glen + 6 * n] == NativeInst::Store { src: cv, dst: result_alloc }))))
}

/// The emitted suffix of the user-defined call path: the tagged array
/// reserved, every argument marshalled in order, the argument count
/// materialized, and the named native symbol called with (count, array),
/// its returned tagged value stored into the call's result storage.
pub open spec fn symbol_call_emitted(
    pre: Seq<NativeInst>,
    post: Seq<NativeInst>,
    name: Seq<char>,
    args: Seq<Alloc>,
    m: Seq<(AllocId, StorageId)>,
    result_alloc: StorageId,
) -> bool {
    let b = pre.len() as int;
    let n = args.len() as int;
    &&& post.len() == b + 5 + 6 * n
    &&& (post[b] matches NativeInst::Alloca { dst: arr, ty: aty } && aty
        == NativeType::ObjectArray(args.len() as usize) && (forall|k: int|
        0 <= k < n ==> marshal_block_emitted(
            post,
            b + 1 + 6 * k,
            k,
            #[trigger] args[k],
            arr,
            NativeType::ObjectArray(args.len() as usize),
            m,
        )) && (post[b + 1 + 6 * n] matches NativeInst::Gep {
        dst: ap,
        base: ab,
        ty: at2,
        indices: ix,
    } && ab == arr && at2 == NativeType::ObjectArray(args.len() as usize) && ix@ == seq![
        0usize,
        0usize,
    ] && (post[b + 2 + 6 * n] matches NativeInst::ConstInt { dst: sz, value: szv } && szv
        == args.len() as i32 && (post[b + 3 + 6 * n] matches NativeInst::CallSymbol {
        dst: cv,
        callee,
        args: ca,
    } && callee@ == name && ca@ == seq![sz, ap] && post[b + 4 + 6 * n] == NativeInst::Store {
        src: cv,
        dst: result_alloc,
    }))))
}

/// One new entry on top of the slot-to-storage map, binding the given
/// slot.
pub open spec fn map_extended(
    pre: Seq<(AllocId, StorageId)>,
    post: Seq<(AllocId, StorageId)>,
    id: AllocId,
) -> bool {
    &&& post.len() == pre.len() + 1
    &&& post.drop_last() == pre
    &&& post.last().0 == id
}


/// The emitted suffix that evaluates a condition: the boolean payload is
/// read through the record's payload field reinterpreted as a boolean
/// pointer, the three branch blocks are created, the branch on the payload
/// jumps to then or else, and emission continues in the then block. The
/// pushed pending-conditional frame holds exactly the three created
/// blocks.
pub open spec fn eval_cond_emitted(
    pre: Seq<NativeInst>,
    post: Seq<NativeInst>,
    cond_storage: StorageId,
    frame: ConditionalBlock,
) -> bool {
    let b = pre.len() as int;
    &&& post.len() == b + 8
    &&& (post[b] matches NativeInst::Gep { dst: vp, base, ty, indices } && base == cond_storage
        && ty == NativeType::Object && indices@ == seq![0usize, 1usize] && (post[b
        + 1] matches NativeInst::BitCast { dst: cp, src, ty: t1 } && src == vp && t1
        == NativeType::BoolPtr && (post[b + 2] matches NativeInst::Load { dst: cl, ty: t2, src: s2 }
        && t2 == NativeType::Bool && s2 == cp && (post[b + 3] matches NativeInst::CreateBlock {
        block: bt,
        label: l3,
    } && l3@ == "then"@ && (post[b + 4] matches NativeInst::CreateBlock { block: be, label: l4 }
        && l4@ == "else"@ && (post[b + 5] matches NativeInst::CreateBlock { block: bf, label: l5 }
        && l5@ == "finally"@ && frame == ConditionalBlock {
        block_then: bt,
        block_else: Some(be),
        block_finally: bf,
    } && post[b + 6] == NativeInst::CondBr { cond: cl, then_block: bt, else_block: be } && post[b
        + 7] == NativeInst::PositionAtEnd { block: bt }))))))
}

/// The emitted suffix that closes one branch: the branch's computed value
/// is loaded from its storage and stored through the shared merge slot's
/// storage, and, when an else block exists, emission jumps to the
/// conditional's finally block.
pub open spec fn branch_close_emitted(
    pre: Seq<NativeInst>,
    post: Seq<NativeInst>,
    result_storage: StorageId,
    cond_storage: StorageId,
    frame: ConditionalBlock,
) -> bool {
    let b = pre.len() as int;
    &&& (post[b] matches NativeInst::Load { dst: lv, ty, src } && ty == NativeType::Object && src
        == result_storage && post[b + 1] == NativeInst::Store { src: lv, dst: cond_storage })
    &&& (frame.block_else is Some ==> post.len() == b + 3 && post[b + 2] == NativeInst::Br {
        block: frame.block_finally,
    })
    &&& (frame.block_else is None ==> post.len() == b + 2)
}

/// How one translated IR instruction changes the generator state:
/// materializations and return-slot declarations bind their slot to fresh
/// storage; evaluating a condition pushes one pending-conditional frame
/// (with an else block); ending the conditional block pops exactly that
/// frame; everything else leaves the map and the stack as they were.
pub open spec fn build_post(
    pre: NativeGenerator,
    post: NativeGenerator,
    inst: CompilispIr,
    ok: bool,
) -> bool {
    &&& insts_extended(pre.insts(), post.insts())
    &&& ok ==> match inst {
        CompilispIr::ConstInt { alloc_id, value } => map_extended(pre.map(), post.map(), alloc_id)
            && post.conds() == pre.conds() && materialize_int_emitted(
            pre.insts(),
            post.insts(),
            post.map().last().1,
            value,
        ),
        CompilispIr::GlobalString { alloc_id, value } => map_extended(
            pre.map(),
            post.map(),
            alloc_id,
        ) && post.conds() == pre.conds() && materialize_string_emitted(
            pre.insts(),
            pre.globals(),
            post.insts(),
            post.globals(),
            post.map().last().1,
            crate::text::unescape_newlines(value@),
        ),
        CompilispIr::ProcedureReturnValue(id) => map_extended(pre.map(), post.map(), id)
            && post.conds() == pre.conds() && post.insts() == pre.insts().push(
            NativeInst::Alloca { dst: post.map().last().1, ty: NativeType::Object },
        ),
        CompilispIr::CallProcedure { name, return_id, args } => post.map() == pre.map()
            && post.conds() == pre.conds() && (is_builtin_name(name@) ==> runtime_call_emitted(
            pre.insts(),
            pre.globals(),
            post.insts(),
            post.globals(),
            name@,
            args@,
            pre.map(),
            map_lookup(pre.map(), return_id)->Some_0,
        )) && (!is_builtin_name(name@) ==> symbol_call_emitted(
            pre.insts(),
            post.insts(),
            name@,
            args@,
            pre.map(),
            map_lookup(pre.map(), return_id)->Some_0,
        )),
        CompilispIr::IfExpressionEval { cond_alloc } => post.map() == pre.map()
            && post.conds().len() == pre.conds().len() + 1 && post.conds().drop_last()
            == pre.conds() && post.conds().last().block_else is Some && eval_cond_emitted(
            pre.insts(),
            post.insts(),
            map_lookup(pre.map(), cond_alloc)->Some_0,
            post.conds().last(),
        ),
        CompilispIr::IfExpressionEndThen { result_alloc, cond_alloc } => post.map() == pre.map()
            && post.conds() == pre.conds() && branch_close_emitted(
            pre.insts(),
            post.insts(),
            map_lookup(pre.map(), result_alloc)->Some_0,
            map_lookup(pre.map(), cond_alloc)->Some_0,
            pre.conds().last(),
        ),
        CompilispIr::IfExpressionEndElse { result_alloc, cond_alloc } => post.map() == pre.map()
            && post.conds() == pre.conds() && branch_close_emitted(
            pre.insts(),
            post.insts(),
            map_lookup(pre.map(), result_alloc)->Some_0,
            map_lookup(pre.map(), cond_alloc)->Some_0,
            pre.conds().last(),
        ),
        CompilispIr::IfExpressionElse => post.map() == pre.map() && post.conds() == pre.conds()
            && (pre.conds().last().block_else matches Some(be) ==> post.insts()
            == pre.insts().push(NativeInst::PositionAtEnd { block: be })) && (
        pre.conds().last().block_else is None ==> post.insts() == pre.insts()),
        CompilispIr::IfExpressionEndBlock => post.map() == pre.map() && post.conds()
            == pre.conds().drop_last() && post.insts() == pre.insts().push(
            NativeInst::PositionAtEnd { block: pre.conds().last().block_finally },
        ),
        _ => post.map() == pre.map() && post.conds() == pre.conds() && post.insts()
            == pre.insts(),
    }
    &&& !ok ==> post.map() == pre.map() && post.conds() == pre.conds()
}

/// The code generator's per-module state: the emitted sequence, the
/// interning table, the slot-to-storage map and the pending-conditional
/// stack.
pub struct NativeGenerator {
    insts: Vec<NativeInst>,
    value_builder: ValueBuilder,
    alloc_map: Vec<(AllocId, StorageId)>,
    conditional_blocks: Vec<ConditionalBlock>,
}

/// The emitted sequence only grows: everything already emitted stays in
/// place.
pub open spec fn insts_extended(pre: Seq<NativeInst>, post: Seq<NativeInst>) -> bool {
    &&& pre.len() <= post.len()
    &&& forall|k: int| 0 <= k < pre.len() ==> #[trigger] post[k] == pre[k]
}

/// The part of the generator state a plain emission step never touches:
/// the emitted sequence only grows, and the slot map and the
/// pending-conditional stack stay as they were.
pub open spec fn extends(pre: NativeGenerator, post: NativeGenerator) -> bool {
    &&& insts_extended(pre.insts(), post.insts())
    &&& post.map() == pre.map()
    &&& post.conds() == pre.conds()
}

impl NativeGenerator {
    /// The native instructions emitted so far.
    pub closed spec fn insts(&self) -> Seq<NativeInst> {
        self.insts@
    }

    /// The slot-to-storage map.
    pub closed spec fn map(&self) -> Seq<(AllocId, StorageId)> {
        self.alloc_map@
    }

    /// The pending-conditional stack.
    pub closed spec fn conds(&self) -> Seq<ConditionalBlock> {
        self.conditional_blocks@
    }

    /// The global-string interning table.
    pub closed spec fn globals(&self) -> Seq<(String, StorageId)> {
        self.value_builder.table()
    }

    /// A fresh generator: nothing emitted, nothing mapped, no pending
    /// conditionals.
    pub fn new() -> (r: Self)
        ensures
            r.insts() == Seq::<NativeInst>::empty(),
            r.map() == Seq::<(AllocId, StorageId)>::empty(),
            r.conds() == Seq::<ConditionalBlock>::empty(),
            r.globals() == Seq::<(String, StorageId)>::empty(),
    {
        NativeGenerator {
            insts: Vec::new(),
            value_builder: ValueBuilder { global_strings: Vec::new() },
            alloc_map: Vec::new(),
            conditional_blocks: Vec::new(),
        }
    }

    /// Read access to the emitted instruction sequence.
    pub fn instructions(&self) -> (r: &Vec<NativeInst>)
        ensures
            r@ == self.insts(),
    {
        &self.insts
    }

    /// Looks up the storage recorded for a slot.
    pub fn lookup_alloc(&self, id: AllocId) -> (r: Option<StorageId>)
        ensures
            r == map_lookup(self.map(), id),
    {
        let ghost mseq = self.map();
        let mut k = self.alloc_map.len();
        proof {
            assert(mseq.subrange(0, mseq.len() as int) =~= mseq);
        }
        while k > 0
            invariant
                k <= mseq.len(),
                mseq == self.map(),
                map_lookup(mseq, id) == map_lookup(mseq.subrange(0, k as int), id),
            decreases k,
        {
            k = k - 1;
            proof {
                let sub = mseq.subrange(0, k as int + 1);
                assert(sub.last() == mseq[k as int]);
                assert(sub.drop_last() =~= mseq.subrange(0, k as int));
            }
            if self.alloc_map[k].0 == id {
                return Some(self.alloc_map[k].1);
            }
        }
        proof {
            assert(mseq.subrange(0, 0) =~= Seq::<(AllocId, StorageId)>::empty());
        }
        None
    }

    /// Reserves stack storage; the returned identifier names its address.
    fn emit_alloca(&mut self, ty: NativeType) -> (r: StorageId)
        ensures
            extends(*old(self), *final(self)),
            final(self).globals() == old(self).globals(),
            final(self).insts() == old(self).insts().push(NativeInst::Alloca { dst: r, ty }),
    {
        let dst = self.insts.len();
        self.insts.push(NativeInst::Alloca { dst, ty });
        dst
    }

    /// Materializes a 32-bit integer constant.
    fn build_const_int(&mut self, value: i32) -> (r: StorageId)
        ensures
            extends(*old(self), *final(self)),
            final(self).globals() == old(self).globals(),
            final(self).insts() == old(self).insts().push(
                NativeInst::ConstInt { dst: r, value },
            ),
    {
        let dst = self.insts.len();
        self.insts.push(NativeInst::ConstInt { dst, value });
        dst
    }

    /// Emits the address computation for constant `indices` into `base`.
    fn gep(&mut self, base: StorageId, ty: NativeType, indices: Vec<usize>) -> (r: StorageId)
        ensures
            extends(*old(self), *final(self)),
            final(self).globals() == old(self).globals(),
            final(self).insts() == old(self).insts().push(
                NativeInst::Gep { dst: r, base, ty, indices },
            ),
    {
        let dst = self.insts.len();
        self.insts.push(NativeInst::Gep { dst, base, ty, indices });
        dst
    }

    /// Reinterprets a pointer as pointing to another type.
    fn emit_bitcast(&mut self, src: StorageId, ty: NativeType) -> (r: StorageId)
        ensures
            extends(*old(self), *final(self)),
            final(self).globals() == old(self).globals(),
            final(self).insts() == old(self).insts().push(
                NativeInst::BitCast { dst: r, src, ty },
            ),
    {
        let dst = self.insts.len();
        self.insts.push(NativeInst::BitCast { dst, src, ty });
        dst
    }

    /// Loads a value of the given type from an address.
    fn emit_load(&mut self, ty: NativeType, src: StorageId) -> (r: StorageId)
        ensures
            extends(*old(self), *final(self)),
            final(self).globals() == old(self).globals(),
            final(self).insts() == old(self).insts().push(NativeInst::Load { dst: r, ty, src }),
    {
        let dst = self.insts.len();
        self.insts.push(NativeInst::Load { dst, ty, src });
        dst
    }

    /// Stores the value `src` through the address `dst`.
    fn emit_store(&mut self, src: StorageId, dst: StorageId)
        ensures
            extends(*old(self), *final(self)),
            final(self).globals() == old(self).globals(),
            final(self).insts() == old(self).insts().push(NativeInst::Store { src, dst }),
    {
        self.insts.push(NativeInst::Store { src, dst });
    }

    /// Creates one native block with the given label.
    fn emit_block(&mut self, label: &str) -> (r: BlockId)
        ensures
            extends(*old(self), *final(self)),
            final(self).globals() == old(self).globals(),
            final(self).insts().len() == old(self).insts().len() + 1,
            final(self).insts().last() matches NativeInst::CreateBlock { block, label: l }
                && block == r && l@ == label@,
    {
        let block = self.insts.len();
        self.insts.push(NativeInst::CreateBlock { block, label: label.to_owned() });
        block
    }

    /// Branches on a one-bit condition value.
    fn emit_cond_br(&mut self, cond: StorageId, then_block: BlockId, else_block: BlockId)
        ensures
            extends(*old(self), *final(self)),
            final(self).globals() == old(self).globals(),
            final(self).insts() == old(self).insts().push(
                NativeInst::CondBr { cond, then_block, else_block },
            ),
    {
        self.insts.push(NativeInst::CondBr { cond, then_block, else_block });
    }

    /// Branches unconditionally.
    fn emit_br(&mut self, block: BlockId)
        ensures
            extends(*old(self), *final(self)),
            final(self).globals() == old(self).globals(),
            final(self).insts() == old(self).insts().push(NativeInst::Br { block }),
    {
        self.insts.push(NativeInst::Br { block });
    }

    /// Inserts the block after the current one and continues emission
    /// there.
    fn emit_position(&mut self, block: BlockId)
        ensures
            extends(*old(self), *final(self)),
            final(self).globals() == old(self).globals(),
            final(self).insts() == old(self).insts().push(NativeInst::PositionAtEnd { block }),
    {
        self.insts.push(NativeInst::PositionAtEnd { block });
    }

    /// Calls a runtime entry point by name.
    fn emit_call_runtime(&mut self, callee: &str, args: Vec<StorageId>) -> (r: StorageId)
        ensures
            extends(*old(self), *final(self)),
            final(self).globals() == old(self).globals(),
            final(self).insts().len() == old(self).insts().len() + 1,
            final(self).insts().last() matches NativeInst::CallRuntime { dst, callee: c, args: a }
                && dst == r && c@ == callee@ && a == args,
    {
        let dst = self.insts.len();
        self.insts.push(NativeInst::CallRuntime { dst, callee: callee.to_owned(), args });
        dst
    }

    /// Calls a user-defined procedure through its native symbol.
    fn emit_call_symbol(&mut self, callee: &str, args: Vec<StorageId>) -> (r: StorageId)
        ensures
            extends(*old(self), *final(self)),
            final(self).globals() == old(self).globals(),
            final(self).insts().len() == old(self).insts().len() + 1,
            final(self).insts().last() matches NativeInst::CallSymbol { dst, callee: c, args: a }
                && dst == r && c@ == callee@ && a == args,
    {
        let dst = self.insts.len();
        self.insts.push(NativeInst::CallSymbol { dst, callee: callee.to_owned(), args });
        dst
    }

    /// Declares one native function.
    fn emit_declare(&mut self, name: String, sig: FunctionSig)
        ensures
            extends(*old(self), *final(self)),
            final(self).globals() == old(self).globals(),
            final(self).insts().len() == old(self).insts().len() + 1,
            final(self).insts().last() matches NativeInst::DeclareFunction { name: n, sig: g }
                && n == name && g == sig,
    {
        self.insts.push(NativeInst::DeclareFunction { name, sig });
    }

    /// Returns the value `src` from the current function.
    fn emit_ret(&mut self, src: StorageId)
        ensures
            extends(*old(self), *final(self)),
            final(self).globals() == old(self).globals(),
            final(self).insts() == old(self).insts().push(NativeInst::Ret { src }),
    {
        self.insts.push(NativeInst::Ret { src });
    }

    /// Returns the storage of the interned global string for `value`,
    /// materializing it under the label `name` the first time it is seen.
    fn get_or_create_global_str(&mut self, value: &str, name: &str) -> (r: StorageId)
        ensures
            extends(*old(self), *final(self)),
            gs_lookup(old(self).globals(), value@) matches Some(s) ==> (r == s
                && final(self).globals() == old(self).globals()
                && final(self).insts() == old(self).insts()),
            gs_lookup(old(self).globals(), value@) is None ==> (final(self).insts().len()
                == old(self).insts().len() + 1
                && (final(self).insts().last() matches NativeInst::GlobalString { dst, name: n, value: v }
                && dst == r && n@ == name@ && v@ == value@)
                && final(self).globals().len() == old(self).globals().len() + 1
                && final(self).globals().drop_last() == old(self).globals()
                && final(self).globals().last().0@ == value@
                && final(self).globals().last().1 == r
                && gs_lookup(final(self).globals(), value@) == Some(r)),
    {
        let ghost gseq = self.value_builder.table();
        let mut k = self.value_builder.global_strings.len();
        proof {
            assert(gseq.subrange(0, gseq.len() as int) =~= gseq);
        }
        while k > 0
            invariant
                k <= gseq.len(),
                gseq == self.value_builder.table(),
                gseq == old(self).globals(),
                *self == *old(self),
                gs_lookup(gseq, value@) == gs_lookup(gseq.subrange(0, k as int), value@),
            decreases k,
        {
            k = k - 1;
            proof {
                let sub = gseq.subrange(0, k as int + 1);
                assert(sub.last() == gseq[k as int]);
                assert(sub.drop_last() =~= gseq.subrange(0, k as int));
            }
            if str_eq(self.value_builder.global_strings[k].0.as_str(), value) {
                return self.value_builder.global_strings[k].1;
            }
        }
        proof {
            assert(gseq.subrange(0, 0) =~= Seq::<(String, StorageId)>::empty());
        }
        let dst = self.insts.len();
        self.insts.push(
            NativeInst::GlobalString { dst, name: name.to_owned(), value: value.to_owned() },
        );
        self.value_builder.global_strings.push((value.to_owned(), dst));
        proof {
            assert(final(self).globals().last().0@ == value@);
        }
        dst
    }

    /// Materializes one value into native storage, following the fixed
    /// tagged-record layout: an interned global for string constants, a
    /// tagged stack record for variables (discriminant written first, then
    /// the payload through the matching pointer type), a bare constant for
    /// immediate integers. String constants are unescaped before
    /// materialization.
    pub fn build_value(&mut self, value: &Value) -> (r: StorageId)
        ensures
            extends(*old(self), *final(self)),
            !(*value matches Value::VariableString { .. }) && !(*value matches Value::GlobalString {
                ..
            }) ==> final(self).globals() == old(self).globals(),
            match *value {
                Value::ConstInt(v) => final(self).insts() == old(self).insts().push(
                    NativeInst::ConstInt { dst: r, value: v },
                ),
                Value::VarInt32(_, init) => match init {
                    Some(v) => materialize_int_emitted(
                        old(self).insts(),
                        final(self).insts(),
                        r,
                        v,
                    ),
                    None => final(self).insts() == old(self).insts().push(
                        NativeInst::Alloca { dst: r, ty: NativeType::Object },
                    ),
                },
                Value::VarBool(_, init) => match init {
                    Some(v) => final(self).insts().len() == old(self).insts().len() + 3
                        && (final(self).insts()[old(self).insts().len() as int]
                        == NativeInst::Alloca { dst: r, ty: NativeType::Bool })
                        && (final(self).insts()[old(self).insts().len() as int + 1]
                        matches NativeInst::ConstInt { dst: d, value: bv }
                        && bv == (if v { 1i32 } else { 0i32 })
                        && final(self).insts().last() == NativeInst::Store { src: d, dst: r }),
                    None => final(self).insts() == old(self).insts().push(
                        NativeInst::Alloca { dst: r, ty: NativeType::Bool },
                    ),
                },
                Value::VariableString { value: text } => materialize_string_emitted(
                    old(self).insts(),
                    old(self).globals(),
                    final(self).insts(),
                    final(self).globals(),
                    r,
                    crate::text::unescape_newlines(text@),
                ),
                Value::GlobalString { value: text, .. } => {
                    let esc = crate::text::unescape_newlines(text@);
                    &&& gs_lookup(final(self).globals(), esc) == Some(r)
                    &&& (gs_lookup(old(self).globals(), esc) matches Some(s) ==> (r == s
                        && final(self).insts() == old(self).insts()))
                    &&& (gs_lookup(old(self).globals(), esc) is None ==> final(self).insts().len()
                        == old(self).insts().len() + 1
                        && (final(self).insts().last()
                        matches NativeInst::GlobalString { dst, value: gv, .. }
                        && dst == r && gv@ == esc))
                },
            },
    {
        match value {
            Value::GlobalString { name, value } => {
                let escaped = escape_newlines(value);
                self.get_or_create_global_str(escaped.as_str(), name)
            },
            Value::VariableString { value } => {
                let escaped = escape_newlines(value);
                let obj_ty = native_of(CompilispType::CompilispObject);
                let alloca = self.emit_alloca(obj_ty);
                let type_attr_ptr = self.gep(alloca, obj_ty, vec![0, 0]);
                let disc = self.build_const_int(STR_DISCRIMINATOR);
                self.emit_store(disc, type_attr_ptr);
                let global_str = self.get_or_create_global_str(escaped.as_str(), "name");
                let value_attr_ptr = self.gep(alloca, obj_ty, vec![0, 1]);
                self.emit_store(global_str, value_attr_ptr);
                alloca
            },
            Value::ConstInt(v) => self.build_const_int(*v),
            Value::VarInt32(_, init_value) => {
                let obj_ty = native_of(CompilispType::CompilispObject);
                let alloca = self.emit_alloca(obj_ty);
                if let Some(v) = init_value {
                    let type_attr_ptr = self.gep(alloca, obj_ty, vec![0, 0]);
                    let disc = self.build_const_int(NUMBER_DISCRIMINATOR);
                    self.emit_store(disc, type_attr_ptr);
                    let value_attr_ptr = self.gep(alloca, obj_ty, vec![0, 1]);
                    let casted = self.emit_bitcast(value_attr_ptr, native_of(CompilispType::IntPtr));
                    let const_value = self.build_const_int(*v);
                    self.emit_store(const_value, casted);
                }
                alloca
            },
            Value::VarBool(_, init_value) => {
                let alloca = self.emit_alloca(NativeType::Bool);
                if let Some(v) = init_value {
                    let const_value = self.build_const_int(if *v { 1 } else { 0 });
                    self.emit_store(const_value, alloca);
                }
                alloca
            },
        }
    }

    /// Copies each argument into the call's tagged-value array: for every
    /// argument, the discriminant derived from its slot kind is written
    /// into the record's tag field and the slot's value is copied in.
    fn marshal_args(&mut self, args: &Vec<Alloc>, object_array: StorageId, arr_ty: NativeType)
        requires
            args_mapped(old(self).map(), args@),
        ensures
            extends(*old(self), *final(self)),
            final(self).globals() == old(self).globals(),
            marshal_emitted(
                old(self).insts(),
                final(self).insts(),
                args@,
                object_array,
                arr_ty,
                old(self).map(),
            ),
    {
        let mut a: usize = 0;
        while a < args.len()
            invariant
                a <= args@.len(),
                args_mapped(self.map(), args@),
                extends(*old(self), *self),
                self.globals() == old(self).globals(),
                self.insts().len() == old(self).insts().len() + 6 * a,
                forall|k: int|
                    0 <= k < a ==> marshal_block_emitted(
                        self.insts(),
                        old(self).insts().len() + 6 * k,
                        k,
                        #[trigger] args@[k],
                        object_array,
                        arr_ty,
                        old(self).map(),
                    ),
            decreases args@.len() - a,
        {
            let arg = args[a];
            let object_idx = self.gep(object_array, arr_ty, vec![0, a]);
            let type_attr_ptr = self.gep(object_idx, NativeType::Object, vec![0, 0]);
            let discriminator = match arg.alloc_type {
                AllocType::Int => NUMBER_DISCRIMINATOR,
                AllocType::String => STR_DISCRIMINATOR,
                AllocType::Bool => BOOLEAN_DISCRIMINATOR,
            };
            let value_discriminator = self.build_const_int(discriminator);
            self.emit_store(value_discriminator, type_attr_ptr);
            let value_ptr = match self.lookup_alloc(arg.id) {
                Some(s) => s,
                None => {
                    proof {
                        assert(map_lookup(self.map(), args@[a as int].id) is Some);
                    }
                    return ;
                },
            };
            let src_value = self.emit_load(native_of(CompilispType::CompilispObject), value_ptr);
            self.emit_store(src_value, object_idx);
            a = a + 1;
        }
    }

    /// The builtin path of a call: marshal the arguments into a tagged
    /// array and call the single fixed runtime dispatch entry point with
    /// the operation name, the array and its length, storing the returned
    /// tagged value into the call's result storage. Succeeds exactly when
    /// every argument slot has storage and the dispatch entry point is
    /// registered.
    fn procedure_runtime_call(
        &mut self,
        function_factory: &FunctionFactory,
        opname: &str,
        args: &Vec<Alloc>,
        result_alloc: StorageId,
    ) -> (r: CompilispResult<StorageId>)
        ensures
            extends(*old(self), *final(self)),
            (r is Ok) == (args_mapped(old(self).map(), args@) && table_lookup(
                function_factory.table(),
                "compilisp_procedure_call"@,
            ) is Some),
            r matches Err(e) ==> e is IllFormedSyntax,
            r matches Ok(s) ==> s == result_alloc,
            r is Ok ==> runtime_call_emitted(
                old(self).insts(),
                old(self).globals(),
                final(self).insts(),
                final(self).globals(),
                opname@,
                args@,
                old(self).map(),
                result_alloc,
            ),
    {
        if function_factory.get("compilisp_procedure_call").is_none() {
            return Err(CompilispError::IllFormedSyntax);
        }
        if !self.all_args_mapped(args) {
            return Err(CompilispError::IllFormedSyntax);
        }
        let stack_size_value = self.build_value(
            &Value::ConstInt(#[verifier::truncate] (args.len() as i32)),
        );
        let arr_ty = NativeType::ObjectArray(args.len());
        let object_array = self.emit_alloca(arr_ty);
        let op_label = String::from_str("__operation_").concat(opname);
        let opname_storage = self.build_value(
            &Value::GlobalString { name: op_label.as_str(), value: opname },
        );
        self.marshal_args(args, object_array, arr_ty);
        let object_array_ptr = self.gep(object_array, arr_ty, vec![0, 0]);
        let call_args = vec![opname_storage, object_array_ptr, stack_size_value];
        let result_value = self.emit_call_runtime("compilisp_procedure_call", call_args);
        self.emit_store(result_value, result_alloc);
        Ok(result_alloc)
    }

    /// The user-defined path of a call: marshal the arguments the same
    /// way, resolve the name to a native symbol, and call it directly with
    /// the argument count and the array, storing the returned tagged value
    /// into the call's result storage. Succeeds exactly when every
    /// argument slot has storage.
    fn procedure_function_call(
        &mut self,
        name: &str,
        args: &Vec<Alloc>,
        result_alloc: StorageId,
    ) -> (r: CompilispResult<StorageId>)
        ensures
            extends(*old(self), *final(self)),
            (r is Ok) == args_mapped(old(self).map(), args@),
            r matches Ok(s) ==> s == result_alloc,
            r matches Err(e) ==> e is IllFormedSyntax,
            r is Ok ==> symbol_call_emitted(
                old(self).insts(),
                final(self).insts(),
                name@,
                args@,
                old(self).map(),
                result_alloc,
            ),
    {
        if !self.all_args_mapped(args) {
            return Err(CompilispError::IllFormedSyntax);
        }
        let arr_ty = NativeType::ObjectArray(args.len());
        let object_array = self.emit_alloca(arr_ty);
        self.marshal_args(args, object_array, arr_ty);
        let object_array_ptr = self.gep(object_array, arr_ty, vec![0, 0]);
        let stack_size_value = self.build_value(
            &Value::ConstInt(#[verifier::truncate] (args.len() as i32)),
        );
        let call_args = vec![stack_size_value, object_array_ptr];
        let result_value = self.emit_call_symbol(name, call_args);
        self.emit_store(result_value, result_alloc);
        Ok(result_alloc)
    }

    /// Resolves a call into one of the two fixed call shapes: the closed
    /// set of builtin names goes through the runtime dispatch entry point,
    /// anything else is called directly as a native symbol.
    pub fn build_call(
        &mut self,
        function_factory: &FunctionFactory,
        name: &str,
        args: &Vec<Alloc>,
        return_alloc: StorageId,
    ) -> (r: CompilispResult<StorageId>)
        ensures
            extends(*old(self), *final(self)),
            (r is Ok) == (args_mapped(old(self).map(), args@) && (is_builtin_name(name@)
                ==> table_lookup(
                function_factory.table(),
                "compilisp_procedure_call"@,
            ) is Some)),
            r matches Ok(s) ==> s == return_alloc,
            r matches Err(e) ==> e is IllFormedSyntax,
            r is Ok ==> (is_builtin_name(name@) ==> runtime_call_emitted(
                old(self).insts(),
                old(self).globals(),
                final(self).insts(),
                final(self).globals(),
                name@,
                args@,
                old(self).map(),
                return_alloc,
            )),
            r is Ok ==> (!is_builtin_name(name@) ==> symbol_call_emitted(
                old(self).insts(),
                final(self).insts(),
                name@,
                args@,
                old(self).map(),
                return_alloc,
            )),
    {
        if str_eq(name, "begin") || str_eq(name, "+") || str_eq(name, "display") || str_eq(
            name,
            "<",
        ) {
            self.procedure_runtime_call(function_factory, name, args, return_alloc)
        } else {
            self.procedure_function_call(name, args, return_alloc)
        }
    }


    /// Translates one IR instruction into native operations. Succeeds
    /// exactly when the instruction's slots have storage and its
    /// conditional bracket has a pending frame (`step_accepted`); a
    /// violation is a compile diagnostic, never a fault.
    #[verifier::rlimit(100)]
    pub fn build_instruction(
        &mut self,
        function_factory: &FunctionFactory,
        inst: &CompilispIr,
    ) -> (r: CompilispResult<()>)
        ensures
            (r is Ok) == step_accepted(
                old(self).map(),
                old(self).conds(),
                function_factory.table(),
                *inst,
            ),
            build_post(*old(self), *final(self), *inst, r is Ok),
            r matches Err(e) ==> e is IllFormedSyntax,
    {
        match inst {
            CompilispIr::ConstInt { alloc_id, value } => {
                let builder_value = Value::VarInt32("", Some(*value));
                let alloc = self.build_value(&builder_value);
                self.alloc_map.push((*alloc_id, alloc));
                proof {
                    assert(final(self).map().drop_last() =~= old(self).map());
                }
                Ok(())
            },
            CompilispIr::GlobalString { alloc_id, value } => {
                let symbol = Value::VariableString { value: value.as_str() };
                let alloc = self.build_value(&symbol);
                self.alloc_map.push((*alloc_id, alloc));
                proof {
                    assert(final(self).map().drop_last() =~= old(self).map());
                }
                Ok(())
            },
            CompilispIr::CallProcedure { name, return_id, args } => {
                let return_alloc = match self.lookup_alloc(*return_id) {
                    Some(s) => s,
                    None => {
                        return Err(CompilispError::IllFormedSyntax);
                    },
                };
                match self.build_call(function_factory, name.as_str(), args, return_alloc) {
                    Ok(_) => Ok(()),
                    Err(e) => Err(e),
                }
            },
            CompilispIr::IfExpressionEval { cond_alloc } => {
                let cond_value_ptr = match self.lookup_alloc(*cond_alloc) {
                    Some(s) => s,
                    None => {
                        return Err(CompilispError::IllFormedSyntax);
                    },
                };
                let obj_ty = native_of(CompilispType::CompilispObject);
                let value_attr_ptr = self.gep(cond_value_ptr, obj_ty, vec![0, 1]);
                let casted = self.emit_bitcast(value_attr_ptr, native_of(CompilispType::BoolPtr));
                let cond_value = self.emit_load(NativeType::Bool, casted);
                let block_then = self.emit_block("then");
                let block_else = self.emit_block("else");
                let block_finally = self.emit_block("finally");
                self.conditional_blocks.push(
                    ConditionalBlock { block_then, block_else: Some(block_else), block_finally },
                );
                self.emit_cond_br(cond_value, block_then, block_else);
                self.emit_position(block_then);
                proof {
                    assert(final(self).conds().drop_last() =~= old(self).conds());
                }
                Ok(())
            },
            CompilispIr::IfExpressionEndThen { result_alloc, cond_alloc } => self
                .copy_branch_result(*result_alloc, *cond_alloc),
            CompilispIr::IfExpressionEndElse { result_alloc, cond_alloc } => self
                .copy_branch_result(*result_alloc, *cond_alloc),
            CompilispIr::IfExpressionElse => {
                if self.conditional_blocks.len() == 0 {
                    return Err(CompilispError::IllFormedSyntax);
                }
                let cur_block = self.conditional_blocks[self.conditional_blocks.len() - 1];
                if let Some(block_else) = cur_block.block_else {
                    self.emit_position(block_else);
                }
                Ok(())
            },
            CompilispIr::IfExpressionEndBlock => {
                if self.conditional_blocks.len() == 0 {
                    return Err(CompilispError::IllFormedSyntax);
                }
                let cur_block = self.conditional_blocks[self.conditional_blocks.len() - 1];
                self.emit_position(cur_block.block_finally);
                let _ = self.conditional_blocks.pop();
                Ok(())
            },
            CompilispIr::ProcedureScopeStart => Ok(()),
            CompilispIr::ProcedureScopeEnd => Ok(()),
            CompilispIr::ProcedureReturnValue(id) => {
                let value = Value::VarInt32("", None);
                let alloc = self.build_value(&value);
                self.alloc_map.push((*id, alloc));
                proof {
                    assert(final(self).map().drop_last() =~= old(self).map());
                }
                Ok(())
            },
        }
    }

    /// Closes one branch of a pending conditional: copies the branch's
    /// computed value into the shared merge slot, and, when an else branch
    /// exists, jumps to the conditional's finally block.
    fn copy_branch_result(&mut self, result_alloc: AllocId, cond_alloc: AllocId) -> (r:
        CompilispResult<()>)
        ensures
            extends(*old(self), *final(self)),
            (r is Ok) == (old(self).conds().len() >= 1 && map_lookup(
                old(self).map(),
                result_alloc,
            ) is Some && map_lookup(old(self).map(), cond_alloc) is Some),
            r matches Err(e) ==> e is IllFormedSyntax,
            r is Ok ==> branch_close_emitted(
                old(self).insts(),
                final(self).insts(),
                map_lookup(old(self).map(), result_alloc)->Some_0,
                map_lookup(old(self).map(), cond_alloc)->Some_0,
                old(self).conds().last(),
            ),
    {
        if self.conditional_blocks.len() == 0 {
            return Err(CompilispError::IllFormedSyntax);
        }
        let result_value = match self.lookup_alloc(result_alloc) {
            Some(s) => s,
            None => {
                return Err(CompilispError::IllFormedSyntax);
            },
        };
        let cond_value = match self.lookup_alloc(cond_alloc) {
            Some(s) => s,
            None => {
                return Err(CompilispError::IllFormedSyntax);
            },
        };
        let result = self.emit_load(native_of(CompilispType::CompilispObject), result_value);
        self.emit_store(result, cond_value);
        let cur_block = self.conditional_blocks[self.conditional_blocks.len() - 1];
        if cur_block.block_else.is_some() {
            self.emit_br(cur_block.block_finally);
        }
        Ok(())
    }

    /// All of a call's argument slots have storage recorded.
    fn all_args_mapped(&self, args: &Vec<Alloc>) -> (r: bool)
        ensures
            r == args_mapped(self.map(), args@),
    {
        let mut a: usize = 0;
        while a < args.len()
            invariant
                a <= args@.len(),
                forall|j: int| 0 <= j < a ==> map_lookup(self.map(), (#[trigger] args@[j]).id)
                    is Some,
            decreases args@.len() - a,
        {
            if self.lookup_alloc(args[a].id).is_none() {
                return false;
            }
            a = a + 1;
        }
        true
    }
}


/// Builds field-address computations; kept as the dedicated entry point
/// for address arithmetic so no caller assembles a `Gep` by hand.
pub struct GepBuilder;

impl GepBuilder {
    /// Emits the address computation for `indices` into `target`.
    pub fn build(
        gen: &mut NativeGenerator,
        target: StorageId,
        target_type: NativeType,
        indices: Vec<usize>,
    ) -> (r: StorageId)
        ensures
            extends(*old(gen), *final(gen)),
            final(gen).globals() == old(gen).globals(),
            final(gen).insts() == old(gen).insts().push(
                NativeInst::Gep { dst: r, base: target, ty: target_type, indices },
            ),
    {
        gen.gep(target, target_type, indices)
    }
}

/// Compiles scheme code using compilisp runtime calls: owns the entry
/// point table and the storage naming the live runtime instance between
/// the init and destroy calls that bracket a module's body.
pub struct RuntimeCompiler {
    runtime_ref: Option<StorageId>,
    function_factory: FunctionFactory,
}

impl RuntimeCompiler {
    /// The storage holding the runtime handle, once initialized.
    pub closed spec fn runtime_ref(&self) -> Option<StorageId> {
        self.runtime_ref
    }

    /// The entry-point table the compiler links against.
    pub closed spec fn table(&self) -> Seq<(String, FunctionSig)> {
        self.function_factory.table()
    }

    /// A compiler over the given entry-point table; no runtime instance
    /// exists yet.
    pub fn new(function_factory: FunctionFactory) -> (r: Self)
        ensures
            r.runtime_ref() is None,
            r.table() == function_factory.table(),
    {
        RuntimeCompiler { runtime_ref: None, function_factory }
    }

    /// Emits the call that creates the runtime instance and records the
    /// storage naming its handle. Succeeds exactly when the init entry
    /// point is registered.
    pub fn init(&mut self, gen: &mut NativeGenerator) -> (r: CompilispResult<()>)
        ensures
            extends(*old(gen), *final(gen)),
            final(gen).globals() == old(gen).globals(),
            final(self).table() == old(self).table(),
            (r is Ok) == (table_lookup(old(self).table(), "compilisp_init"@) is Some),
            r matches Err(e) ==> e is IllFormedSyntax,
            r is Ok ==> (final(gen).insts().len() == old(gen).insts().len() + 1
                && (final(gen).insts().last() matches NativeInst::CallRuntime { dst, callee, args }
                && callee@ == "compilisp_init"@ && args@ == Seq::<StorageId>::empty()
                && final(self).runtime_ref() == Some(dst))),
            r is Err ==> final(self).runtime_ref() == old(self).runtime_ref() && final(gen).insts()
                == old(gen).insts(),
    {
        if self.function_factory.get("compilisp_init").is_none() {
            return Err(CompilispError::IllFormedSyntax);
        }
        let handle = gen.emit_call_runtime("compilisp_init", Vec::new());
        self.runtime_ref = Some(handle);
        Ok(())
    }

    /// Emits the call that destroys the runtime instance (which also
    /// flushes its buffered output). Succeeds exactly when the instance
    /// was initialized and the destroy entry point is registered.
    pub fn destroy(self, gen: &mut NativeGenerator) -> (r: CompilispResult<()>)
        ensures
            extends(*old(gen), *final(gen)),
            final(gen).globals() == old(gen).globals(),
            (r is Ok) == (self.runtime_ref() is Some && table_lookup(
                self.table(),
                "compilisp_destroy"@,
            ) is Some),
            r matches Err(e) ==> e is IllFormedSyntax,
            r is Ok ==> (final(gen).insts().len() == old(gen).insts().len() + 1
                && (final(gen).insts().last() matches NativeInst::CallRuntime { callee, args, .. }
                && callee@ == "compilisp_destroy"@ && args@ == seq![self.runtime_ref()->Some_0])),
            r is Err ==> final(gen).insts() == old(gen).insts(),
    {
        let handle = match self.runtime_ref {
            Some(h) => h,
            None => {
                return Err(CompilispError::IllFormedSyntax);
            },
        };
        if self.function_factory.get("compilisp_destroy").is_none() {
            return Err(CompilispError::IllFormedSyntax);
        }
        let mut args: Vec<StorageId> = Vec::new();
        args.push(handle);
        let _ = gen.emit_call_runtime("compilisp_destroy", args);
        Ok(())
    }

    /// Translates a whole IR stream, instruction by instruction, stopping
    /// at the first instruction the generator rejects. A stream that the IR
    /// generator emitted never stops early: `stream_translates` captures
    /// the stream invariants the generator guarantees, and under them every
    /// step is accepted.
    #[verifier::loop_isolation(false)]
    pub fn process_ir(&self, gen: &mut NativeGenerator, ir_stream: &Vec<CompilispIr>) -> (r:
        CompilispResult<()>)
        ensures
            insts_extended(old(gen).insts(), final(gen).insts()),
            r matches Err(e) ==> e is IllFormedSyntax,
            stream_translates(ir_stream@, self.table(), old(gen).conds()) ==> r is Ok,
            r is Ok ==> (exists|states: Seq<NativeGenerator>|
                #[trigger] translated_trace(ir_stream@, states) && states.first() == *old(gen)
                    && states.last() == *final(gen)),
    {
        let ghost stream = ir_stream@;
        let ghost good = stream_translates(stream, self.table(), old(gen).conds());
        let ghost mut trace: Seq<NativeGenerator> = seq![*gen];
        let mut i: usize = 0;
        proof {
            if good {
                assert(stream.take(0) =~= Seq::<CompilispIr>::empty());
            }
        }
        while i < ir_stream.len()
            invariant
                i <= stream.len(),
                insts_extended(old(gen).insts(), gen.insts()),
                trace.len() == i + 1,
                trace.first() == *old(gen),
                trace.last() == *gen,
                forall|j: int|
                    0 <= j < i ==> #[trigger] build_post(trace[j], trace[j + 1], stream[j], true),
                good ==> gen.conds().len() == cond_depth(stream.take(i as int)),
                good ==> (forall|id: AllocId|
                    #[trigger] slot_defined_before(stream, i as int, id) ==> map_lookup(
                        gen.map(),
                        id,
                    ) is Some),
            decreases stream.len() - i,
        {
            let ghost pre = *gen;
            proof {
                if good {
                    lemma_step_accepted(stream, i as int, pre, self.table());
                }
            }
            match gen.build_instruction(&self.function_factory, &ir_stream[i]) {
                Ok(_) => {
                    proof {
                        if good {
                            if is_bracket_use(stream[i as int]) {
                                assert(cond_depth(stream.take(i as int)) >= 1);
                            }
                            lemma_step_invariants(stream, i as int, pre, *gen);
                        }
                        trace = trace.push(*gen);
                    }
                },
                Err(e) => {
                    proof {
                        if good {
                            assert(false);
                        }
                    }
                    return Err(e);
                },
            }
            i = i + 1;
        }
        proof {
            assert(translated_trace(stream, trace));
        }
        Ok(())
    }
}


/// A whole stream translated in order: `states` records the generator
/// before and after each step, and each adjacent pair is related by one
/// accepted translation step (`build_post`) for the instruction between
/// them. The final generator state is the fold of the steps, in order.
pub open spec fn translated_trace(stream: Seq<CompilispIr>, states: Seq<NativeGenerator>) -> bool {
    &&& states.len() == stream.len() + 1
    &&& forall|i: int|
        0 <= i < stream.len() ==> #[trigger] build_post(states[i], states[i + 1], stream[i], true)
}

/// The stream invariants under which translation cannot stop early: calls
/// and conditional brackets reference only previously defined slots, the
/// brackets obey the strict nesting discipline, translation starts with no
/// pending conditionals, and the builtin dispatch entry point is
/// registered. The IR generator guarantees the stream-side conditions of
/// every stream it emits.
pub open spec fn stream_translates(
    ir: Seq<CompilispIr>,
    table: Seq<(String, FunctionSig)>,
    conds: Seq<ConditionalBlock>,
) -> bool {
    &&& calls_resolved(ir)
    &&& conds_resolved(ir)
    &&& brackets_wf(ir)
    &&& conds.len() == 0
    &&& table_lookup(table, "compilisp_procedure_call"@) is Some
}

/// Under the stream invariants, the instruction at position `i` is
/// accepted by a generator state whose pending-conditional stack tracks
/// the stream's nesting depth and whose slot map covers every slot defined
/// so far.
proof fn lemma_step_accepted(
    stream: Seq<CompilispIr>,
    i: int,
    pre: NativeGenerator,
    table: Seq<(String, FunctionSig)>,
)
    requires
        0 <= i < stream.len(),
        calls_resolved(stream),
        conds_resolved(stream),
        brackets_wf(stream),
        table_lookup(table, "compilisp_procedure_call"@) is Some,
        pre.conds().len() == cond_depth(stream.take(i)),
        forall|id: AllocId|
            #[trigger] slot_defined_before(stream, i, id) ==> map_lookup(pre.map(), id) is Some,
    ensures
        step_accepted(pre.map(), pre.conds(), table, stream[i]),
{
    assert(call_wf_at(stream, i));
    assert(cond_refs_wf_at(stream, i));
    if is_bracket_use(stream[i]) {
        assert(cond_depth(stream.take(i)) >= 1);
    }
    match stream[i] {
        CompilispIr::CallProcedure { return_id, args, .. } => {
            let j = choose|j: int|
                0 <= j < i && stream[j] == CompilispIr::ProcedureReturnValue(return_id);
            assert(ir_def_id(stream[j]) == Some(return_id));
            assert(slot_defined_before(stream, i, return_id));
            assert forall|a: int| 0 <= a < args@.len() implies map_lookup(
                pre.map(),
                (#[trigger] args@[a]).id,
            ) is Some by {
                assert(slot_defined_before(stream, i, args@[a].id));
            }
        },
        _ => {},
    }
}

/// One accepted translation step keeps the simulation invariants: the
/// pending-conditional stack keeps tracking the stream's nesting depth,
/// and the slot map keeps covering every slot defined so far.
proof fn lemma_step_invariants(
    stream: Seq<CompilispIr>,
    i: int,
    pre: NativeGenerator,
    post: NativeGenerator,
)
    requires
        0 <= i < stream.len(),
        pre.conds().len() == cond_depth(stream.take(i)),
        forall|id: AllocId|
            #[trigger] slot_defined_before(stream, i, id) ==> map_lookup(pre.map(), id) is Some,
        build_post(pre, post, stream[i], true),
        is_bracket_use(stream[i]) ==> pre.conds().len() >= 1,
    ensures
        post.conds().len() == cond_depth(stream.take(i + 1)),
        forall|id: AllocId|
            #[trigger] slot_defined_before(stream, i + 1, id) ==> map_lookup(post.map(), id)
                is Some,
{
    assert(stream.take(i + 1).drop_last() =~= stream.take(i));
    assert(stream.take(i + 1).last() == stream[i]);
    assert(cond_depth(stream.take(i + 1)) == cond_depth(stream.take(i)) + crate::compilisp_ir::cond_delta(
        stream[i],
    ));
    assert forall|id: AllocId| #[trigger] slot_defined_before(stream, i + 1, id) implies map_lookup(
        post.map(),
        id,
    ) is Some by {
        let j = choose|j: int| 0 <= j < i + 1 && ir_def_id(stream[j]) == Some(id);
        match stream[i] {
            CompilispIr::ConstInt { alloc_id, .. } => {
                lemma_map_cover_step(pre.map(), post.map(), stream, i, j, id, alloc_id);
            },
            CompilispIr::GlobalString { alloc_id, .. } => {
                lemma_map_cover_step(pre.map(), post.map(), stream, i, j, id, alloc_id);
            },
            CompilispIr::ProcedureReturnValue(rid) => {
                lemma_map_cover_step(pre.map(), post.map(), stream, i, j, id, rid);
            },
            _ => {
                assert(post.map() == pre.map());
                assert(j < i);
                assert(slot_defined_before(stream, i, id));
            },
        }
    }
}

/// Covering step for a defining instruction: the map extended with the
/// instruction's slot covers both that slot and everything covered before.
proof fn lemma_map_cover_step(
    m1: Seq<(AllocId, StorageId)>,
    m2: Seq<(AllocId, StorageId)>,
    stream: Seq<CompilispIr>,
    i: int,
    j: int,
    id: AllocId,
    bound_id: AllocId,
)
    requires
        0 <= i < stream.len(),
        0 <= j < i + 1,
        ir_def_id(stream[j]) == Some(id),
        ir_def_id(stream[i]) == Some(bound_id),
        map_extended(m1, m2, bound_id),
        forall|id2: AllocId|
            #[trigger] slot_defined_before(stream, i, id2) ==> map_lookup(m1, id2) is Some,
    ensures
        map_lookup(m2, id) is Some,
{
    if id == bound_id {
        assert(m2.last().0 == id);
    } else {
        if j == i {
            assert(false);
        }
        assert(slot_defined_before(stream, i, id));
        assert(map_lookup(m1, id) is Some);
        assert(m2.drop_last() == m1);
        assert(map_lookup(m2, id) == map_lookup(m1, id));
    }
}

/// Sum of the allocation bounds of a module's top-level expressions.
pub open spec fn module_alloc_bound(exprs: Seq<Expr>) -> nat
    decreases exprs,
{
    if exprs.len() == 0 {
        0
    } else {
        alloc_bound(exprs[0]) + module_alloc_bound(exprs.drop_first())
    }
}

/// One compiled module: the lowered IR stream and the native instruction
/// sequence generated from it.
#[derive(Debug)]
pub struct CompiledModule {
    pub ir: Vec<CompilispIr>,
    pub native: Vec<NativeInst>,
}

/// Every top-level expression of the module lowers successfully under the
/// empty module scope.
pub open spec fn module_all_accepted(exprs: Seq<Expr>) -> bool {
    forall|i: int|
        0 <= i < exprs.len() ==> lower_status(#[trigger] exprs[i], Set::empty()) is Accepted
}

/// Some top-level expression of the module fails to lower with exactly the
/// named unbound symbol.
pub open spec fn module_has_unbound(exprs: Seq<Expr>, n: Seq<char>) -> bool {
    exists|i: int|
        0 <= i < exprs.len() && lower_status(#[trigger] exprs[i], Set::empty())
            == LowerStatus::Unbound(n)
}

/// The module's total slot-allocation bound stays within machine limits.
pub open spec fn module_within_limits(root: ModuleAst) -> bool {
    module_alloc_bound(root.expr_vec@) <= usize::MAX
}

/// The native sequence of a compiled module, end to end: the main shell is
/// declared first (its entry block created and entered), the runtime is
/// created before the body and destroyed after it, the body is the
/// translation of the module's IR stream, one step per instruction in
/// order from an empty per-module state, and the shell returns zero last.
pub open spec fn compiled_native_composed(m: CompiledModule) -> bool {
    let nat_insts = m.native@;
    &&& nat_insts.len() >= 7
    &&& (nat_insts[0] matches NativeInst::DeclareFunction { name, sig } && name@ == "main"@
        && sig.ret == Some(NativeType::Int) && sig.args@ == seq![
        NativeType::Char,
        NativeType::CharPtr,
    ])
    &&& (nat_insts[1] matches NativeInst::CreateBlock { block: eb, label } && label@ == "entry"@
        && nat_insts[2] == NativeInst::PositionAtEnd { block: eb })
    &&& (nat_insts[3] matches NativeInst::CallRuntime { dst: h, callee, args } && callee@
        == "compilisp_init"@ && args@ == Seq::<StorageId>::empty() && (nat_insts[nat_insts.len()
        - 3] matches NativeInst::CallRuntime { callee: c2, args: a2, .. } && c2@
        == "compilisp_destroy"@ && a2@ == seq![h]))
    &&& (nat_insts[nat_insts.len() - 2] matches NativeInst::ConstInt { dst: rv, value } && value
        == 0 && nat_insts[nat_insts.len() - 1] == NativeInst::Ret { src: rv })
    &&& exists|states: Seq<NativeGenerator>|
        #[trigger] translated_trace(m.ir@, states) && states.first().insts() == nat_insts.take(4)
            && states.first().map() == Seq::<(AllocId, StorageId)>::empty()
            && states.first().conds() == Seq::<ConditionalBlock>::empty()
            && states.first().globals() == Seq::<(String, StorageId)>::empty()
            && states.last().insts() == nat_insts.take(nat_insts.len() - 3)
}

/// When the compile fails naming an unbound symbol, some top-level
/// expression indeed fails to lower with exactly that symbol.
pub open spec fn unbound_err_reported(exprs: Seq<Expr>, r: CompilispResult<CompiledModule>) -> bool {
    match r {
        Err(CompilispError::UnboundVariable(n)) => module_has_unbound(exprs, n@),
        _ => true,
    }
}

/// The compute part of compiling one module: declares the program's main
/// shell and the base runtime entry points, lowers every top-level
/// expression into one IR stream, translates the stream into native
/// instructions bracketed by runtime init and destroy calls, and returns
/// both streams. The compile succeeds exactly when every top-level
/// expression lowers: the generator's stream invariants guarantee that
/// translation never stops early. An unbound symbol stops the compile with
/// a diagnostic naming it; no artifact is produced.
#[verifier::loop_isolation(false)]
pub fn compile_module(root: &ModuleAst) -> (r: CompilispResult<CompiledModule>)
    requires
        module_within_limits(*root),
    ensures
        (r is Ok) == module_all_accepted(root.expr_vec@),
        unbound_err_reported(root.expr_vec@, r),
        r matches Ok(m) ==> shapes_of(m.ir@) == module_lower_fn(root.expr_vec@, 0).emitted,
        r matches Ok(m) ==> compiled_native_composed(m),
{
    let mut ir_generator = CompilispIrGenerator::new();
    proof {
        crate::compilisp_ir::lemma_initial_names_empty(&ir_generator);
        lemma_initial_abs(&ir_generator);
        assert(root.expr_vec@.skip(0) =~= root.expr_vec@);
        assert(root.expr_vec@.take(0) =~= Seq::<Expr>::empty());
        assert(shapes_of(ir_generator.ir()) =~= Seq::<crate::compilisp_ir::IrShape>::empty());
    }
    let ghost exprs = root.expr_vec@;
    let total: usize = root.expr_vec.len();
    let mut i: usize = 0;
    while i < total
        invariant
            i <= exprs.len(),
            total == exprs.len(),
            ir_generator.wf(),
            bound_names(ir_generator.scopes()) == Set::<Seq<char>>::empty(),
            abs_scopes(ir_generator.scopes()) == seq![Map::<Seq<char>, Alloc>::empty()],
            shapes_of(ir_generator.ir()) == module_lower_fn(exprs.take(i as int), 0).emitted,
            ir_generator.next_alloc() == module_lower_fn(exprs.take(i as int), 0).next,
            ir_generator.next_alloc() + module_alloc_bound(exprs.skip(i as int)) <= usize::MAX,
            (forall|j: int|
                0 <= j < i ==> lower_status(#[trigger] exprs[j], Set::empty()) is Accepted),
        decreases exprs.len() - i,
    {
        proof {
            assert(exprs.skip(i as int)[0] == exprs[i as int]);
            assert(exprs.skip(i as int).drop_first() =~= exprs.skip(i as int + 1));
            assert(module_alloc_bound(exprs.skip(i as int)) == alloc_bound(exprs[i as int])
                + module_alloc_bound(exprs.skip(i as int + 1)));
        }
        let ghost pre_gen_ir = ir_generator.ir();
        match ir_generator.process(&root.expr_vec[i]) {
            Ok(_) => {
                proof {
                    let piece = ir_generator.ir().skip(pre_gen_ir.len() as int);
                    assert(ir_generator.ir() =~= pre_gen_ir + piece);
                    lemma_shapes_add(pre_gen_ir, piece);
                    assert(exprs.take(i as int + 1) =~= exprs.take(i as int).push(
                        exprs[i as int],
                    ));
                    lemma_module_lower_snoc(exprs.take(i as int), exprs[i as int], 0);
                }
            },
            Err(e) => {
                proof {
                    match &e {
                        CompilispError::UnboundVariable(n) => {
                            assert(lower_status(exprs[i as int], Set::empty())
                                == LowerStatus::Unbound(n@));
                        },
                        _ => {},
                    }
                }
                return Err(e);
            },
        }
        i = i + 1;
    }
    let mut gen = NativeGenerator::new();
    let main_builder = FunctionBuilder::new().with_name("main").with_ret_type(NativeType::Int);
    let main_builder = main_builder.add_arg(NativeType::Char).add_arg(NativeType::CharPtr);
    let main_decl = main_builder.build();
    proof {
        assert(main_decl.1.args@ =~= seq![NativeType::Char, NativeType::CharPtr]);
    }
    gen.emit_declare(main_decl.0, main_decl.1);
    let entry = gen.emit_block("entry");
    gen.emit_position(entry);
    let function_factory = FunctionFactory::new_with_base();
    let mut runtime = RuntimeCompiler::new(function_factory);
    match runtime.init(&mut gen) {
        Ok(_) => {},
        Err(e) => {
            proof {
                assert(false);
            }
            return Err(e);
        },
    }
    proof {
        assert(exprs.take(total as int) =~= exprs);
    }
    let ghost gir = ir_generator.ir();
    let ghost g_pre = gen;
    let ir_vec = ir_generator.into_ir_buffer();
    match runtime.process_ir(&mut gen, &ir_vec) {
        Ok(_) => {},
        Err(e) => {
            proof {
                assert(stream_translates(
                    gir,
                    runtime.table(),
                    Seq::<ConditionalBlock>::empty(),
                ));
                assert(false);
            }
            return Err(e);
        },
    }
    let ghost g_mid = gen;
    match runtime.destroy(&mut gen) {
        Ok(_) => {},
        Err(e) => {
            proof {
                assert(false);
            }
            return Err(e);
        },
    }
    let ret_value = gen.build_value(&Value::ConstInt(0));
    gen.emit_ret(ret_value);
    let ghost girv = ir_vec@;
    let result = CompiledModule { ir: ir_vec, native: gen.insts };
    proof {
        let nat_insts = result.native@;
        assert(g_pre.insts() =~= nat_insts.take(4));
        assert(g_mid.insts() =~= nat_insts.take(nat_insts.len() - 3));
        assert(result.ir@ == girv);
        let states = choose|states: Seq<NativeGenerator>|
            #[trigger] translated_trace(girv, states) && states.first() == g_pre
                && states.last() == g_mid;
        assert(translated_trace(girv, states));
        assert(translated_trace(result.ir@, states) && states.first().insts() == nat_insts.take(4)
            && states.first().map() == Seq::<(AllocId, StorageId)>::empty()
            && states.first().conds() == Seq::<ConditionalBlock>::empty()
            && states.first().globals() == Seq::<(String, StorageId)>::empty()
            && states.last().insts() == nat_insts.take(nat_insts.len() - 3));
        assert(compiled_native_composed(result));
    }
    Ok(result)
}
} // verus!
