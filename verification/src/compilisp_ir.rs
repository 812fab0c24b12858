//! The IR generator: lowers one expression tree into a flat, ordered
//! instruction stream with explicit value-slot identifiers and lexical
//! scope resolution.
//!
//! Two stream invariants are stated here and guaranteed by the generator:
//! every `CallProcedure` instruction's return slot is declared by a
//! preceding `ProcedureReturnValue`, with every argument slot defined
//! earlier in program order; and slot identifiers are strictly increasing,
//! never reused within one module compile.

use vstd::prelude::*;

use crate::ast::Expr;
use crate::error::{CompilispError, CompilispResult};
use crate::text::str_eq;

verus! {

/// Identifier of one materialized value slot within a module compile.
pub type AllocId = usize;

/// The conceptual type of a slot's value, carried alongside each slot
/// reference so the code generator can pick the matching discriminant.
#[derive(Clone, Copy, Debug, PartialEq, Eq, Structural)]
pub enum AllocType {
    Int,
    String,
    Bool,
}

/// One value slot: its identifier plus its conceptual type.
#[derive(Clone, Copy, Debug, PartialEq, Eq, Structural)]
pub struct Alloc {
    pub alloc_type: AllocType,
    pub id: AllocId,
}

/// One IR instruction. The conditional bracket instructions obey a strict
/// nesting discipline: `IfExpressionEval` opens a pending conditional frame
/// that exactly one `IfExpressionEndBlock` closes.
#[derive(Clone, Debug)]
pub enum CompilispIr {
    /// Invoke procedure `name`, storing its result in the slot `return_id`,
    /// with the already-evaluated argument slots `args`.
    CallProcedure { name: String, return_id: AllocId, args: Vec<Alloc> },
    /// Materialize an integer constant into a fresh slot.
    ConstInt { alloc_id: AllocId, value: i32 },
    /// Materialize a string constant into a fresh slot.
    GlobalString { alloc_id: AllocId, value: String },
    /// Branch on the boolean in `cond_alloc`; that same slot doubles as the
    /// conditional's shared result (merge) slot.
    IfExpressionEval { cond_alloc: AllocId },
    /// Close the then branch: copy `result_alloc` into the merge slot
    /// `cond_alloc`.
    IfExpressionEndThen { result_alloc: AllocId, cond_alloc: AllocId },
    /// Open the else branch.
    IfExpressionElse,
    /// Close the else branch: copy `result_alloc` into the merge slot
    /// `cond_alloc`.
    IfExpressionEndElse { result_alloc: AllocId, cond_alloc: AllocId },
    /// Close the whole conditional and continue after it.
    IfExpressionEndBlock,
    /// Bracket the argument evaluation of a pending call.
    ProcedureScopeStart,
    ProcedureScopeEnd,
    /// Declare (reserve storage for) the return slot of a pending call.
    ProcedureReturnValue(AllocId),
}

/// The slot a given instruction defines, if any: constants materialize
/// their slot, and a return-slot declaration reserves its slot.
pub open spec fn ir_def_id(inst: CompilispIr) -> Option<AllocId> {
    match inst {
        CompilispIr::ConstInt { alloc_id, .. } => Some(alloc_id),
        CompilispIr::GlobalString { alloc_id, .. } => Some(alloc_id),
        CompilispIr::ProcedureReturnValue(id) => Some(id),
        _ => None,
    }
}

/// Slot `id` is defined somewhere in the stream.
pub open spec fn slot_defined(ir: Seq<CompilispIr>, id: AllocId) -> bool {
    exists|j: int| 0 <= j < ir.len() && ir_def_id(ir[j]) == Some(id)
}

/// Slot `id` is defined at some position strictly before `k`.
pub open spec fn slot_defined_before(ir: Seq<CompilispIr>, k: int, id: AllocId) -> bool {
    exists|j: int| 0 <= j < k && ir_def_id(ir[j]) == Some(id)
}

/// Slot `id` is declared as a return slot strictly before `k`.
pub open spec fn return_declared_before(ir: Seq<CompilispIr>, k: int, id: AllocId) -> bool {
    exists|j: int| 0 <= j < k && ir[j] == CompilispIr::ProcedureReturnValue(id)
}

/// The instruction at `k`, if it is a call, references only slots that are
/// available at `k`: a previously declared return slot and previously
/// defined argument slots.
pub open spec fn call_wf_at(ir: Seq<CompilispIr>, k: int) -> bool {
    match ir[k] {
        CompilispIr::CallProcedure { return_id, args, .. } => {
            &&& return_declared_before(ir, k, return_id)
            &&& forall|a: int|
                0 <= a < args@.len() ==> slot_defined_before(ir, k, (#[trigger] args@[a]).id)
        },
        _ => true,
    }
}

/// Every call in the stream references only previously declared or defined
/// slots, in program order.
pub open spec fn calls_resolved(ir: Seq<CompilispIr>) -> bool {
    forall|k: int| 0 <= k < ir.len() ==> #[trigger] call_wf_at(ir, k)
}

/// Every slot defined in the stream lies in `1 ..= bound`.
pub open spec fn defs_bounded(ir: Seq<CompilispIr>, bound: nat) -> bool {
    forall|k: int|
        0 <= k < ir.len() ==> ((#[trigger] ir_def_id(ir[k])) matches Some(id) ==> 1 <= id
            && id as nat <= bound)
}

/// The conditional bracket instructions at `k`, if any, reference only
/// slots defined earlier: a condition's slot is materialized before the
/// branch on it, and each branch closer copies between already-defined
/// slots.
pub open spec fn cond_refs_wf_at(ir: Seq<CompilispIr>, k: int) -> bool {
    match ir[k] {
        CompilispIr::IfExpressionEval { cond_alloc } => slot_defined_before(ir, k, cond_alloc),
        CompilispIr::IfExpressionEndThen { result_alloc, cond_alloc } => slot_defined_before(
            ir,
            k,
            result_alloc,
        ) && slot_defined_before(ir, k, cond_alloc),
        CompilispIr::IfExpressionEndElse { result_alloc, cond_alloc } => slot_defined_before(
            ir,
            k,
            result_alloc,
        ) && slot_defined_before(ir, k, cond_alloc),
        _ => true,
    }
}

/// Every conditional bracket in the stream references only previously
/// defined slots.
pub open spec fn conds_resolved(ir: Seq<CompilispIr>) -> bool {
    forall|k: int| 0 <= k < ir.len() ==> #[trigger] cond_refs_wf_at(ir, k)
}

/// How one instruction changes the conditional nesting depth: evaluating
/// a condition opens one pending conditional, ending the conditional
/// block closes one.
pub open spec fn cond_delta(inst: CompilispIr) -> int {
    match inst {
        CompilispIr::IfExpressionEval { .. } => 1,
        CompilispIr::IfExpressionEndBlock => -1,
        _ => 0,
    }
}

/// The conditional nesting depth after the whole stream: conditionals
/// opened and not yet closed.
pub open spec fn cond_depth(ir: Seq<CompilispIr>) -> int
    decreases ir.len(),
{
    if ir.len() == 0 {
        0
    } else {
        cond_depth(ir.drop_last()) + cond_delta(ir.last())
    }
}

/// An instruction that works on the innermost pending conditional.
pub open spec fn is_bracket_use(inst: CompilispIr) -> bool {
    match inst {
        CompilispIr::IfExpressionEndThen { .. } => true,
        CompilispIr::IfExpressionElse => true,
        CompilispIr::IfExpressionEndElse { .. } => true,
        CompilispIr::IfExpressionEndBlock => true,
        _ => false,
    }
}

/// The strict nesting discipline of the conditional brackets: at every
/// point of the stream at least as many conditionals have been opened as
/// closed, and every instruction that works on a pending conditional
/// finds one open.
pub open spec fn brackets_wf(ir: Seq<CompilispIr>) -> bool {
    &&& forall|k: int| 0 <= k <= ir.len() ==> cond_depth(#[trigger] ir.take(k)) >= 0
    &&& forall|k: int|
        0 <= k < ir.len() && is_bracket_use(ir[k]) ==> cond_depth(#[trigger] ir.take(k)) >= 1
}

/// Taking a prefix of a pushed stream is taking it from the original.
proof fn lemma_take_push(ir: Seq<CompilispIr>, inst: CompilispIr, k: int)
    requires
        0 <= k <= ir.len(),
    ensures
        ir.push(inst).take(k) == ir.take(k),
{
    assert(ir.push(inst).take(k) =~= ir.take(k));
}

/// The depth after a pushed instruction is the depth before plus its
/// delta.
proof fn lemma_depth_push(ir: Seq<CompilispIr>, inst: CompilispIr)
    ensures
        cond_depth(ir.push(inst)) == cond_depth(ir) + cond_delta(inst),
{
    assert(ir.push(inst).drop_last() =~= ir);
    assert(ir.push(inst).last() == inst);
}

/// Pushing an instruction preserves the nesting discipline, provided a
/// bracket-using instruction finds an open conditional and a closing
/// bracket does not drop the depth below zero.
proof fn lemma_push_brackets(ir: Seq<CompilispIr>, inst: CompilispIr)
    requires
        brackets_wf(ir),
        is_bracket_use(inst) ==> cond_depth(ir) >= 1,
    ensures
        brackets_wf(ir.push(inst)),
        cond_depth(ir.push(inst)) == cond_depth(ir) + cond_delta(inst),
    decreases ir.len(),
{
    let ir2 = ir.push(inst);
    lemma_depth_push(ir, inst);
    assert(ir.take(ir.len() as int) =~= ir);
    assert(ir2.take(ir2.len() as int) =~= ir2);
    assert forall|k: int| 0 <= k <= ir2.len() implies cond_depth(#[trigger] ir2.take(k)) >= 0 by {
        if k < ir2.len() {
            lemma_take_push(ir, inst, k);
            assert(cond_depth(ir.take(k)) >= 0);
        } else {
            if cond_delta(inst) >= 0 {
                assert(cond_depth(ir) >= 0);
            } else {
                assert(is_bracket_use(inst));
                assert(cond_depth(ir) >= 1);
            }
        }
    }
    assert forall|k: int|
        0 <= k < ir2.len() && is_bracket_use(ir2[k]) implies cond_depth(
        #[trigger] ir2.take(k),
    ) >= 1 by {
        if k < ir.len() {
            lemma_take_push(ir, inst, k);
            assert(ir2[k] == ir[k]);
            assert(cond_depth(ir.take(k)) >= 1);
        } else {
            lemma_take_push(ir, inst, k);
            assert(cond_depth(ir.take(k)) == cond_depth(ir));
        }
    }
}

/// Under the nesting discipline the depth of the whole stream is never
/// negative.
proof fn lemma_depth_nonneg(ir: Seq<CompilispIr>)
    requires
        brackets_wf(ir),
    ensures
        cond_depth(ir) >= 0,
{
    assert(ir.take(ir.len() as int) =~= ir);
    assert(cond_depth(ir.take(ir.len() as int)) >= 0);
}

/// Slot identifiers are defined in strictly increasing order: later
/// defining instructions carry strictly larger identifiers, so no
/// identifier is ever reused.
pub open spec fn defs_strictly_increasing(ir: Seq<CompilispIr>) -> bool {
    forall|i: int, j: int|
        0 <= i < j < ir.len() && (#[trigger] ir_def_id(ir[i])) is Some && (#[trigger] ir_def_id(
            ir[j],
        )) is Some ==> ir_def_id(ir[i])->Some_0 < ir_def_id(ir[j])->Some_0
}

/// Innermost-last lookup within one scope frame: the binding pushed last
/// for a name shadows earlier ones.
pub open spec fn frame_lookup(frame: Seq<(String, Alloc)>, name: Seq<char>) -> Option<Alloc>
    decreases frame.len(),
{
    if frame.len() == 0 {
        None
    } else if frame.last().0@ == name {
        Some(frame.last().1)
    } else {
        frame_lookup(frame.drop_last(), name)
    }
}

/// Innermost-frame-first lookup across the scope stack.
pub open spec fn scopes_lookup(scopes: Seq<Vec<(String, Alloc)>>, name: Seq<char>) -> Option<
    Alloc,
>
    decreases scopes.len(),
{
    if scopes.len() == 0 {
        None
    } else {
        match frame_lookup(scopes.last()@, name) {
            Some(a) => Some(a),
            None => scopes_lookup(scopes.drop_last(), name),
        }
    }
}

/// The set of names visible somewhere on the scope stack.
pub open spec fn bound_names(scopes: Seq<Vec<(String, Alloc)>>) -> Set<Seq<char>> {
    Set::new(|name: Seq<char>| scopes_lookup(scopes, name) is Some)
}

/// Outcome of lowering one expression under a set of visible names:
/// accepted, rejected as ill-formed, or rejected for an unbound symbol
/// (carrying the offending name). Errors are reported in lowering order:
/// the first one encountered wins.
pub enum LowerStatus {
    Accepted,
    IllFormed,
    Unbound(Seq<char>),
}

/// The status lowering an expression reports under the visible names.
/// Number and string literals always lower; boolean literals have no
/// materializing IR instruction and are ill-formed; a symbol must be
/// visible; an `if` needs a condition and a then branch; `let` bindings are
/// lowered in order, each visible to the ones after it (sequential
/// visibility) and to the body.
pub open spec fn lower_status(e: Expr, names: Set<Seq<char>>) -> LowerStatus
    decreases e,
{
    match e {
        Expr::Number(_) => LowerStatus::Accepted,
        Expr::Boolean(_) => LowerStatus::IllFormed,
        Expr::String(_) => LowerStatus::Accepted,
        Expr::Symbol(name) => if names.contains(name@) {
            LowerStatus::Accepted
        } else {
            LowerStatus::Unbound(name@)
        },
        Expr::Procedure(name, args) => if name@ == "if"@ {
            lower_if_status(args@, names)
        } else {
            lower_args_status(args@, names)
        },
        Expr::LetProcedure(bindings, body) => {
            let s = lower_bindings_status(bindings@, names);
            if !(s is Accepted) {
                s
            } else {
                lower_status(*body, lower_bindings_names(bindings@, names))
            }
        },
    }
}

/// The status of lowering an `if` form: it needs at least a condition and
/// a then branch; the condition, the then branch and, when present, the
/// else branch are lowered in that order and the first non-accepted one
/// decides. Anything after the else branch is ignored.
pub open spec fn lower_if_status(args: Seq<Expr>, names: Set<Seq<char>>) -> LowerStatus
    decreases args,
{
    if args.len() < 2 {
        LowerStatus::IllFormed
    } else {
        let s0 = lower_status(args[0], names);
        if !(s0 is Accepted) {
            s0
        } else {
            let s1 = lower_status(args[1], names);
            if !(s1 is Accepted) {
                s1
            } else if args.len() >= 3 {
                lower_status(args[2], names)
            } else {
                LowerStatus::Accepted
            }
        }
    }
}

/// The status of lowering call arguments left to right: the first
/// non-accepted argument decides.
pub open spec fn lower_args_status(args: Seq<Expr>, names: Set<Seq<char>>) -> LowerStatus
    decreases args,
{
    if args.len() == 0 {
        LowerStatus::Accepted
    } else {
        let s = lower_status(args[0], names);
        if !(s is Accepted) {
            s
        } else {
            lower_args_status(args.drop_first(), names)
        }
    }
}

/// The status of lowering `let` bindings in order, each under the names
/// extended by the bindings before it.
pub open spec fn lower_bindings_status(bindings: Seq<(String, Expr)>, names: Set<Seq<char>>)
    -> LowerStatus
    decreases bindings,
{
    if bindings.len() == 0 {
        LowerStatus::Accepted
    } else {
        let s = lower_status(bindings[0].1, names);
        if !(s is Accepted) {
            s
        } else {
            lower_bindings_status(bindings.drop_first(), names.insert(bindings[0].0@))
        }
    }
}

/// The visible names after all `let` bindings have been added.
pub open spec fn lower_bindings_names(bindings: Seq<(String, Expr)>, names: Set<Seq<char>>)
    -> Set<Seq<char>>
    decreases bindings,
{
    if bindings.len() == 0 {
        names
    } else {
        lower_bindings_names(bindings.drop_first(), names.insert(bindings[0].0@))
    }
}


/// One scope frame, abstractly: the map from each visible name to its
/// binding (the binding pushed last for a name wins).
pub open spec fn abs_frame(frame: Seq<(String, Alloc)>) -> Map<Seq<char>, Alloc> {
    Map::new(
        |n: Seq<char>| frame_lookup(frame, n) is Some,
        |n: Seq<char>| frame_lookup(frame, n)->Some_0,
    )
}

/// The scope stack, abstractly: one name-to-binding map per frame.
pub open spec fn abs_scopes(scopes: Seq<Vec<(String, Alloc)>>) -> Seq<Map<Seq<char>, Alloc>> {
    Seq::new(scopes.len(), |i: int| abs_frame(scopes[i]@))
}

/// Innermost-frame-first lookup over the abstract scope stack.
pub open spec fn abs_lookup(scopes: Seq<Map<Seq<char>, Alloc>>, name: Seq<char>) -> Option<Alloc>
    decreases scopes.len(),
{
    if scopes.len() == 0 {
        None
    } else if scopes.last().dom().contains(name) {
        Some(scopes.last()[name])
    } else {
        abs_lookup(scopes.drop_last(), name)
    }
}

/// The abstract lookup agrees with the concrete one.
pub proof fn lemma_abs_lookup(scopes: Seq<Vec<(String, Alloc)>>, name: Seq<char>)
    ensures
        abs_lookup(abs_scopes(scopes), name) == scopes_lookup(scopes, name),
    decreases scopes.len(),
{
    if scopes.len() > 0 {
        assert(abs_scopes(scopes).last() == abs_frame(scopes.last()@));
        assert(abs_scopes(scopes).drop_last() =~= abs_scopes(scopes.drop_last()));
        lemma_abs_lookup(scopes.drop_last(), name);
    }
}

/// Pushing an empty frame concretely is pushing an empty map abstractly.
proof fn lemma_abs_push_empty(s1: Seq<Vec<(String, Alloc)>>, s2: Seq<Vec<(String, Alloc)>>)
    requires
        s2.len() == s1.len() + 1,
        s2.drop_last() == s1,
        s2.last()@ == Seq::<(String, Alloc)>::empty(),
    ensures
        abs_scopes(s2) == abs_scopes(s1).push(Map::empty()),
{
    assert(abs_frame(s2.last()@) =~= Map::<Seq<char>, Alloc>::empty());
    assert forall|i: int| 0 <= i < s1.len() implies abs_scopes(s2)[i] == abs_scopes(s1)[i] by {
        assert(s2[i] == s1[i]);
    }
    assert(abs_scopes(s2) =~= abs_scopes(s1).push(Map::empty()));
}

/// Appending a binding to the innermost frame concretely is inserting it
/// into the innermost map abstractly.
proof fn lemma_abs_insert(
    s1: Seq<Vec<(String, Alloc)>>,
    s2: Seq<Vec<(String, Alloc)>>,
    bname: Seq<char>,
    a: Alloc,
)
    requires
        s1.len() >= 1,
        s2.len() == s1.len(),
        s2.drop_last() == s1.drop_last(),
        s2.last()@.len() == s1.last()@.len() + 1,
        s2.last()@.drop_last() == s1.last()@,
        s2.last()@.last().0@ == bname,
        s2.last()@.last().1 == a,
    ensures
        abs_scopes(s2) == abs_scopes(s1).update(
            s1.len() - 1,
            abs_frame(s1.last()@).insert(bname, a),
        ),
{
    let f2 = s2.last()@;
    assert(f2.drop_last() == s1.last()@);
    assert forall|n: Seq<char>| true implies #[trigger] frame_lookup(f2, n) == (if n == bname {
        Some(a)
    } else {
        frame_lookup(s1.last()@, n)
    }) by {
        assert(f2.last().0@ == bname);
    }
    assert(abs_frame(f2) =~= abs_frame(s1.last()@).insert(bname, a));
    assert forall|i: int| 0 <= i < s1.len() - 1 implies abs_scopes(s2)[i] == abs_scopes(s1)[i] by {
        assert(s2.drop_last()[i] == s1.drop_last()[i]);
        assert(s2.drop_last()[i] == s2[i]);
        assert(s1.drop_last()[i] == s1[i]);
    }
    assert(abs_scopes(s2) =~= abs_scopes(s1).update(
        s1.len() - 1,
        abs_frame(s1.last()@).insert(bname, a),
    ));
}


/// The shape of one IR instruction with its text as a character sequence:
/// the form of an instruction that ghost code can build, used to state
/// exactly what lowering emits.
pub enum IrShape {
    CallProcedure { name: Seq<char>, return_id: AllocId, args: Seq<Alloc> },
    ConstInt { alloc_id: AllocId, value: i32 },
    GlobalString { alloc_id: AllocId, value: Seq<char> },
    IfExpressionEval { cond_alloc: AllocId },
    IfExpressionEndThen { result_alloc: AllocId, cond_alloc: AllocId },
    IfExpressionElse,
    IfExpressionEndElse { result_alloc: AllocId, cond_alloc: AllocId },
    IfExpressionEndBlock,
    ProcedureScopeStart,
    ProcedureScopeEnd,
    ProcedureReturnValue(AllocId),
}

/// The shape of an emitted instruction.
pub open spec fn ir_shape(inst: CompilispIr) -> IrShape {
    match inst {
        CompilispIr::CallProcedure { name, return_id, args } => IrShape::CallProcedure {
            name: name@,
            return_id,
            args: args@,
        },
        CompilispIr::ConstInt { alloc_id, value } => IrShape::ConstInt { alloc_id, value },
        CompilispIr::GlobalString { alloc_id, value } => IrShape::GlobalString {
            alloc_id,
            value: value@,
        },
        CompilispIr::IfExpressionEval { cond_alloc } => IrShape::IfExpressionEval { cond_alloc },
        CompilispIr::IfExpressionEndThen { result_alloc, cond_alloc } => IrShape::IfExpressionEndThen {
            result_alloc,
            cond_alloc,
        },
        CompilispIr::IfExpressionElse => IrShape::IfExpressionElse,
        CompilispIr::IfExpressionEndElse { result_alloc, cond_alloc } => IrShape::IfExpressionEndElse {
            result_alloc,
            cond_alloc,
        },
        CompilispIr::IfExpressionEndBlock => IrShape::IfExpressionEndBlock,
        CompilispIr::ProcedureScopeStart => IrShape::ProcedureScopeStart,
        CompilispIr::ProcedureScopeEnd => IrShape::ProcedureScopeEnd,
        CompilispIr::ProcedureReturnValue(id) => IrShape::ProcedureReturnValue(id),
    }
}

/// The shapes of a whole emitted region.
pub open spec fn shapes_of(ir: Seq<CompilispIr>) -> Seq<IrShape> {
    ir.map_values(|inst: CompilispIr| ir_shape(inst))
}

/// What lowering one accepted expression produces: the emitted shapes, the
/// returned slot and the new counter value.
pub struct Lowered {
    pub emitted: Seq<IrShape>,
    pub res: Alloc,
    pub next: nat,
}

/// The reference semantics of the lowering pass, stated instruction by
/// instruction: under the abstract scope stack `scopes` with the slot
/// counter at `next`, an accepted expression appends exactly
/// `lower_fn(..).emitted`, returns slot `lower_fn(..).res`, and leaves the
/// counter at `lower_fn(..).next`. (On a rejected expression the lowering
/// stops with a diagnostic instead; this function is only meaningful where
/// `lower_status` accepts.)
pub open spec fn lower_fn(e: Expr, scopes: Seq<Map<Seq<char>, Alloc>>, next: nat) -> Lowered
    decreases e, 2int,
{
    match e {
        Expr::Number(n) => Lowered {
            emitted: seq![
                IrShape::ConstInt { alloc_id: (next + 1) as usize, value: n },
            ],
            res: Alloc { alloc_type: AllocType::Int, id: (next + 1) as usize },
            next: next + 1,
        },
        Expr::Boolean(_) => Lowered { emitted: Seq::empty(), res: arbitrary(), next: next },
        Expr::String(s) => Lowered {
            emitted: seq![
                IrShape::GlobalString { alloc_id: (next + 1) as usize, value: s@ },
            ],
            res: Alloc { alloc_type: AllocType::String, id: (next + 1) as usize },
            next: next + 1,
        },
        Expr::Symbol(name) => Lowered {
            emitted: Seq::empty(),
            res: if abs_lookup(scopes, name@) is Some {
                abs_lookup(scopes, name@)->Some_0
            } else {
                arbitrary()
            },
            next: next,
        },
        Expr::Procedure(name, args) => if name@ == "if"@ {
            lower_if_fn(args@, scopes, next)
        } else {
            lower_call_fn(name@, args@, scopes, next)
        },
        Expr::LetProcedure(bindings, body) => {
            let b = lower_bindings_fn(bindings@, scopes.push(Map::empty()), next);
            let lw = lower_fn(*body, b.scopes, b.next);
            Lowered { emitted: b.emitted + lw.emitted, res: lw.res, next: lw.next }
        },
    }
}

/// What lowering a generic call produces: a fresh declared return slot,
/// the procedure-scope brackets, the argument regions left to right, and
/// the call carrying the argument slots in that order; the call's static
/// result kind is Integer.
pub open spec fn lower_call_fn(
    name: Seq<char>,
    args: Seq<Expr>,
    scopes: Seq<Map<Seq<char>, Alloc>>,
    next: nat,
) -> Lowered
    decreases args, 1int,
{
    let rid = (next + 1) as usize;
    let a = lower_args_fn(args, scopes, next + 1);
    Lowered {
        emitted: seq![
            IrShape::ProcedureReturnValue(rid),
            IrShape::ProcedureScopeStart,
        ] + a.emitted + seq![
            IrShape::CallProcedure { name: name, return_id: rid, args: a.slots },
            IrShape::ProcedureScopeEnd,
        ],
        res: Alloc { alloc_type: AllocType::Int, id: rid },
        next: a.next,
    }
}

/// What lowering a sequence of argument expressions produces: their
/// regions in order and their slots in order, the counter threaded left to
/// right.
pub struct LoweredArgs {
    pub emitted: Seq<IrShape>,
    pub slots: Seq<Alloc>,
    pub next: nat,
}

pub open spec fn lower_args_fn(
    args: Seq<Expr>,
    scopes: Seq<Map<Seq<char>, Alloc>>,
    next: nat,
) -> LoweredArgs
    decreases args, 0int,
{
    if args.len() == 0 {
        LoweredArgs { emitted: Seq::empty(), slots: Seq::empty(), next: next }
    } else {
        let first = lower_fn(args[0], scopes, next);
        let rest = lower_args_fn(args.drop_first(), scopes, first.next);
        LoweredArgs {
            emitted: first.emitted + rest.emitted,
            slots: seq![first.res] + rest.slots,
            next: rest.next,
        }
    }
}

/// What lowering the bindings of a `let` produces: each binding expression
/// lowered in the order given, each newly bound name inserted into the
/// innermost frame, visible to the bindings after it (sequential
/// visibility) and to the body.
pub struct LoweredBindings {
    pub emitted: Seq<IrShape>,
    pub scopes: Seq<Map<Seq<char>, Alloc>>,
    pub next: nat,
}

pub open spec fn lower_bindings_fn(
    bindings: Seq<(String, Expr)>,
    scopes: Seq<Map<Seq<char>, Alloc>>,
    next: nat,
) -> LoweredBindings
    decreases bindings, 0int,
{
    if bindings.len() == 0 {
        LoweredBindings { emitted: Seq::empty(), scopes: scopes, next: next }
    } else {
        let first = lower_fn(bindings[0].1, scopes, next);
        let rest = lower_bindings_fn(
            bindings.drop_first(),
            scopes.update(scopes.len() - 1, scopes.last().insert(bindings[0].0@, first.res)),
            first.next,
        );
        LoweredBindings {
            emitted: first.emitted + rest.emitted,
            scopes: rest.scopes,
            next: rest.next,
        }
    }
}

/// What lowering an `if` form produces: the condition's region, the branch
/// on its slot (which doubles as the merge slot and is the form's result),
/// the then region closed by the merge copy, the optional else bracket,
/// and the closing bracket last.
pub open spec fn lower_if_fn(
    args: Seq<Expr>,
    scopes: Seq<Map<Seq<char>, Alloc>>,
    next: nat,
) -> Lowered
    decreases args, 1int,
{
    if args.len() < 2 {
        Lowered { emitted: Seq::empty(), res: arbitrary(), next: next }
    } else {
    let cond = lower_fn(args[0], scopes, next);
    let then = lower_fn(args[1], scopes, cond.next);
    if args.len() >= 3 {
        let els = lower_fn(args[2], scopes, then.next);
        Lowered {
            emitted: cond.emitted + seq![
                IrShape::IfExpressionEval { cond_alloc: cond.res.id },
            ] + then.emitted + seq![
                IrShape::IfExpressionEndThen {
                    result_alloc: then.res.id,
                    cond_alloc: cond.res.id,
                },
                IrShape::IfExpressionElse,
            ] + els.emitted + seq![
                IrShape::IfExpressionEndElse {
                    result_alloc: els.res.id,
                    cond_alloc: cond.res.id,
                },
                IrShape::IfExpressionEndBlock,
            ],
            res: cond.res,
            next: els.next,
        }
    } else {
        Lowered {
            emitted: cond.emitted + seq![
                IrShape::IfExpressionEval { cond_alloc: cond.res.id },
            ] + then.emitted + seq![
                IrShape::IfExpressionEndThen {
                    result_alloc: then.res.id,
                    cond_alloc: cond.res.id,
                },
                IrShape::IfExpressionEndBlock,
            ],
            res: cond.res,
            next: then.next,
        }
    }
    }
}

/// Shapes distribute over concatenation.
pub proof fn lemma_shapes_add(a: Seq<CompilispIr>, b: Seq<CompilispIr>)
    ensures
        shapes_of(a + b) == shapes_of(a) + shapes_of(b),
{
    assert(shapes_of(a + b) =~= shapes_of(a) + shapes_of(b));
}

/// The shape of one pushed instruction.
pub proof fn lemma_shapes_push(a: Seq<CompilispIr>, x: CompilispIr)
    ensures
        shapes_of(a.push(x)) == shapes_of(a).push(ir_shape(x)),
{
    assert(shapes_of(a.push(x)) =~= shapes_of(a).push(ir_shape(x)));
}

/// Appending one more argument on the right: the regions, slots and
/// counter extend by exactly the new argument's lowering.
proof fn lemma_args_fn_snoc(args: Seq<Expr>, x: Expr, scopes: Seq<Map<Seq<char>, Alloc>>, next: nat)
    ensures
        lower_args_fn(args.push(x), scopes, next).emitted == lower_args_fn(
            args,
            scopes,
            next,
        ).emitted + lower_fn(x, scopes, lower_args_fn(args, scopes, next).next).emitted,
        lower_args_fn(args.push(x), scopes, next).slots == lower_args_fn(
            args,
            scopes,
            next,
        ).slots.push(lower_fn(x, scopes, lower_args_fn(args, scopes, next).next).res),
        lower_args_fn(args.push(x), scopes, next).next == lower_fn(
            x,
            scopes,
            lower_args_fn(args, scopes, next).next,
        ).next,
    decreases args.len(),
{
    let whole = args.push(x);
    if args.len() == 0 {
        reveal_with_fuel(lower_args_fn, 2);
        assert(whole[0] == x);
        assert(whole.drop_first() =~= Seq::<Expr>::empty());
        let lw = lower_fn(x, scopes, next);
        assert(lower_args_fn(whole, scopes, next).emitted =~= lw.emitted);
        assert(lower_args_fn(whole, scopes, next).slots =~= seq![lw.res]);
        assert(lower_args_fn(args, scopes, next).slots.push(lw.res) =~= seq![lw.res]);
        assert(lower_args_fn(args, scopes, next).emitted + lw.emitted =~= lw.emitted);
    } else {
        assert(whole[0] == args[0]);
        assert(whole.drop_first() =~= args.drop_first().push(x));
        let first = lower_fn(args[0], scopes, next);
        lemma_args_fn_snoc(args.drop_first(), x, scopes, first.next);
        let r1 = lower_args_fn(args.drop_first(), scopes, first.next);
        let lw = lower_fn(x, scopes, r1.next);
        assert(lower_args_fn(whole, scopes, next).emitted =~= lower_args_fn(
            args,
            scopes,
            next,
        ).emitted + lw.emitted);
        assert(lower_args_fn(whole, scopes, next).slots =~= lower_args_fn(
            args,
            scopes,
            next,
        ).slots.push(lw.res));
    }
}

/// Appending one more binding on the right: the regions extend by the new
/// binding's lowering, and its name is inserted into the innermost frame.
proof fn lemma_bindings_fn_snoc(
    bindings: Seq<(String, Expr)>,
    p: (String, Expr),
    scopes: Seq<Map<Seq<char>, Alloc>>,
    next: nat,
)
    ensures
        ({
            let b = lower_bindings_fn(bindings, scopes, next);
            let lw = lower_fn(p.1, b.scopes, b.next);
            let whole = lower_bindings_fn(bindings.push(p), scopes, next);
            &&& whole.emitted == b.emitted + lw.emitted
            &&& whole.scopes == b.scopes.update(
                b.scopes.len() - 1,
                b.scopes.last().insert(p.0@, lw.res),
            )
            &&& whole.next == lw.next
        }),
    decreases bindings.len(),
{
    let whole = bindings.push(p);
    if bindings.len() == 0 {
        reveal_with_fuel(lower_bindings_fn, 2);
        assert(whole[0] == p);
        assert(whole.drop_first() =~= Seq::<(String, Expr)>::empty());
        let lw = lower_fn(p.1, scopes, next);
        assert(lower_bindings_fn(whole, scopes, next).emitted =~= lw.emitted);
        assert(lower_bindings_fn(bindings, scopes, next).emitted + lw.emitted =~= lw.emitted);
    } else {
        assert(whole[0] == bindings[0]);
        assert(whole.drop_first() =~= bindings.drop_first().push(p));
        let first = lower_fn(bindings[0].1, scopes, next);
        lemma_bindings_fn_snoc(
            bindings.drop_first(),
            p,
            scopes.update(scopes.len() - 1, scopes.last().insert(bindings[0].0@, first.res)),
            first.next,
        );
        let b = lower_bindings_fn(bindings, scopes, next);
        let lw = lower_fn(p.1, b.scopes, b.next);
        assert(lower_bindings_fn(whole, scopes, next).emitted =~= b.emitted + lw.emitted);
    }
}


/// The reference lowering of a whole module: each top-level expression is
/// lowered under the empty module scope, the slot counter threaded left to
/// right across expressions (identifiers are never reused within one
/// module compile); yields the concatenated shapes and the final counter.
pub struct LoweredModule {
    pub emitted: Seq<IrShape>,
    pub next: nat,
}

pub open spec fn module_lower_fn(exprs: Seq<Expr>, next: nat) -> LoweredModule
    decreases exprs,
{
    if exprs.len() == 0 {
        LoweredModule { emitted: Seq::empty(), next }
    } else {
        let first = lower_fn(exprs[0], seq![Map::empty()], next);
        let rest = module_lower_fn(exprs.drop_first(), first.next);
        LoweredModule { emitted: first.emitted + rest.emitted, next: rest.next }
    }
}

/// Appending one more top-level expression on the right extends the
/// module lowering by exactly that expression's lowering.
pub proof fn lemma_module_lower_snoc(exprs: Seq<Expr>, x: Expr, next: nat)
    ensures
        module_lower_fn(exprs.push(x), next).emitted == module_lower_fn(exprs, next).emitted
            + lower_fn(x, seq![Map::empty()], module_lower_fn(exprs, next).next).emitted,
        module_lower_fn(exprs.push(x), next).next == lower_fn(
            x,
            seq![Map::empty()],
            module_lower_fn(exprs, next).next,
        ).next,
    decreases exprs.len(),
{
    let whole = exprs.push(x);
    if exprs.len() == 0 {
        reveal_with_fuel(module_lower_fn, 2);
        assert(whole[0] == x);
        assert(whole.drop_first() =~= Seq::<Expr>::empty());
        let lw = lower_fn(x, seq![Map::empty()], next);
        assert(module_lower_fn(whole, next).emitted =~= lw.emitted);
        assert(module_lower_fn(exprs, next).emitted + lw.emitted =~= lw.emitted);
    } else {
        assert(whole[0] == exprs[0]);
        assert(whole.drop_first() =~= exprs.drop_first().push(x));
        let first = lower_fn(exprs[0], seq![Map::empty()], next);
        lemma_module_lower_snoc(exprs.drop_first(), x, first.next);
        let m = module_lower_fn(exprs, next);
        let lw = lower_fn(x, seq![Map::empty()], m.next);
        assert(module_lower_fn(whole, next).emitted =~= m.emitted + lw.emitted);
    }
}

/// A generator whose only scope frame is empty has the empty module scope,
/// abstractly.
pub proof fn lemma_initial_abs(g: &CompilispIrGenerator)
    requires
        g.scopes().len() == 1,
        g.scopes()[0]@.len() == 0,
    ensures
        abs_scopes(g.scopes()) == seq![Map::<Seq<char>, Alloc>::empty()],
{
    assert(g.scopes()[0]@ =~= Seq::<(String, Alloc)>::empty());
    assert(abs_frame(g.scopes()[0]@) =~= Map::<Seq<char>, Alloc>::empty());
    assert(abs_scopes(g.scopes()) =~= seq![Map::<Seq<char>, Alloc>::empty()]);
}

/// An upper bound on how many fresh slots lowering an expression can
/// allocate; used to keep the slot counter within machine limits.
pub open spec fn alloc_bound(e: Expr) -> nat
    decreases e,
{
    match e {
        Expr::Number(_) => 1,
        Expr::Boolean(_) => 0,
        Expr::String(_) => 1,
        Expr::Symbol(_) => 0,
        Expr::Procedure(_, args) => 1 + alloc_bound_args(args@),
        Expr::LetProcedure(bindings, body) => alloc_bound_bindings(bindings@) + alloc_bound(
            *body,
        ),
    }
}

/// Sum of the slot bounds of a sequence of argument expressions.
pub open spec fn alloc_bound_args(args: Seq<Expr>) -> nat
    decreases args,
{
    if args.len() == 0 {
        0
    } else {
        alloc_bound(args[0]) + alloc_bound_args(args.drop_first())
    }
}

/// Sum of the slot bounds of a sequence of `let` binding expressions.
pub open spec fn alloc_bound_bindings(bindings: Seq<(String, Expr)>) -> nat
    decreases bindings,
{
    if bindings.len() == 0 {
        0
    } else {
        alloc_bound(bindings[0].1) + alloc_bound_bindings(bindings.drop_first())
    }
}

/// Relates a reported compile error to the lowering status that demands
/// it: ill-formed input reports `IllFormedSyntax`, an unbound symbol
/// reports `UnboundVariable` carrying exactly the offending name.
pub open spec fn err_matches_status(e: CompilispError, s: LowerStatus) -> bool {
    match e {
        CompilispError::IllFormedSyntax => s is IllFormed,
        CompilispError::UnboundVariable(n) => s == LowerStatus::Unbound(n@),
    }
}

/// A successful frame lookup returns one of the frame's bindings.
proof fn lemma_frame_lookup_in(frame: Seq<(String, Alloc)>, n: Seq<char>)
    requires
        frame_lookup(frame, n) is Some,
    ensures
        exists|b: int|
            0 <= b < frame.len() && (#[trigger] frame[b]).1 == frame_lookup(frame, n)->Some_0,
    decreases frame.len(),
{
    if frame.last().0@ == n {
        assert(frame[frame.len() - 1].1 == frame_lookup(frame, n)->Some_0);
    } else {
        lemma_frame_lookup_in(frame.drop_last(), n);
        let b = choose|b: int|
            0 <= b < frame.drop_last().len() && (#[trigger] frame.drop_last()[b]).1
                == frame_lookup(frame.drop_last(), n)->Some_0;
        assert(frame[b].1 == frame_lookup(frame, n)->Some_0);
    }
}

/// A successful scope lookup returns a binding held by one of the frames.
proof fn lemma_scopes_lookup_in(scopes: Seq<Vec<(String, Alloc)>>, n: Seq<char>)
    requires
        scopes_lookup(scopes, n) is Some,
    ensures
        exists|f: int, b: int|
            0 <= f < scopes.len() && 0 <= b < scopes[f]@.len() && (#[trigger] scopes[f]@[b]).1
                == scopes_lookup(scopes, n)->Some_0,
    decreases scopes.len(),
{
    if frame_lookup(scopes.last()@, n) is Some {
        lemma_frame_lookup_in(scopes.last()@, n);
        let b = choose|b: int|
            0 <= b < scopes.last()@.len() && (#[trigger] scopes.last()@[b]).1 == frame_lookup(
                scopes.last()@,
                n,
            )->Some_0;
        assert(scopes[scopes.len() - 1]@[b].1 == scopes_lookup(scopes, n)->Some_0);
    } else {
        lemma_scopes_lookup_in(scopes.drop_last(), n);
        let (f, b) = choose|f: int, b: int|
            0 <= f < scopes.drop_last().len() && 0 <= b < scopes.drop_last()[f]@.len() && (
            #[trigger] scopes.drop_last()[f]@[b]).1 == scopes_lookup(scopes.drop_last(), n)->Some_0;
        assert(scopes[f]@[b].1 == scopes_lookup(scopes, n)->Some_0);
    }
}

/// Pushing an empty scope frame leaves the set of visible names unchanged.
proof fn lemma_bound_names_push_empty(s1: Seq<Vec<(String, Alloc)>>, s2: Seq<Vec<(String, Alloc)>>)
    requires
        s2.len() == s1.len() + 1,
        s2.drop_last() == s1,
        s2.last()@ == Seq::<(String, Alloc)>::empty(),
    ensures
        bound_names(s2) == bound_names(s1),
{
    assert forall|n: Seq<char>| #[trigger] scopes_lookup(s2, n) == scopes_lookup(s1, n) by {
        assert(frame_lookup(s2.last()@, n) is None);
    }
    assert(bound_names(s2) =~= bound_names(s1));
}

/// Adding one binding to the innermost frame makes exactly that name
/// visible on top of what was visible before.
proof fn lemma_bound_names_insert(
    s1: Seq<Vec<(String, Alloc)>>,
    s2: Seq<Vec<(String, Alloc)>>,
    bname: Seq<char>,
    a: Alloc,
)
    requires
        s1.len() >= 1,
        s2.len() == s1.len(),
        s2.drop_last() == s1.drop_last(),
        s2.last()@.len() == s1.last()@.len() + 1,
        s2.last()@.drop_last() == s1.last()@,
        s2.last()@.last().0@ == bname,
        s2.last()@.last().1 == a,
    ensures
        bound_names(s2) == bound_names(s1).insert(bname),
{
    assert forall|n: Seq<char>|
        bound_names(s2).contains(n) == #[trigger] bound_names(s1).insert(bname).contains(n) by {
        let f2 = s2.last()@;
        if n == bname {
            assert(frame_lookup(f2, n) is Some);
            assert(scopes_lookup(s2, n) is Some);
        } else {
            assert(frame_lookup(f2, n) == frame_lookup(s1.last()@, n));
            assert(scopes_lookup(s2, n) == scopes_lookup(s1, n));
        }
    }
    assert(bound_names(s2) =~= bound_names(s1).insert(bname));
}

/// Every binding on the scope stack refers to a slot in `1 ..= next` that
/// is defined in the stream.
pub open spec fn scope_stack_wf(
    scopes: Seq<Vec<(String, Alloc)>>,
    ir: Seq<CompilispIr>,
    next: nat,
) -> bool {
    forall|f: int, b: int|
        0 <= f < scopes.len() && 0 <= b < scopes[f]@.len() ==> {
            let a = (#[trigger] scopes[f]@[b]).1;
            1 <= a.id && a.id as nat <= next && slot_defined(ir, a.id)
        }
}

/// Scope well-formedness survives extending the stream and raising the
/// slot counter.
proof fn lemma_scope_stack_wf_extends(
    scopes: Seq<Vec<(String, Alloc)>>,
    ir1: Seq<CompilispIr>,
    ir2: Seq<CompilispIr>,
    n1: nat,
    n2: nat,
)
    requires
        scope_stack_wf(scopes, ir1, n1),
        ir1.is_prefix_of(ir2),
        n1 <= n2,
    ensures
        scope_stack_wf(scopes, ir2, n2),
{
    assert forall|f: int, b: int|
        0 <= f < scopes.len() && 0 <= b < scopes[f]@.len() implies {
        let a = (#[trigger] scopes[f]@[b]).1;
        1 <= a.id && a.id as nat <= n2 && slot_defined(ir2, a.id)
    } by {
        let a = scopes[f]@[b].1;
        assert(1 <= a.id && a.id as nat <= n1 && slot_defined(ir1, a.id));
        lemma_defined_extends(ir1, ir2, a.id);
    }
}

/// A sequence is a prefix of itself extended by one instruction.
proof fn lemma_push_prefix(ir: Seq<CompilispIr>, inst: CompilispIr)
    ensures
        ir.is_prefix_of(ir.push(inst)),
{
    assert(ir =~= ir.push(inst).subrange(0, ir.len() as int));
}

/// The prefix relation is transitive.
proof fn lemma_prefix_trans(a: Seq<CompilispIr>, b: Seq<CompilispIr>, c: Seq<CompilispIr>)
    requires
        a.is_prefix_of(b),
        b.is_prefix_of(c),
    ensures
        a.is_prefix_of(c),
{
    assert(a =~= c.subrange(0, a.len() as int));
}

/// Appending instructions never invalidates an existing definition.
proof fn lemma_defined_extends(ir1: Seq<CompilispIr>, ir2: Seq<CompilispIr>, id: AllocId)
    requires
        ir1.is_prefix_of(ir2),
        slot_defined(ir1, id),
    ensures
        slot_defined(ir2, id),
{
    let j = choose|j: int| 0 <= j < ir1.len() && ir_def_id(ir1[j]) == Some(id);
    assert(ir_def_id(ir2[j]) == Some(id));
}

/// Appending instructions never invalidates an existing return declaration.
proof fn lemma_declared_extends(ir1: Seq<CompilispIr>, ir2: Seq<CompilispIr>, id: AllocId)
    requires
        ir1.is_prefix_of(ir2),
        return_declared_before(ir1, ir1.len() as int, id),
    ensures
        return_declared_before(ir2, ir2.len() as int, id),
{
    let j = choose|j: int| 0 <= j < ir1.len() && ir1[j] == CompilispIr::ProcedureReturnValue(id);
    assert(ir2[j] == CompilispIr::ProcedureReturnValue(id));
}

/// Pushing an instruction that is itself well formed at the end of the
/// stream preserves all stream invariants. A defining instruction must
/// carry an identifier strictly above every identifier defined so far; a
/// call must reference only already-declared and already-defined slots.
proof fn lemma_push_preserves(ir: Seq<CompilispIr>, inst: CompilispIr, bound: nat, newbound: nat)
    requires
        defs_bounded(ir, bound),
        defs_strictly_increasing(ir),
        calls_resolved(ir),
        bound <= newbound,
        ir_def_id(inst) matches Some(id) ==> bound < id && 1 <= id && id as nat <= newbound,
        inst matches CompilispIr::CallProcedure { return_id, args, .. } ==> return_declared_before(
            ir,
            ir.len() as int,
            return_id,
        ) && forall|a: int|
            0 <= a < args@.len() ==> slot_defined(ir, (#[trigger] args@[a]).id),
        conds_resolved(ir),
        inst matches CompilispIr::IfExpressionEval { cond_alloc } ==> slot_defined(ir, cond_alloc),
        inst matches CompilispIr::IfExpressionEndThen { result_alloc, cond_alloc }
            ==> slot_defined(ir, result_alloc) && slot_defined(ir, cond_alloc),
        inst matches CompilispIr::IfExpressionEndElse { result_alloc, cond_alloc }
            ==> slot_defined(ir, result_alloc) && slot_defined(ir, cond_alloc),
    ensures
        defs_bounded(ir.push(inst), newbound),
        defs_strictly_increasing(ir.push(inst)),
        calls_resolved(ir.push(inst)),
        conds_resolved(ir.push(inst)),
        ir_def_id(inst) matches Some(id) ==> slot_defined(ir.push(inst), id),
{
    let ir2 = ir.push(inst);
    let n = ir.len() as int;
    assert forall|k: int| 0 <= k < ir2.len() implies #[trigger] call_wf_at(ir2, k) by {
        if k < n {
            assert(call_wf_at(ir, k));
            assert(ir2[k] == ir[k]);
            match ir[k] {
                CompilispIr::CallProcedure { return_id, args, .. } => {
                    assert forall|a: int| 0 <= a < args@.len() implies slot_defined_before(
                        ir2,
                        k,
                        (#[trigger] args@[a]).id,
                    ) by {
                        assert(slot_defined_before(ir, k, args@[a].id));
                        let j = choose|j: int|
                            0 <= j < k && ir_def_id(ir[j]) == Some(args@[a].id);
                        assert(ir_def_id(ir2[j]) == Some(args@[a].id));
                    }
                    let j = choose|j: int|
                        0 <= j < k && ir[j] == CompilispIr::ProcedureReturnValue(return_id);
                    assert(ir2[j] == CompilispIr::ProcedureReturnValue(return_id));
                },
                _ => {},
            }
        } else {
            match inst {
                CompilispIr::CallProcedure { return_id, args, .. } => {
                    assert forall|a: int| 0 <= a < args@.len() implies slot_defined_before(
                        ir2,
                        k,
                        (#[trigger] args@[a]).id,
                    ) by {
                        assert(slot_defined(ir, args@[a].id));
                        let j = choose|j: int|
                            0 <= j < ir.len() && ir_def_id(ir[j]) == Some(args@[a].id);
                        assert(ir_def_id(ir2[j]) == Some(args@[a].id));
                    }
                    let j = choose|j: int|
                        0 <= j < ir.len() && ir[j] == CompilispIr::ProcedureReturnValue(
                            return_id,
                        );
                    assert(ir2[j] == CompilispIr::ProcedureReturnValue(return_id));
                },
                _ => {},
            }
        }
    }
    assert forall|k: int| 0 <= k < ir2.len() implies #[trigger] cond_refs_wf_at(ir2, k) by {
        if k < n {
            assert(cond_refs_wf_at(ir, k));
            assert(ir2[k] == ir[k]);
            match ir[k] {
                CompilispIr::IfExpressionEval { cond_alloc } => {
                    let j = choose|j: int| 0 <= j < k && ir_def_id(ir[j]) == Some(cond_alloc);
                    assert(ir_def_id(ir2[j]) == Some(cond_alloc));
                },
                CompilispIr::IfExpressionEndThen { result_alloc, cond_alloc } => {
                    let j = choose|j: int| 0 <= j < k && ir_def_id(ir[j]) == Some(result_alloc);
                    assert(ir_def_id(ir2[j]) == Some(result_alloc));
                    let j2 = choose|j2: int| 0 <= j2 < k && ir_def_id(ir[j2]) == Some(cond_alloc);
                    assert(ir_def_id(ir2[j2]) == Some(cond_alloc));
                },
                CompilispIr::IfExpressionEndElse { result_alloc, cond_alloc } => {
                    let j = choose|j: int| 0 <= j < k && ir_def_id(ir[j]) == Some(result_alloc);
                    assert(ir_def_id(ir2[j]) == Some(result_alloc));
                    let j2 = choose|j2: int| 0 <= j2 < k && ir_def_id(ir[j2]) == Some(cond_alloc);
                    assert(ir_def_id(ir2[j2]) == Some(cond_alloc));
                },
                _ => {},
            }
        } else {
            match inst {
                CompilispIr::IfExpressionEval { cond_alloc } => {
                    let j = choose|j: int| 0 <= j < ir.len() && ir_def_id(ir[j]) == Some(cond_alloc);
                    assert(ir_def_id(ir2[j]) == Some(cond_alloc));
                },
                CompilispIr::IfExpressionEndThen { result_alloc, cond_alloc } => {
                    let j = choose|j: int| 0 <= j < ir.len() && ir_def_id(ir[j]) == Some(result_alloc);
                    assert(ir_def_id(ir2[j]) == Some(result_alloc));
                    let j2 = choose|j2: int|
                        0 <= j2 < ir.len() && ir_def_id(ir[j2]) == Some(cond_alloc);
                    assert(ir_def_id(ir2[j2]) == Some(cond_alloc));
                },
                CompilispIr::IfExpressionEndElse { result_alloc, cond_alloc } => {
                    let j = choose|j: int| 0 <= j < ir.len() && ir_def_id(ir[j]) == Some(result_alloc);
                    assert(ir_def_id(ir2[j]) == Some(result_alloc));
                    let j2 = choose|j2: int|
                        0 <= j2 < ir.len() && ir_def_id(ir[j2]) == Some(cond_alloc);
                    assert(ir_def_id(ir2[j2]) == Some(cond_alloc));
                },
                _ => {},
            }
        }
    }
    if ir_def_id(inst) is Some {
        let id = ir_def_id(inst)->Some_0;
        assert(ir_def_id(ir2[n]) == Some(id));
    }
}

/// Slot bounds only grow when the bound itself grows.
proof fn lemma_defs_bounded_mono(ir: Seq<CompilispIr>, n1: nat, n2: nat)
    requires
        defs_bounded(ir, n1),
        n1 <= n2,
    ensures
        defs_bounded(ir, n2),
{
}

/// Every sequence is a prefix of itself.
proof fn lemma_prefix_refl(ir: Seq<CompilispIr>)
    ensures
        ir.is_prefix_of(ir),
{
    assert(ir =~= ir.subrange(0, ir.len() as int));
}

/// The contract one lowering step establishes: the generator stays well
/// formed, the scope stack is restored, the stream only grows, the slot
/// counter moves by at most the expression's allocation bound, a returned
/// slot is defined, and the outcome matches the lowering status exactly.
pub open spec fn process_post(
    pre: CompilispIrGenerator,
    post: CompilispIrGenerator,
    e: Expr,
    r: CompilispResult<Alloc>,
) -> bool {
    &&& post.wf()
    &&& post.scopes() == pre.scopes()
    &&& pre.ir().is_prefix_of(post.ir())
    &&& (r is Ok ==> cond_depth(post.ir()) == cond_depth(pre.ir()))
    &&& pre.next_alloc() <= post.next_alloc()
    &&& post.next_alloc() <= pre.next_alloc() + alloc_bound(e)
    &&& (r matches Ok(a) ==> 1 <= a.id && a.id as nat <= post.next_alloc() && slot_defined(
        post.ir(),
        a.id,
    ))
    &&& ((r is Ok) == (lower_status(e, bound_names(pre.scopes())) is Accepted))
    &&& (r matches Err(err) ==> err_matches_status(
        err,
        lower_status(e, bound_names(pre.scopes())),
    ))
    &&& (r matches Ok(a) ==> ({
        let lw = lower_fn(e, abs_scopes(pre.scopes()), pre.next_alloc());
        &&& shapes_of(post.ir().skip(pre.ir().len() as int)) == lw.emitted
        &&& a == lw.res
        &&& post.next_alloc() == lw.next
    }))
}

/// The IR generator: owns the instruction buffer, the lexical scope stack
/// used during lowering, and the slot counter for one module compile.
#[derive(Debug)]
pub struct CompilispIrGenerator {
    ir_buffer: Vec<CompilispIr>,
    symbol_scopes: Vec<Vec<(String, Alloc)>>,
    alloc_id: usize,
}

impl CompilispIrGenerator {
    /// The instruction stream emitted so far.
    pub closed spec fn ir(&self) -> Seq<CompilispIr> {
        self.ir_buffer@
    }

    /// The scope stack, outermost frame first.
    pub closed spec fn scopes(&self) -> Seq<Vec<(String, Alloc)>> {
        self.symbol_scopes@
    }

    /// The highest slot identifier handed out so far.
    pub closed spec fn next_alloc(&self) -> nat {
        self.alloc_id as nat
    }

    /// Every scope binding refers to a slot that has been handed out and
    /// defined in the stream.
    pub open spec fn scopes_wf(&self) -> bool {
        scope_stack_wf(self.scopes(), self.ir(), self.next_alloc())
    }

    /// Generator well-formedness: at least the module-level scope frame
    /// exists, bindings are backed by defined slots, and the emitted stream
    /// satisfies the slot-freshness and call-resolution invariants.
    pub open spec fn wf(&self) -> bool {
        &&& self.scopes().len() >= 1
        &&& self.scopes_wf()
        &&& defs_bounded(self.ir(), self.next_alloc())
        &&& defs_strictly_increasing(self.ir())
        &&& calls_resolved(self.ir())
        &&& conds_resolved(self.ir())
        &&& brackets_wf(self.ir())
    }

    /// A fresh generator: empty stream, one empty scope frame, slot counter
    /// at zero.
    pub fn new() -> (r: Self)
        ensures
            r.wf(),
            r.ir() == Seq::<CompilispIr>::empty(),
            r.scopes().len() == 1,
            r.scopes()[0]@.len() == 0,
            r.next_alloc() == 0,
    {
        let ir_buffer: Vec<CompilispIr> = Vec::new();
        let mut symbol_scopes: Vec<Vec<(String, Alloc)>> = Vec::new();
        symbol_scopes.push(Vec::new());
        Self { ir_buffer, alloc_id: 0, symbol_scopes }
    }

    /// Read access to the emitted instruction stream.
    pub fn ir_buffer(&self) -> (r: &Vec<CompilispIr>)
        ensures
            r@ == self.ir(),
    {
        &self.ir_buffer
    }

    /// Hands the emitted stream over, consuming the generator at the end
    /// of a module compile.
    pub fn into_ir_buffer(self) -> (r: Vec<CompilispIr>)
        ensures
            r@ == self.ir(),
    {
        self.ir_buffer
    }

    /// Pushes a fresh, empty scope frame (`let` entry).
    fn push_let_context(&mut self)
        requires
            old(self).wf(),
        ensures
            final(self).wf(),
            final(self).ir() == old(self).ir(),
            final(self).next_alloc() == old(self).next_alloc(),
            final(self).scopes().len() == old(self).scopes().len() + 1,
            final(self).scopes().drop_last() == old(self).scopes(),
            final(self).scopes().last()@ == Seq::<(String, Alloc)>::empty(),
    {
        self.symbol_scopes.push(Vec::new());
        proof {
            let s = self.scopes();
            let o = old(self).scopes();
            assert forall|f: int, b: int|
                0 <= f < s.len() && 0 <= b < s[f]@.len() implies {
                let a = (#[trigger] s[f]@[b]).1;
                1 <= a.id && a.id as nat <= self.next_alloc() && slot_defined(self.ir(), a.id)
            } by {
                if f < o.len() {
                    assert(s[f] == o[f]);
                    assert((o[f]@[b]).1.id >= 1);
                }
            }
        }
    }

    /// Discards the innermost scope frame (`let` exit).
    fn pop_let_context(&mut self)
        requires
            old(self).wf(),
            old(self).scopes().len() >= 2,
        ensures
            final(self).wf(),
            final(self).ir() == old(self).ir(),
            final(self).next_alloc() == old(self).next_alloc(),
            final(self).scopes() == old(self).scopes().drop_last(),
    {
        let _ = self.symbol_scopes.pop();
        proof {
            let s = self.scopes();
            let o = old(self).scopes();
            assert(s =~= o.drop_last());
            assert forall|f: int, b: int|
                0 <= f < s.len() && 0 <= b < s[f]@.len() implies {
                let a = (#[trigger] s[f]@[b]).1;
                1 <= a.id && a.id as nat <= self.next_alloc() && slot_defined(self.ir(), a.id)
            } by {
                assert(s[f] == o[f]);
                assert((o[f]@[b]).1.id >= 1);
            }
        }
    }

    /// Inserts `bind_name -> bind_value` into the innermost scope frame,
    /// shadowing any earlier binding of the same name.
    fn push_let_binding(&mut self, bind_name: &String, bind_value: Alloc)
        requires
            old(self).wf(),
            1 <= bind_value.id,
            bind_value.id as nat <= old(self).next_alloc(),
            slot_defined(old(self).ir(), bind_value.id),
        ensures
            final(self).wf(),
            final(self).ir() == old(self).ir(),
            final(self).next_alloc() == old(self).next_alloc(),
            final(self).scopes().len() == old(self).scopes().len(),
            final(self).scopes() == old(self).scopes().update(
                old(self).scopes().len() - 1,
                final(self).scopes().last(),
            ),
            final(self).scopes().last()@.len() == old(self).scopes().last()@.len() + 1,
            final(self).scopes().last()@.drop_last() == old(self).scopes().last()@,
            final(self).scopes().last()@.last().0@ == bind_name@,
            final(self).scopes().last()@.last().1 == bind_value,
            frame_lookup(final(self).scopes().last()@, bind_name@) == Some(bind_value),
    {
        let mut frame = self.symbol_scopes.pop().unwrap();
        frame.push((bind_name.clone(), bind_value));
        self.symbol_scopes.push(frame);
        proof {
            let s = self.scopes();
            let o = old(self).scopes();
            assert(s =~= o.update(o.len() - 1, s.last()));
            let fr = s.last()@;
            assert(fr.drop_last() =~= o.last()@);
            assert(fr.last().0@ == bind_name@);
            assert forall|f: int, b: int|
                0 <= f < s.len() && 0 <= b < s[f]@.len() implies {
                let a = (#[trigger] s[f]@[b]).1;
                1 <= a.id && a.id as nat <= self.next_alloc() && slot_defined(self.ir(), a.id)
            } by {
                if f < s.len() - 1 {
                    assert(s[f] == o[f]);
                    assert((o[f]@[b]).1.id >= 1);
                } else {
                    if b < fr.len() - 1 {
                        assert(fr[b] == o[f]@[b]);
                        assert((o[f]@[b]).1.id >= 1);
                    } else {
                        assert(fr[b].1 == bind_value);
                    }
                }
            }
        }
    }

    /// Lowers one top-level expression into the instruction stream,
    /// returning the slot that holds its value, or the first compile
    /// diagnostic encountered. On success the stream satisfies the two
    /// stream invariants: every call's return slot is declared and its
    /// argument slots defined earlier in program order (`calls_resolved`),
    /// and slot identifiers are strictly increasing, never reused
    /// (`defs_strictly_increasing`).
    pub fn process(&mut self, root: &Expr) -> (r: CompilispResult<Alloc>)
        requires
            old(self).wf(),
            old(self).next_alloc() + alloc_bound(*root) <= usize::MAX,
        ensures
            final(self).wf(),
            final(self).scopes() == old(self).scopes(),
            old(self).ir().is_prefix_of(final(self).ir()),
            r is Ok ==> cond_depth(final(self).ir()) == cond_depth(old(self).ir()),
            old(self).next_alloc() <= final(self).next_alloc(),
            final(self).next_alloc() <= old(self).next_alloc() + alloc_bound(*root),
            calls_resolved(final(self).ir()),
            defs_strictly_increasing(final(self).ir()),
            defs_bounded(final(self).ir(), final(self).next_alloc()),
            r matches Ok(a) ==> 1 <= a.id && a.id as nat <= final(self).next_alloc()
                && slot_defined(final(self).ir(), a.id),
            (r is Ok) == (lower_status(*root, bound_names(old(self).scopes())) is Accepted),
            r matches Err(e) ==> err_matches_status(
                e,
                lower_status(*root, bound_names(old(self).scopes())),
            ),
            r matches Ok(a) ==> ({
                let lw = lower_fn(*root, abs_scopes(old(self).scopes()), old(self).next_alloc());
                &&& shapes_of(final(self).ir().skip(old(self).ir().len() as int)) == lw.emitted
                &&& a == lw.res
                &&& final(self).next_alloc() == lw.next
            }),
    {
        self.process_expr(root)
    }

    /// Recursively lowers one expression, returning the slot (with its
    /// kind) that holds the expression's value.
    #[verifier::loop_isolation(false)]
    fn process_expr(&mut self, expr: &Expr) -> (r: CompilispResult<Alloc>)
        requires
            old(self).wf(),
            old(self).next_alloc() + alloc_bound(*expr) <= usize::MAX,
        ensures
            process_post(*old(self), *final(self), *expr, r),
        decreases *expr,
    {
        match expr {
            Expr::Number(value) => {
                proof {
                    lemma_defs_bounded_mono(
                        self.ir(),
                        self.next_alloc(),
                        self.next_alloc() + 1,
                    );
                    lemma_prefix_refl(self.ir());
                    lemma_scope_stack_wf_extends(
                        self.scopes(),
                        self.ir(),
                        self.ir(),
                        self.next_alloc(),
                        self.next_alloc() + 1,
                    );
                }
                self.alloc_id = self.alloc_id + 1;
                let id = self.alloc_id;
                self.emit(CompilispIr::ConstInt { alloc_id: id, value: *value });
                proof {
                    let region = self.ir().skip(old(self).ir().len() as int);
                    assert(region =~= seq![
                        CompilispIr::ConstInt { alloc_id: id, value: *value },
                    ]);
                    assert(shapes_of(region) =~= seq![
                        IrShape::ConstInt { alloc_id: id, value: *value },
                    ]);
                }
                Ok(Alloc { id, alloc_type: AllocType::Int })
            },
            Expr::Boolean(_) => Err(CompilispError::IllFormedSyntax),
            Expr::String(value) => {
                proof {
                    lemma_defs_bounded_mono(
                        self.ir(),
                        self.next_alloc(),
                        self.next_alloc() + 1,
                    );
                    lemma_prefix_refl(self.ir());
                    lemma_scope_stack_wf_extends(
                        self.scopes(),
                        self.ir(),
                        self.ir(),
                        self.next_alloc(),
                        self.next_alloc() + 1,
                    );
                }
                self.alloc_id = self.alloc_id + 1;
                let id = self.alloc_id;
                let text = value.clone();
                let ghost gtext = text;
                self.emit(CompilispIr::GlobalString { alloc_id: id, value: text });
                proof {
                    let region = self.ir().skip(old(self).ir().len() as int);
                    assert(region =~= seq![
                        CompilispIr::GlobalString { alloc_id: id, value: gtext },
                    ]);
                    assert(shapes_of(region) =~= seq![
                        IrShape::GlobalString { alloc_id: id, value: gtext@ },
                    ]);
                }
                Ok(Alloc { id, alloc_type: AllocType::String })
            },
            Expr::Symbol(name) => {
                match self.resolve_symbol(name) {
                    Some(alloc) => {
                        proof {
                            lemma_scopes_lookup_in(self.scopes(), name@);
                            lemma_prefix_refl(self.ir());
                            assert(bound_names(old(self).scopes()).contains(name@));
                            lemma_abs_lookup(old(self).scopes(), name@);
                            let region = self.ir().skip(old(self).ir().len() as int);
                            assert(region =~= Seq::<CompilispIr>::empty());
                            assert(shapes_of(region) =~= Seq::<IrShape>::empty());
                        }
                        Ok(alloc)
                    },
                    None => {
                        proof {
                            assert(!bound_names(old(self).scopes()).contains(name@));
                            lemma_prefix_refl(self.ir());
                        }
                        Err(CompilispError::UnboundVariable(name.clone()))
                    },
                }
            },
            Expr::Procedure(name, args) => {
                if str_eq(name.as_str(), "if") {
                    self.build_if_call(args)
                } else {
                    self.build_generic_call(name, args)
                }
            },
            Expr::LetProcedure(bindings, body) => {
                let ghost ns0 = bound_names(old(self).scopes());
                let ghost ir0 = old(self).ir();
                let ghost scopes0 = old(self).scopes();
                let ghost next0 = old(self).next_alloc();
                let ghost abs0 = abs_scopes(old(self).scopes()).push(Map::empty());
                self.push_let_context();
                proof {
                    lemma_bound_names_push_empty(scopes0, self.scopes());
                    lemma_abs_push_empty(scopes0, self.scopes());
                    assert(bindings@.skip(0) =~= bindings@);
                    assert(bindings@.take(0) =~= Seq::<(String, Expr)>::empty());
                    assert(self.ir().skip(ir0.len() as int) =~= Seq::<CompilispIr>::empty());
                    assert(shapes_of(Seq::<CompilispIr>::empty()) =~= Seq::<IrShape>::empty());
                }
                let mut i: usize = 0;
                while i < bindings.len()
                    invariant
                        self.wf(),
                        self.scopes().len() == scopes0.len() + 1,
                        self.scopes().drop_last() == scopes0,
                        ir0.is_prefix_of(self.ir()),
                        cond_depth(self.ir()) == cond_depth(ir0),
                        i <= bindings@.len(),
                        next0 <= self.next_alloc(),
                        self.next_alloc() + alloc_bound_bindings(bindings@.skip(i as int))
                            <= next0 + alloc_bound_bindings(bindings@),
                        next0 + alloc_bound_bindings(bindings@) + alloc_bound(**body)
                            <= usize::MAX,
                        lower_bindings_status(bindings@, ns0) == lower_bindings_status(
                            bindings@.skip(i as int),
                            bound_names(self.scopes()),
                        ),
                        lower_bindings_names(bindings@, ns0) == lower_bindings_names(
                            bindings@.skip(i as int),
                            bound_names(self.scopes()),
                        ),
                        ns0 == bound_names(scopes0),
                        abs0 == abs_scopes(scopes0).push(Map::empty()),
                        shapes_of(self.ir().skip(ir0.len() as int)) == lower_bindings_fn(
                            bindings@.take(i as int),
                            abs0,
                            next0,
                        ).emitted,
                        abs_scopes(self.scopes()) == lower_bindings_fn(
                            bindings@.take(i as int),
                            abs0,
                            next0,
                        ).scopes,
                        self.next_alloc() == lower_bindings_fn(
                            bindings@.take(i as int),
                            abs0,
                            next0,
                        ).next,
                    decreases bindings@.len() - i,
                {
                    proof {
                        assert(bindings@.skip(i as int)[0] == bindings@[i as int]);
                        assert(bindings@.skip(i as int).drop_first() =~= bindings@.skip(
                            i as int + 1,
                        ));
                        assert(alloc_bound_bindings(bindings@.skip(i as int)) == alloc_bound(
                            bindings@[i as int].1,
                        ) + alloc_bound_bindings(bindings@.skip(i as int + 1)));
                    }
                    let ghost pre_ir = self.ir();
                    let binding = &bindings[i];
                    proof {
                        assert(decreases_to!(*expr => bindings@));
                        assert(decreases_to!(bindings@ => bindings@[i as int]));
                        assert(decreases_to!(bindings@[i as int] => bindings@[i as int].1));
                    }
                    match self.process_expr(&binding.1) {
                        Ok(alloc) => {
                            proof {
                                lemma_prefix_trans(ir0, pre_ir, self.ir());
                            }
                            let ghost mid_scopes = self.scopes();
                            self.push_let_binding(&binding.0, alloc);
                            proof {
                                assert(self.scopes().drop_last() =~= mid_scopes.drop_last());
                                lemma_bound_names_insert(
                                    mid_scopes,
                                    self.scopes(),
                                    binding.0@,
                                    alloc,
                                );
                                assert(self.scopes().drop_last() =~= scopes0);
                                lemma_abs_insert(mid_scopes, self.scopes(), binding.0@, alloc);
                                let piece = self.ir().skip(pre_ir.len() as int);
                                assert(bindings@.take(i as int + 1) =~= bindings@.take(
                                    i as int,
                                ).push(bindings@[i as int]));
                                lemma_bindings_fn_snoc(
                                    bindings@.take(i as int),
                                    bindings@[i as int],
                                    abs0,
                                    next0,
                                );
                                assert(self.ir().skip(ir0.len() as int) =~= pre_ir.skip(
                                    ir0.len() as int,
                                ) + piece);
                                lemma_shapes_add(pre_ir.skip(ir0.len() as int), piece);
                                assert(abs_frame(mid_scopes.last()@) == lower_bindings_fn(
                                    bindings@.take(i as int),
                                    abs0,
                                    next0,
                                ).scopes.last());
                            }
                        },
                        Err(e) => {
                            proof {
                                lemma_prefix_trans(ir0, pre_ir, self.ir());
                            }
                            self.pop_let_context();
                            proof {
                                assert(self.scopes() =~= scopes0);
                            }
                            return Err(e);
                        },
                    }
                    i = i + 1;
                }
                proof {
                    assert(bindings@.skip(bindings@.len() as int) =~= Seq::<
                        (String, Expr),
                    >::empty());
                }
                let ghost pre_body_ir = self.ir();
                let body_r = self.process_expr(&**body);
                proof {
                    lemma_prefix_trans(ir0, pre_body_ir, self.ir());
                }
                self.pop_let_context();
                proof {
                    assert(self.scopes() =~= scopes0);
                    if body_r is Ok {
                        assert(bindings@.take(bindings@.len() as int) =~= bindings@);
                        let piece = self.ir().skip(pre_body_ir.len() as int);
                        assert(self.ir().skip(ir0.len() as int) =~= pre_body_ir.skip(
                            ir0.len() as int,
                        ) + piece);
                        lemma_shapes_add(pre_body_ir.skip(ir0.len() as int), piece);
                        let lw = lower_fn(*expr, abs_scopes(scopes0), next0);
                        assert(shapes_of(self.ir().skip(ir0.len() as int)) =~= lw.emitted);
                    }
                }
                body_r
            },
        }
    }

    /// Lowers an `if` form: the condition's slot doubles as the shared
    /// result (merge) slot for the whole conditional, so when the condition
    /// is false and no else branch exists, the expression's value is the
    /// condition's own value, `Boolean(false)` — never stale storage.
    #[verifier::rlimit(60)]
    fn build_if_call(&mut self, args: &Vec<Expr>) -> (r: CompilispResult<Alloc>)
        requires
            old(self).wf(),
            old(self).next_alloc() + 1 + alloc_bound_args(args@) <= usize::MAX,
        ensures
            final(self).wf(),
            final(self).scopes() == old(self).scopes(),
            old(self).ir().is_prefix_of(final(self).ir()),
            r is Ok ==> cond_depth(final(self).ir()) == cond_depth(old(self).ir()),
            old(self).next_alloc() <= final(self).next_alloc(),
            final(self).next_alloc() <= old(self).next_alloc() + 1 + alloc_bound_args(args@),
            r matches Ok(a) ==> 1 <= a.id && a.id as nat <= final(self).next_alloc()
                && slot_defined(final(self).ir(), a.id),
            (r is Ok) == (lower_if_status(args@, bound_names(old(self).scopes())) is Accepted),
            r matches Err(e) ==> err_matches_status(
                e,
                lower_if_status(args@, bound_names(old(self).scopes())),
            ),
            r matches Ok(a) ==> ({
                let lw = lower_if_fn(args@, abs_scopes(old(self).scopes()), old(self).next_alloc());
                &&& shapes_of(final(self).ir().skip(old(self).ir().len() as int)) == lw.emitted
                &&& a == lw.res
                &&& final(self).next_alloc() == lw.next
            }),
        decreases args@,
    {
        let ghost ns = bound_names(old(self).scopes());
        let ghost ir0 = old(self).ir();
        let ghost ascopes = abs_scopes(old(self).scopes());
        proof {
            lemma_depth_nonneg(ir0);
        }
        if args.len() < 2 {
            proof {
                lemma_prefix_refl(self.ir());
            }
            return Err(CompilispError::IllFormedSyntax);
        }
        proof {
            let t1 = args@.drop_first();
            assert(alloc_bound_args(args@) == alloc_bound(args@[0]) + alloc_bound_args(t1));
            assert(t1[0] == args@[1]);
            assert(alloc_bound_args(t1) == alloc_bound(t1[0]) + alloc_bound_args(
                t1.drop_first(),
            ));
            if args@.len() >= 3 {
                let t2 = t1.drop_first();
                assert(t2[0] == args@[2]);
                assert(alloc_bound_args(t2) == alloc_bound(t2[0]) + alloc_bound_args(
                    t2.drop_first(),
                ));
            }
        }
        let cond = match self.process_expr(&args[0]) {
            Ok(a) => a,
            Err(e) => {
                return Err(e);
            },
        };
        let ghost ir_c = self.ir();
        self.emit(CompilispIr::IfExpressionEval { cond_alloc: cond.id });
        proof {
            lemma_prefix_trans(ir0, ir_c, self.ir());
            assert(self.ir().skip(ir0.len() as int) =~= ir_c.skip(ir0.len() as int).push(
                CompilispIr::IfExpressionEval { cond_alloc: cond.id },
            ));
            lemma_shapes_push(
                ir_c.skip(ir0.len() as int),
                CompilispIr::IfExpressionEval { cond_alloc: cond.id },
            );
        }
        let ghost ir_1 = self.ir();
        let then_alloc = match self.process_expr(&args[1]) {
            Ok(a) => a,
            Err(e) => {
                proof {
                    lemma_prefix_trans(ir0, ir_1, self.ir());
                }
                return Err(e);
            },
        };
        proof {
            lemma_prefix_trans(ir0, ir_1, self.ir());
            lemma_prefix_trans(ir_c, ir_1, self.ir());
            assert(self.ir().skip(ir0.len() as int) =~= ir_1.skip(ir0.len() as int) + self.ir().skip(
                ir_1.len() as int,
            ));
            lemma_shapes_add(ir_1.skip(ir0.len() as int), self.ir().skip(ir_1.len() as int));
        }
        let ghost ir_2 = self.ir();
        self.emit(
            CompilispIr::IfExpressionEndThen { result_alloc: then_alloc.id, cond_alloc: cond.id },
        );
        proof {
            lemma_prefix_trans(ir0, ir_2, self.ir());
            lemma_prefix_trans(ir_c, ir_2, self.ir());
            assert(self.ir().skip(ir0.len() as int) =~= ir_2.skip(ir0.len() as int).push(
                CompilispIr::IfExpressionEndThen {
                    result_alloc: then_alloc.id,
                    cond_alloc: cond.id,
                },
            ));
            lemma_shapes_push(
                ir_2.skip(ir0.len() as int),
                CompilispIr::IfExpressionEndThen {
                    result_alloc: then_alloc.id,
                    cond_alloc: cond.id,
                },
            );
        }
        if args.len() >= 3 {
            let ghost ir_3 = self.ir();
            self.emit(CompilispIr::IfExpressionElse);
            proof {
                lemma_prefix_trans(ir0, ir_3, self.ir());
                lemma_prefix_trans(ir_c, ir_3, self.ir());
                assert(self.ir().skip(ir0.len() as int) =~= ir_3.skip(ir0.len() as int).push(
                    CompilispIr::IfExpressionElse,
                ));
                lemma_shapes_push(ir_3.skip(ir0.len() as int), CompilispIr::IfExpressionElse);
            }
            let ghost ir_4 = self.ir();
            let else_alloc = match self.process_expr(&args[2]) {
                Ok(a) => a,
                Err(e) => {
                    proof {
                        lemma_prefix_trans(ir0, ir_4, self.ir());
                    }
                    return Err(e);
                },
            };
            proof {
                lemma_prefix_trans(ir0, ir_4, self.ir());
                lemma_prefix_trans(ir_c, ir_4, self.ir());
                assert(self.ir().skip(ir0.len() as int) =~= ir_4.skip(ir0.len() as int)
                    + self.ir().skip(ir_4.len() as int));
                lemma_shapes_add(ir_4.skip(ir0.len() as int), self.ir().skip(ir_4.len() as int));
            }
            let ghost ir_5 = self.ir();
            self.emit(
                CompilispIr::IfExpressionEndElse {
                    result_alloc: else_alloc.id,
                    cond_alloc: cond.id,
                },
            );
            proof {
                lemma_prefix_trans(ir0, ir_5, self.ir());
                lemma_prefix_trans(ir_c, ir_5, self.ir());
                assert(self.ir().skip(ir0.len() as int) =~= ir_5.skip(ir0.len() as int).push(
                    CompilispIr::IfExpressionEndElse {
                        result_alloc: else_alloc.id,
                        cond_alloc: cond.id,
                    },
                ));
                lemma_shapes_push(
                    ir_5.skip(ir0.len() as int),
                    CompilispIr::IfExpressionEndElse {
                        result_alloc: else_alloc.id,
                        cond_alloc: cond.id,
                    },
                );
            }
        }
        let ghost ir_6 = self.ir();
        self.emit(CompilispIr::IfExpressionEndBlock);
        proof {
            lemma_prefix_trans(ir0, ir_6, self.ir());
            lemma_prefix_trans(ir_c, ir_6, self.ir());
            lemma_defined_extends(ir_c, self.ir(), cond.id);
            assert(self.ir().skip(ir0.len() as int) =~= ir_6.skip(ir0.len() as int).push(
                CompilispIr::IfExpressionEndBlock,
            ));
            lemma_shapes_push(ir_6.skip(ir0.len() as int), CompilispIr::IfExpressionEndBlock);
            let lw = lower_if_fn(args@, ascopes, old(self).next_alloc());
            assert(shapes_of(self.ir().skip(ir0.len() as int)) =~= lw.emitted);
        }
        Ok(cond)
    }

    /// Lowers a generic procedure call (any name other than `if`): declares
    /// a fresh return slot, brackets the argument evaluation in a procedure
    /// scope, lowers the arguments left to right, and emits the call. The
    /// call's static result kind is currently always `Int`.
    #[verifier::loop_isolation(false)]
    #[verifier::rlimit(100)]
    fn build_generic_call(&mut self, name: &String, args: &Vec<Expr>) -> (r: CompilispResult<
        Alloc,
    >)
        requires
            old(self).wf(),
            old(self).next_alloc() + 1 + alloc_bound_args(args@) <= usize::MAX,
        ensures
            final(self).wf(),
            final(self).scopes() == old(self).scopes(),
            old(self).ir().is_prefix_of(final(self).ir()),
            r is Ok ==> cond_depth(final(self).ir()) == cond_depth(old(self).ir()),
            old(self).next_alloc() <= final(self).next_alloc(),
            final(self).next_alloc() <= old(self).next_alloc() + 1 + alloc_bound_args(args@),
            r matches Ok(a) ==> 1 <= a.id && a.id as nat <= final(self).next_alloc()
                && slot_defined(final(self).ir(), a.id),
            (r is Ok) == (lower_args_status(args@, bound_names(old(self).scopes())) is Accepted),
            r matches Err(e) ==> err_matches_status(
                e,
                lower_args_status(args@, bound_names(old(self).scopes())),
            ),
            r matches Ok(a) ==> ({
                let lw = lower_call_fn(name@, args@, abs_scopes(old(self).scopes()), old(self).next_alloc());
                &&& shapes_of(final(self).ir().skip(old(self).ir().len() as int)) == lw.emitted
                &&& a == lw.res
                &&& final(self).next_alloc() == lw.next
            }),
        decreases args@,
    {
        let ghost ns = bound_names(old(self).scopes());
        let ghost ir0 = old(self).ir();
        let ghost scopes0 = old(self).scopes();
        let ghost ascopes = abs_scopes(old(self).scopes());
        proof {
            lemma_defs_bounded_mono(self.ir(), self.next_alloc(), self.next_alloc() + 1);
            lemma_prefix_refl(self.ir());
            lemma_scope_stack_wf_extends(
                self.scopes(),
                self.ir(),
                self.ir(),
                self.next_alloc(),
                self.next_alloc() + 1,
            );
        }
        self.alloc_id = self.alloc_id + 1;
        let return_alloc_id = self.alloc_id;
        let ghost next_entry = self.next_alloc();
        self.emit(CompilispIr::ProcedureReturnValue(return_alloc_id));
        proof {
            lemma_prefix_trans(ir0, ir0, self.ir());
        }
        let ghost ir_d = self.ir();
        self.emit(CompilispIr::ProcedureScopeStart);
        proof {
            lemma_prefix_trans(ir0, ir_d, self.ir());
            lemma_declared_extends(ir_d, self.ir(), return_alloc_id);
            assert(args@.skip(0) =~= args@);
            assert(args@.take(0) =~= Seq::<Expr>::empty());
            assert(lower_args_fn(args@.take(0), ascopes, next_entry).emitted
                == Seq::<IrShape>::empty());
            assert(self.ir().skip(ir0.len() as int) =~= seq![
                CompilispIr::ProcedureReturnValue(return_alloc_id),
                CompilispIr::ProcedureScopeStart,
            ]);
            assert(shapes_of(self.ir().skip(ir0.len() as int)) =~= seq![
                IrShape::ProcedureReturnValue(return_alloc_id),
                IrShape::ProcedureScopeStart,
            ] + lower_args_fn(args@.take(0), ascopes, next_entry).emitted);
        }
        let mut call_args: Vec<Alloc> = Vec::new();
        let mut i: usize = 0;
        while i < args.len()
            invariant
                self.wf(),
                self.scopes() == scopes0,
                ir0.is_prefix_of(self.ir()),
                cond_depth(self.ir()) == cond_depth(ir0),
                i <= args@.len(),
                next_entry <= self.next_alloc(),
                1 <= return_alloc_id,
                return_alloc_id as nat <= self.next_alloc(),
                self.next_alloc() + alloc_bound_args(args@.skip(i as int)) <= next_entry
                    + alloc_bound_args(args@),
                next_entry + alloc_bound_args(args@) <= usize::MAX,
                return_declared_before(self.ir(), self.ir().len() as int, return_alloc_id),
                call_args@.len() == i,
                forall|a: int|
                    0 <= a < call_args@.len() ==> 1 <= (#[trigger] call_args@[a]).id
                        && call_args@[a].id as nat <= self.next_alloc() && slot_defined(
                        self.ir(),
                        call_args@[a].id,
                    ),
                lower_args_status(args@, ns) == lower_args_status(args@.skip(i as int), ns),
                ns == bound_names(scopes0),
                ascopes == abs_scopes(scopes0),
                shapes_of(self.ir().skip(ir0.len() as int)) == seq![
                    IrShape::ProcedureReturnValue(return_alloc_id),
                    IrShape::ProcedureScopeStart,
                ] + lower_args_fn(args@.take(i as int), ascopes, next_entry).emitted,
                call_args@ == lower_args_fn(args@.take(i as int), ascopes, next_entry).slots,
                self.next_alloc() == lower_args_fn(args@.take(i as int), ascopes, next_entry).next,
            decreases args@.len() - i,
        {
            proof {
                assert(args@.skip(i as int)[0] == args@[i as int]);
                assert(args@.skip(i as int).drop_first() =~= args@.skip(i as int + 1));
                assert(alloc_bound_args(args@.skip(i as int)) == alloc_bound(args@[i as int])
                    + alloc_bound_args(args@.skip(i as int + 1)));
            }
            let ghost pre_ir = self.ir();
            match self.process_expr(&args[i]) {
                Ok(a) => {
                    call_args.push(a);
                    proof {
                        lemma_prefix_trans(ir0, pre_ir, self.ir());
                        lemma_declared_extends(pre_ir, self.ir(), return_alloc_id);
                        let piece = self.ir().skip(pre_ir.len() as int);
                        assert(args@.take(i as int + 1) =~= args@.take(i as int).push(
                            args@[i as int],
                        ));
                        lemma_args_fn_snoc(args@.take(i as int), args@[i as int], ascopes, next_entry);
                        assert(self.ir().skip(ir0.len() as int) =~= pre_ir.skip(ir0.len() as int)
                            + piece);
                        lemma_shapes_add(pre_ir.skip(ir0.len() as int), piece);
                        assert forall|a2: int|
                            0 <= a2 < call_args@.len() implies 1 <= (
                        #[trigger] call_args@[a2]).id && call_args@[a2].id as nat
                            <= self.next_alloc() && slot_defined(self.ir(), call_args@[a2].id) by {
                            if a2 < call_args@.len() - 1 {
                                lemma_defined_extends(pre_ir, self.ir(), call_args@[a2].id);
                            }
                        }
                    }
                },
                Err(e) => {
                    proof {
                        lemma_prefix_trans(ir0, pre_ir, self.ir());
                    }
                    return Err(e);
                },
            }
            i = i + 1;
        }
        proof {
            assert(args@.skip(args@.len() as int) =~= Seq::<Expr>::empty());
        }
        let ghost pre_call = self.ir();
        let ghost cargs = call_args@;
        let call_inst = CompilispIr::CallProcedure {
            name: name.clone(),
            return_id: return_alloc_id,
            args: call_args,
        };
        let ghost gcall = call_inst;
        self.emit(call_inst);
        proof {
            lemma_prefix_trans(ir0, pre_call, self.ir());
        }
        let ghost pre_end = self.ir();
        self.emit(CompilispIr::ProcedureScopeEnd);
        proof {
            lemma_prefix_trans(ir0, pre_end, self.ir());
            let j = choose|j: int|
                0 <= j < pre_call.len() && pre_call[j] == CompilispIr::ProcedureReturnValue(
                    return_alloc_id,
                );
            assert(ir_def_id(self.ir()[j]) == Some(return_alloc_id));
            assert(slot_defined(self.ir(), return_alloc_id));
            assert(args@.take(args@.len() as int) =~= args@);
            let a = lower_args_fn(args@, ascopes, next_entry);
            assert(self.ir().skip(ir0.len() as int) =~= pre_call.skip(ir0.len() as int).push(
                gcall,
            ).push(CompilispIr::ProcedureScopeEnd));
            lemma_shapes_push(pre_call.skip(ir0.len() as int), gcall);
            lemma_shapes_push(
                pre_call.skip(ir0.len() as int).push(gcall),
                CompilispIr::ProcedureScopeEnd,
            );
            assert(ir_shape(gcall) == IrShape::CallProcedure {
                name: name@,
                return_id: return_alloc_id,
                args: cargs,
            });
            let lw = lower_call_fn(name@, args@, ascopes, old(self).next_alloc());
            assert(shapes_of(self.ir().skip(ir0.len() as int)) =~= lw.emitted);
        }
        Ok(Alloc { id: return_alloc_id, alloc_type: AllocType::Int })
    }

    /// Appends one instruction to the stream, preserving the stream
    /// invariants. A defining instruction must define exactly the slot the
    /// counter last handed out, with all earlier definitions strictly
    /// below it; a call must reference only already-available slots.
    fn emit(&mut self, inst: CompilispIr)
        requires
            old(self).wf(),
            ir_def_id(inst) matches Some(id) ==> 1 <= id && id as nat == old(self).next_alloc()
                && defs_bounded(old(self).ir(), (id - 1) as nat),
            inst matches CompilispIr::CallProcedure { return_id, args, .. }
                ==> return_declared_before(old(self).ir(), old(self).ir().len() as int, return_id)
                && forall|a: int|
                0 <= a < args@.len() ==> slot_defined(old(self).ir(), (#[trigger] args@[a]).id),
            inst matches CompilispIr::IfExpressionEval { cond_alloc } ==> slot_defined(
                old(self).ir(),
                cond_alloc,
            ),
            inst matches CompilispIr::IfExpressionEndThen { result_alloc, cond_alloc }
                ==> slot_defined(old(self).ir(), result_alloc) && slot_defined(
                old(self).ir(),
                cond_alloc,
            ),
            inst matches CompilispIr::IfExpressionEndElse { result_alloc, cond_alloc }
                ==> slot_defined(old(self).ir(), result_alloc) && slot_defined(
                old(self).ir(),
                cond_alloc,
            ),
            is_bracket_use(inst) ==> cond_depth(old(self).ir()) >= 1,
        ensures
            final(self).wf(),
            cond_depth(final(self).ir()) == cond_depth(old(self).ir()) + cond_delta(inst),
            final(self).scopes() == old(self).scopes(),
            final(self).next_alloc() == old(self).next_alloc(),
            final(self).ir() == old(self).ir().push(inst),
            old(self).ir().is_prefix_of(final(self).ir()),
            ir_def_id(inst) matches Some(id) ==> slot_defined(final(self).ir(), id),
            inst matches CompilispIr::ProcedureReturnValue(id) ==> return_declared_before(
                final(self).ir(),
                final(self).ir().len() as int,
                id,
            ),
    {
        let ghost pre = self.ir();
        let ghost ginst = inst;
        self.ir_buffer.push(inst);
        proof {
            assert(self.ir() == pre.push(ginst));
            lemma_push_prefix(pre, ginst);
            lemma_push_brackets(pre, ginst);
            match ir_def_id(ginst) {
                Some(id) => {
                    lemma_push_preserves(pre, ginst, (id - 1) as nat, id as nat);
                },
                None => {
                    lemma_push_preserves(pre, ginst, self.next_alloc(), self.next_alloc());
                },
            }
            lemma_scope_stack_wf_extends(
                self.scopes(),
                pre,
                self.ir(),
                self.next_alloc(),
                self.next_alloc(),
            );
            match ginst {
                CompilispIr::ProcedureReturnValue(id) => {
                    assert(self.ir()[pre.len() as int] == CompilispIr::ProcedureReturnValue(id));
                },
                _ => {},
            }
        }
    }

    /// Resolves a symbol against the scope stack, innermost frame first;
    /// within a frame the binding pushed last wins.
    fn resolve_symbol(&self, symbol_name: &String) -> (r: Option<Alloc>)
        ensures
            r == scopes_lookup(self.scopes(), symbol_name@),
    {
        let ghost all = self.scopes();
        let mut f = self.symbol_scopes.len();
        proof {
            assert(all.subrange(0, all.len() as int) =~= all);
        }
        while f > 0
            invariant
                f <= all.len(),
                all == self.scopes(),
                scopes_lookup(all, symbol_name@) == scopes_lookup(
                    all.subrange(0, f as int),
                    symbol_name@,
                ),
            decreases f,
        {
            f = f - 1;
            let frame = &self.symbol_scopes[f];
            let ghost fseq = frame@;
            let mut b = frame.len();
            proof {
                assert(fseq.subrange(0, fseq.len() as int) =~= fseq);
            }
            while b > 0
                invariant
                    b <= fseq.len(),
                    fseq == frame@,
                    frame == &self.symbol_scopes[f as int],
                    f < all.len(),
                    all == self.scopes(),
                    scopes_lookup(all, symbol_name@) == scopes_lookup(
                        all.subrange(0, f as int + 1),
                        symbol_name@,
                    ),
                    frame_lookup(fseq, symbol_name@) == frame_lookup(
                        fseq.subrange(0, b as int),
                        symbol_name@,
                    ),
                decreases b,
            {
                b = b - 1;
                if str_eq(frame[b].0.as_str(), symbol_name.as_str()) {
                    proof {
                        let sub = fseq.subrange(0, b as int + 1);
                        assert(sub.last() == fseq[b as int]);
                        assert(frame_lookup(sub, symbol_name@) == Some(fseq[b as int].1));
                        assert(frame_lookup(fseq, symbol_name@) == Some(fseq[b as int].1));
                        let ssub = all.subrange(0, f as int + 1);
                        assert(ssub.last() == all[f as int]);
                        assert(all[f as int]@ == fseq);
                        assert(scopes_lookup(ssub, symbol_name@) == Some(fseq[b as int].1));
                        assert(scopes_lookup(all, symbol_name@) == Some(fseq[b as int].1));
                    }
                    return Some(frame[b].1);
                }
                proof {
                    let sub = fseq.subrange(0, b as int + 1);
                    assert(sub.last() == fseq[b as int]);
                    assert(sub.drop_last() =~= fseq.subrange(0, b as int));
                }
            }
            proof {
                assert(fseq.subrange(0, 0) =~= Seq::<(String, Alloc)>::empty());
                assert(frame_lookup(fseq, symbol_name@) is None);
                let sub = all.subrange(0, f as int + 1);
                assert(sub.last() == all[f as int]);
                assert(all[f as int]@ == fseq);
                assert(frame_lookup(sub.last()@, symbol_name@) is None);
                assert(sub.drop_last() =~= all.subrange(0, f as int));
            }
        }
        proof {
            assert(all.subrange(0, 0) =~= Seq::<Vec<(String, Alloc)>>::empty());
        }
        None
    }
}


/// A generator whose only scope frame is empty has no visible names.
pub proof fn lemma_initial_names_empty(g: &CompilispIrGenerator)
    requires
        g.scopes().len() == 1,
        g.scopes()[0]@.len() == 0,
    ensures
        bound_names(g.scopes()) == Set::<Seq<char>>::empty(),
{
    assert forall|n: Seq<char>| !(#[trigger] bound_names(g.scopes()).contains(n)) by {
        assert(g.scopes().last()@ =~= Seq::<(String, Alloc)>::empty());
        assert(frame_lookup(Seq::<(String, Alloc)>::empty(), n) is None);
        assert(g.scopes().drop_last() =~= Seq::<Vec<(String, Alloc)>>::empty());
        assert(scopes_lookup(Seq::<Vec<(String, Alloc)>>::empty(), n) is None);
        assert(scopes_lookup(g.scopes(), n) is None);
    }
    assert(bound_names(g.scopes()) =~= Set::<Seq<char>>::empty());
}

} // verus!
