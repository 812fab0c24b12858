//! The runtime support library: executed inside the compiled binary, it
//! supplies the scope stack, the argument-passing convention, the builtin
//! procedure table (`+`, `<`, `display`, `begin`) and the value types that
//! cross the ABI boundary.
//!
//! `display` output is buffered in the runtime instance and flushed by the
//! embedder when the instance is destroyed.

use vstd::prelude::*;

use crate::text::{bool_text, decimal_of_i32, render_bool, render_i32, str_eq};
use vstd::string::StringExecFns;

verus! {

broadcast use vstd::string::group_string_axioms;

/// Discriminant tags of the ABI tagged value record.
#[derive(Clone, Copy, Debug, PartialEq, Eq, Structural)]
pub enum CompilispType {
    Number,
    Boolean,
    String,
    Symbol,
}

/// The numeric discriminant each tag occupies in the ABI: Number is 0,
/// Boolean is 1, String is 2, Symbol is 3.
pub open spec fn spec_discriminant(t: CompilispType) -> int {
    match t {
        CompilispType::Number => 0,
        CompilispType::Boolean => 1,
        CompilispType::String => 2,
        CompilispType::Symbol => 3,
    }
}

impl CompilispType {
    /// The numeric discriminant written into the tagged record.
    pub fn discriminant(self) -> (r: u8)
        ensures
            r as int == spec_discriminant(self),
    {
        match self {
            CompilispType::Number => 0,
            CompilispType::Boolean => 1,
            CompilispType::String => 2,
            CompilispType::Symbol => 3,
        }
    }
}

/// A runtime error, returned across the ABI as a non-zero status.
#[derive(Clone, Debug)]
pub enum CompilispError {
    /// A call name resolved to neither a builtin nor a known procedure.
    UnboundVariable(String),
    /// A builtin received an operand whose tag does not match what the
    /// operation requires.
    ArgTypeMismatch,
}

pub type CompilispResult<T> = Result<T, CompilispError>;

/// The owned value sum type used inside the runtime; converted to and from
/// the tagged ABI record only at the boundary.
#[derive(Clone, Debug)]
pub enum CompilispValue {
    Number(i32),
    Boolean(bool),
    String(String),
    Symbol(String),
}

impl CompilispValue {
    /// An explicit copy whose result provably equals the original.
    pub fn duplicate(&self) -> (r: CompilispValue)
        ensures
            r == *self,
    {
        match self {
            CompilispValue::Number(n) => CompilispValue::Number(*n),
            CompilispValue::Boolean(b) => CompilispValue::Boolean(*b),
            CompilispValue::String(s) => CompilispValue::String(s.clone()),
            CompilispValue::Symbol(s) => CompilispValue::Symbol(s.clone()),
        }
    }
}

/// The tagged value record crossing the ABI boundary: a discriminant plus
/// a payload whose interpretation is determined solely by the
/// discriminant. The payload union is modeled as one field per
/// interpretation; only the field selected by `type_` is meaningful.
#[derive(Clone, Debug)]
pub struct CompilispObject {
    pub type_: CompilispType,
    pub int_value: i32,
    pub bool_value: bool,
    pub str_value: String,
}

/// Reading a tagged record through its discriminant: numbers, booleans and
/// strings convert to the owned sum type; a symbol tag has no owned
/// counterpart at this boundary and is rejected.
pub open spec fn obj_as_value(obj: CompilispObject) -> Result<CompilispValue, ()> {
    match obj.type_ {
        CompilispType::Number => Ok(CompilispValue::Number(obj.int_value)),
        CompilispType::Boolean => Ok(CompilispValue::Boolean(obj.bool_value)),
        CompilispType::String => Ok(CompilispValue::String(obj.str_value)),
        CompilispType::Symbol => Err(()),
    }
}

impl CompilispValue {
    /// Converts a tagged record into an owned value, reading the payload
    /// only through the discriminant it was written with.
    pub fn try_from(obj: &CompilispObject) -> (r: Result<CompilispValue, ()>)
        ensures
            r == obj_as_value(*obj),
    {
        match obj.type_ {
            CompilispType::Number => Ok(CompilispValue::Number(obj.int_value)),
            CompilispType::Boolean => Ok(CompilispValue::Boolean(obj.bool_value)),
            CompilispType::String => Ok(CompilispValue::String(obj.str_value.clone())),
            CompilispType::Symbol => Err(()),
        }
    }
}

impl CompilispObject {
    /// Converts an owned number or boolean into the tagged record. The
    /// current call convention returns only these two kinds across the
    /// ABI, so the other kinds are excluded by precondition.
    pub fn from(value: &CompilispValue) -> (r: CompilispObject)
        requires
            (*value) matches CompilispValue::Number(_) || (*value) matches CompilispValue::Boolean(
                _,
            ),
        ensures
            obj_as_value(r) == Ok::<CompilispValue, ()>(*value),
    {
        match value {
            CompilispValue::Number(n) => CompilispObject {
                type_: CompilispType::Number,
                int_value: *n,
                bool_value: false,
                str_value: String::new(),
            },
            CompilispValue::Boolean(b) => CompilispObject {
                type_: CompilispType::Boolean,
                int_value: 0,
                bool_value: *b,
                str_value: String::new(),
            },
            _ => CompilispObject {
                type_: CompilispType::Symbol,
                int_value: 0,
                bool_value: false,
                str_value: String::new(),
            },
        }
    }
}

/// Every argument carries the Number tag.
pub open spec fn all_numbers(args: Seq<CompilispValue>) -> bool {
    forall|i: int| 0 <= i < args.len() ==> (#[trigger] args[i]) is Number
}

/// The sum of a sequence of numbers, left to right, with two's-complement
/// wraparound on each addition; non-number elements are skipped (the
/// builtin rejects such sequences before this value matters).
pub open spec fn sum_wrapped(args: Seq<CompilispValue>) -> i32
    decreases args,
{
    if args.len() == 0 {
        0i32
    } else {
        match args.last() {
            CompilispValue::Number(n) => vstd::wrapping::i32_specs::wrapping_add(
                sum_wrapped(args.drop_last()),
                n,
            ),
            _ => sum_wrapped(args.drop_last()),
        }
    }
}

/// What `+` returns: the wrapped sum of its operands when all carry the
/// Number tag, and an argument-type mismatch otherwise.
pub open spec fn sum_result(args: Seq<CompilispValue>) -> Result<CompilispValue, CompilispError> {
    if all_numbers(args) {
        Ok(CompilispValue::Number(sum_wrapped(args)))
    } else {
        Err(CompilispError::ArgTypeMismatch)
    }
}

/// Adjacent operands are strictly increasing throughout (all operands
/// carry the Number tag).
pub open spec fn numbers_increasing(args: Seq<CompilispValue>) -> bool {
    forall|i: int|
        0 <= i && i + 1 < args.len() ==> (#[trigger] args[i])->Number_0 < args[i + 1]->Number_0
}

/// What `<` returns: any operand that does not carry the Number tag is an
/// argument-type mismatch, whatever the arity; over Number operands the
/// result is the pairwise, left-to-right strictly-increasing check —
/// `Boolean(true)` when the whole sequence is increasing, `Boolean(false)`
/// otherwise.
pub open spec fn le_result(args: Seq<CompilispValue>) -> Result<CompilispValue, CompilispError> {
    if !all_numbers(args) {
        Err(CompilispError::ArgTypeMismatch)
    } else if numbers_increasing(args) {
        Ok(CompilispValue::Boolean(true))
    } else {
        Ok(CompilispValue::Boolean(false))
    }
}

/// The textual form of one value, as `display` prints it.
pub open spec fn value_text(v: CompilispValue) -> Seq<char> {
    match v {
        CompilispValue::Number(n) => decimal_of_i32(n),
        CompilispValue::Boolean(b) => bool_text(b),
        CompilispValue::String(s) => s@,
        CompilispValue::Symbol(s) => s@,
    }
}

/// The concatenated textual forms of a sequence of values.
pub open spec fn display_text(args: Seq<CompilispValue>) -> Seq<char>
    decreases args,
{
    if args.len() == 0 {
        Seq::empty()
    } else {
        display_text(args.drop_last()) + value_text(args.last())
    }
}

/// The fixed, closed set of builtin procedure names dispatched through the
/// runtime rather than compiled to a native symbol.
pub open spec fn is_builtin_name(name: Seq<char>) -> bool {
    ||| name == "+"@
    ||| name == "<"@
    ||| name == "display"@
    ||| name == "begin"@
}

/// What one procedure call does, relating the call's name and arguments to
/// its result and to the display output before and after the call.
pub open spec fn call_post(
    name: Seq<char>,
    args: Seq<CompilispValue>,
    old_out: Seq<char>,
    new_out: Seq<char>,
    r: Result<CompilispValue, CompilispError>,
) -> bool {
    &&& (name == "+"@ ==> r == sum_result(args) && new_out == old_out)
    &&& (name == "<"@ ==> r == le_result(args) && new_out == old_out)
    &&& (name == "display"@ ==> r == Ok::<CompilispValue, CompilispError>(
        CompilispValue::Number(0),
    ) && new_out == old_out + display_text(args))
    &&& (name == "begin"@ ==> new_out == old_out && (if args.len() == 0 {
        r == Err::<CompilispValue, CompilispError>(CompilispError::ArgTypeMismatch)
    } else {
        r matches Ok(v) && v == args.last()
    }))
    &&& (!is_builtin_name(name) ==> new_out == old_out && (r matches Err(
        CompilispError::UnboundVariable(n),
    ) && n@ == name))
}

/// Sums Number operands with two's-complement wraparound, rejecting any
/// operand that is not a Number.
pub fn compilisp_sum(args: &Vec<CompilispValue>) -> (r: CompilispResult<CompilispValue>)
    ensures
        r == sum_result(args@),
{
    let mut result: i32 = 0;
    let mut i: usize = 0;
    proof {
        assert(args@.take(0) =~= Seq::<CompilispValue>::empty());
    }
    while i < args.len()
        invariant
            i <= args@.len(),
            result == sum_wrapped(args@.take(i as int)),
            forall|j: int| 0 <= j < i ==> (#[trigger] args@[j]) is Number,
        decreases args@.len() - i,
    {
        match &args[i] {
            CompilispValue::Number(value) => {
                result = result.wrapping_add(*value);
                proof {
                    assert(args@.take(i as int + 1).drop_last() =~= args@.take(i as int));
                    assert(args@.take(i as int + 1).last() == args@[i as int]);
                }
            },
            _ => {
                proof {
                    assert(!all_numbers(args@));
                }
                return Err(CompilispError::ArgTypeMismatch);
            },
        }
        i = i + 1;
    }
    proof {
        assert(args@.take(args@.len() as int) =~= args@);
    }
    Ok(CompilispValue::Number(result))
}

/// Rejects any operand that is not a Number, then checks that the
/// operands are strictly increasing left to right.
pub fn compilisp_le(args: &Vec<CompilispValue>) -> (r: CompilispResult<CompilispValue>)
    ensures
        r == le_result(args@),
{
    let mut i: usize = 0;
    while i < args.len()
        invariant
            i <= args@.len(),
            forall|j: int| 0 <= j < i ==> (#[trigger] args@[j]) is Number,
        decreases args@.len() - i,
    {
        match &args[i] {
            CompilispValue::Number(_) => {},
            _ => {
                proof {
                    assert(!all_numbers(args@));
                }
                return Err(CompilispError::ArgTypeMismatch);
            },
        }
        i = i + 1;
    }
    if args.len() < 2 {
        return Ok(CompilispValue::Boolean(true));
    }
    let mut k: usize = 0;
    while k < args.len() - 1
        invariant
            args@.len() >= 2,
            k <= args@.len() - 1,
            all_numbers(args@),
            forall|j: int|
                0 <= j < k ==> (#[trigger] args@[j])->Number_0 < args@[j + 1]->Number_0,
        decreases args@.len() - k,
    {
        match (&args[k], &args[k + 1]) {
            (CompilispValue::Number(lhs), CompilispValue::Number(rhs)) => {
                if *lhs >= *rhs {
                    proof {
                        assert(!numbers_increasing(args@));
                    }
                    return Ok(CompilispValue::Boolean(false));
                }
            },
            _ => {
                proof {
                    assert(false);
                }
                return Err(CompilispError::ArgTypeMismatch);
            },
        }
        k = k + 1;
    }
    proof {
        assert(numbers_increasing(args@));
    }
    Ok(CompilispValue::Boolean(true))
}

/// The runtime instance owned by one compiled program's execution: the
/// scope stack, the argument stack, and the buffered display output.
pub struct CompilispRuntime {
    scopes: Vec<Vec<(String, CompilispValue)>>,
    arg_stack: Vec<CompilispValue>,
    output: String,
}

impl CompilispRuntime {
    /// The scope stack, outermost frame first.
    pub closed spec fn scopes(&self) -> Seq<Vec<(String, CompilispValue)>> {
        self.scopes@
    }

    /// The argument stack, in the order pushed.
    pub closed spec fn arg_values(&self) -> Seq<CompilispValue> {
        self.arg_stack@
    }

    /// The display output buffered so far.
    pub closed spec fn output(&self) -> Seq<char> {
        self.output@
    }

    /// A fresh runtime instance: no scope frames, no pending arguments, no
    /// buffered output.
    pub fn new() -> (r: Self)
        ensures
            r.scopes().len() == 0,
            r.arg_values().len() == 0,
            r.output().len() == 0,
    {
        CompilispRuntime { scopes: Vec::new(), arg_stack: Vec::new(), output: String::new() }
    }

    /// Read access to the buffered display output.
    pub fn output_buffer(&self) -> (r: &String)
        ensures
            r@ == self.output(),
    {
        &self.output
    }

    /// Hands the buffered display output to the embedder (which prints it)
    /// and clears the buffer; called when the instance is destroyed.
    pub fn take_output(&mut self) -> (r: String)
        ensures
            r@ == old(self).output(),
            final(self).output().len() == 0,
            final(self).scopes() == old(self).scopes(),
            final(self).arg_values() == old(self).arg_values(),
    {
        let mut out = String::new();
        core::mem::swap(&mut out, &mut self.output);
        out
    }

    /// Creates a new innermost binding frame (`let` entry).
    pub fn push_let_context(&mut self)
        ensures
            final(self).scopes().len() == old(self).scopes().len() + 1,
            final(self).scopes().drop_last() == old(self).scopes(),
            final(self).scopes().last()@.len() == 0,
            final(self).arg_values() == old(self).arg_values(),
            final(self).output() == old(self).output(),
    {
        self.scopes.push(Vec::new());
    }

    /// Inserts `name -> value` into the innermost frame.
    pub fn push_let_binding(&mut self, name: &String, value: CompilispValue)
        requires
            old(self).scopes().len() >= 1,
        ensures
            final(self).scopes().len() == old(self).scopes().len(),
            final(self).scopes().drop_last() == old(self).scopes().drop_last(),
            final(self).scopes().last()@.len() == old(self).scopes().last()@.len() + 1,
            final(self).scopes().last()@.drop_last() == old(self).scopes().last()@,
            final(self).scopes().last()@.last().0@ == name@,
            final(self).scopes().last()@.last().1 == value,
            final(self).arg_values() == old(self).arg_values(),
            final(self).output() == old(self).output(),
    {
        let mut frame = self.scopes.pop().unwrap();
        frame.push((name.clone(), value));
        self.scopes.push(frame);
        proof {
            assert(final(self).scopes().drop_last() =~= old(self).scopes().drop_last());
        }
    }

    /// Discards the innermost binding frame (`let` exit). No cross-frame
    /// state survives it.
    pub fn pop_let_context(&mut self)
        requires
            old(self).scopes().len() >= 1,
        ensures
            final(self).scopes() == old(self).scopes().drop_last(),
            final(self).arg_values() == old(self).arg_values(),
            final(self).output() == old(self).output(),
    {
        let _ = self.scopes.pop();
    }

    /// Appends one converted value to the argument stack.
    pub fn procedure_push_arg(&mut self, value: CompilispValue)
        ensures
            final(self).arg_values() == old(self).arg_values().push(value),
            final(self).scopes() == old(self).scopes(),
            final(self).output() == old(self).output(),
    {
        self.arg_stack.push(value);
    }

    /// Dispatches one procedure call over the fixed builtin table; an
    /// unknown name is an unbound-variable error. `display` appends each
    /// argument's textual form to the buffered output and returns
    /// `Number(0)`; `begin` returns its last (already evaluated) argument.
    #[verifier::loop_isolation(false)]
    pub fn procedure_call(&mut self, procedure_name: &str, args: &Vec<CompilispValue>) -> (r:
        CompilispResult<CompilispValue>)
        ensures
            final(self).scopes() == old(self).scopes(),
            final(self).arg_values() == old(self).arg_values(),
            call_post(procedure_name@, args@, old(self).output(), final(self).output(), r),
    {
        proof {
            reveal_strlit("+");
            reveal_strlit("<");
            reveal_strlit("display");
            reveal_strlit("begin");
            assert("+"@[0] == '+' && "<"@[0] == '<' && "display"@[0] == 'd' && "begin"@[0]
                == 'b');
            assert("+"@ != "<"@ && "+"@ != "display"@ && "+"@ != "begin"@);
            assert("<"@ != "display"@ && "<"@ != "begin"@);
            assert("display"@ != "begin"@);
        }
        if str_eq(procedure_name, "+") {
            compilisp_sum(args)
        } else if str_eq(procedure_name, "<") {
            compilisp_le(args)
        } else if str_eq(procedure_name, "display") {
            let ghost out0 = self.output();
            let mut i: usize = 0;
            proof {
                assert(args@.take(0) =~= Seq::<CompilispValue>::empty());
                assert(self.output() =~= out0 + display_text(args@.take(0)));
            }
            while i < args.len()
                invariant
                    i <= args@.len(),
                    self.output() == out0 + display_text(args@.take(i as int)),
                    self.scopes() == old(self).scopes(),
                    self.arg_values() == old(self).arg_values(),
                decreases args@.len() - i,
            {
                proof {
                    assert(args@.take(i as int + 1).drop_last() =~= args@.take(i as int));
                    assert(args@.take(i as int + 1).last() == args@[i as int]);
                }
                match &args[i] {
                    CompilispValue::Number(num) => {
                        let text = render_i32(*num);
                        self.output.append(text.as_str());
                    },
                    CompilispValue::Boolean(b) => {
                        let text = render_bool(*b);
                        self.output.append(text.as_str());
                    },
                    CompilispValue::String(value) => {
                        self.output.append(value.as_str());
                    },
                    CompilispValue::Symbol(name) => {
                        self.output.append(name.as_str());
                    },
                }
                i = i + 1;
            }
            proof {
                assert(args@.take(args@.len() as int) =~= args@);
            }
            Ok(CompilispValue::Number(0))
        } else if str_eq(procedure_name, "begin") {
            if args.len() == 0 {
                Err(CompilispError::ArgTypeMismatch)
            } else {
                Ok(args[args.len() - 1].duplicate())
            }
        } else {
            Err(CompilispError::UnboundVariable(procedure_name.to_owned()))
        }
    }

    /// The ABI entry form of a call: consumes exactly the last
    /// `stack_size` pushed arguments, in the order they were pushed, and
    /// dispatches them to the named procedure.
    pub fn procedure_call_stacked(&mut self, procedure_name: &str, stack_size: usize) -> (r:
        CompilispResult<CompilispValue>)
        requires
            stack_size <= old(self).arg_values().len(),
        ensures
            final(self).scopes() == old(self).scopes(),
            final(self).arg_values() == old(self).arg_values().take(
                old(self).arg_values().len() - stack_size as int,
            ),
            call_post(
                procedure_name@,
                old(self).arg_values().skip(old(self).arg_values().len() - stack_size as int),
                old(self).output(),
                final(self).output(),
                r,
            ),
    {
        let at = self.arg_stack.len() - stack_size;
        let tail = self.arg_stack.split_off(at);
        self.procedure_call(procedure_name, &tail)
    }
}

/// The status an ABI procedure call reports across the boundary: 0 for
/// success, 1 for an unknown procedure name, 2 for an argument type
/// mismatch. On a non-zero status no value is written to the result
/// outputs.
pub fn status_code(r: &CompilispResult<CompilispValue>) -> (code: u8)
    ensures
        (code == 0) == (r is Ok),
        r matches Err(CompilispError::UnboundVariable(_)) ==> code == 1,
        r matches Err(CompilispError::ArgTypeMismatch) ==> code == 2,
{
    match r {
        Ok(_) => 0,
        Err(CompilispError::UnboundVariable(_)) => 1,
        Err(CompilispError::ArgTypeMismatch) => 2,
    }
}

impl Default for CompilispRuntime {
    /// Same as `CompilispRuntime::new`: a fresh, empty runtime instance.
    fn default() -> (r: Self)
        ensures
            r.scopes().len() == 0,
            r.arg_values().len() == 0,
            r.output().len() == 0,
    {
        CompilispRuntime::new()
    }
}

} // verus!
