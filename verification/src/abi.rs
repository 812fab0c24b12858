//! Static ABI descriptors shared by the code generator and the runtime
//! library: the native type table, the tagged-value discriminants, and the
//! signatures of the externally callable runtime entry points.

use vstd::prelude::*;

use crate::text::str_eq;

verus! {

broadcast use vstd::string::group_string_axioms;

/// The native types the code generator requests from its type table.
#[derive(Clone, Copy, Debug, PartialEq, Eq, Structural)]
pub enum CompilispType {
    Char,
    CharPtr,
    Int,
    IntPtr,
    BoolPtr,
    CompilispObject,
}

/// A native type as referenced by emitted instructions: the table's
/// descriptors plus the forms derived from them (the one-bit boolean, a
/// pointer to the tagged record, and a fixed-length array of records).
#[derive(Clone, Copy, Debug, PartialEq, Eq, Structural)]
pub enum NativeType {
    Char,
    CharPtr,
    Int,
    IntPtr,
    Bool,
    BoolPtr,
    Object,
    ObjectPtr,
    ObjectArray(usize),
}

/// The native form of each table descriptor.
pub open spec fn spec_native_of(t: CompilispType) -> NativeType {
    match t {
        CompilispType::Char => NativeType::Char,
        CompilispType::CharPtr => NativeType::CharPtr,
        CompilispType::Int => NativeType::Int,
        CompilispType::IntPtr => NativeType::IntPtr,
        CompilispType::BoolPtr => NativeType::BoolPtr,
        CompilispType::CompilispObject => NativeType::Object,
    }
}

/// Looks up a table descriptor's native form.
pub fn native_of(t: CompilispType) -> (r: NativeType)
    ensures
        r == spec_native_of(t),
{
    match t {
        CompilispType::Char => NativeType::Char,
        CompilispType::CharPtr => NativeType::CharPtr,
        CompilispType::Int => NativeType::Int,
        CompilispType::IntPtr => NativeType::IntPtr,
        CompilispType::BoolPtr => NativeType::BoolPtr,
        CompilispType::CompilispObject => NativeType::Object,
    }
}

/// The tag written for an integer slot.
pub const NUMBER_DISCRIMINATOR: i32 = 0;

/// The tag written for a boolean slot.
pub const BOOLEAN_DISCRIMINATOR: i32 = 1;

/// The tag written for a string slot.
pub const STR_DISCRIMINATOR: i32 = 2;

/// The tag written for a symbol slot.
pub const SYMBOL_DISCRIMINATOR: i32 = 3;

/// The discriminants the code generator writes agree bit for bit with the
/// tags the runtime library reads: this is the ABI's central agreement.
pub proof fn abi_discriminants_agree()
    ensures
        NUMBER_DISCRIMINATOR as int == crate::runtime::spec_discriminant(
            crate::runtime::CompilispType::Number,
        ),
        BOOLEAN_DISCRIMINATOR as int == crate::runtime::spec_discriminant(
            crate::runtime::CompilispType::Boolean,
        ),
        STR_DISCRIMINATOR as int == crate::runtime::spec_discriminant(
            crate::runtime::CompilispType::String,
        ),
        SYMBOL_DISCRIMINATOR as int == crate::runtime::spec_discriminant(
            crate::runtime::CompilispType::Symbol,
        ),
{
}

/// One native function signature: ordered argument types and an optional
/// return type (none means the function returns nothing).
#[derive(Clone, Debug)]
pub struct FunctionSig {
    pub args: Vec<NativeType>,
    pub ret: Option<NativeType>,
}

/// Builder for one native function declaration.
pub struct FunctionBuilder {
    name: String,
    args: Vec<NativeType>,
    ret_type: Option<NativeType>,
}

impl FunctionBuilder {
    /// An empty declaration: no name, no arguments, no return type.
    pub fn new() -> (r: Self)
        ensures
            r.spec_name() == Seq::<char>::empty(),
            r.spec_args() == Seq::<NativeType>::empty(),
            r.spec_ret() is None,
    {
        FunctionBuilder { name: String::new(), args: Vec::new(), ret_type: None }
    }

    /// The declaration's name so far.
    pub closed spec fn spec_name(&self) -> Seq<char> {
        self.name@
    }

    /// The argument types added so far.
    pub closed spec fn spec_args(&self) -> Seq<NativeType> {
        self.args@
    }

    /// The return type chosen so far.
    pub closed spec fn spec_ret(&self) -> Option<NativeType> {
        self.ret_type
    }

    /// Names the function.
    pub fn with_name(self, name: &str) -> (r: Self)
        ensures
            r.spec_name() == name@,
            r.spec_args() == self.spec_args(),
            r.spec_ret() == self.spec_ret(),
    {
        FunctionBuilder { name: name.to_owned(), args: self.args, ret_type: self.ret_type }
    }

    /// Sets the return type.
    pub fn with_ret_type(self, ret_type: NativeType) -> (r: Self)
        ensures
            r.spec_name() == self.spec_name(),
            r.spec_args() == self.spec_args(),
            r.spec_ret() == Some(ret_type),
    {
        FunctionBuilder { name: self.name, args: self.args, ret_type: Some(ret_type) }
    }

    /// Appends one argument type.
    pub fn add_arg(self, arg_type: NativeType) -> (r: Self)
        ensures
            r.spec_name() == self.spec_name(),
            r.spec_args() == self.spec_args().push(arg_type),
            r.spec_ret() == self.spec_ret(),
    {
        let mut args = self.args;
        args.push(arg_type);
        FunctionBuilder { name: self.name, args, ret_type: self.ret_type }
    }

    /// Finishes the declaration, yielding the symbol name and signature.
    pub fn build(self) -> (r: (String, FunctionSig))
        ensures
            r.0@ == self.spec_name(),
            r.1.args@ == self.spec_args(),
            r.1.ret == self.spec_ret(),
    {
        let FunctionBuilder { name, args, ret_type } = self;
        (name, FunctionSig { args, ret: ret_type })
    }
}

/// Lookup in the entry-point table by symbol name.
pub open spec fn table_lookup(table: Seq<(String, FunctionSig)>, name: Seq<char>) -> Option<
    FunctionSig,
>
    decreases table.len(),
{
    if table.len() == 0 {
        None
    } else if table.last().0@ == name {
        Some(table.last().1)
    } else {
        table_lookup(table.drop_last(), name)
    }
}

/// The table of externally callable runtime entry points the generated
/// code links against.
#[derive(Clone)]
pub struct FunctionFactory {
    function_map: Vec<(String, FunctionSig)>,
}

impl FunctionFactory {
    /// The registered entry points.
    pub closed spec fn table(&self) -> Seq<(String, FunctionSig)> {
        self.function_map@
    }

    /// Registers the three base runtime entry points with the signatures
    /// the runtime library exports: `compilisp_init` returning the opaque
    /// runtime handle, `compilisp_destroy` taking it back, and
    /// `compilisp_procedure_call` taking the operation name, the argument
    /// array and its length, and returning one tagged value.
    pub fn new_with_base() -> (r: Self)
        ensures
            r.table().len() == 3,
            table_lookup(r.table(), "compilisp_init"@) matches Some(sig) && sig.args@.len() == 0
                && sig.ret == Some(NativeType::CharPtr),
            table_lookup(r.table(), "compilisp_destroy"@) matches Some(sig) && sig.args@
                =~= seq![NativeType::CharPtr] && sig.ret is None,
            table_lookup(r.table(), "compilisp_procedure_call"@) matches Some(sig) && sig.args@
                =~= seq![NativeType::CharPtr, NativeType::ObjectPtr, NativeType::Int] && sig.ret
                == Some(NativeType::Object),
    {
        let mut function_map: Vec<(String, FunctionSig)> = Vec::new();

        let decl = FunctionBuilder::new().with_name("compilisp_init").with_ret_type(
            NativeType::CharPtr,
        ).build();
        function_map.push(decl);

        let decl = FunctionBuilder::new().with_name("compilisp_destroy").add_arg(
            NativeType::CharPtr,
        ).build();
        function_map.push(decl);

        let decl = FunctionBuilder::new().with_name("compilisp_procedure_call").with_ret_type(
            NativeType::Object,
        ).add_arg(NativeType::CharPtr).add_arg(NativeType::ObjectPtr).add_arg(
            NativeType::Int,
        ).build();
        function_map.push(decl);

        let r = FunctionFactory { function_map };
        proof {
            reveal_strlit("compilisp_init");
            reveal_strlit("compilisp_destroy");
            reveal_strlit("compilisp_procedure_call");
            assert("compilisp_init"@.len() == 14);
            assert("compilisp_destroy"@.len() == 17);
            assert("compilisp_procedure_call"@.len() == 24);
            assert(r.table().len() == 3);
            assert(r.table()[0].0@ == "compilisp_init"@);
            assert(r.table()[1].0@ == "compilisp_destroy"@);
            assert(r.table()[2].0@ == "compilisp_procedure_call"@);
            assert(r.table()[2].0@ != "compilisp_init"@);
            assert(r.table()[2].0@ != "compilisp_destroy"@);
            assert(r.table()[1].0@ != "compilisp_init"@);
            reveal_with_fuel(table_lookup, 4);
            assert(r.table().drop_last().last() == r.table()[1]);
            assert(r.table().drop_last().drop_last().last() == r.table()[0]);
            assert(r.table().drop_last().drop_last().drop_last() =~= Seq::<
                (String, FunctionSig),
            >::empty());
            assert(table_lookup(r.table(), "compilisp_procedure_call"@) == Some(r.table()[2].1));
            assert(table_lookup(r.table(), "compilisp_destroy"@) == Some(r.table()[1].1));
            assert(table_lookup(r.table(), "compilisp_init"@) == Some(r.table()[0].1));
        }
        r
    }

    /// Looks a registered entry point up by name.
    pub fn get(&self, name: &str) -> (r: Option<&(String, FunctionSig)>)
        ensures
            match r {
                Some(entry) => table_lookup(self.table(), name@) == Some(entry.1) && entry.0@
                    == name@,
                None => table_lookup(self.table(), name@) is None,
            },
    {
        let ghost tseq = self.table();
        let mut k = self.function_map.len();
        proof {
            assert(tseq.subrange(0, tseq.len() as int) =~= tseq);
        }
        while k > 0
            invariant
                k <= tseq.len(),
                tseq == self.table(),
                table_lookup(tseq, name@) == table_lookup(tseq.subrange(0, k as int), name@),
            decreases k,
        {
            k = k - 1;
            proof {
                let sub = tseq.subrange(0, k as int + 1);
                assert(sub.last() == tseq[k as int]);
                assert(sub.drop_last() =~= tseq.subrange(0, k as int));
            }
            if str_eq(self.function_map[k].0.as_str(), name) {
                return Some(&self.function_map[k]);
            }
        }
        proof {
            assert(tseq.subrange(0, 0) =~= Seq::<(String, FunctionSig)>::empty());
        }
        None
    }
}

} // verus!
