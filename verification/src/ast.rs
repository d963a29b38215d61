//! Data model of the translation core.
//!
//! Source names are byte strings (`Vec<u8>`); the normalize pass replaces
//! every name by a numbered identifier (`SpirvWord`). Floating-point
//! immediates are carried as their IEEE-754 bit patterns, since no pass of
//! the core ever computes with them.

use vstd::prelude::*;

verus! {

/// A stable numbered identifier handed out by the scoped resolver.
/// Identifiers start at 1; two identifiers are equal iff they denote the
/// same resolved symbol.
pub type SpirvWord = u32;

/// A PTX scalar type.
#[derive(Clone, Copy, Debug, PartialEq, Eq, Structural)]
pub enum ScalarType {
    Pred,
    S8,
    B8,
    U8,
    B16,
    U16,
    S16,
    S32,
    B32,
    U32,
    U64,
    S64,
    B64,
    B128,
    F16,
    F32,
    F64,
    BF16,
    U16x2,
    S16x2,
    F16x2,
    BF16x2,
}

/// A PTX state space: the memory class of a variable or pointer.
#[derive(Clone, Copy, Debug, PartialEq, Eq, Structural)]
pub enum StateSpace {
    Reg,
    Generic,
    Param,
    ParamEntry,
    ParamFunc,
    Local,
    Global,
    Const,
    Shared,
    SharedCta,
    SharedCluster,
}

/// A PTX type: scalar, vector, array (with optional packed-vector width and
/// a list of dimensions; an empty dimension list denotes a flexible,
/// zero-length array), or pointer.
#[derive(Debug)]
pub enum Type {
    Scalar(ScalarType),
    Vector(u8, ScalarType),
    Array(Option<u8>, ScalarType, Vec<u32>),
    Pointer(ScalarType, StateSpace),
}

/// Structural equality on types, with array dimensions compared by content.
pub open spec fn types_equal(a: Type, b: Type) -> bool {
    match (a, b) {
        (Type::Scalar(sa), Type::Scalar(sb)) => sa == sb,
        (Type::Vector(na, sa), Type::Vector(nb, sb)) => na == nb && sa == sb,
        (Type::Array(va, sa, da), Type::Array(vb, sb, db)) => va == vb && sa == sb && da@ == db@,
        (Type::Pointer(sa, pa), Type::Pointer(sb, pb)) => sa == sb && pa == pb,
        _ => false,
    }
}

impl Clone for Type {
    fn clone(&self) -> (r: Self)
        ensures
            types_equal(r, *self),
    {
        match self {
            Type::Scalar(s) => Type::Scalar(*s),
            Type::Vector(n, s) => Type::Vector(*n, *s),
            Type::Array(v, s, dims) => {
                let mut d: Vec<u32> = Vec::new();
                let mut i: usize = 0;
                while i < dims.len()
                    invariant
                        i <= dims.len(),
                        d@ == dims@.take(i as int),
                    decreases dims.len() - i,
                {
                    d.push(dims[i]);
                    proof {
                        assert(d@ =~= dims@.take(i + 1 as int));
                    }
                    i = i + 1;
                }
                proof {
                    assert(d@ =~= dims@);
                }
                Type::Array(*v, *s, d)
            },
            Type::Pointer(s, space) => Type::Pointer(*s, *space),
        }
    }
}

/// Pairwise equality of typed argument lists, with types compared
/// structurally.
pub open spec fn typed_args_eq(a: Seq<(Type, StateSpace)>, b: Seq<(Type, StateSpace)>) -> bool {
    a.len() == b.len() && forall|k: int|
        0 <= k < a.len() ==> types_equal(#[trigger] a[k].0, b[k].0) && a[k].1 == b[k].1
}

/// An immediate operand. `F32` and `F64` hold the IEEE-754 bit pattern of
/// the constant; the core never computes with the numeric value.
#[derive(Clone, Copy, Debug, PartialEq, Eq, Structural)]
pub enum ImmediateValue {
    U64(u64),
    S64(i64),
    F32(u32),
    F64(u64),
}

/// A typed variable declaration, generic over the identifier type: source
/// names before normalization, numbered identifiers after.
#[derive(Debug)]
pub struct Variable<ID> {
    pub align: Option<u32>,
    pub v_type: Type,
    pub state_space: StateSpace,
    pub name: ID,
    pub array_init: Vec<u8>,
}

/// A `.reg .T %base<N>` declaration: a variable together with an optional
/// expansion count.
#[derive(Debug)]
pub struct MultiVariable {
    pub var: Variable<Vec<u8>>,
    pub count: Option<u32>,
}

/// A guard predicate on an instruction: `@p` or `@!p`.
#[derive(Clone, Copy, Debug, PartialEq, Eq, Structural)]
pub struct PredAt<ID> {
    pub not: bool,
    pub label: ID,
}

/// An instruction operand as the parser produced it.
#[derive(Debug)]
pub enum ParsedOperand<ID> {
    Reg(ID),
    RegOffset(ID, i32),
    Imm(ImmediateValue),
    VecMember(ID, u8),
    VecPack(Vec<ID>),
}

/// Field-level equality of two variables that may use different identifier
/// types: everything but the name agrees.
pub open spec fn variable_fields_eq<A, B>(a: Variable<A>, b: Variable<B>) -> bool {
    &&& a.align == b.align
    &&& types_equal(a.v_type, b.v_type)
    &&& a.state_space == b.state_space
    &&& a.array_init@ == b.array_init@
}

/// Memory-ordering qualifier on loads and stores.
#[derive(Clone, Copy, Debug, PartialEq, Eq, Structural)]
pub enum LdStQualifier {
    Weak,
    Volatile,
    Relaxed,
    Acquire,
}

/// Payload of a `mov` instruction.
#[derive(Debug)]
pub struct MovDetails {
    pub typ: Type,
}

/// Payload of an `ld` instruction.
#[derive(Debug)]
pub struct LdDetails {
    pub qualifier: LdStQualifier,
    pub state_space: StateSpace,
    pub non_coherent: bool,
    pub typ: Type,
}

/// Payload of an `st` instruction.
#[derive(Debug)]
pub struct StData {
    pub qualifier: LdStQualifier,
    pub state_space: StateSpace,
    pub typ: Type,
}

/// Equality of `mov` payloads.
pub open spec fn mov_details_eq(a: MovDetails, b: MovDetails) -> bool {
    types_equal(a.typ, b.typ)
}

impl Clone for MovDetails {
    fn clone(&self) -> (r: Self)
        ensures
            mov_details_eq(r, *self),
    {
        MovDetails { typ: self.typ.clone() }
    }
}

/// Equality of `ld` payloads.
pub open spec fn ld_details_eq(a: LdDetails, b: LdDetails) -> bool {
    &&& a.qualifier == b.qualifier
    &&& a.state_space == b.state_space
    &&& a.non_coherent == b.non_coherent
    &&& types_equal(a.typ, b.typ)
}

impl Clone for LdDetails {
    fn clone(&self) -> (r: Self)
        ensures
            ld_details_eq(r, *self),
    {
        LdDetails {
            qualifier: self.qualifier,
            state_space: self.state_space,
            non_coherent: self.non_coherent,
            typ: self.typ.clone(),
        }
    }
}

/// Equality of `st` payloads.
pub open spec fn st_data_eq(a: StData, b: StData) -> bool {
    &&& a.qualifier == b.qualifier
    &&& a.state_space == b.state_space
    &&& types_equal(a.typ, b.typ)
}

impl Clone for StData {
    fn clone(&self) -> (r: Self)
        ensures
            st_data_eq(r, *self),
    {
        StData { qualifier: self.qualifier, state_space: self.state_space, typ: self.typ.clone() }
    }
}

/// Payload of an `add` instruction: the arithmetic variant decides between
/// an integer and a floating-point addition.
#[derive(Clone, Copy, Debug, PartialEq, Eq, Structural)]
pub enum ArithDetails {
    Integer(ScalarType),
    Float(ScalarType),
}

/// Payload of a `ret` instruction.
#[derive(Clone, Copy, Debug, PartialEq, Eq, Structural)]
pub struct RetData {
    pub uniform: bool,
}

/// Payload of a `call` instruction: the declared return and input types.
#[derive(Debug)]
pub struct CallDetails {
    pub uniform: bool,
    pub return_arguments: Vec<(Type, StateSpace)>,
    pub input_arguments: Vec<(Type, StateSpace)>,
}

/// Equality of `call` payloads.
pub open spec fn call_details_eq(a: CallDetails, b: CallDetails) -> bool {
    &&& a.uniform == b.uniform
    &&& typed_args_eq(a.return_arguments@, b.return_arguments@)
    &&& typed_args_eq(a.input_arguments@, b.input_arguments@)
}

impl Clone for CallDetails {
    fn clone(&self) -> (r: Self)
        ensures
            call_details_eq(r, *self),
    {
        CallDetails {
            uniform: self.uniform,
            return_arguments: clone_typed_args(&self.return_arguments),
            input_arguments: clone_typed_args(&self.input_arguments),
        }
    }
}

/// Copies a list of typed arguments.
fn clone_typed_args(args: &Vec<(Type, StateSpace)>) -> (r: Vec<(Type, StateSpace)>)
    ensures
        typed_args_eq(r@, args@),
{
    let mut r: Vec<(Type, StateSpace)> = Vec::new();
    let mut i: usize = 0;
    while i < args.len()
        invariant
            i <= args@.len(),
            r@.len() == i,
            forall|k: int|
                0 <= k < i ==> types_equal(#[trigger] r@[k].0, args@[k].0) && r@[k].1
                    == args@[k].1,
        decreases args.len() - i,
    {
        let pair = &args[i];
        r.push((pair.0.clone(), pair.1));
        i = i + 1;
    }
    r
}

/// Operands of a `mov` instruction.
#[derive(Debug)]
pub struct MovArgs<O> {
    pub dst: O,
    pub src: O,
}

/// Operands of an `ld` instruction.
#[derive(Debug)]
pub struct LdArgs<O> {
    pub dst: O,
    pub src: O,
}

/// Operands of an `st` instruction: `src1` is the address, `src2` the value.
#[derive(Debug)]
pub struct StArgs<O> {
    pub src1: O,
    pub src2: O,
}

/// Operands of an `add` instruction.
#[derive(Debug)]
pub struct AddArgs<O> {
    pub dst: O,
    pub src1: O,
    pub src2: O,
}

/// Operands of a `call` instruction: the results and the callee are plain
/// identifiers, the inputs are operands.
#[derive(Debug)]
pub struct CallArgs<ID, O> {
    pub return_arguments: Vec<ID>,
    pub func: ID,
    pub input_arguments: Vec<O>,
}

/// The opcode of a PTX instruction whose lowering is still an open item
/// of the backend. The normalize pass resolves such an instruction's
/// operands like any other; only the emitter reports it as not yet
/// supported.
#[derive(Clone, Copy, Debug, PartialEq, Eq, Structural)]
pub enum PtxOpcode {
    Mul,
    Setp,
    SetpBool,
    Not,
    Or,
    And,
    Bra,
    Cvt,
    Shr,
    Shl,
    Cvta,
    Abs,
    Mad,
    Fma,
    Sub,
    Min,
    Max,
    Rcp,
    Sqrt,
    Rsqrt,
    Selp,
    Bar,
    Atom,
    AtomCas,
    Div,
    Neg,
    Sin,
    Cos,
    Lg2,
    Ex2,
    Clz,
    Brev,
    Popc,
    Xor,
    Rem,
    Bfe,
    Bfi,
    PrmtSlow,
    Prmt,
    Activemask,
    Membar,
    Trap,
}

/// A typed PTX instruction, generic over its identifier and operand
/// types. The instructions whose lowering the core implements carry their
/// typed payloads; every other opcode is carried generically, as the
/// opcode together with its operand list, so the normalize pass covers
/// the full instruction set.
#[derive(Debug)]
pub enum Instruction<ID, O> {
    Mov { data: MovDetails, arguments: MovArgs<O> },
    Ld { data: LdDetails, arguments: LdArgs<O> },
    St { data: StData, arguments: StArgs<O> },
    Add { data: ArithDetails, arguments: AddArgs<O> },
    Ret { data: RetData },
    Call { data: CallDetails, arguments: CallArgs<ID, O> },
    Other { opcode: PtxOpcode, operands: Vec<O> },
}

/// An instruction as the parser produced it.
pub type ParsedInstruction = Instruction<Vec<u8>, ParsedOperand<Vec<u8>>>;

/// An instruction after identifier normalization.
pub type NormalizedInstruction = Instruction<SpirvWord, ParsedOperand<SpirvWord>>;

/// An instruction after operand lowering, as the emitter consumes it.
pub type FlatInstruction = Instruction<SpirvWord, SpirvWord>;

/// A statement as the parser produced it: labels, (multi-)variable
/// declarations, predicated instructions, and nested scoped blocks.
#[derive(Debug)]
pub enum ParsedStatement {
    Label(Vec<u8>),
    Variable(MultiVariable),
    Instruction(Option<PredAt<Vec<u8>>>, ParsedInstruction),
    Block(Vec<ParsedStatement>),
}

/// A statement after identifier normalization: every name is a numbered
/// identifier, multi-variable declarations are expanded, and blocks are
/// flattened.
#[derive(Debug)]
pub enum NormalizedStatement {
    Label(SpirvWord),
    Variable(Variable<SpirvWord>),
    Instruction(Option<PredAt<SpirvWord>>, NormalizedInstruction),
}

/// The name of a method: kernels keep their externally-visible source name,
/// device functions are resolved through the identifier table.
#[derive(Debug)]
pub enum MethodName<ID> {
    Kernel(Vec<u8>),
    Func(ID),
}

impl<ID> MethodName<ID> {
    /// Whether this method is an externally-visible kernel.
    pub open spec fn spec_is_kernel(&self) -> bool {
        matches!(self, MethodName::Kernel(_))
    }

    /// Executable check mirroring `spec_is_kernel`.
    pub fn is_kernel(&self) -> (r: bool)
        ensures
            r == self.spec_is_kernel(),
    {
        match self {
            MethodName::Kernel(_) => true,
            MethodName::Func(_) => false,
        }
    }
}

/// The declaration of a kernel or device function.
#[derive(Debug)]
pub struct MethodDeclaration<ID> {
    pub return_arguments: Vec<Variable<ID>>,
    pub name: MethodName<ID>,
    pub input_arguments: Vec<Variable<ID>>,
    pub shared_mem: Option<ID>,
}

/// Linkage flags of a directive.
#[derive(Clone, Copy, Debug, PartialEq, Eq, Structural)]
pub struct LinkingDirective {
    pub external: bool,
    pub visible: bool,
    pub weak: bool,
}

/// A performance-tuning hint attached to a method.
#[derive(Clone, Copy, Debug, PartialEq, Eq, Structural)]
pub enum TuningDirective {
    MaxNReg(u32),
    MaxNtid(u32, u32, u32),
    ReqNtid(u32, u32, u32),
    MinNCtaPerSm(u32),
}

/// A kernel or device function as the parser produced it.
#[derive(Debug)]
pub struct ParsedMethod {
    pub func_directive: MethodDeclaration<Vec<u8>>,
    pub tuning: Vec<TuningDirective>,
    pub body: Option<Vec<ParsedStatement>>,
}

/// A module-level directive as the parser produced it.
#[derive(Debug)]
pub enum ParsedDirective {
    Variable(LinkingDirective, Variable<Vec<u8>>),
    Method(LinkingDirective, ParsedMethod),
}

/// A method after normalization, generic over the statement type so that
/// later passes can refine the body in place.
#[derive(Debug)]
pub struct Function2<S> {
    pub func_decl: MethodDeclaration<SpirvWord>,
    pub globals: Vec<Variable<SpirvWord>>,
    pub body: Option<Vec<S>>,
    pub import_as: Option<Vec<u8>>,
    pub tuning: Vec<TuningDirective>,
    pub linkage: LinkingDirective,
}

/// A module-level directive after normalization.
#[derive(Debug)]
pub enum Directive2<S> {
    Variable(LinkingDirective, Variable<SpirvWord>),
    Method(Function2<S>),
}

/// A normalized directive as the identifier-normalization pass emits it.
pub type NormalizedDirective2 = Directive2<NormalizedStatement>;

/// Details of a lowered variable load.
#[derive(Debug)]
pub struct LoadVarDetails {
    pub arg: LdArgs<SpirvWord>,
    pub typ: Type,
    pub member_index: Option<u8>,
}

/// Details of a lowered variable store.
#[derive(Debug)]
pub struct StoreVarDetails {
    pub arg: StArgs<SpirvWord>,
    pub typ: Type,
    pub member_index: Option<u8>,
}

/// The kind of an implicit conversion inserted by earlier passes.
#[derive(Clone, Copy, Debug, PartialEq, Eq, Structural)]
pub enum ConversionKind {
    Default,
    SignExtend,
    BitToPtr,
    PtrToPtr,
    AddressOf,
}

/// An implicit conversion between two typed values.
#[derive(Debug)]
pub struct ImplicitConversion {
    pub src: SpirvWord,
    pub dst: SpirvWord,
    pub from_type: Type,
    pub to_type: Type,
    pub from_space: StateSpace,
    pub to_space: StateSpace,
    pub kind: ConversionKind,
}

/// A materialized constant bound to an identifier.
#[derive(Clone, Copy, Debug, PartialEq, Eq, Structural)]
pub struct ConstantDefinition {
    pub dst: SpirvWord,
    pub typ: ScalarType,
    pub value: ImmediateValue,
}

/// A lowered two-way branch on a predicate.
#[derive(Clone, Copy, Debug, PartialEq, Eq, Structural)]
pub struct BranchCondition {
    pub predicate: SpirvWord,
    pub if_true: SpirvWord,
    pub if_false: SpirvWord,
}

/// A statement of the lowered stream that the emitter consumes: normalized
/// statements plus the forms later passes introduce.
#[derive(Debug)]
pub enum LoweredStatement {
    Label(SpirvWord),
    Variable(Variable<SpirvWord>),
    Instruction(FlatInstruction),
    Conditional(BranchCondition),
    LoadVar(LoadVarDetails),
    StoreVar(StoreVarDetails),
    Conversion(ImplicitConversion),
    Constant(ConstantDefinition),
    RetValue(RetData, SpirvWord),
    PtrAccess { dst: SpirvWord, ptr_src: SpirvWord, offset_src: SpirvWord },
    RepackVector { dst: SpirvWord, packed: SpirvWord, unpacked: Vec<SpirvWord> },
    FunctionPointer { dst: SpirvWord, src: SpirvWord },
    VectorAccess { dst: SpirvWord, src: SpirvWord, index: u8 },
}

} // verus!
