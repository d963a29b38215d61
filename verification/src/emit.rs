//! LLVM IR emission.
//!
//! Lowers the typed directive stream into a model of an LLVM module:
//! function signatures with calling conventions and parameter attributes,
//! a prologue block holding every alloca, and per-statement instruction
//! emission. Values are handles into a module-wide pool, one per emitted
//! definition; binding an identifier to a handle models registration of an
//! LLVM value.

use vstd::prelude::*;
use crate::ast::{
    AddArgs, ArithDetails, CallArgs, CallDetails, ConstantDefinition, ConversionKind, Directive2,
    FlatInstruction, Function2, ImmediateValue, ImplicitConversion, Instruction, LdArgs, LdDetails,
    LdStQualifier, LoadVarDetails, LoweredStatement, MethodName, MovArgs, MovDetails, RetData,
    SpirvWord, StArgs, StData, StoreVarDetails, Type, Variable,
};
use crate::decimal::{dec_digits, u32_to_decimal};
use crate::error::TranslateError;
use crate::llvm::{
    get_function_type, get_input_argument_type, get_pointer_type, get_scalar_type, get_state_space,
    get_type, llvm_type_ok, llvm_type_rel, state_space_to_llvm, LlvmType,
    CONSTANT_ADDRESS_SPACE,
};
use crate::resolver::IdentityTable;

verus! {

/// What a value handle denotes: a function, one of its parameters, the
/// result of an emitted instruction, or a materialized constant.
#[derive(Debug)]
pub enum ValueDef {
    FunctionRef { func_index: usize },
    Param { func_index: usize, param_index: usize },
    Inst,
    Const { ty: LlvmType, value: ImmediateValue },
}

/// The calling conventions the emitter assigns.
#[derive(Clone, Copy, Debug, PartialEq, Eq, Structural)]
pub enum CallConv {
    AmdgpuKernel,
    C,
}

/// An emitted instruction. `result` is the pool handle of the value the
/// instruction defines; `name` is the interned name it carries.
#[derive(Debug)]
pub enum LlvmInst {
    Alloca { result: usize, ty: LlvmType, addrspace: u32, align: Option<u32>, name: Vec<u8> },
    Load { result: usize, ty: LlvmType, ptr: usize, name: Vec<u8> },
    Store { value: usize, ptr: usize },
    IntAdd { result: usize, lhs: usize, rhs: usize, name: Vec<u8> },
    FloatAdd { result: usize, lhs: usize, rhs: usize, name: Vec<u8> },
    IntToPtr { result: usize, src: usize, ty: LlvmType, name: Vec<u8> },
    Call { result: usize, fn_ty: LlvmType, callee: usize, args: Vec<usize>, name: Vec<u8> },
    Br { target: usize },
    RetVoid,
}

/// Branches and returns terminate a basic block.
pub open spec fn is_terminator(i: LlvmInst) -> bool {
    i is Br || i is RetVoid
}

/// A basic block: a name and the instructions emitted into it.
#[derive(Debug)]
pub struct LlvmBlock {
    pub name: Vec<u8>,
    pub insts: Vec<LlvmInst>,
}

/// Whether the block already ends in a terminator.
pub open spec fn block_has_terminator(b: LlvmBlock) -> bool {
    b.insts@.len() > 0 && is_terminator(b.insts@.last())
}

/// A `byref` type attribute at an LLVM attribute index; index 0 is the
/// return value, so parameter `i` carries index `i + 1`.
#[derive(Debug)]
pub struct ByrefAttr {
    pub index: usize,
    pub pointee: LlvmType,
}

/// An emitted function parameter: its interned name and its value handle.
#[derive(Debug)]
pub struct LlvmParam {
    pub name: Vec<u8>,
    pub value: usize,
}

/// An emitted function.
#[derive(Debug)]
pub struct LlvmFunction {
    pub name: Vec<u8>,
    pub ty: LlvmType,
    pub call_conv: CallConv,
    pub params: Vec<LlvmParam>,
    pub byref_attrs: Vec<ByrefAttr>,
    pub blocks: Vec<LlvmBlock>,
}

/// An emitted module: its functions and the pool of value definitions.
#[derive(Debug)]
pub struct LlvmModule {
    pub functions: Vec<LlvmFunction>,
    pub values: Vec<ValueDef>,
}

/// Every instruction of the block is an alloca and no terminator has been
/// placed yet.
pub open spec fn allocas_block_open(b: LlvmBlock) -> bool {
    forall|j: int| 0 <= j < b.insts@.len() ==> (#[trigger] b.insts@[j]) is Alloca
}

/// The prologue form of an emitted body: the first block holds only
/// allocas and exactly one terminator, an unconditional branch to the
/// second block, so every alloca dominates every use in the body.
pub open spec fn entry_allocas_form(f: LlvmFunction) -> bool {
    &&& f.blocks@.len() >= 2
    &&& f.blocks@[0].insts@.len() >= 1
    &&& f.blocks@[0].insts@.last() == (LlvmInst::Br { target: 1 })
    &&& forall|j: int|
        0 <= j < f.blocks@[0].insts@.len() - 1 ==> (#[trigger] f.blocks@[0].insts@[j]) is Alloca
}

/// The map a key-to-name intern list denotes; later entries win.
pub open spec fn word_map(s: Seq<(SpirvWord, Vec<u8>)>) -> Map<SpirvWord, Seq<u8>>
    decreases s.len(),
{
    if s.len() == 0 {
        Map::empty()
    } else {
        word_map(s.drop_last()).insert(s.last().0, s.last().1@)
    }
}

/// The map a key-to-handle list denotes; later entries win.
pub open spec fn value_map(s: Seq<(SpirvWord, usize)>) -> Map<SpirvWord, usize>
    decreases s.len(),
{
    if s.len() == 0 {
        Map::empty()
    } else {
        value_map(s.drop_last()).insert(s.last().0, s.last().1)
    }
}

/// Under canonical interning, the map's value at any present key is that
/// key's decimal rendering.
proof fn lemma_word_map_canonical(s: Seq<(SpirvWord, Vec<u8>)>, k: SpirvWord)
    requires
        forall|j: int|
            0 <= j < s.len() ==> (#[trigger] s[j].1)@ == dec_digits(s[j].0 as nat),
        word_map(s).contains_key(k),
    ensures
        word_map(s)[k] == dec_digits(k as nat),
    decreases s.len(),
{
    if s.len() > 0 {
        if s.last().0 != k {
            assert(forall|j: int| 0 <= j < s.len() - 1 ==> s.drop_last()[j] == s[j]);
            lemma_word_map_canonical(s.drop_last(), k);
        }
    }
}

/// The per-module identifier resolver: interned names — each identifier's
/// number rendered in decimal, stable and collision-free since identifiers
/// are unique — and the LLVM value currently bound to each identifier.
/// Re-registration overwrites: the last writer wins, which is how `mov`
/// and constant folding rebind registers.
#[derive(Debug)]
pub struct ResolveIdent {
    pub words: Vec<(SpirvWord, Vec<u8>)>,
    pub values: Vec<(SpirvWord, usize)>,
}

impl ResolveIdent {
    /// Every interned name is its key rendered in decimal.
    pub open spec fn inv(&self) -> bool {
        forall|j: int|
            0 <= j < self.words@.len() ==> (#[trigger] self.words@[j].1)@ == dec_digits(
                self.words@[j].0 as nat,
            )
    }

    /// The name intern map.
    pub open spec fn words_view(&self) -> Map<SpirvWord, Seq<u8>> {
        word_map(self.words@)
    }

    /// The value binding map.
    pub open spec fn values_view(&self) -> Map<SpirvWord, usize> {
        value_map(self.values@)
    }

    /// An empty resolver.
    pub fn new() -> (r: Self)
        ensures
            r.inv(),
            r.words_view() == Map::<SpirvWord, Seq<u8>>::empty(),
            r.values_view() == Map::<SpirvWord, usize>::empty(),
    {
        ResolveIdent { words: Vec::new(), values: Vec::new() }
    }

    /// Returns the interned name of `word` — its decimal rendering —
    /// interning it first if this is its first use.
    pub fn get_or_add(&mut self, word: SpirvWord) -> (r: Vec<u8>)
        requires
            old(self).inv(),
        ensures
            final(self).inv(),
            r@ == dec_digits(word as nat),
            final(self).words_view() == old(self).words_view().insert(word, dec_digits(word as nat)),
            final(self).values@ == old(self).values@,
    {
        proof {
            assert(self.words@.take(self.words@.len() as int) =~= self.words@);
        }
        let found = find_word(&self.words, self.words.len(), word);
        match found {
            Some(name) => {
                proof {
                    lemma_word_map_canonical(old(self).words@, word);
                    assert(old(self).words_view().insert(word, dec_digits(word as nat))
                        =~= old(self).words_view());
                }
                name
            },
            None => {
                let name = u32_to_decimal(word);
                let copy = crate::util::bytes_clone(&name);
                self.words.push((word, name));
                proof {
                    assert(self.words@.drop_last() =~= old(self).words@);
                    assert(self.words@.last().0 == word);
                    assert(self.words@.last().1@ == dec_digits(word as nat));
                }
                copy
            },
        }
    }

    /// Binds `word` to an LLVM value handle; a later binding replaces an
    /// earlier one.
    pub fn register(&mut self, word: SpirvWord, v: usize)
        requires
            old(self).inv(),
        ensures
            final(self).inv(),
            final(self).values_view() == old(self).values_view().insert(word, v),
            final(self).words@ == old(self).words@,
    {
        self.values.push((word, v));
        proof {
            assert(self.values@.drop_last() =~= old(self).values@);
            assert(self.values@.last() == (word, v));
        }
    }

    /// The value currently bound to `word`; an unbound identifier violates
    /// an invariant of the earlier passes.
    pub fn value(&self, word: SpirvWord) -> (r: Result<usize, TranslateError>)
        ensures
            r == match self.values_view().contains_key(word) {
                true => Ok::<usize, TranslateError>(self.values_view()[word]),
                false => Err::<usize, TranslateError>(TranslateError::Unreachable),
            },
    {
        proof {
            assert(self.values@.take(self.values@.len() as int) =~= self.values@);
        }
        match find_value(&self.values, self.values.len(), word) {
            Some(v) => Ok(v),
            None => Err(TranslateError::Unreachable),
        }
    }
}

/// Searches the intern list, newest entry first.
fn find_word(entries: &Vec<(SpirvWord, Vec<u8>)>, n: usize, word: SpirvWord) -> (r: Option<Vec<u8>>)
    requires
        n <= entries@.len(),
        forall|j: int|
            0 <= j < entries@.len() ==> (#[trigger] entries@[j].1)@ == dec_digits(
                entries@[j].0 as nat,
            ),
    ensures
        match r {
            Some(name) => word_map(entries@.take(n as int)).contains_key(word) && name@
                == dec_digits(word as nat),
            None => !word_map(entries@.take(n as int)).contains_key(word),
        },
    decreases n,
{
    if n == 0 {
        None
    } else {
        proof {
            assert(entries@.take(n as int).last() == entries@[n - 1]);
            assert(entries@.take(n as int).drop_last() =~= entries@.take(n - 1 as int));
        }
        let e = &entries[n - 1];
        if e.0 == word {
            Some(crate::util::bytes_clone(&e.1))
        } else {
            find_word(entries, n - 1, word)
        }
    }
}

/// Searches the binding list, newest entry first: the last writer wins.
fn find_value(entries: &Vec<(SpirvWord, usize)>, n: usize, word: SpirvWord) -> (r: Option<usize>)
    requires
        n <= entries@.len(),
    ensures
        r == match value_map(entries@.take(n as int)).contains_key(word) {
            true => Some(value_map(entries@.take(n as int))[word]),
            false => None::<usize>,
        },
    decreases n,
{
    if n == 0 {
        None
    } else {
        proof {
            assert(entries@.take(n as int).last() == entries@[n - 1]);
            assert(entries@.take(n as int).drop_last() =~= entries@.take(n - 1 as int));
        }
        let e = &entries[n - 1];
        if e.0 == word {
            Some(e.1)
        } else {
            find_value(entries, n - 1, word)
        }
    }
}

/// Whether the instruction ends a block.
fn inst_is_terminator(i: &LlvmInst) -> (r: bool)
    ensures
        r == is_terminator(*i),
{
    match i {
        LlvmInst::Br { .. } => true,
        LlvmInst::RetVoid => true,
        _ => false,
    }
}

/// Per-method emission state: the function's basic blocks — block 0 is the
/// dedicated allocas block — and the block the builder is positioned at.
#[derive(Debug)]
pub struct MethodEmitContext {
    pub blocks: Vec<LlvmBlock>,
    pub current_block: usize,
}

/// The method state the emitters preserve: at least the allocas block and
/// the real entry block exist, the builder never points at the allocas
/// block, the allocas block holds nothing but allocas until the final
/// branch is placed, and no alloca ever lands outside it.
pub open spec fn method_ctx_inv(m: MethodEmitContext) -> bool {
    &&& m.blocks@.len() >= 2
    &&& 1 <= m.current_block < m.blocks@.len()
    &&& allocas_block_open(m.blocks@[0])
    &&& forall|bi: int, j: int|
        1 <= bi < m.blocks@.len() && 0 <= j < m.blocks@[bi].insts@.len() ==> !((
        #[trigger] m.blocks@[bi].insts@[j]) is Alloca)
}

/// Appends an alloca to the allocas block; everything else is untouched.
fn push_to_allocas(m: &mut MethodEmitContext, inst: LlvmInst)
    requires
        method_ctx_inv(*old(m)),
        inst is Alloca,
    ensures
        method_ctx_inv(*final(m)),
        final(m).blocks@.len() == old(m).blocks@.len(),
        final(m).current_block == old(m).current_block,
        forall|i: int| 1 <= i < old(m).blocks@.len() ==> final(m).blocks@[i] == old(m).blocks@[i],
        final(m).blocks@[0].name == old(m).blocks@[0].name,
        final(m).blocks@[0].insts@ == old(m).blocks@[0].insts@.push(inst),
        old(m).blocks@[0].insts@.is_prefix_of(final(m).blocks@[0].insts@),
    {
    let mut b0 = m.blocks.remove(0);
    b0.insts.push(inst);
    m.blocks.insert(0, b0);
    proof {
        assert forall|i: int| 1 <= i < old(m).blocks@.len() implies final(m).blocks@[i] == old(m).blocks@[i] by {
            assert(old(m).blocks@.remove(0)[i - 1] == old(m).blocks@[i]);
        }
        assert(final(m).blocks@[0].insts@ =~= old(m).blocks@[0].insts@.push(inst));
        assert(old(m).blocks@[0].insts@.is_prefix_of(final(m).blocks@[0].insts@));
    }
}

/// Appends an instruction to the block the builder is positioned at;
/// everything else, the allocas block included, is untouched.
fn push_to_current(m: &mut MethodEmitContext, inst: LlvmInst)
    requires
        method_ctx_inv(*old(m)),
        !(inst is Alloca),
    ensures
        method_ctx_inv(*final(m)),
        final(m).blocks@.len() == old(m).blocks@.len(),
        final(m).current_block == old(m).current_block,
        forall|i: int|
            0 <= i < old(m).blocks@.len() && i != old(m).current_block ==> final(m).blocks@[i]
                == old(m).blocks@[i],
        final(m).blocks@[old(m).current_block as int].name == old(m).blocks@[old(m).current_block as int].name,
        final(m).blocks@[old(m).current_block as int].insts@ == old(m).blocks@[old(m).current_block as int].insts@.push(inst),
    {
    let cur = m.current_block;
    let mut b = m.blocks.remove(cur);
    b.insts.push(inst);
    m.blocks.insert(cur, b);
    proof {
        assert forall|i: int|
            0 <= i < old(m).blocks@.len() && i != old(m).current_block implies final(m).blocks@[i]
            == old(m).blocks@[i] by {
            if i < old(m).current_block {
                assert(old(m).blocks@.remove(cur as int)[i] == old(m).blocks@[i]);
            } else {
                assert(old(m).blocks@.remove(cur as int)[i - 1] == old(m).blocks@[i]);
            }
        }
        assert(final(m).blocks@[old(m).current_block as int].insts@ =~= old(m).blocks@[old(m).current_block as int].insts@.push(inst));
    }
}

/// The module-level emission context: the module under construction, the
/// identifier table of the normalize pass, and the per-module resolver.
#[derive(Debug)]
pub struct ModuleEmitContext {
    pub module: LlvmModule,
    pub id_defs: IdentityTable,
    pub resolver: ResolveIdent,
}

/// The parts of the module context a statement emitter may not disturb:
/// emitted functions stay, the value pool only grows, the identifier table
/// is read-only.
pub open spec fn module_frame(pre: ModuleEmitContext, post: ModuleEmitContext) -> bool {
    &&& post.module.functions == pre.module.functions
    &&& pre.module.values@.is_prefix_of(post.module.values@)
    &&& post.id_defs == pre.id_defs
}

impl ModuleEmitContext {
    /// Interned names stay canonical.
    pub open spec fn inv(&self) -> bool {
        self.resolver.inv()
    }

    /// A fresh context around the identifier table.
    pub fn new(id_defs: IdentityTable) -> (r: Self)
        ensures
            r.inv(),
            r.module.functions@.len() == 0,
            r.module.values@.len() == 0,
            r.id_defs == id_defs,
            r.resolver.values_view() == Map::<SpirvWord, usize>::empty(),
    {
        ModuleEmitContext {
            module: LlvmModule { functions: Vec::new(), values: Vec::new() },
            id_defs,
            resolver: ResolveIdent::new(),
        }
    }

    /// The calling convention of kernels.
    pub fn kernel_call_convention() -> (r: CallConv)
        ensures
            r == CallConv::AmdgpuKernel,
    {
        CallConv::AmdgpuKernel
    }

    /// The calling convention of device functions.
    pub fn func_call_convention() -> (r: CallConv)
        ensures
            r == CallConv::C,
    {
        CallConv::C
    }

    /// Emits a variable declaration: an alloca in the allocas block, typed
    /// per the type mapper, in the address space its state space implies,
    /// with its alignment if given; the identifier is bound to the alloca.
    /// Non-empty array initializers are not yet supported.
    pub fn emit_variable(&mut self, m: &mut MethodEmitContext, var: Variable<SpirvWord>) -> (r:
        Result<(), TranslateError>)
        requires
            old(self).inv(),
            method_ctx_inv(*old(m)),
        ensures
            final(self).inv(),
            method_ctx_inv(*final(m)),
            module_frame(*old(self), *final(self)),
            match r {
                Ok(_) => {
                    &&& var.array_init@.len() == 0
                    &&& llvm_type_ok(var.v_type)
                    &&& state_space_to_llvm(var.state_space) is Ok
                    &&& final(m).blocks@.len() == old(m).blocks@.len()
                    &&& final(m).current_block == old(m).current_block
                    &&& forall|i: int|
                        1 <= i < old(m).blocks@.len() ==> final(m).blocks@[i] == old(m).blocks@[i]
                    &&& final(m).blocks@[0].insts@.len() == old(m).blocks@[0].insts@.len() + 1
                    &&& old(m).blocks@[0].insts@.is_prefix_of(final(m).blocks@[0].insts@)
                    &&& final(m).blocks@[0].insts@.last() matches LlvmInst::Alloca {
                        result,
                        ty,
                        addrspace,
                        align,
                        name,
                    } && result == old(self).module.values@.len() && llvm_type_rel(var.v_type, ty)
                        && state_space_to_llvm(var.state_space) == Ok::<u32, TranslateError>(
                        addrspace,
                    ) && align == var.align && name@ == dec_digits(var.name as nat)
                    &&& final(self).module.values@.len() == old(self).module.values@.len() + 1
                    &&& final(self).module.values@.last() is Inst
                    &&& final(self).resolver.values_view() == old(self).resolver.values_view().insert(var.name, old(self).module.values@.len() as usize)
                },
                Err(e) => {
                    &&& e == TranslateError::Todo
                    &&& *final(self) == *old(self)
                    &&& *final(m) == *old(m)
                    &&& !(var.array_init@.len() == 0 && llvm_type_ok(var.v_type)
                        && state_space_to_llvm(var.state_space) is Ok)
                },
            },
    {
        if var.array_init.len() > 0 {
            return Err(TranslateError::Todo);
        }
        let ty = match get_type(&var.v_type) {
            Ok(t) => t,
            Err(e) => {
                return Err(e);
            },
        };
        let addrspace = match get_state_space(var.state_space) {
            Ok(a) => a,
            Err(e) => {
                return Err(e);
            },
        };
        let name = self.resolver.get_or_add(var.name);
        let h = self.module.values.len();
        self.module.values.push(ValueDef::Inst);
        push_to_allocas(
            m,
            LlvmInst::Alloca { result: h, ty, addrspace, align: var.align, name },
        );
        self.resolver.register(var.name, h);
        proof {
            assert(self.module.values@.drop_last() =~= old(self).module.values@);
        }
        Ok(())
    }

    /// Emits a label: appends a basic block named after the identifier;
    /// if the block the builder points at lacks a terminator, a
    /// fallthrough branch to the new block is placed first; the builder
    /// then moves to the new block.
    pub fn emit_label(&mut self, m: &mut MethodEmitContext, label: SpirvWord)
        requires
            old(self).inv(),
            method_ctx_inv(*old(m)),
        ensures
            final(self).inv(),
            method_ctx_inv(*final(m)),
            module_frame(*old(self), *final(self)),
            final(self).module.values@ == old(self).module.values@,
            final(self).resolver.values_view() == old(self).resolver.values_view(),
            final(m).blocks@.len() == old(m).blocks@.len() + 1,
            final(m).current_block == old(m).blocks@.len(),
            final(m).blocks@.last().name@ == dec_digits(label as nat),
            final(m).blocks@.last().insts@.len() == 0,
            forall|i: int|
                0 <= i < old(m).blocks@.len() && i != old(m).current_block ==> final(m).blocks@[i]
                    == old(m).blocks@[i],
            block_has_terminator(old(m).blocks@[old(m).current_block as int]) ==> final(m).blocks@[
                old(m).current_block as int] == old(m).blocks@[old(m).current_block as int],
            !block_has_terminator(old(m).blocks@[old(m).current_block as int])
                ==> final(m).blocks@[old(m).current_block as int].insts@
                == old(m).blocks@[old(m).current_block as int].insts@.push(
                LlvmInst::Br { target: old(m).blocks@.len() as usize },
            ),
    {
        let name = self.resolver.get_or_add(label);
        let new_index = m.blocks.len();
        let cur = m.current_block;
        let needs_br = {
            let b = &m.blocks[cur];
            if b.insts.len() == 0 {
                true
            } else {
                !inst_is_terminator(&b.insts[b.insts.len() - 1])
            }
        };
        if needs_br {
            push_to_current(m, LlvmInst::Br { target: new_index });
        }
        m.blocks.push(LlvmBlock { name, insts: Vec::new() });
        m.current_block = new_index;
        proof {
            assert(final(m).blocks@.last().insts@ =~= Seq::<LlvmInst>::empty());
        }
    }

    /// Emits a lowered variable store: stores the bound value of `src2`
    /// through the bound pointer of `src1`.
    pub fn emit_store_var(&mut self, m: &mut MethodEmitContext, store: StoreVarDetails) -> (r:
        Result<(), TranslateError>)
        requires
            old(self).inv(),
            method_ctx_inv(*old(m)),
        ensures
            final(self).inv(),
            method_ctx_inv(*final(m)),
            module_frame(*old(self), *final(self)),
            final(self).module.values@ == old(self).module.values@,
            final(self).resolver == old(self).resolver,
            (r matches Ok(_) <==> (old(self).resolver.values_view().contains_key(store.arg.src1)
                && old(self).resolver.values_view().contains_key(store.arg.src2))),
            match r {
                Ok(_) => {
                    &&& final(m).blocks@.len() == old(m).blocks@.len()
                    &&& final(m).current_block == old(m).current_block
                    &&& forall|i: int|
                        0 <= i < old(m).blocks@.len() && i != old(m).current_block ==> final(m).blocks@[i] == old(m).blocks@[i]
                    &&& final(m).blocks@[old(m).current_block as int].insts@ == old(m).blocks@[old(m).current_block as int].insts@.push(
                        LlvmInst::Store {
                            value: old(self).resolver.values_view()[store.arg.src2],
                            ptr: old(self).resolver.values_view()[store.arg.src1],
                        },
                    )
                },
                Err(e) => e == TranslateError::Unreachable && *final(m) == *old(m),
            },
    {
        let ptr = match self.resolver.value(store.arg.src1) {
            Ok(v) => v,
            Err(e) => {
                return Err(e);
            },
        };
        let value = match self.resolver.value(store.arg.src2) {
            Ok(v) => v,
            Err(e) => {
                return Err(e);
            },
        };
        push_to_current(m, LlvmInst::Store { value, ptr });
        Ok(())
    }

    /// Emits `ret`: return-value lowering is not yet implemented, so a
    /// plain `ret void` ends the current block.
    pub fn emit_ret(&mut self, m: &mut MethodEmitContext, _data: RetData)
        requires
            old(self).inv(),
            method_ctx_inv(*old(m)),
        ensures
            final(self).inv(),
            method_ctx_inv(*final(m)),
            module_frame(*old(self), *final(self)),
            *final(self) == *old(self),
            final(m).blocks@.len() == old(m).blocks@.len(),
            final(m).current_block == old(m).current_block,
            forall|i: int|
                0 <= i < old(m).blocks@.len() && i != old(m).current_block ==> final(m).blocks@[i]
                    == old(m).blocks@[i],
            final(m).blocks@[old(m).current_block as int].insts@ == old(m).blocks@[old(m).current_block as int].insts@.push(LlvmInst::RetVoid),
    {
        push_to_current(m, LlvmInst::RetVoid);
    }

    /// Emits `mov` on registers: a pure rename, no instruction — the
    /// destination identifier is bound to the source's current value.
    pub fn emit_mov(
        &mut self,
        m: &mut MethodEmitContext,
        _data: MovDetails,
        arguments: MovArgs<SpirvWord>,
    ) -> (r: Result<(), TranslateError>)
        requires
            old(self).inv(),
            method_ctx_inv(*old(m)),
        ensures
            final(self).inv(),
            method_ctx_inv(*final(m)),
            module_frame(*old(self), *final(self)),
            *final(m) == *old(m),
            final(self).module.values@ == old(self).module.values@,
            (r matches Ok(_) <==> old(self).resolver.values_view().contains_key(arguments.src)),
            match r {
                Ok(_) => final(self).resolver.values_view() == old(self).resolver.values_view().insert(
                    arguments.dst,
                    old(self).resolver.values_view()[arguments.src],
                ),
                Err(e) => e == TranslateError::Unreachable && *final(self) == *old(self),
            },
    {
        let v = match self.resolver.value(arguments.src) {
            Ok(v) => v,
            Err(e) => {
                return Err(e);
            },
        };
        self.resolver.register(arguments.dst, v);
        Ok(())
    }

    /// Materializes a constant of the given scalar type and binds the
    /// destination identifier to it; no instruction is emitted.
    pub fn emit_constant(&mut self, m: &mut MethodEmitContext, constant: ConstantDefinition) -> (r:
        Result<(), TranslateError>)
        requires
            old(self).inv(),
            method_ctx_inv(*old(m)),
        ensures
            final(self).inv(),
            method_ctx_inv(*final(m)),
            module_frame(*old(self), *final(self)),
            *final(m) == *old(m),
            (r matches Ok(_) <==> crate::llvm::scalar_llvm_type(constant.typ) is Some),
            match r {
                Ok(_) => {
                    &&& final(self).module.values@.len() == old(self).module.values@.len() + 1
                    &&& final(self).module.values@.last() matches ValueDef::Const { ty, value }
                        && crate::llvm::scalar_llvm_type(constant.typ) == Some(ty) && value
                        == constant.value
                    &&& final(self).resolver.values_view() == old(self).resolver.values_view().insert(constant.dst, old(self).module.values@.len() as usize)
                },
                Err(e) => e == TranslateError::Todo && *final(self) == *old(self),
            },
    {
        let ty = match get_scalar_type(constant.typ) {
            Ok(t) => t,
            Err(e) => {
                return Err(e);
            },
        };
        let h = self.module.values.len();
        self.module.values.push(ValueDef::Const { ty, value: constant.value });
        self.resolver.register(constant.dst, h);
        proof {
            assert(self.module.values@.drop_last() =~= old(self).module.values@);
        }
        Ok(())
    }
}

/// The LLVM type a method input argument maps to.
pub open spec fn input_arg_rel(t: Type, space: crate::ast::StateSpace, l: LlvmType) -> bool {
    match space {
        crate::ast::StateSpace::ParamEntry => l == LlvmType::Pointer(CONSTANT_ADDRESS_SPACE),
        crate::ast::StateSpace::Reg => llvm_type_rel(t, l),
        _ => false,
    }
}

/// Whether a method input argument has an LLVM mapping.
pub open spec fn input_arg_type_ok(t: Type, space: crate::ast::StateSpace) -> bool {
    match space {
        crate::ast::StateSpace::ParamEntry => true,
        crate::ast::StateSpace::Reg => llvm_type_ok(t),
        _ => false,
    }
}

impl ModuleEmitContext {
    /// Emits `ld`: only weak, coherent loads are supported; loads the
    /// value's type from the bound source pointer and binds the
    /// destination to the loaded value.
    pub fn emit_ld(
        &mut self,
        m: &mut MethodEmitContext,
        data: LdDetails,
        arguments: LdArgs<SpirvWord>,
    ) -> (r: Result<(), TranslateError>)
        requires
            old(self).inv(),
            method_ctx_inv(*old(m)),
        ensures
            final(self).inv(),
            method_ctx_inv(*final(m)),
            module_frame(*old(self), *final(self)),
            (r matches Ok(_) <==> (!data.non_coherent && data.qualifier == LdStQualifier::Weak
                && llvm_type_ok(data.typ) && old(self).resolver.values_view().contains_key(
                arguments.src,
            ))),
            match r {
                Ok(_) => {
                    &&& final(m).blocks@.len() == old(m).blocks@.len()
                    &&& final(m).current_block == old(m).current_block
                    &&& forall|i: int|
                        0 <= i < old(m).blocks@.len() && i != old(m).current_block ==> final(m).blocks@[i] == old(m).blocks@[i]
                    &&& final(m).blocks@[old(m).current_block as int].insts@.len() == old(m).blocks@[old(m).current_block as int].insts@.len() + 1
                    &&& old(m).blocks@[old(m).current_block as int].insts@.is_prefix_of(
                        final(m).blocks@[old(m).current_block as int].insts@,
                    )
                    &&& final(m).blocks@[old(m).current_block as int].insts@.last() matches LlvmInst::Load {
                        result,
                        ty,
                        ptr,
                        name,
                    } && result == old(self).module.values@.len() && llvm_type_rel(data.typ, ty)
                        && ptr == old(self).resolver.values_view()[arguments.src] && name@
                        == dec_digits(arguments.dst as nat)
                    &&& final(self).module.values@.len() == old(self).module.values@.len() + 1
                    &&& final(self).module.values@.last() is Inst
                    &&& final(self).resolver.values_view() == old(self).resolver.values_view().insert(
                        arguments.dst,
                        old(self).module.values@.len() as usize,
                    )
                },
                Err(e) => {
                    &&& *final(self) == *old(self)
                    &&& *final(m) == *old(m)
                    &&& (e == TranslateError::Todo <==> (data.non_coherent || data.qualifier
                        != LdStQualifier::Weak || !llvm_type_ok(data.typ)))
                    &&& (e == TranslateError::Todo || e == TranslateError::Unreachable)
                },
            },
    {
        if data.non_coherent {
            return Err(TranslateError::Todo);
        }
        if !matches!(data.qualifier, LdStQualifier::Weak) {
            return Err(TranslateError::Todo);
        }
        let ty = match get_type(&data.typ) {
            Ok(t) => t,
            Err(e) => {
                return Err(e);
            },
        };
        let ptr = match self.resolver.value(arguments.src) {
            Ok(v) => v,
            Err(e) => {
                return Err(e);
            },
        };
        let name = self.resolver.get_or_add(arguments.dst);
        let h = self.module.values.len();
        self.module.values.push(ValueDef::Inst);
        push_to_current(m, LlvmInst::Load { result: h, ty, ptr, name });
        self.resolver.register(arguments.dst, h);
        proof {
            assert(self.module.values@.drop_last() =~= old(self).module.values@);
        }
        Ok(())
    }

    /// Emits a lowered variable load: loads the variable's type from the
    /// bound source pointer; member access is not yet supported.
    pub fn emit_load_variable(&mut self, m: &mut MethodEmitContext, var: LoadVarDetails) -> (r:
        Result<(), TranslateError>)
        requires
            old(self).inv(),
            method_ctx_inv(*old(m)),
        ensures
            final(self).inv(),
            method_ctx_inv(*final(m)),
            module_frame(*old(self), *final(self)),
            (r matches Ok(_) <==> (var.member_index is None && llvm_type_ok(var.typ) && old(self).resolver.values_view().contains_key(var.arg.src))),
            match r {
                Ok(_) => {
                    &&& final(m).blocks@.len() == old(m).blocks@.len()
                    &&& final(m).current_block == old(m).current_block
                    &&& forall|i: int|
                        0 <= i < old(m).blocks@.len() && i != old(m).current_block ==> final(m).blocks@[i] == old(m).blocks@[i]
                    &&& final(m).blocks@[old(m).current_block as int].insts@.len() == old(m).blocks@[old(m).current_block as int].insts@.len() + 1
                    &&& final(m).blocks@[old(m).current_block as int].insts@.last() matches LlvmInst::Load {
                        result,
                        ty,
                        ptr,
                        name,
                    } && result == old(self).module.values@.len() && llvm_type_rel(var.typ, ty)
                        && ptr == old(self).resolver.values_view()[var.arg.src] && name@
                        == dec_digits(var.arg.dst as nat)
                    &&& final(self).module.values@.len() == old(self).module.values@.len() + 1
                    &&& final(self).resolver.values_view() == old(self).resolver.values_view().insert(
                        var.arg.dst,
                        old(self).module.values@.len() as usize,
                    )
                },
                Err(e) => {
                    &&& *final(self) == *old(self)
                    &&& *final(m) == *old(m)
                    &&& (e == TranslateError::Todo <==> (var.member_index is Some
                        || !llvm_type_ok(var.typ)))
                    &&& (e == TranslateError::Todo || e == TranslateError::Unreachable)
                },
            },
    {
        if var.member_index.is_some() {
            return Err(TranslateError::Todo);
        }
        let ty = match get_type(&var.typ) {
            Ok(t) => t,
            Err(e) => {
                return Err(e);
            },
        };
        let ptr = match self.resolver.value(var.arg.src) {
            Ok(v) => v,
            Err(e) => {
                return Err(e);
            },
        };
        let name = self.resolver.get_or_add(var.arg.dst);
        let h = self.module.values.len();
        self.module.values.push(ValueDef::Inst);
        push_to_current(m, LlvmInst::Load { result: h, ty, ptr, name });
        self.resolver.register(var.arg.dst, h);
        proof {
            assert(self.module.values@.drop_last() =~= old(self).module.values@);
        }
        Ok(())
    }

    /// Emits an implicit conversion: only `BitToPtr` — an int-to-pointer
    /// cast into the target address space — is implemented.
    pub fn emit_conversion(&mut self, m: &mut MethodEmitContext, conversion: ImplicitConversion)
        -> (r: Result<(), TranslateError>)
        requires
            old(self).inv(),
            method_ctx_inv(*old(m)),
        ensures
            final(self).inv(),
            method_ctx_inv(*final(m)),
            module_frame(*old(self), *final(self)),
            (r matches Ok(_) <==> (conversion.kind == ConversionKind::BitToPtr && old(self).resolver.values_view().contains_key(conversion.src) && state_space_to_llvm(
                conversion.to_space,
            ) is Ok)),
            match r {
                Ok(_) => {
                    &&& final(m).blocks@.len() == old(m).blocks@.len()
                    &&& final(m).current_block == old(m).current_block
                    &&& forall|i: int|
                        0 <= i < old(m).blocks@.len() && i != old(m).current_block ==> final(m).blocks@[i] == old(m).blocks@[i]
                    &&& final(m).blocks@[old(m).current_block as int].insts@.len() == old(m).blocks@[old(m).current_block as int].insts@.len() + 1
                    &&& final(m).blocks@[old(m).current_block as int].insts@.last() matches LlvmInst::IntToPtr {
                        result,
                        src,
                        ty,
                        name,
                    } && result == old(self).module.values@.len() && src == old(self).resolver.values_view()[conversion.src] && ty == LlvmType::Pointer(
                        state_space_to_llvm(conversion.to_space)->Ok_0,
                    ) && name@ == dec_digits(conversion.dst as nat)
                    &&& final(self).module.values@.len() == old(self).module.values@.len() + 1
                    &&& final(self).resolver.values_view() == old(self).resolver.values_view().insert(
                        conversion.dst,
                        old(self).module.values@.len() as usize,
                    )
                },
                Err(e) => {
                    &&& *final(self) == *old(self)
                    &&& *final(m) == *old(m)
                    &&& (e == TranslateError::Todo || e == TranslateError::Unreachable)
                },
            },
    {
        match conversion.kind {
            ConversionKind::BitToPtr => {
                let src = match self.resolver.value(conversion.src) {
                    Ok(v) => v,
                    Err(e) => {
                        return Err(e);
                    },
                };
                let ty = match get_pointer_type(conversion.to_space) {
                    Ok(t) => t,
                    Err(e) => {
                        return Err(e);
                    },
                };
                let name = self.resolver.get_or_add(conversion.dst);
                let h = self.module.values.len();
                self.module.values.push(ValueDef::Inst);
                push_to_current(m, LlvmInst::IntToPtr { result: h, src, ty, name });
                self.resolver.register(conversion.dst, h);
                proof {
                    assert(self.module.values@.drop_last() =~= old(self).module.values@);
                }
                Ok(())
            },
            _ => Err(TranslateError::Todo),
        }
    }

    /// Emits `add`: an integer or floating-point addition, dispatched on
    /// the arithmetic variant, never on the operands' LLVM types.
    pub fn emit_add(
        &mut self,
        m: &mut MethodEmitContext,
        data: ArithDetails,
        arguments: AddArgs<SpirvWord>,
    ) -> (r: Result<(), TranslateError>)
        requires
            old(self).inv(),
            method_ctx_inv(*old(m)),
        ensures
            final(self).inv(),
            method_ctx_inv(*final(m)),
            module_frame(*old(self), *final(self)),
            (r matches Ok(_) <==> (old(self).resolver.values_view().contains_key(arguments.src1)
                && old(self).resolver.values_view().contains_key(arguments.src2))),
            match r {
                Ok(_) => {
                    &&& final(m).blocks@.len() == old(m).blocks@.len()
                    &&& final(m).current_block == old(m).current_block
                    &&& forall|i: int|
                        0 <= i < old(m).blocks@.len() && i != old(m).current_block ==> final(m).blocks@[i] == old(m).blocks@[i]
                    &&& final(m).blocks@[old(m).current_block as int].insts@.len() == old(m).blocks@[old(m).current_block as int].insts@.len() + 1
                    &&& (data is Integer ==> final(m).blocks@[old(m).current_block as int].insts@.last() == (LlvmInst::IntAdd {
                        result: old(self).module.values@.len() as usize,
                        lhs: old(self).resolver.values_view()[arguments.src1],
                        rhs: old(self).resolver.values_view()[arguments.src2],
                        name: final(m).blocks@[old(m).current_block as int].insts@.last()->IntAdd_name,
                    }) && final(m).blocks@[old(m).current_block as int].insts@.last()->IntAdd_name@ == dec_digits(
                        arguments.dst as nat,
                    ))
                    &&& (data is Float ==> (final(m).blocks@[old(m).current_block as int].insts@.last() matches LlvmInst::FloatAdd {
                        result,
                        lhs,
                        rhs,
                        name,
                    } && result == old(self).module.values@.len() && lhs == old(self).resolver.values_view()[arguments.src1] && rhs == old(self).resolver.values_view()[arguments.src2] && name@ == dec_digits(
                        arguments.dst as nat,
                    )))
                    &&& final(self).module.values@.len() == old(self).module.values@.len() + 1
                    &&& final(self).resolver.values_view() == old(self).resolver.values_view().insert(
                        arguments.dst,
                        old(self).module.values@.len() as usize,
                    )
                },
                Err(e) => {
                    &&& e == TranslateError::Unreachable
                    &&& *final(self) == *old(self)
                    &&& *final(m) == *old(m)
                },
            },
    {
        let src1 = match self.resolver.value(arguments.src1) {
            Ok(v) => v,
            Err(e) => {
                return Err(e);
            },
        };
        let src2 = match self.resolver.value(arguments.src2) {
            Ok(v) => v,
            Err(e) => {
                return Err(e);
            },
        };
        let name = self.resolver.get_or_add(arguments.dst);
        let h = self.module.values.len();
        self.module.values.push(ValueDef::Inst);
        let inst = match data {
            ArithDetails::Integer(_) => LlvmInst::IntAdd { result: h, lhs: src1, rhs: src2, name },
            ArithDetails::Float(_) => LlvmInst::FloatAdd { result: h, lhs: src1, rhs: src2, name },
        };
        push_to_current(m, inst);
        self.resolver.register(arguments.dst, h);
        proof {
            assert(self.module.values@.drop_last() =~= old(self).module.values@);
        }
        Ok(())
    }

    /// Emits `st`: only the weak qualifier is supported; stores the bound
    /// value of `src2` through the bound pointer of `src1`.
    pub fn emit_st(
        &mut self,
        m: &mut MethodEmitContext,
        data: StData,
        arguments: StArgs<SpirvWord>,
    ) -> (r: Result<(), TranslateError>)
        requires
            old(self).inv(),
            method_ctx_inv(*old(m)),
        ensures
            final(self).inv(),
            method_ctx_inv(*final(m)),
            module_frame(*old(self), *final(self)),
            final(self).module.values@ == old(self).module.values@,
            final(self).resolver == old(self).resolver,
            (r matches Ok(_) <==> (old(self).resolver.values_view().contains_key(arguments.src1)
                && old(self).resolver.values_view().contains_key(arguments.src2) && data.qualifier
                == LdStQualifier::Weak)),
            match r {
                Ok(_) => {
                    &&& final(m).blocks@.len() == old(m).blocks@.len()
                    &&& final(m).current_block == old(m).current_block
                    &&& forall|i: int|
                        0 <= i < old(m).blocks@.len() && i != old(m).current_block ==> final(m).blocks@[i] == old(m).blocks@[i]
                    &&& final(m).blocks@[old(m).current_block as int].insts@ == old(m).blocks@[old(m).current_block as int].insts@.push(
                        LlvmInst::Store {
                            value: old(self).resolver.values_view()[arguments.src2],
                            ptr: old(self).resolver.values_view()[arguments.src1],
                        },
                    )
                },
                Err(e) => {
                    &&& *final(m) == *old(m)
                    &&& (e == TranslateError::Todo <==> (old(self).resolver.values_view().contains_key(arguments.src1) && old(self).resolver.values_view().contains_key(arguments.src2)))
                    &&& (e == TranslateError::Todo || e == TranslateError::Unreachable)
                },
            },
    {
        let ptr = match self.resolver.value(arguments.src1) {
            Ok(v) => v,
            Err(e) => {
                return Err(e);
            },
        };
        let value = match self.resolver.value(arguments.src2) {
            Ok(v) => v,
            Err(e) => {
                return Err(e);
            },
        };
        if !matches!(data.qualifier, LdStQualifier::Weak) {
            return Err(TranslateError::Todo);
        }
        push_to_current(m, LlvmInst::Store { value, ptr });
        Ok(())
    }
}

/// A call is emittable: the declared and named return lists are both
/// empty or both singletons, every declared argument has an LLVM mapping,
/// and every named value — inputs and callee — is bound.
pub open spec fn call_emittable(
    data: CallDetails,
    arguments: CallArgs<SpirvWord, SpirvWord>,
    vals: Map<SpirvWord, usize>,
) -> bool {
    &&& ((data.return_arguments@.len() == 0 && arguments.return_arguments@.len() == 0) || (
    data.return_arguments@.len() == 1 && arguments.return_arguments@.len() == 1))
    &&& forall|k: int|
        0 <= k < data.input_arguments@.len() ==> input_arg_type_ok(
            (#[trigger] data.input_arguments@[k]).0,
            data.input_arguments@[k].1,
        )
    &&& (data.return_arguments@.len() == 1 ==> llvm_type_ok(data.return_arguments@[0].0))
    &&& forall|k: int|
        0 <= k < arguments.input_arguments@.len() ==> vals.contains_key(
            #[trigger] arguments.input_arguments@[k],
        )
    &&& vals.contains_key(arguments.func)
}

/// How many variable declarations — hence allocas — a lowered statement
/// list holds.
pub open spec fn variable_statement_count(ss: Seq<LoweredStatement>) -> nat
    decreases ss.len(),
{
    if ss.len() == 0 {
        0
    } else {
        variable_statement_count(ss.drop_last()) + (if ss.last() is Variable {
            1nat
        } else {
            0nat
        })
    }
}

/// What emitting one typed instruction does, by opcode: the success
/// condition is exact, and on success the principal effect — the
/// instruction appended to the current block and the identifier binding —
/// is pinned. `mov` emits nothing: it rebinds. Opcodes whose lowering is
/// an open item fail as not yet supported and change nothing.
pub open spec fn instruction_emitted(
    pre_self: ModuleEmitContext,
    post_self: ModuleEmitContext,
    pre_m: MethodEmitContext,
    post_m: MethodEmitContext,
    inst: FlatInstruction,
    r: Result<(), TranslateError>,
) -> bool {
    match inst {
        Instruction::Mov { arguments, .. } => {
            &&& (r matches Ok(_) <==> pre_self.resolver.values_view().contains_key(arguments.src))
            &&& (r matches Ok(_) ==> post_m == pre_m && post_self.module.values@
                == pre_self.module.values@ && post_self.resolver.values_view()
                == pre_self.resolver.values_view().insert(
                arguments.dst,
                pre_self.resolver.values_view()[arguments.src],
            ))
        },
        Instruction::Ld { data, arguments } => {
            &&& (r matches Ok(_) <==> (!data.non_coherent && data.qualifier == LdStQualifier::Weak
                && llvm_type_ok(data.typ) && pre_self.resolver.values_view().contains_key(
                arguments.src,
            )))
            &&& (r matches Ok(_) ==> post_m.blocks@[pre_m.current_block as int].insts@.len()
                == pre_m.blocks@[pre_m.current_block as int].insts@.len() + 1 && post_m.blocks@[
                pre_m.current_block as int].insts@.last() is Load
                && post_m.blocks@[0] == pre_m.blocks@[0]
                && post_self.resolver.values_view() == pre_self.resolver.values_view().insert(
                arguments.dst,
                pre_self.module.values@.len() as usize,
            ))
        },
        Instruction::St { data, arguments } => {
            &&& (r matches Ok(_) <==> (pre_self.resolver.values_view().contains_key(
                arguments.src1,
            ) && pre_self.resolver.values_view().contains_key(arguments.src2) && data.qualifier
                == LdStQualifier::Weak))
            &&& (r matches Ok(_) ==> post_m.blocks@[pre_m.current_block as int].insts@
                == pre_m.blocks@[pre_m.current_block as int].insts@.push(
                LlvmInst::Store {
                    value: pre_self.resolver.values_view()[arguments.src2],
                    ptr: pre_self.resolver.values_view()[arguments.src1],
                },
            ) && post_m.blocks@[0] == pre_m.blocks@[0] && post_self.resolver.values_view()
                == pre_self.resolver.values_view())
        },
        Instruction::Add { data, arguments } => {
            &&& (r matches Ok(_) <==> (pre_self.resolver.values_view().contains_key(
                arguments.src1,
            ) && pre_self.resolver.values_view().contains_key(arguments.src2)))
            &&& (r matches Ok(_) ==> post_m.blocks@[pre_m.current_block as int].insts@.len()
                == pre_m.blocks@[pre_m.current_block as int].insts@.len() + 1 && (data is Integer
                ==> post_m.blocks@[pre_m.current_block as int].insts@.last() is IntAdd) && (
            data is Float ==> post_m.blocks@[pre_m.current_block as int].insts@.last() is FloatAdd)
                && post_m.blocks@[0] == pre_m.blocks@[0]
                && post_self.resolver.values_view() == pre_self.resolver.values_view().insert(
                arguments.dst,
                pre_self.module.values@.len() as usize,
            ))
        },
        Instruction::Ret { .. } => {
            &&& r matches Ok(_)
            &&& post_m.blocks@[pre_m.current_block as int].insts@ == pre_m.blocks@[
                pre_m.current_block as int].insts@.push(LlvmInst::RetVoid)
            &&& post_m.blocks@[0] == pre_m.blocks@[0]
            &&& post_self == pre_self
        },
        Instruction::Call { data, arguments } => {
            &&& (r matches Ok(_) <==> call_emittable(
                data,
                arguments,
                pre_self.resolver.values_view(),
            ))
            &&& (r matches Ok(_) ==> post_m.blocks@[pre_m.current_block as int].insts@.len()
                == pre_m.blocks@[pre_m.current_block as int].insts@.len() + 1 && post_m.blocks@[
                pre_m.current_block as int].insts@.last() is Call && post_m.blocks@[0]
                == pre_m.blocks@[0] && (
            arguments.return_arguments@.len() == 1 ==> post_self.resolver.values_view()
                == pre_self.resolver.values_view().insert(
                arguments.return_arguments@[0],
                pre_self.module.values@.len() as usize,
            )) && (arguments.return_arguments@.len() == 0 ==> post_self.resolver.values_view()
                == pre_self.resolver.values_view()))
        },
        Instruction::Other { .. } => r == Err::<(), TranslateError>(TranslateError::Todo)
            && post_self == pre_self && post_m == pre_m,
    }
}

/// What emitting one lowered statement does, by form; instructions defer
/// to `instruction_emitted`, and the forms later passes do not yet lower
/// fail as not yet supported and change nothing.
pub open spec fn statement_emitted(
    pre_self: ModuleEmitContext,
    post_self: ModuleEmitContext,
    pre_m: MethodEmitContext,
    post_m: MethodEmitContext,
    statement: LoweredStatement,
    r: Result<(), TranslateError>,
) -> bool {
    match statement {
        LoweredStatement::Label(label) => {
            &&& r matches Ok(_)
            &&& post_m.blocks@.len() == pre_m.blocks@.len() + 1
            &&& post_m.current_block == pre_m.blocks@.len()
            &&& post_m.blocks@.last().name@ == dec_digits(label as nat)
            &&& post_m.blocks@.last().insts@.len() == 0
            &&& post_m.blocks@[0] == pre_m.blocks@[0]
            &&& post_self.resolver.values_view() == pre_self.resolver.values_view()
        },
        LoweredStatement::Variable(var) => {
            &&& (r matches Ok(_) <==> (var.array_init@.len() == 0 && llvm_type_ok(var.v_type)
                && state_space_to_llvm(var.state_space) is Ok))
            &&& (r matches Ok(_) ==> post_m.blocks@[0].insts@.len() == pre_m.blocks@[0].insts@.len()
                + 1 && post_m.blocks@[0].insts@.last() is Alloca
                && post_self.resolver.values_view() == pre_self.resolver.values_view().insert(
                var.name,
                pre_self.module.values@.len() as usize,
            ))
        },
        LoweredStatement::Instruction(inst) => instruction_emitted(
            pre_self,
            post_self,
            pre_m,
            post_m,
            inst,
            r,
        ),
        LoweredStatement::LoadVar(var) => {
            &&& (r matches Ok(_) <==> (var.member_index is None && llvm_type_ok(var.typ)
                && pre_self.resolver.values_view().contains_key(var.arg.src)))
            &&& (r matches Ok(_) ==> post_m.blocks@[pre_m.current_block as int].insts@.len()
                == pre_m.blocks@[pre_m.current_block as int].insts@.len() + 1 && post_m.blocks@[
                pre_m.current_block as int].insts@.last() is Load
                && post_m.blocks@[0] == pre_m.blocks@[0]
                && post_self.resolver.values_view() == pre_self.resolver.values_view().insert(
                var.arg.dst,
                pre_self.module.values@.len() as usize,
            ))
        },
        LoweredStatement::StoreVar(store) => {
            &&& (r matches Ok(_) <==> (pre_self.resolver.values_view().contains_key(
                store.arg.src1,
            ) && pre_self.resolver.values_view().contains_key(store.arg.src2)))
            &&& (r matches Ok(_) ==> post_m.blocks@[pre_m.current_block as int].insts@
                == pre_m.blocks@[pre_m.current_block as int].insts@.push(
                LlvmInst::Store {
                    value: pre_self.resolver.values_view()[store.arg.src2],
                    ptr: pre_self.resolver.values_view()[store.arg.src1],
                },
            ) && post_m.blocks@[0] == pre_m.blocks@[0] && post_self.resolver.values_view()
                == pre_self.resolver.values_view())
        },
        LoweredStatement::Conversion(conversion) => {
            &&& (r matches Ok(_) <==> (conversion.kind == ConversionKind::BitToPtr
                && pre_self.resolver.values_view().contains_key(conversion.src)
                && state_space_to_llvm(conversion.to_space) is Ok))
            &&& (r matches Ok(_) ==> post_m.blocks@[pre_m.current_block as int].insts@.len()
                == pre_m.blocks@[pre_m.current_block as int].insts@.len() + 1 && post_m.blocks@[
                pre_m.current_block as int].insts@.last() is IntToPtr
                && post_m.blocks@[0] == pre_m.blocks@[0]
                && post_self.resolver.values_view() == pre_self.resolver.values_view().insert(
                conversion.dst,
                pre_self.module.values@.len() as usize,
            ))
        },
        LoweredStatement::Constant(constant) => {
            &&& (r matches Ok(_) <==> crate::llvm::scalar_llvm_type(constant.typ) is Some)
            &&& (r matches Ok(_) ==> post_m == pre_m && post_self.module.values@.len()
                == pre_self.module.values@.len() + 1 && post_self.resolver.values_view()
                == pre_self.resolver.values_view().insert(
                constant.dst,
                pre_self.module.values@.len() as usize,
            ))
        },
        LoweredStatement::Conditional(_) => r == Err::<(), TranslateError>(TranslateError::Todo)
            && post_self == pre_self && post_m == pre_m,
        LoweredStatement::RetValue(_, _) => r == Err::<(), TranslateError>(TranslateError::Todo)
            && post_self == pre_self && post_m == pre_m,
        LoweredStatement::PtrAccess { .. } => r == Err::<(), TranslateError>(TranslateError::Todo)
            && post_self == pre_self && post_m == pre_m,
        LoweredStatement::RepackVector { .. } => r == Err::<(), TranslateError>(
            TranslateError::Todo,
        ) && post_self == pre_self && post_m == pre_m,
        LoweredStatement::FunctionPointer { .. } => r == Err::<(), TranslateError>(
            TranslateError::Todo,
        ) && post_self == pre_self && post_m == pre_m,
        LoweredStatement::VectorAccess { .. } => r == Err::<(), TranslateError>(
            TranslateError::Todo,
        ) && post_self == pre_self && post_m == pre_m,
    }
}

impl ModuleEmitContext {
    /// Emits `call`: builds the function type from the declared types,
    /// collects the bound argument values, emits the call, and binds a
    /// single named result; multiple return values are not yet supported.
    pub fn emit_call(
        &mut self,
        m: &mut MethodEmitContext,
        data: CallDetails,
        arguments: CallArgs<SpirvWord, SpirvWord>,
    ) -> (r: Result<(), TranslateError>)
        requires
            old(self).inv(),
            method_ctx_inv(*old(m)),
        ensures
            final(self).inv(),
            method_ctx_inv(*final(m)),
            module_frame(*old(self), *final(self)),
            (r matches Ok(_) <==> call_emittable(data, arguments, old(self).resolver.values_view())),
            match r {
                Ok(_) => {
                    &&& final(m).blocks@.len() == old(m).blocks@.len()
                    &&& final(m).current_block == old(m).current_block
                    &&& forall|i: int|
                        0 <= i < old(m).blocks@.len() && i != old(m).current_block ==> final(m).blocks@[i] == old(m).blocks@[i]
                    &&& final(m).blocks@[old(m).current_block as int].insts@.len() == old(m).blocks@[old(m).current_block as int].insts@.len() + 1
                    &&& final(m).blocks@[old(m).current_block as int].insts@.last() matches LlvmInst::Call {
                        result,
                        fn_ty,
                        callee,
                        args,
                        name,
                    } && result == old(self).module.values@.len() && callee == old(self).resolver.values_view()[arguments.func] && args@.len()
                        == arguments.input_arguments@.len() && (forall|k: int|
                        0 <= k < args@.len() ==> args@[k] == old(self).resolver.values_view()[
                            arguments.input_arguments@[k]]) && (fn_ty matches LlvmType::Function(
                        rt,
                        ps,
                    ) && ps@.len() == data.input_arguments@.len() && (forall|k: int|
                        0 <= k < ps@.len() ==> input_arg_rel(
                            (#[trigger] data.input_arguments@[k]).0,
                            data.input_arguments@[k].1,
                            ps@[k],
                        )) && (if data.return_arguments@.len() == 0 {
                        *rt == LlvmType::Void
                    } else {
                        llvm_type_rel(data.return_arguments@[0].0, *rt)
                    })) && (if arguments.return_arguments@.len() == 1 {
                        name@ == dec_digits(arguments.return_arguments@[0] as nat)
                    } else {
                        name@.len() == 0
                    })
                    &&& final(self).module.values@.len() == old(self).module.values@.len() + 1
                    &&& final(self).module.values@.last() is Inst
                    &&& (arguments.return_arguments@.len() == 1 ==> final(self).resolver.values_view() == old(self).resolver.values_view().insert(
                        arguments.return_arguments@[0],
                        old(self).module.values@.len() as usize,
                    ))
                    &&& (arguments.return_arguments@.len() == 0 ==> final(self).resolver.values_view() == old(self).resolver.values_view())
                },
                Err(e) => {
                    &&& *final(m) == *old(m)
                    &&& *final(self) == *old(self)
                    &&& (e == TranslateError::Todo || e == TranslateError::Unreachable)
                },
            },
    {
        let dst: Option<SpirvWord> =
            if data.return_arguments.len() == 0 && arguments.return_arguments.len() == 0 {
                None
            } else if data.return_arguments.len() == 1 && arguments.return_arguments.len() == 1 {
                Some(arguments.return_arguments[0])
            } else {
                return Err(TranslateError::Todo);
            };
        let mut input_types: Vec<LlvmType> = Vec::new();
        let mut i: usize = 0;
        while i < data.input_arguments.len()
            invariant
                old(self).inv(),
                *self == *old(self),
                *m == *old(m),
                method_ctx_inv(*m),
                i <= data.input_arguments@.len(),
                input_types@.len() == i,
                forall|k: int|
                    0 <= k < i ==> input_arg_rel(
                        (#[trigger] data.input_arguments@[k]).0,
                        data.input_arguments@[k].1,
                        input_types@[k],
                    ),
                forall|k: int|
                    0 <= k < i ==> input_arg_type_ok(
                        (#[trigger] data.input_arguments@[k]).0,
                        data.input_arguments@[k].1,
                    ),
            decreases data.input_arguments@.len() - i,
        {
            let pair = &data.input_arguments[i];
            match get_input_argument_type(&pair.0, pair.1) {
                Ok(t) => input_types.push(t),
                Err(e) => {
                    proof {
                        assert(!input_arg_type_ok(
                            data.input_arguments@[i as int].0,
                            data.input_arguments@[i as int].1,
                        ));
                    }
                    return Err(e);
                },
            }
            i = i + 1;
        }
        let mut ret_types: Vec<Type> = Vec::new();
        let mut i: usize = 0;
        while i < data.return_arguments.len()
            invariant
                old(self).inv(),
                *self == *old(self),
                *m == *old(m),
                method_ctx_inv(*m),
                i <= data.return_arguments@.len(),
                ret_types@.len() == i,
                forall|k: int|
                    0 <= k < i ==> crate::ast::types_equal(
                        #[trigger] ret_types@[k],
                        data.return_arguments@[k].0,
                    ),
            decreases data.return_arguments@.len() - i,
        {
            let pair = &data.return_arguments[i];
            ret_types.push(pair.0.clone());
            i = i + 1;
        }
        let fn_ty = match get_function_type(&ret_types, input_types) {
            Ok(t) => t,
            Err(e) => {
                proof {
                    if ret_types@.len() == 1 {
                        crate::llvm::lemma_type_rel_respects_eq(
                            ret_types@[0],
                            data.return_arguments@[0].0,
                            LlvmType::Void,
                        );
                    }
                }
                return Err(e);
            },
        };
        proof {
            if data.return_arguments@.len() == 1 {
                crate::llvm::lemma_type_rel_respects_eq(
                    ret_types@[0],
                    data.return_arguments@[0].0,
                    *fn_ty->Function_0,
                );
            }
        }
        let mut args: Vec<usize> = Vec::new();
        let mut i: usize = 0;
        while i < arguments.input_arguments.len()
            invariant
                old(self).inv(),
                *self == *old(self),
                *m == *old(m),
                method_ctx_inv(*m),
                i <= arguments.input_arguments@.len(),
                args@.len() == i,
                forall|k: int|
                    0 <= k < i ==> old(self).resolver.values_view().contains_key(
                        #[trigger] arguments.input_arguments@[k],
                    ) && args@[k] == old(self).resolver.values_view()[arguments.input_arguments@[
                        k]],
            decreases arguments.input_arguments@.len() - i,
        {
            match self.resolver.value(arguments.input_arguments[i]) {
                Ok(v) => args.push(v),
                Err(e) => {
                    return Err(e);
                },
            }
            i = i + 1;
        }
        let callee = match self.resolver.value(arguments.func) {
            Ok(v) => v,
            Err(e) => {
                return Err(e);
            },
        };
        let name: Vec<u8> = match dst {
            Some(d) => self.resolver.get_or_add(d),
            None => Vec::new(),
        };
        let h = self.module.values.len();
        self.module.values.push(ValueDef::Inst);
        push_to_current(m, LlvmInst::Call { result: h, fn_ty, callee, args, name });
        if let Some(d) = dst {
            self.resolver.register(d, h);
        }
        proof {
            assert(self.module.values@.drop_last() =~= old(self).module.values@);
        }
        Ok(())
    }

    /// Emits one typed instruction.
    pub fn emit_instruction(&mut self, m: &mut MethodEmitContext, inst: FlatInstruction) -> (r:
        Result<(), TranslateError>)
        requires
            old(self).inv(),
            method_ctx_inv(*old(m)),
        ensures
            final(self).inv(),
            method_ctx_inv(*final(m)),
            module_frame(*old(self), *final(self)),
            final(m).blocks@.len() >= old(m).blocks@.len(),
            old(m).blocks@[0].insts@.is_prefix_of(final(m).blocks@[0].insts@),
            forall|w: SpirvWord|
                old(self).resolver.values_view().contains_key(w) ==> final(self).resolver.values_view().contains_key(w),
            r matches Err(e) ==> (e == TranslateError::Todo || e == TranslateError::Unreachable),
            instruction_emitted(*old(self), *final(self), *old(m), *final(m), inst, r),
    {
        match inst {
            Instruction::Mov { data, arguments } => self.emit_mov(m, data, arguments),
            Instruction::Ld { data, arguments } => self.emit_ld(m, data, arguments),
            Instruction::St { data, arguments } => self.emit_st(m, data, arguments),
            Instruction::Add { data, arguments } => self.emit_add(m, data, arguments),
            Instruction::Ret { data } => {
                self.emit_ret(m, data);
                Ok(())
            },
            Instruction::Call { data, arguments } => self.emit_call(m, data, arguments),
            Instruction::Other { .. } => Err(TranslateError::Todo),
        }
    }

    /// Emits one lowered statement; the forms later passes do not yet
    /// lower are a known gap.
    pub fn emit_statement(&mut self, m: &mut MethodEmitContext, statement: LoweredStatement) -> (r:
        Result<(), TranslateError>)
        requires
            old(self).inv(),
            method_ctx_inv(*old(m)),
        ensures
            final(self).inv(),
            method_ctx_inv(*final(m)),
            module_frame(*old(self), *final(self)),
            final(m).blocks@.len() >= old(m).blocks@.len(),
            old(m).blocks@[0].insts@.is_prefix_of(final(m).blocks@[0].insts@),
            forall|w: SpirvWord|
                old(self).resolver.values_view().contains_key(w) ==> final(self).resolver.values_view().contains_key(w),
            r matches Err(e) ==> (e == TranslateError::Todo || e == TranslateError::Unreachable),
            statement_emitted(*old(self), *final(self), *old(m), *final(m), statement, r),
    {
        match statement {
            LoweredStatement::Variable(var) => self.emit_variable(m, var),
            LoweredStatement::Label(label) => {
                self.emit_label(m, label);
                Ok(())
            },
            LoweredStatement::Instruction(inst) => self.emit_instruction(m, inst),
            LoweredStatement::LoadVar(var) => self.emit_load_variable(m, var),
            LoweredStatement::StoreVar(store) => self.emit_store_var(m, store),
            LoweredStatement::Conversion(conversion) => self.emit_conversion(m, conversion),
            LoweredStatement::Constant(constant) => self.emit_constant(m, constant),
            LoweredStatement::Conditional(_) => Err(TranslateError::Todo),
            LoweredStatement::RetValue(_, _) => Err(TranslateError::Todo),
            LoweredStatement::PtrAccess { .. } => Err(TranslateError::Todo),
            LoweredStatement::RepackVector { .. } => Err(TranslateError::Todo),
            LoweredStatement::FunctionPointer { .. } => Err(TranslateError::Todo),
            LoweredStatement::VectorAccess { .. } => Err(TranslateError::Todo),
        }
    }
}

/// The externally-visible name a method is emitted under: the `import_as`
/// override, else the kernel name, else the device function's source name
/// from the identifier table; the absence of all three is an internal
/// error.
pub open spec fn chosen_method_name(
    import_as: Option<Vec<u8>>,
    name: MethodName<SpirvWord>,
    table: IdentityTable,
) -> Option<Seq<u8>> {
    match import_as {
        Some(n) => Some(n@),
        None => match name {
            MethodName::Kernel(n) => Some(n@),
            MethodName::Func(id) => if table.contains_id(id) && table.spec_entry(id).name is Some {
                Some(table.spec_entry(id).name->0@)
            } else {
                None
            },
        },
    }
}

/// The ABI contract of an emitted function.
///
/// A kernel carries the AMDGPU-kernel calling convention and one `byref`
/// type attribute per input parameter, at attribute index `i + 1`, naming
/// the parameter's PTX type; a device function carries the C calling
/// convention and no parameter attributes. A function with a body has the
/// prologue form: every alloca in the first block, which ends in exactly
/// one terminator, an unconditional branch to the second block.
pub open spec fn emitted_function_ok(
    f: LlvmFunction,
    method: Function2<LoweredStatement>,
    table: IdentityTable,
) -> bool {
    &&& chosen_method_name(method.import_as, method.func_decl.name, table) == Some(f.name@)
    &&& f.call_conv == (if method.func_decl.name.spec_is_kernel() {
        CallConv::AmdgpuKernel
    } else {
        CallConv::C
    })
    &&& f.params@.len() == method.func_decl.input_arguments@.len()
    &&& forall|i: int|
        0 <= i < f.params@.len() ==> (#[trigger] f.params@[i]).name@ == dec_digits(
            method.func_decl.input_arguments@[i].name as nat,
        )
    &&& (method.func_decl.name.spec_is_kernel() ==> f.byref_attrs@.len() == f.params@.len() && (
    forall|i: int|
        0 <= i < f.byref_attrs@.len() ==> (#[trigger] f.byref_attrs@[i]).index == i + 1
            && llvm_type_rel(
            method.func_decl.input_arguments@[i].v_type,
            f.byref_attrs@[i].pointee,
        )))
    &&& (!method.func_decl.name.spec_is_kernel() ==> f.byref_attrs@.len() == 0)
    &&& (method.body is Some ==> entry_allocas_form(f))
    &&& (method.body is Some ==> f.blocks@[0].insts@.len() == variable_statement_count(
        method.body->0@,
    ) + 1)
    &&& forall|bi: int, j: int|
        1 <= bi < f.blocks@.len() && 0 <= j < f.blocks@[bi].insts@.len() ==> !((
        #[trigger] f.blocks@[bi].insts@[j]) is Alloca)
    &&& (method.body is None ==> f.blocks@.len() == 0)
    &&& f.ty matches LlvmType::Function(rt, ps) && ps@.len()
        == method.func_decl.input_arguments@.len() && (forall|i: int|
        0 <= i < ps@.len() ==> input_arg_rel(
            (#[trigger] method.func_decl.input_arguments@[i]).v_type,
            method.func_decl.input_arguments@[i].state_space,
            ps@[i],
        )) && (if method.func_decl.return_arguments@.len() == 0 {
        *rt == LlvmType::Void
    } else {
        method.func_decl.return_arguments@.len() == 1 && llvm_type_rel(
            method.func_decl.return_arguments@[0].v_type,
            *rt,
        )
    })
}

/// A method declaration is emittable on its own: the external name
/// resolves, every input argument's type maps — for a kernel, including
/// the `byref` pointee — and there is at most one return argument, with a
/// mappable type.
pub open spec fn method_decl_emittable(
    method: Function2<LoweredStatement>,
    table: IdentityTable,
) -> bool {
    &&& chosen_method_name(method.import_as, method.func_decl.name, table) is Some
    &&& forall|i: int|
        0 <= i < method.func_decl.input_arguments@.len() ==> input_arg_type_ok(
            (#[trigger] method.func_decl.input_arguments@[i]).v_type,
            method.func_decl.input_arguments@[i].state_space,
        )
    &&& (method.func_decl.return_arguments@.len() == 0 || (
    method.func_decl.return_arguments@.len() == 1 && llvm_type_ok(
        method.func_decl.return_arguments@[0].v_type,
    )))
    &&& (method.func_decl.name.spec_is_kernel() ==> forall|i: int|
        0 <= i < method.func_decl.input_arguments@.len() ==> llvm_type_ok(
            (#[trigger] method.func_decl.input_arguments@[i]).v_type,
        ))
}

impl ModuleEmitContext {
    /// Emits one method: declares the function under its external name,
    /// registers parameters, attaches the kernel parameter attributes,
    /// sets the calling convention, and — when a body is present — emits
    /// its statements into a fresh pair of blocks, terminating the allocas
    /// block with a branch to the real entry block once all statements are
    /// placed.
    pub fn emit_method(&mut self, method: Function2<LoweredStatement>) -> (r: Result<
        (),
        TranslateError,
    >)
        requires
            old(self).inv(),
        ensures
            final(self).inv(),
            final(self).id_defs == old(self).id_defs,
            old(self).module.values@.is_prefix_of(final(self).module.values@),
            match r {
                Ok(_) => {
                    &&& final(self).module.functions@.len() == old(self).module.functions@.len() + 1
                    &&& old(self).module.functions@.is_prefix_of(final(self).module.functions@)
                    &&& emitted_function_ok(
                        final(self).module.functions@.last(),
                        method,
                        old(self).id_defs,
                    )
                    &&& (method.func_decl.name matches MethodName::Func(id) ==> final(self).resolver.values_view().contains_key(id))
                    &&& forall|i: int|
                        0 <= i < method.func_decl.input_arguments@.len() ==> final(self).resolver.values_view().contains_key(
                            (#[trigger] method.func_decl.input_arguments@[i]).name,
                        )
                },
                Err(e) => {
                    &&& final(self).module.functions == old(self).module.functions
                    &&& (e == TranslateError::Todo || e == TranslateError::Unreachable)
                },
            },
            // A declaration alone always emits: failure needs a missing
            // name, an unmappable type, or a body statement that fails.
            (method.body is None && method_decl_emittable(method, old(self).id_defs) ==> r
                matches Ok(_)),
            (chosen_method_name(method.import_as, method.func_decl.name, old(self).id_defs)
                is None ==> r == Err::<(), TranslateError>(TranslateError::Unreachable)),
    {
        let Function2 { func_decl, globals: _, body, import_as, tuning: _, linkage: _ } = method;
        let name: Vec<u8> = match &import_as {
            Some(n) => crate::util::bytes_clone(n),
            None => match &func_decl.name {
                MethodName::Kernel(n) => crate::util::bytes_clone(n),
                MethodName::Func(id) => match self.id_defs.ident_name(*id) {
                    Some(n) => crate::util::bytes_clone(n),
                    None => {
                        return Err(TranslateError::Unreachable);
                    },
                },
            },
        };
        let is_kernel = func_decl.name.is_kernel();
        let mut input_types: Vec<LlvmType> = Vec::new();
        let mut i: usize = 0;
        while i < func_decl.input_arguments.len()
            invariant
                old(self).inv(),
                *self == *old(self),
                func_decl == method.func_decl,
                chosen_method_name(method.import_as, method.func_decl.name, old(self).id_defs)
                    is Some,
                i <= func_decl.input_arguments@.len(),
                input_types@.len() == i,
                forall|k: int|
                    0 <= k < i ==> input_arg_rel(
                        (#[trigger] func_decl.input_arguments@[k]).v_type,
                        func_decl.input_arguments@[k].state_space,
                        input_types@[k],
                    ),
            decreases func_decl.input_arguments@.len() - i,
        {
            let arg = &func_decl.input_arguments[i];
            match get_input_argument_type(&arg.v_type, arg.state_space) {
                Ok(t) => input_types.push(t),
                Err(e) => {
                    proof {
                        assert(!input_arg_type_ok(
                            func_decl.input_arguments@[i as int].v_type,
                            func_decl.input_arguments@[i as int].state_space,
                        ));
                    }
                    return Err(e);
                },
            }
            i = i + 1;
        }
        let mut ret_types: Vec<Type> = Vec::new();
        let mut i: usize = 0;
        while i < func_decl.return_arguments.len()
            invariant
                old(self).inv(),
                *self == *old(self),
                i <= func_decl.return_arguments@.len(),
                ret_types@.len() == i,
                forall|k: int|
                    0 <= k < i ==> crate::ast::types_equal(
                        #[trigger] ret_types@[k],
                        func_decl.return_arguments@[k].v_type,
                    ),
            decreases func_decl.return_arguments@.len() - i,
        {
            ret_types.push(func_decl.return_arguments[i].v_type.clone());
            i = i + 1;
        }
        let fn_ty = match get_function_type(&ret_types, input_types) {
            Ok(t) => t,
            Err(e) => {
                proof {
                    if ret_types@.len() == 1 {
                        crate::llvm::lemma_type_rel_respects_eq(
                            ret_types@[0],
                            func_decl.return_arguments@[0].v_type,
                            LlvmType::Void,
                        );
                    }
                }
                return Err(e);
            },
        };
        proof {
            if func_decl.return_arguments@.len() == 1 {
                crate::llvm::lemma_type_rel_respects_eq(
                    ret_types@[0],
                    func_decl.return_arguments@[0].v_type,
                    *fn_ty->Function_0,
                );
            }
        }
        let fidx = self.module.functions.len();
        let fn_handle = self.module.values.len();
        self.module.values.push(ValueDef::FunctionRef { func_index: fidx });
        proof {
            assert(self.module.values@.drop_last() =~= old(self).module.values@);
        }
        if let MethodName::Func(id) = &func_decl.name {
            self.resolver.register(*id, fn_handle);
        }
        let mut params: Vec<LlvmParam> = Vec::new();
        let mut byref_attrs: Vec<ByrefAttr> = Vec::new();
        let mut i: usize = 0;
        while i < func_decl.input_arguments.len()
            invariant
                self.inv(),
                self.id_defs == old(self).id_defs,
                self.module.functions == old(self).module.functions,
                old(self).module.values@.is_prefix_of(self.module.values@),
                func_decl == method.func_decl,
                chosen_method_name(method.import_as, method.func_decl.name, old(self).id_defs)
                    is Some,
                i <= func_decl.input_arguments@.len(),
                params@.len() == i,
                forall|k: int|
                    0 <= k < i ==> (#[trigger] params@[k]).name@ == dec_digits(
                        func_decl.input_arguments@[k].name as nat,
                    ),
                is_kernel == func_decl.name.spec_is_kernel(),
                is_kernel ==> byref_attrs@.len() == i && (forall|k: int|
                    0 <= k < i ==> (#[trigger] byref_attrs@[k]).index == k + 1 && llvm_type_rel(
                        func_decl.input_arguments@[k].v_type,
                        byref_attrs@[k].pointee,
                    )),
                !is_kernel ==> byref_attrs@.len() == 0,
                func_decl.name matches MethodName::Func(id)
                    ==> self.resolver.values_view().contains_key(id),
                forall|k: int|
                    0 <= k < i ==> self.resolver.values_view().contains_key(
                        (#[trigger] func_decl.input_arguments@[k]).name,
                    ),
            decreases func_decl.input_arguments@.len() - i,
        {
            let arg = &func_decl.input_arguments[i];
            let h = self.module.values.len();
            let ghost pre_values = self.module.values@;
            self.module.values.push(ValueDef::Param { func_index: fidx, param_index: i });
            proof {
                assert(self.module.values@.drop_last() =~= pre_values);
                crate::normalize::lemma_prefix_trans(
                    old(self).module.values@,
                    pre_values,
                    self.module.values@,
                );
            }
            let pname = self.resolver.get_or_add(arg.name);
            self.resolver.register(arg.name, h);
            params.push(LlvmParam { name: pname, value: h });
            if is_kernel {
                let pointee = match get_type(&arg.v_type) {
                    Ok(t) => t,
                    Err(e) => {
                        proof {
                            assert(!llvm_type_ok(func_decl.input_arguments@[i as int].v_type));
                        }
                        return Err(e);
                    },
                };
                byref_attrs.push(ByrefAttr { index: i + 1, pointee });
            }
            i = i + 1;
        }
        let call_conv = if is_kernel {
            Self::kernel_call_convention()
        } else {
            Self::func_call_convention()
        };
        let blocks: Vec<LlvmBlock> = match body {
            Some(statements) => {
                let mut initial: Vec<LlvmBlock> = Vec::new();
                initial.push(LlvmBlock { name: Vec::new(), insts: Vec::new() });
                initial.push(LlvmBlock { name: Vec::new(), insts: Vec::new() });
                let mut mctx = MethodEmitContext { blocks: initial, current_block: 1 };
                let ghost body_stmts = statements@;
                let mut rem = statements;
                let ghost mut done: int = 0;
                while rem.len() > 0
                    invariant
                        self.inv(),
                        method_ctx_inv(mctx),
                        0 <= done <= body_stmts.len(),
                        rem@ == body_stmts.skip(done),
                        mctx.blocks@[0].insts@.len() == variable_statement_count(
                            body_stmts.take(done),
                        ),
                        self.id_defs == old(self).id_defs,
                        self.module.functions == old(self).module.functions,
                        old(self).module.values@.is_prefix_of(self.module.values@),
                        func_decl == method.func_decl,
                        method.body is Some,
                        chosen_method_name(method.import_as, method.func_decl.name, old(self).id_defs)
                            is Some,
                        func_decl.name matches MethodName::Func(id)
                            ==> self.resolver.values_view().contains_key(id),
                        forall|k: int|
                            0 <= k < func_decl.input_arguments@.len()
                                ==> self.resolver.values_view().contains_key(
                                (#[trigger] func_decl.input_arguments@[k]).name,
                            ),
                    decreases rem@.len(),
                {
                    let st = rem.remove(0);
                    proof {
                        assert(st == body_stmts[done]);
                        assert(rem@ =~= body_stmts.skip(done + 1));
                    }
                    let ghost pre = *self;
                    match self.emit_statement(&mut mctx, st) {
                        Ok(_) => {
                            proof {
                                crate::normalize::lemma_prefix_trans(
                                    old(self).module.values@,
                                    pre.module.values@,
                                    self.module.values@,
                                );
                                assert(body_stmts.take(done + 1).drop_last() =~= body_stmts.take(
                                    done,
                                ));
                                assert(body_stmts.take(done + 1).last() == body_stmts[done]);
                                done = done + 1;
                            }
                        },
                        Err(e) => {
                            proof {
                                crate::normalize::lemma_prefix_trans(
                                    old(self).module.values@,
                                    pre.module.values@,
                                    self.module.values@,
                                );
                            }
                            return Err(e);
                        },
                    }
                }
                proof {
                    assert(body_stmts.take(done) =~= body_stmts);
                }
                let MethodEmitContext { blocks: mut finished, current_block: _ } = mctx;
                let ghost emitted_blocks = finished@;
                let mut b0 = finished.remove(0);
                b0.insts.push(LlvmInst::Br { target: 1 });
                finished.insert(0, b0);
                proof {
                    assert forall|bi: int, j: int|
                        1 <= bi < finished@.len() && 0 <= j
                            < finished@[bi].insts@.len() implies !((
                    #[trigger] finished@[bi].insts@[j]) is Alloca) by {
                        assert(finished@[bi] == emitted_blocks.remove(0)[bi - 1]);
                        assert(emitted_blocks.remove(0)[bi - 1] == emitted_blocks[bi]);
                    }
                }
                finished
            },
            None => Vec::new(),
        };
        let f = LlvmFunction { name, ty: fn_ty, call_conv, params, byref_attrs, blocks };
        self.module.functions.push(f);
        proof {
            assert(self.module.functions@.drop_last() =~= old(self).module.functions@);
            let emitted = self.module.functions@.last();
            if method.body is Some {
                assert(emitted.blocks@[0].insts@.last() == (LlvmInst::Br { target: 1 }));
                assert(entry_allocas_form(emitted));
                assert(emitted.blocks@[0].insts@.len() == variable_statement_count(
                    method.body->0@,
                ) + 1);
            }
        }
        Ok(())
    }
}

/// The emission pass: lowers every directive of the typed stream into the
/// LLVM module model. Module-level variables are not yet supported.
pub fn run(id_defs: IdentityTable, directives: Vec<Directive2<LoweredStatement>>) -> (r: Result<
    LlvmModule,
    TranslateError,
>)
    ensures
        match r {
            Ok(module) => {
                &&& module.functions@.len() == directives@.len()
                &&& forall|k: int|
                    0 <= k < directives@.len() ==> ((#[trigger] directives@[k]) matches Directive2::Method(
                        method,
                    ) && emitted_function_ok(module.functions@[k], method, id_defs))
            },
            Err(e) => e == TranslateError::Todo || e == TranslateError::Unreachable,
        },
        // A module-level variable is a not-yet-supported construct, never
        // an internal error.
        (directives@.len() > 0 && directives@[0] is Variable ==> r == Err::<
            LlvmModule,
            TranslateError,
        >(TranslateError::Todo)),
        // A stream of emittable declarations always emits.
        ((forall|k: int|
            0 <= k < directives@.len() ==> ((#[trigger] directives@[k]) matches Directive2::Method(
                method,
            ) && method.body is None && method_decl_emittable(method, id_defs))) ==> r matches Ok(
            _,
        )),
{
    let mut ctx = ModuleEmitContext::new(id_defs);
    let mut rem = directives;
    let total: usize = rem.len();
    let mut processed: usize = 0;
    while rem.len() > 0
        invariant
            ctx.inv(),
            ctx.id_defs == id_defs,
            total == directives@.len(),
            processed + rem@.len() == directives@.len(),
            rem@ == directives@.skip(processed as int),
            ctx.module.functions@.len() == processed,
            forall|k: int|
                0 <= k < processed ==> ((#[trigger] directives@[k]) matches Directive2::Method(
                    method,
                ) && emitted_function_ok(ctx.module.functions@[k], method, id_defs)),
        decreases rem@.len(),
    {
        let d = rem.remove(0);
        proof {
            assert(d == directives@[processed as int]);
            assert(rem@ =~= directives@.skip(processed as int + 1));
        }
        match d {
            Directive2::Variable(..) => {
                return Err(TranslateError::Todo);
            },
            Directive2::Method(method) => {
                match ctx.emit_method(method) {
                    Ok(_) => {},
                    Err(e) => {
                        return Err(e);
                    },
                }
            },
        }
        processed = processed + 1;
    }
    Ok(ctx.module)
}

} // verus!
