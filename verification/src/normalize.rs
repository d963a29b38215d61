//! Identifier normalization.
//!
//! Walks the parsed directive stream, interns every symbol through the
//! scoped resolver, expands multi-variable declarations, hoists labels, and
//! produces a typed directive stream in which every operand is a numbered
//! identifier with a descriptor in the identifier table.

use vstd::prelude::*;
use crate::ast::{
    call_details_eq, ld_details_eq, mov_details_eq, st_data_eq, types_equal, variable_fields_eq,
    AddArgs, CallArgs, Directive2, Function2, Instruction, LdArgs, LinkingDirective,
    MethodDeclaration, MethodName, MovArgs, MultiVariable, NormalizedDirective2,
    NormalizedInstruction, NormalizedStatement, ParsedDirective, ParsedInstruction, ParsedMethod,
    ParsedOperand, ParsedStatement, PredAt, SpirvWord, StArgs, StateSpace, Type, Variable,
};
use crate::decimal::{dec_digits, lemma_suffix_names_distinct, u32_to_decimal};
use crate::error::TranslateError;
use crate::resolver::{
    lemma_binding_persists, lemma_lookup_absent, lemma_lookup_id_allocated, lemma_lookup_present,
    lookup_in_scope, scope_names_unique, scopes_lookup, Binding, ScopedResolver, IDENT_LIMIT,
};
use crate::util::{bytes_clone, bytes_extend};

verus! {

/// The outer scopes are untouched and the innermost scope has only grown.
pub open spec fn scopes_preserved(pre: ScopedResolver, post: ScopedResolver) -> bool {
    &&& post.scopes@.len() == pre.scopes@.len()
    &&& forall|i: int| 0 <= i < pre.scopes@.len() - 1 ==> post.scopes@[i] == pre.scopes@[i]
    &&& pre.current_scope().is_prefix_of(post.current_scope())
}

/// The identifier table has only grown.
pub open spec fn table_extended(pre: ScopedResolver, post: ScopedResolver) -> bool {
    pre.table.entries@.is_prefix_of(post.table.entries@)
}

/// The error kinds name resolution can produce. The pass itself has no
/// unimplemented constructs, so a `Todo` never comes out of it.
pub open spec fn normalize_error(e: TranslateError) -> bool {
    e == TranslateError::UnknownSymbol || e == TranslateError::SymbolRedefinition || e
        == TranslateError::Unreachable
}

/// On failure deep inside a statement list the scope stack may be left
/// deeper than it was, but everything below and before the call survives.
pub open spec fn scopes_preserved_on_error(pre: ScopedResolver, post: ScopedResolver) -> bool {
    &&& post.scopes@.len() >= pre.scopes@.len()
    &&& forall|i: int| 0 <= i < pre.scopes@.len() - 1 ==> post.scopes@[i] == pre.scopes@[i]
    &&& pre.current_scope().is_prefix_of(post.scopes@[pre.scopes@.len() - 1]@)
}

/// An operand resolves to its normalized counterpart: every name is looked
/// up through the scope stack, everything else is kept as it is.
pub open spec fn operand_resolved(
    ss: Seq<Vec<Binding>>,
    a: ParsedOperand<Vec<u8>>,
    b: ParsedOperand<SpirvWord>,
) -> bool {
    match (a, b) {
        (ParsedOperand::Reg(n), ParsedOperand::Reg(id)) => scopes_lookup(ss, n@) == Some(id),
        (ParsedOperand::RegOffset(n, o1), ParsedOperand::RegOffset(id, o2)) => scopes_lookup(
            ss,
            n@,
        ) == Some(id) && o1 == o2,
        (ParsedOperand::Imm(v1), ParsedOperand::Imm(v2)) => v1 == v2,
        (ParsedOperand::VecMember(n, k1), ParsedOperand::VecMember(id, k2)) => scopes_lookup(
            ss,
            n@,
        ) == Some(id) && k1 == k2,
        (ParsedOperand::VecPack(ns), ParsedOperand::VecPack(ids)) => ns@.len() == ids@.len()
            && (forall|j: int|
            0 <= j < ns@.len() ==> scopes_lookup(ss, #[trigger] ns@[j]@) == Some(ids@[j])),
        _ => false,
    }
}

/// Every name of every operand in the list is bound somewhere in the
/// scope stack.
pub open spec fn operands_resolvable(
    ss: Seq<Vec<Binding>>,
    ops: Seq<ParsedOperand<Vec<u8>>>,
) -> bool {
    forall|j: int| 0 <= j < ops.len() ==> operand_resolvable(ss, #[trigger] ops[j])
}

/// Every name of the operand is bound somewhere in the scope stack.
pub open spec fn operand_resolvable(ss: Seq<Vec<Binding>>, a: ParsedOperand<Vec<u8>>) -> bool {
    match a {
        ParsedOperand::Reg(n) => scopes_lookup(ss, n@) != None::<SpirvWord>,
        ParsedOperand::RegOffset(n, _) => scopes_lookup(ss, n@) != None::<SpirvWord>,
        ParsedOperand::Imm(_) => true,
        ParsedOperand::VecMember(n, _) => scopes_lookup(ss, n@) != None::<SpirvWord>,
        ParsedOperand::VecPack(ns) => forall|j: int|
            0 <= j < ns@.len() ==> scopes_lookup(ss, #[trigger] ns@[j]@) != None::<SpirvWord>,
    }
}

/// A list of plain identifiers resolves pairwise.
pub open spec fn idents_resolved(
    ss: Seq<Vec<Binding>>,
    a: Seq<Vec<u8>>,
    b: Seq<SpirvWord>,
) -> bool {
    a.len() == b.len() && forall|j: int|
        0 <= j < a.len() ==> scopes_lookup(ss, #[trigger] a[j]@) == Some(b[j])
}

/// An instruction resolves to its normalized counterpart: operands and
/// plain identifiers are resolved, payloads are preserved.
pub open spec fn instruction_resolved(
    ss: Seq<Vec<Binding>>,
    a: ParsedInstruction,
    b: NormalizedInstruction,
) -> bool {
    match (a, b) {
        (
            Instruction::Mov { data: d1, arguments: a1 },
            Instruction::Mov { data: d2, arguments: a2 },
        ) => mov_details_eq(d2, d1) && operand_resolved(ss, a1.dst, a2.dst) && operand_resolved(
            ss,
            a1.src,
            a2.src,
        ),
        (
            Instruction::Ld { data: d1, arguments: a1 },
            Instruction::Ld { data: d2, arguments: a2 },
        ) => ld_details_eq(d2, d1) && operand_resolved(ss, a1.dst, a2.dst) && operand_resolved(
            ss,
            a1.src,
            a2.src,
        ),
        (
            Instruction::St { data: d1, arguments: a1 },
            Instruction::St { data: d2, arguments: a2 },
        ) => st_data_eq(d2, d1) && operand_resolved(ss, a1.src1, a2.src1) && operand_resolved(
            ss,
            a1.src2,
            a2.src2,
        ),
        (
            Instruction::Add { data: d1, arguments: a1 },
            Instruction::Add { data: d2, arguments: a2 },
        ) => d1 == d2 && operand_resolved(ss, a1.dst, a2.dst) && operand_resolved(
            ss,
            a1.src1,
            a2.src1,
        ) && operand_resolved(ss, a1.src2, a2.src2),
        (Instruction::Ret { data: d1 }, Instruction::Ret { data: d2 }) => d1 == d2,
        (
            Instruction::Call { data: d1, arguments: a1 },
            Instruction::Call { data: d2, arguments: a2 },
        ) => call_details_eq(d2, d1) && idents_resolved(
            ss,
            a1.return_arguments@,
            a2.return_arguments@,
        ) && scopes_lookup(ss, a1.func@) == Some(a2.func) && {
            &&& a1.input_arguments@.len() == a2.input_arguments@.len()
            &&& forall|j: int|
                0 <= j < a1.input_arguments@.len() ==> operand_resolved(
                    ss,
                    #[trigger] a1.input_arguments@[j],
                    a2.input_arguments@[j],
                )
        },
        (
            Instruction::Other { opcode: o1, operands: a1 },
            Instruction::Other { opcode: o2, operands: a2 },
        ) => o1 == o2 && a1@.len() == a2@.len() && (forall|j: int|
            0 <= j < a1@.len() ==> operand_resolved(ss, #[trigger] a1@[j], a2@[j])),
        _ => false,
    }
}

/// Every name the instruction mentions is bound somewhere in the stack.
pub open spec fn instruction_resolvable(ss: Seq<Vec<Binding>>, a: ParsedInstruction) -> bool {
    match a {
        Instruction::Mov { arguments, .. } => operand_resolvable(ss, arguments.dst)
            && operand_resolvable(ss, arguments.src),
        Instruction::Ld { arguments, .. } => operand_resolvable(ss, arguments.dst)
            && operand_resolvable(ss, arguments.src),
        Instruction::St { arguments, .. } => operand_resolvable(ss, arguments.src1)
            && operand_resolvable(ss, arguments.src2),
        Instruction::Add { arguments, .. } => operand_resolvable(ss, arguments.dst)
            && operand_resolvable(ss, arguments.src1) && operand_resolvable(ss, arguments.src2),
        Instruction::Ret { .. } => true,
        Instruction::Call { arguments, .. } => {
            &&& forall|j: int|
                0 <= j < arguments.return_arguments@.len() ==> scopes_lookup(
                    ss,
                    #[trigger] arguments.return_arguments@[j]@,
                ) != None::<SpirvWord>
            &&& scopes_lookup(ss, arguments.func@) != None::<SpirvWord>
            &&& forall|j: int|
                0 <= j < arguments.input_arguments@.len() ==> operand_resolvable(
                    ss,
                    #[trigger] arguments.input_arguments@[j],
                )
        },
        Instruction::Other { operands, .. } => operands_resolvable(ss, operands@),
    }
}

/// Every identifier of a normalized operand has been allocated in a table
/// of `limit` entries.
pub open spec fn operand_ids_valid(o: ParsedOperand<SpirvWord>, limit: int) -> bool {
    match o {
        ParsedOperand::Reg(id) => 1 <= id <= limit,
        ParsedOperand::RegOffset(id, _) => 1 <= id <= limit,
        ParsedOperand::Imm(_) => true,
        ParsedOperand::VecMember(id, _) => 1 <= id <= limit,
        ParsedOperand::VecPack(ids) => forall|j: int|
            0 <= j < ids@.len() ==> 1 <= #[trigger] ids@[j] <= limit,
    }
}

/// Every identifier of a normalized instruction has been allocated.
pub open spec fn instruction_ids_valid(inst: NormalizedInstruction, limit: int) -> bool {
    match inst {
        Instruction::Mov { arguments, .. } => operand_ids_valid(arguments.dst, limit)
            && operand_ids_valid(arguments.src, limit),
        Instruction::Ld { arguments, .. } => operand_ids_valid(arguments.dst, limit)
            && operand_ids_valid(arguments.src, limit),
        Instruction::St { arguments, .. } => operand_ids_valid(arguments.src1, limit)
            && operand_ids_valid(arguments.src2, limit),
        Instruction::Add { arguments, .. } => operand_ids_valid(arguments.dst, limit)
            && operand_ids_valid(arguments.src1, limit) && operand_ids_valid(
            arguments.src2,
            limit,
        ),
        Instruction::Ret { .. } => true,
        Instruction::Call { arguments, .. } => {
            &&& forall|j: int|
                0 <= j < arguments.return_arguments@.len() ==> 1
                    <= #[trigger] arguments.return_arguments@[j] <= limit
            &&& 1 <= arguments.func <= limit
            &&& forall|j: int|
                0 <= j < arguments.input_arguments@.len() ==> operand_ids_valid(
                    #[trigger] arguments.input_arguments@[j],
                    limit,
                )
        },
        Instruction::Other { operands, .. } => forall|j: int|
            0 <= j < operands@.len() ==> operand_ids_valid(#[trigger] operands@[j], limit),
    }
}

/// Every identifier of a normalized statement has been allocated: the
/// post-condition of the pass — no source strings remain, and every
/// operand is a numbered id with a descriptor in the table.
pub open spec fn statement_ids_valid(s: NormalizedStatement, limit: int) -> bool {
    match s {
        NormalizedStatement::Label(id) => 1 <= id <= limit,
        NormalizedStatement::Variable(v) => 1 <= v.name <= limit,
        NormalizedStatement::Instruction(pred, inst) => (pred matches Some(p) ==> 1 <= p.label
            <= limit) && instruction_ids_valid(inst, limit),
    }
}

/// Validity survives table growth.
pub proof fn lemma_statement_ids_valid_mono(s: NormalizedStatement, a: int, b: int)
    requires
        statement_ids_valid(s, a),
        a <= b,
    ensures
        statement_ids_valid(s, b),
{
}

/// Resolves one operand through the scope stack.
fn resolve_operand(resolver: &ScopedResolver, op: &ParsedOperand<Vec<u8>>) -> (r: Result<
    ParsedOperand<SpirvWord>,
    TranslateError,
>)
    requires
        resolver.inv(),
    ensures
        r matches Ok(o) ==> operand_ids_valid(o, resolver.table.entries@.len() as int),
        match r {
            Ok(o) => operand_resolved(resolver.scopes@, *op, o) && operand_resolvable(
                resolver.scopes@,
                *op,
            ),
            Err(e) => e == TranslateError::UnknownSymbol && !operand_resolvable(
                resolver.scopes@,
                *op,
            ),
        },
{
    match op {
        ParsedOperand::Reg(n) => match resolver.get(n) {
            Ok(id) => {
                proof {
                    lemma_lookup_id_allocated(*resolver, n@, id);
                }
                Ok(ParsedOperand::Reg(id))
            },
            Err(e) => Err(e),
        },
        ParsedOperand::RegOffset(n, off) => match resolver.get(n) {
            Ok(id) => {
                proof {
                    lemma_lookup_id_allocated(*resolver, n@, id);
                }
                Ok(ParsedOperand::RegOffset(id, *off))
            },
            Err(e) => Err(e),
        },
        ParsedOperand::Imm(v) => Ok(ParsedOperand::Imm(*v)),
        ParsedOperand::VecMember(n, k) => match resolver.get(n) {
            Ok(id) => {
                proof {
                    lemma_lookup_id_allocated(*resolver, n@, id);
                }
                Ok(ParsedOperand::VecMember(id, *k))
            },
            Err(e) => Err(e),
        },
        ParsedOperand::VecPack(ns) => {
            let mut ids: Vec<SpirvWord> = Vec::new();
            let mut j: usize = 0;
            while j < ns.len()
                invariant
                    resolver.inv(),
                    *op == ParsedOperand::VecPack(*ns),
                    j <= ns@.len(),
                    ids@.len() == j,
                    forall|k: int|
                        0 <= k < j ==> scopes_lookup(resolver.scopes@, #[trigger] ns@[k]@) == Some(
                            ids@[k],
                        ),
                    forall|k: int|
                        0 <= k < j ==> 1 <= #[trigger] ids@[k] <= resolver.table.entries@.len(),
                decreases ns@.len() - j,
            {
                match resolver.get(&ns[j]) {
                    Ok(id) => {
                        proof {
                            lemma_lookup_id_allocated(*resolver, ns@[j as int]@, id);
                        }
                        ids.push(id)
                    },
                    Err(e) => {
                        proof {
                            assert(!operand_resolvable(resolver.scopes@, *op)) by {
                                assert(*op == ParsedOperand::VecPack(*ns));
                                assert(scopes_lookup(resolver.scopes@, ns@[j as int]@)
                                    == None::<SpirvWord>);
                            }
                        }
                        return Err(e);
                    },
                }
                j = j + 1;
            }
            Ok(ParsedOperand::VecPack(ids))
        },
    }
}

/// Resolves a list of plain identifiers through the scope stack.
fn resolve_idents(resolver: &ScopedResolver, ns: &Vec<Vec<u8>>) -> (r: Result<
    Vec<SpirvWord>,
    TranslateError,
>)
    requires
        resolver.inv(),
    ensures
        match r {
            Ok(ids) => idents_resolved(resolver.scopes@, ns@, ids@) && (forall|j: int|
                0 <= j < ids@.len() ==> 1 <= #[trigger] ids@[j]
                    <= resolver.table.entries@.len()),
            Err(e) => e == TranslateError::UnknownSymbol && exists|j: int|
                0 <= j < ns@.len() && scopes_lookup(resolver.scopes@, #[trigger] ns@[j]@)
                    == None::<SpirvWord>,
        },
{
    let mut ids: Vec<SpirvWord> = Vec::new();
    let mut j: usize = 0;
    while j < ns.len()
        invariant
            resolver.inv(),
            j <= ns@.len(),
            ids@.len() == j,
            forall|k: int|
                0 <= k < j ==> scopes_lookup(resolver.scopes@, #[trigger] ns@[k]@) == Some(
                    ids@[k],
                ),
            forall|k: int|
                0 <= k < j ==> 1 <= #[trigger] ids@[k] <= resolver.table.entries@.len(),
        decreases ns@.len() - j,
    {
        match resolver.get(&ns[j]) {
            Ok(id) => {
                proof {
                    lemma_lookup_id_allocated(*resolver, ns@[j as int]@, id);
                }
                ids.push(id)
            },
            Err(e) => {
                return Err(e);
            },
        }
        j = j + 1;
    }
    Ok(ids)
}

/// Resolves every operand name of an instruction through the scope stack,
/// preserving the instruction's payload.
pub fn run_instruction(resolver: &ScopedResolver, instruction: &ParsedInstruction) -> (r: Result<
    NormalizedInstruction,
    TranslateError,
>)
    requires
        resolver.inv(),
    ensures
        match r {
            Ok(o) => instruction_resolved(resolver.scopes@, *instruction, o)
                && instruction_ids_valid(o, resolver.table.entries@.len() as int),
            Err(e) => e == TranslateError::UnknownSymbol && !instruction_resolvable(
                resolver.scopes@,
                *instruction,
            ),
        },
{
    match instruction {
        Instruction::Mov { data, arguments } => {
            let dst = match resolve_operand(resolver, &arguments.dst) {
                Ok(o) => o,
                Err(e) => {
                    return Err(e);
                },
            };
            let src = match resolve_operand(resolver, &arguments.src) {
                Ok(o) => o,
                Err(e) => {
                    return Err(e);
                },
            };
            Ok(Instruction::Mov { data: data.clone(), arguments: MovArgs { dst, src } })
        },
        Instruction::Ld { data, arguments } => {
            let dst = match resolve_operand(resolver, &arguments.dst) {
                Ok(o) => o,
                Err(e) => {
                    return Err(e);
                },
            };
            let src = match resolve_operand(resolver, &arguments.src) {
                Ok(o) => o,
                Err(e) => {
                    return Err(e);
                },
            };
            Ok(Instruction::Ld { data: data.clone(), arguments: LdArgs { dst, src } })
        },
        Instruction::St { data, arguments } => {
            let src1 = match resolve_operand(resolver, &arguments.src1) {
                Ok(o) => o,
                Err(e) => {
                    return Err(e);
                },
            };
            let src2 = match resolve_operand(resolver, &arguments.src2) {
                Ok(o) => o,
                Err(e) => {
                    return Err(e);
                },
            };
            Ok(Instruction::St { data: data.clone(), arguments: StArgs { src1, src2 } })
        },
        Instruction::Add { data, arguments } => {
            let dst = match resolve_operand(resolver, &arguments.dst) {
                Ok(o) => o,
                Err(e) => {
                    return Err(e);
                },
            };
            let src1 = match resolve_operand(resolver, &arguments.src1) {
                Ok(o) => o,
                Err(e) => {
                    return Err(e);
                },
            };
            let src2 = match resolve_operand(resolver, &arguments.src2) {
                Ok(o) => o,
                Err(e) => {
                    return Err(e);
                },
            };
            Ok(Instruction::Add { data: *data, arguments: AddArgs { dst, src1, src2 } })
        },
        Instruction::Ret { data } => Ok(Instruction::Ret { data: *data }),
        Instruction::Call { data, arguments } => {
            let return_arguments = match resolve_idents(resolver, &arguments.return_arguments) {
                Ok(ids) => ids,
                Err(e) => {
                    return Err(e);
                },
            };
            let func = match resolver.get(&arguments.func) {
                Ok(id) => {
                    proof {
                        lemma_lookup_id_allocated(*resolver, arguments.func@, id);
                    }
                    id
                },
                Err(e) => {
                    return Err(e);
                },
            };
            let mut input_arguments: Vec<ParsedOperand<SpirvWord>> = Vec::new();
            let mut j: usize = 0;
            while j < arguments.input_arguments.len()
                invariant
                    resolver.inv(),
                    *instruction == (Instruction::Call { data: *data, arguments: *arguments }),
                    j <= arguments.input_arguments@.len(),
                    input_arguments@.len() == j,
                    forall|k: int|
                        0 <= k < j ==> operand_resolved(
                            resolver.scopes@,
                            #[trigger] arguments.input_arguments@[k],
                            input_arguments@[k],
                        ) && operand_resolvable(
                            resolver.scopes@,
                            arguments.input_arguments@[k],
                        ),
                    forall|k: int|
                        0 <= k < j ==> operand_ids_valid(
                            #[trigger] input_arguments@[k],
                            resolver.table.entries@.len() as int,
                        ),
                decreases arguments.input_arguments@.len() - j,
            {
                match resolve_operand(resolver, &arguments.input_arguments[j]) {
                    Ok(o) => input_arguments.push(o),
                    Err(e) => {
                        proof {
                            assert(!instruction_resolvable(resolver.scopes@, *instruction)) by {
                                assert(*instruction == Instruction::Call {
                                    data: *data,
                                    arguments: *arguments,
                                });
                                assert(!operand_resolvable(
                                    resolver.scopes@,
                                    arguments.input_arguments@[j as int],
                                ));
                            }
                        }
                        return Err(e);
                    },
                }
                j = j + 1;
            }
            Ok(
                Instruction::Call {
                    data: data.clone(),
                    arguments: CallArgs { return_arguments, func, input_arguments },
                },
            )
        },
        Instruction::Other { opcode, operands } => {
            let mut resolved: Vec<ParsedOperand<SpirvWord>> = Vec::new();
            let mut j: usize = 0;
            while j < operands.len()
                invariant
                    resolver.inv(),
                    *instruction == (Instruction::<Vec<u8>, ParsedOperand<Vec<u8>>>::Other {
                        opcode: *opcode,
                        operands: *operands,
                    }),
                    j <= operands@.len(),
                    resolved@.len() == j,
                    forall|k: int|
                        0 <= k < j ==> operand_resolved(
                            resolver.scopes@,
                            #[trigger] operands@[k],
                            resolved@[k],
                        ) && operand_resolvable(resolver.scopes@, operands@[k]),
                    forall|k: int|
                        0 <= k < j ==> operand_ids_valid(
                            #[trigger] resolved@[k],
                            resolver.table.entries@.len() as int,
                        ),
                decreases operands@.len() - j,
            {
                match resolve_operand(resolver, &operands[j]) {
                    Ok(o) => resolved.push(o),
                    Err(e) => {
                        proof {
                            assert(!operands_resolvable(resolver.scopes@, operands@)) by {
                                assert(!operand_resolvable(resolver.scopes@, operands@[j as int]));
                            }
                            assert(!instruction_resolvable(resolver.scopes@, *instruction));
                        }
                        return Err(e);
                    },
                }
                j = j + 1;
            }
            Ok(Instruction::Other { opcode: *opcode, operands: resolved })
        },
    }
}

/// Interns one typed variable: fresh id, descriptor in the table, binding
/// in the innermost scope.
pub fn run_variable(resolver: &mut ScopedResolver, variable: Variable<Vec<u8>>) -> (r: Result<
    Variable<SpirvWord>,
    TranslateError,
>)
    requires
        old(resolver).inv(),
        old(resolver).has_scope(),
    ensures
        final(resolver).inv(),
        final(resolver).has_scope(),
        table_extended(*old(resolver), *final(resolver)),
        scopes_preserved(*old(resolver), *final(resolver)),
        match r {
            Ok(v) => {
                &&& lookup_in_scope(old(resolver).current_scope(), variable.name@)
                    == None::<SpirvWord>
                &&& v.name == old(resolver).fresh_id()
                &&& v.align == variable.align
                &&& v.v_type == variable.v_type
                &&& v.state_space == variable.state_space
                &&& v.array_init == variable.array_init
                &&& final(resolver).table.entries@.len() == old(resolver).table.entries@.len() + 1
                &&& final(resolver).table.entries@.last().name matches Some(n) && n@
                    == variable.name@
                &&& final(resolver).table.entries@.last().type_space matches Some(ts)
                    && types_equal(ts.0, variable.v_type) && ts.1 == variable.state_space
                &&& final(resolver).current_scope().len() == old(resolver).current_scope().len()
                    + 1
                &&& final(resolver).current_scope().last().name@ == variable.name@
                &&& final(resolver).current_scope().last().id == v.name
            },
            Err(e) => {
                &&& *final(resolver) == *old(resolver)
                &&& (e == TranslateError::SymbolRedefinition || e == TranslateError::Unreachable)
                &&& (e == TranslateError::SymbolRedefinition) <==> lookup_in_scope(
                    old(resolver).current_scope(),
                    variable.name@,
                ) != None::<SpirvWord>
                &&& (e == TranslateError::Unreachable) ==> old(resolver).table.entries@.len()
                    > IDENT_LIMIT
            },
        },
{
    let Variable { align, v_type, state_space, name, array_init } = variable;
    let descriptor = (v_type.clone(), state_space);
    match resolver.add(name, Some(descriptor)) {
        Ok(id) => Ok(Variable { align, v_type, state_space, name: id, array_init }),
        Err(e) => Err(e),
    }
}

/// The names a multi-variable declaration expands to are all absent from
/// the scope.
pub open spec fn multivar_fresh(top: Seq<Binding>, base: Seq<u8>, n: int) -> bool {
    forall|k: int|
        0 <= k < n ==> #[trigger] lookup_in_scope(top, base + dec_digits(k as nat))
            == None::<SpirvWord>
}

/// What a successful counted expansion produces: exactly `n` variable
/// statements appended, named `base0` .. `base(n-1)`, each with the
/// declaration's type, state space, alignment and initializer, under `n`
/// consecutive — hence pairwise-distinct — fresh identifiers, all recorded
/// in the table.
pub open spec fn multivar_expanded(
    pre_r: ScopedResolver,
    pre_result: Seq<NormalizedStatement>,
    post_r: ScopedResolver,
    post_result: Seq<NormalizedStatement>,
    mv: MultiVariable,
    n: int,
) -> bool {
    &&& post_result.len() == pre_result.len() + n
    &&& post_r.table.entries@.len() == pre_r.table.entries@.len() + n
    &&& post_r.current_scope().len() == pre_r.current_scope().len() + n
    &&& forall|k: int|
        0 <= k < n ==> (#[trigger] post_result[pre_result.len() + k] matches NormalizedStatement::Variable(
            v,
        ) && variable_fields_eq(v, mv.var) && v.name == pre_r.fresh_id() + k)
    &&& forall|k: int|
        0 <= k < n ==> (#[trigger] post_r.table.entries@[pre_r.table.entries@.len() + k].name matches Some(
            nm,
        ) && nm@ == mv.var.name@ + dec_digits(k as nat))
    &&& forall|k: int|
        0 <= k < n ==> (#[trigger] post_r.table.entries@[pre_r.table.entries@.len() + k].type_space matches Some(
            ts,
        ) && types_equal(ts.0, mv.var.v_type) && ts.1 == mv.var.state_space)
}

/// What a successful plain declaration produces: one variable statement
/// under the unchanged name and a fresh identifier.
pub open spec fn multivar_single(
    pre_r: ScopedResolver,
    pre_result: Seq<NormalizedStatement>,
    post_r: ScopedResolver,
    post_result: Seq<NormalizedStatement>,
    mv: MultiVariable,
) -> bool {
    &&& post_result.len() == pre_result.len() + 1
    &&& post_result.last() matches NormalizedStatement::Variable(v) && variable_fields_eq(
        v,
        mv.var,
    ) && v.name == pre_r.fresh_id()
    &&& post_r.table.entries@.len() == pre_r.table.entries@.len() + 1
    &&& post_r.table.entries@.last().name matches Some(nm) && nm@ == mv.var.name@
}

/// Expands a multi-variable declaration.
///
/// `.reg .T %base<N>` produces exactly N variables named `base0` ..
/// `base(N-1)` — the base name with the index rendered in decimal — each
/// with the declaration's type, state space, alignment and initializer,
/// and with N consecutive, pairwise-distinct fresh identifiers. A
/// declaration without a count produces a single variable under the plain
/// name.
pub fn run_multivariable(
    resolver: &mut ScopedResolver,
    result: &mut Vec<NormalizedStatement>,
    variable: &MultiVariable,
) -> (r: Result<(), TranslateError>)
    requires
        old(resolver).inv(),
        old(resolver).has_scope(),
    ensures
        final(resolver).inv(),
        final(resolver).has_scope(),
        table_extended(*old(resolver), *final(resolver)),
        scopes_preserved(*old(resolver), *final(resolver)),
        old(result)@.is_prefix_of(final(result)@),
        r matches Err(e) ==> (e == TranslateError::SymbolRedefinition || e
            == TranslateError::Unreachable),
        match variable.count {
            Some(n) => {
                &&& (r matches Ok(_) <==> (multivar_fresh(
                    old(resolver).current_scope(),
                    variable.var.name@,
                    n as int,
                ) && (n == 0 || old(resolver).table.entries@.len() + n <= IDENT_LIMIT + 1)))
                &&& (r matches Ok(_) ==> multivar_expanded(
                    *old(resolver),
                    old(result)@,
                    *final(resolver),
                    final(result)@,
                    *variable,
                    n as int,
                ))
            },
            None => {
                &&& (r matches Ok(_) <==> (lookup_in_scope(
                    old(resolver).current_scope(),
                    variable.var.name@,
                ) == None::<SpirvWord> && old(resolver).table.entries@.len() <= IDENT_LIMIT))
                &&& (r matches Ok(_) ==> multivar_single(
                    *old(resolver),
                    old(result)@,
                    *final(resolver),
                    final(result)@,
                    *variable,
                ))
            },
        },
{
    match variable.count {
        Some(count) => {
            let mut k: u32 = 0;
            while k < count
                invariant
                    variable.count == Some(count),
                    resolver.inv(),
                    resolver.has_scope(),
                    k <= count,
                    resolver.scopes@.len() == old(resolver).scopes@.len(),
                    forall|i: int|
                        0 <= i < old(resolver).scopes@.len() - 1 ==> resolver.scopes@[i] == old(resolver).scopes@[i],
                    resolver.table.entries@.len() == old(resolver).table.entries@.len() + k,
                    old(resolver).table.entries@.is_prefix_of(resolver.table.entries@),
                    k > 0 ==> old(resolver).table.entries@.len() + k <= IDENT_LIMIT + 1,
                    resolver.current_scope().len() == old(resolver).current_scope().len() + k,
                    old(resolver).current_scope().is_prefix_of(resolver.current_scope()),
                    forall|j: int|
                        0 <= j < k ==> (#[trigger] resolver.current_scope()[old(resolver).current_scope().len() + j].name@ == variable.var.name@ + dec_digits(
                            j as nat,
                        ) && resolver.current_scope()[old(resolver).current_scope().len() + j].id
                            == old(resolver).table.entries@.len() + 1 + j),
                    multivar_fresh(old(resolver).current_scope(), variable.var.name@, k as int),
                    forall|j: int|
                        0 <= j < k ==> (#[trigger] resolver.table.entries@[old(resolver).table.entries@.len() + j].name matches Some(nm) && nm@
                            == variable.var.name@ + dec_digits(j as nat)),
                    forall|j: int|
                        0 <= j < k ==> (#[trigger] resolver.table.entries@[old(resolver).table.entries@.len() + j].type_space matches Some(ts) && types_equal(
                            ts.0,
                            variable.var.v_type,
                        ) && ts.1 == variable.var.state_space),
                    result@.len() == old(result)@.len() + k,
                    old(result)@.is_prefix_of(result@),
                    forall|j: int|
                        0 <= j < k ==> (#[trigger] result@[old(result)@.len() + j] matches NormalizedStatement::Variable(
                            v,
                        ) && variable_fields_eq(v, variable.var) && v.name == old(resolver).table.entries@.len() + 1 + j),
                decreases count - k,
            {
                let mut nm = bytes_clone(&variable.var.name);
                let digits = u32_to_decimal(k);
                bytes_extend(&mut nm, &digits);
                let ghost nmv = variable.var.name@ + dec_digits(k as nat);
                let ghost top_k = resolver.current_scope();
                let ghost tab_k = resolver.table.entries@;
                let descriptor = (variable.var.v_type.clone(), variable.var.state_space);
                match resolver.add(nm, Some(descriptor)) {
                    Ok(id) => {
                        proof {
                            if lookup_in_scope(old(resolver).current_scope(), nmv)
                                != None::<SpirvWord> {
                                let x = lookup_in_scope(old(resolver).current_scope(), nmv)->Some_0;
                                assert(scope_names_unique(top_k));
                                lemma_binding_persists(
                                    old(resolver).current_scope(),
                                    top_k,
                                    nmv,
                                    x,
                                );
                                assert(false);
                            }
                        }
                        let v = Variable {
                            align: variable.var.align,
                            v_type: variable.var.v_type.clone(),
                            state_space: variable.var.state_space,
                            name: id,
                            array_init: bytes_clone(&variable.var.array_init),
                        };
                        result.push(NormalizedStatement::Variable(v));
                        proof {
                            let base_len = old(resolver).current_scope().len() as int;
                            let base_tlen = old(resolver).table.entries@.len() as int;
                            let cur = resolver.current_scope();
                            let tab = resolver.table.entries@;
                            assert(top_k == cur.subrange(0, top_k.len() as int));
                            assert(tab_k == tab.subrange(0, tab_k.len() as int));
                            assert forall|j: int| 0 <= j < k + 1 implies (#[trigger] cur[base_len
                                + j].name@ == variable.var.name@ + dec_digits(j as nat) && cur[
                                base_len + j].id == base_tlen + 1 + j) by {
                                if j < k {
                                    assert(top_k[base_len + j].name@ == variable.var.name@
                                        + dec_digits(j as nat));
                                    assert(cur[base_len + j] == top_k[base_len + j]);
                                } else {
                                    assert(j as nat == k as nat);
                                    assert(cur.last() == cur[base_len + j]);
                                    assert(cur.last().name@ == variable.var.name@ + dec_digits(
                                        k as nat,
                                    ));
                                }
                            }
                            assert forall|j: int| 0 <= j < k + 1 implies (#[trigger] tab[base_tlen
                                + j].name matches Some(nm) && nm@ == variable.var.name@
                                + dec_digits(j as nat)) by {
                                if j < k {
                                    assert(tab_k[base_tlen + j].name matches Some(nm) && nm@
                                        == variable.var.name@ + dec_digits(j as nat));
                                    assert(tab[base_tlen + j] == tab_k[base_tlen + j]);
                                } else {
                                    assert(j as nat == k as nat);
                                    assert(tab.last() == tab[base_tlen + j]);
                                }
                            }
                            assert forall|j: int| 0 <= j < k + 1 implies (#[trigger] tab[base_tlen
                                + j].type_space matches Some(ts) && types_equal(
                                ts.0,
                                variable.var.v_type,
                            ) && ts.1 == variable.var.state_space) by {
                                if j < k {
                                    assert(tab_k[base_tlen + j].type_space matches Some(ts)
                                        && types_equal(ts.0, variable.var.v_type) && ts.1
                                        == variable.var.state_space);
                                    assert(tab[base_tlen + j] == tab_k[base_tlen + j]);
                                } else {
                                    assert(tab.last() == tab[base_tlen + j]);
                                }
                            }
                        }
                        k = k + 1;
                    },
                    Err(e) => {
                        proof {
                            if e == TranslateError::SymbolRedefinition {
                                assert(lookup_in_scope(top_k, nmv) != None::<SpirvWord>);
                                let x = lookup_in_scope(top_k, nmv)->Some_0;
                                lemma_lookup_present(top_k, nmv, x);
                                let j = choose|j: int|
                                    0 <= j < top_k.len() && top_k[j].name@ == nmv
                                        && #[trigger] top_k[j].id == x;
                                if j < old(resolver).current_scope().len() {
                                    assert(old(resolver).current_scope()[j].name@ == nmv);
                                    lemma_lookup_absent(old(resolver).current_scope(), nmv);
                                    let ki: int = k as int;
                                    assert(ki as nat == k as nat);
                                    assert(lookup_in_scope(
                                        old(resolver).current_scope(),
                                        variable.var.name@ + dec_digits(ki as nat),
                                    ) != None::<SpirvWord>);
                                    assert(!multivar_fresh(
                                        old(resolver).current_scope(),
                                        variable.var.name@,
                                        count as int,
                                    ));
                                } else {
                                    let jj = j - old(resolver).current_scope().len();
                                    assert(0 <= jj < k);
                                    assert(top_k == resolver.current_scope());
                                    assert(resolver.current_scope()[old(resolver).current_scope().len() + jj].name@ == variable.var.name@
                                        + dec_digits(jj as nat));
                                    assert(top_k[j].name@ == variable.var.name@ + dec_digits(
                                        jj as nat,
                                    ));
                                    lemma_suffix_names_distinct(
                                        variable.var.name@,
                                        jj as nat,
                                        k as nat,
                                    );
                                    assert(false);
                                }
                            } else {
                                assert(resolver.table.entries@.len() > IDENT_LIMIT);
                                assert(old(resolver).table.entries@.len() + count > IDENT_LIMIT
                                    + 1);
                            }
                        }
                        return Err(e);
                    },
                }
            }
            Ok(())
        },
        None => {
            let nm = bytes_clone(&variable.var.name);
            let descriptor = (variable.var.v_type.clone(), variable.var.state_space);
            match resolver.add(nm, Some(descriptor)) {
                Ok(id) => {
                    let v = Variable {
                        align: variable.var.align,
                        v_type: variable.var.v_type.clone(),
                        state_space: variable.var.state_space,
                        name: id,
                        array_init: bytes_clone(&variable.var.array_init),
                    };
                    result.push(NormalizedStatement::Variable(v));
                    Ok(())
                },
                Err(e) => Err(e),
            }
        },
    }
}

/// The names of the labels a statement list declares at its own level, in
/// order of appearance; labels of nested blocks belong to those blocks.
pub open spec fn labels_of(stmts: Seq<ParsedStatement>) -> Seq<Seq<u8>>
    decreases stmts.len(),
{
    if stmts.len() == 0 {
        Seq::empty()
    } else {
        labels_of(stmts.drop_last()) + (match stmts.last() {
            ParsedStatement::Label(l) => seq![l@],
            _ => Seq::<Seq<u8>>::empty(),
        })
    }
}

/// One step of `labels_of`: extending the prefix by one statement appends
/// that statement's label, if it is one.
proof fn lemma_labels_of_snoc(stmts: Seq<ParsedStatement>, i: int)
    requires
        0 <= i < stmts.len(),
    ensures
        labels_of(stmts.take(i + 1)) == labels_of(stmts.take(i)) + (match stmts[i] {
            ParsedStatement::Label(l) => seq![l@],
            _ => Seq::<Seq<u8>>::empty(),
        }),
{
    assert(stmts.take(i + 1).drop_last() =~= stmts.take(i));
    assert(stmts.take(i + 1).last() == stmts[i]);
}

/// The labels of a prefix are a prefix of the labels.
proof fn lemma_labels_of_prefix(stmts: Seq<ParsedStatement>, i: int)
    requires
        0 <= i <= stmts.len(),
    ensures
        labels_of(stmts.take(i)).is_prefix_of(labels_of(stmts)),
    decreases stmts.len() - i,
{
    if i == stmts.len() {
        assert(stmts.take(i) =~= stmts);
        assert(labels_of(stmts).is_prefix_of(labels_of(stmts)));
    } else {
        lemma_labels_of_snoc(stmts, i);
        lemma_labels_of_prefix(stmts, i + 1);
        let a = labels_of(stmts.take(i));
        let b = labels_of(stmts.take(i + 1));
        let c = labels_of(stmts);
        assert(a.is_prefix_of(b));
        assert(a =~= c.subrange(0, a.len() as int));
    }
}

/// A label statement's name occurs in `labels_of` at the index given by
/// the labels of the preceding statements.
proof fn lemma_label_in_labels_of(stmts: Seq<ParsedStatement>, k: int)
    requires
        0 <= k < stmts.len(),
        stmts[k] is Label,
    ensures
        0 <= labels_of(stmts.take(k)).len() < labels_of(stmts).len(),
        labels_of(stmts)[labels_of(stmts.take(k)).len() as int] == stmts[k]->Label_0@,
{
    lemma_labels_of_snoc(stmts, k);
    lemma_labels_of_prefix(stmts, k + 1);
    let a = labels_of(stmts.take(k));
    let b = labels_of(stmts.take(k + 1));
    assert(b[a.len() as int] == stmts[k]->Label_0@);
    assert(labels_of(stmts)[a.len() as int] == b[a.len() as int]);
}

/// What a successful hoisting pass produces: one binding per label, in
/// order, under consecutive fresh identifiers.
pub open spec fn labels_hoisted(pre: ScopedResolver, post: ScopedResolver, ls: Seq<Seq<u8>>) -> bool {
    &&& post.current_scope().len() == pre.current_scope().len() + ls.len()
    &&& post.table.entries@.len() == pre.table.entries@.len() + ls.len()
    &&& forall|j: int|
        0 <= j < ls.len() ==> (#[trigger] post.current_scope()[pre.current_scope().len() + j].name@
            == ls[j] && post.current_scope()[pre.current_scope().len() + j].id
            == pre.table.entries@.len() + 1 + j)
}

/// The label pre-pass: introduces every label name a statement list
/// declares at its own level into the innermost scope, untyped, so that
/// forward references to labels resolve.
pub fn hoist_block_labels(resolver: &mut ScopedResolver, statements: &Vec<ParsedStatement>) -> (r:
    Result<(), TranslateError>)
    requires
        old(resolver).inv(),
        old(resolver).has_scope(),
    ensures
        final(resolver).inv(),
        final(resolver).has_scope(),
        table_extended(*old(resolver), *final(resolver)),
        scopes_preserved(*old(resolver), *final(resolver)),
        (r matches Ok(_) <==> ((forall|a: int, b: int|
            0 <= a < b < labels_of(statements@).len() ==> labels_of(statements@)[a] != labels_of(
                statements@,
            )[b]) && (forall|a: int|
            0 <= a < labels_of(statements@).len() ==> lookup_in_scope(
                old(resolver).current_scope(),
                #[trigger] labels_of(statements@)[a],
            ) == None::<SpirvWord>) && (labels_of(statements@).len() == 0 || old(resolver).table.entries@.len() + labels_of(statements@).len() <= IDENT_LIMIT + 1))),
        (r matches Ok(_) ==> labels_hoisted(
            *old(resolver),
            *final(resolver),
            labels_of(statements@),
        )),
        (r matches Ok(_) ==> forall|k: int|
            0 <= k < statements@.len() ==> ((#[trigger] statements@[k]) is Label ==> lookup_in_scope(
                final(resolver).current_scope(),
                statements@[k]->Label_0@,
            ) != None::<SpirvWord>)),
        r matches Err(e) ==> (e == TranslateError::SymbolRedefinition || e
            == TranslateError::Unreachable),
{
    let mut i: usize = 0;
    while i < statements.len()
        invariant
            resolver.inv(),
            resolver.has_scope(),
            i <= statements@.len(),
            resolver.scopes@.len() == old(resolver).scopes@.len(),
            forall|q: int|
                0 <= q < old(resolver).scopes@.len() - 1 ==> resolver.scopes@[q] == old(resolver).scopes@[q],
            old(resolver).table.entries@.is_prefix_of(resolver.table.entries@),
            resolver.table.entries@.len() == old(resolver).table.entries@.len() + labels_of(
                statements@.take(i as int),
            ).len(),
            labels_of(statements@.take(i as int)).len() > 0 ==> old(resolver).table.entries@.len()
                + labels_of(statements@.take(i as int)).len() <= IDENT_LIMIT + 1,
            old(resolver).current_scope().is_prefix_of(resolver.current_scope()),
            resolver.current_scope().len() == old(resolver).current_scope().len() + labels_of(
                statements@.take(i as int),
            ).len(),
            forall|j: int|
                0 <= j < labels_of(statements@.take(i as int)).len()
                    ==> (#[trigger] resolver.current_scope()[old(resolver).current_scope().len()
                    + j].name@ == labels_of(statements@.take(i as int))[j]
                    && resolver.current_scope()[old(resolver).current_scope().len() + j].id == old(resolver).table.entries@.len() + 1 + j),
            forall|j: int|
                0 <= j < labels_of(statements@.take(i as int)).len() ==> lookup_in_scope(
                    old(resolver).current_scope(),
                    #[trigger] labels_of(statements@.take(i as int))[j],
                ) == None::<SpirvWord>,
            forall|a: int, b: int|
                0 <= a < b < labels_of(statements@.take(i as int)).len() ==> labels_of(
                    statements@.take(i as int),
                )[a] != labels_of(statements@.take(i as int))[b],
        decreases statements@.len() - i,
    {
        let ghost lab_i = labels_of(statements@.take(i as int));
        proof {
            lemma_labels_of_snoc(statements@, i as int);
        }
        match &statements[i] {
            ParsedStatement::Label(l) => {
                let nm = bytes_clone(l);
                let ghost nmv = l@;
                let ghost top_i = resolver.current_scope();
                let ghost tab_i = resolver.table.entries@;
                match resolver.add(nm, None) {
                    Ok(id) => {
                        proof {
                            let cur = resolver.current_scope();
                            let tab = resolver.table.entries@;
                            let base_len = old(resolver).current_scope().len() as int;
                            let base_tlen = old(resolver).table.entries@.len() as int;
                            let lab_next = labels_of(statements@.take(i + 1 as int));
                            assert(lab_next =~= lab_i.push(nmv));
                            assert(top_i == cur.subrange(0, top_i.len() as int));
                            // The new label was absent from the scope as it stood on
                            // entry, or its binding would have persisted to this point.
                            if lookup_in_scope(old(resolver).current_scope(), nmv)
                                != None::<SpirvWord> {
                                let x = lookup_in_scope(old(resolver).current_scope(), nmv)->Some_0;
                                lemma_binding_persists(
                                    old(resolver).current_scope(),
                                    top_i,
                                    nmv,
                                    x,
                                );
                                assert(false);
                            }
                            // No earlier label of this list carries the same name.
                            lemma_lookup_absent(top_i, nmv);
                            assert forall|j: int| 0 <= j < lab_next.len() implies (#[trigger] cur[
                                base_len + j].name@ == lab_next[j] && cur[base_len + j].id
                                == base_tlen + 1 + j) by {
                                if j < lab_i.len() {
                                    assert(top_i[base_len + j].name@ == lab_i[j]);
                                    assert(cur[base_len + j] == top_i[base_len + j]);
                                } else {
                                    assert(cur.last() == cur[base_len + j]);
                                }
                            }
                            assert forall|a: int, b: int| 0 <= a < b < lab_next.len() implies
                                lab_next[a] != lab_next[b] by {
                                if b < lab_i.len() {
                                    assert(lab_i[a] != lab_i[b]);
                                } else {
                                    assert(top_i[base_len + a].name@ == lab_i[a]);
                                }
                            }
                        }
                    },
                    Err(e) => {
                        proof {
                            let ls = labels_of(statements@);
                            let base_len = old(resolver).current_scope().len() as int;
                            lemma_labels_of_prefix(statements@, i + 1 as int);
                            let lab_next = labels_of(statements@.take(i + 1 as int));
                            assert(lab_next =~= lab_i.push(nmv));
                            assert(lab_next[lab_i.len() as int] == nmv);
                            assert(lab_next == ls.subrange(0, lab_next.len() as int));
                            assert(ls.subrange(0, lab_next.len() as int)[lab_i.len() as int]
                                == ls[lab_i.len() as int]);
                            assert(ls[lab_i.len() as int] == nmv);
                            if e == TranslateError::SymbolRedefinition {
                                assert(lookup_in_scope(top_i, nmv) != None::<SpirvWord>);
                                let x = lookup_in_scope(top_i, nmv)->Some_0;
                                lemma_lookup_present(top_i, nmv, x);
                                let j = choose|j: int|
                                    0 <= j < top_i.len() && top_i[j].name@ == nmv
                                        && #[trigger] top_i[j].id == x;
                                if j < base_len {
                                    assert(old(resolver).current_scope() == top_i.subrange(
                                        0,
                                        base_len,
                                    ));
                                    assert(old(resolver).current_scope()[j] == top_i[j]);
                                    lemma_lookup_absent(old(resolver).current_scope(), nmv);
                                    assert(lookup_in_scope(
                                        old(resolver).current_scope(),
                                        ls[lab_i.len() as int],
                                    ) != None::<SpirvWord>);
                                } else {
                                    let jj = j - base_len;
                                    assert(top_i[base_len + jj].name@ == lab_i[jj]);
                                    assert(lab_next[jj] == lab_i[jj]);
                                    assert(ls.subrange(0, lab_next.len() as int)[jj] == ls[jj]);
                                    assert(ls[jj] == lab_i[jj]);
                                    assert(ls[jj] == ls[lab_i.len() as int]);
                                }
                            } else {
                                assert(resolver.table.entries@.len() > IDENT_LIMIT);
                                assert(ls.len() >= lab_next.len());
                                assert(old(resolver).table.entries@.len() + ls.len() > IDENT_LIMIT
                                    + 1);
                            }
                        }
                        return Err(e);
                    },
                }
            },
            _ => {
                proof {
                    assert(labels_of(statements@.take(i + 1 as int)) =~= lab_i);
                }
            },
        }
        i = i + 1;
    }
    proof {
        assert(statements@.take(statements@.len() as int) =~= statements@);
        let ls = labels_of(statements@);
        assert forall|k: int|
            0 <= k < statements@.len() && (#[trigger] statements@[k]) is Label implies lookup_in_scope(
            resolver.current_scope(),
            statements@[k]->Label_0@,
        ) != None::<SpirvWord> by {
            lemma_label_in_labels_of(statements@, k);
            let idx = labels_of(statements@.take(k)).len() as int;
            assert(resolver.current_scope()[old(resolver).current_scope().len() + idx].name@
                == ls[idx]);
            lemma_lookup_absent(resolver.current_scope(), statements@[k]->Label_0@);
        }
    }
    Ok(())
}

/// How many normalized statements one parsed statement produces: labels
/// and instructions one each, a counted variable declaration its count,
/// a block the total of its contents.
pub open spec fn stmt_out_len(s: ParsedStatement) -> nat
    decreases s,
{
    match s {
        ParsedStatement::Label(_) => 1,
        ParsedStatement::Variable(mv) => match mv.count {
            Some(n) => n as nat,
            None => 1,
        },
        ParsedStatement::Instruction(_, _) => 1,
        ParsedStatement::Block(b) => stmts_out_len(b@),
    }
}

/// How many normalized statements a statement list produces.
pub open spec fn stmts_out_len(ss: Seq<ParsedStatement>) -> nat
    decreases ss,
{
    if ss.len() == 0 {
        0
    } else {
        stmt_out_len(ss.first()) + stmts_out_len(ss.drop_first())
    }
}

/// A normalized operand has the shape of its source: same operand kind,
/// same immediate payloads; only the names have become numbered ids.
pub open spec fn operand_shape(a: ParsedOperand<Vec<u8>>, b: ParsedOperand<SpirvWord>) -> bool {
    match (a, b) {
        (ParsedOperand::Reg(_), ParsedOperand::Reg(_)) => true,
        (ParsedOperand::RegOffset(_, o1), ParsedOperand::RegOffset(_, o2)) => o1 == o2,
        (ParsedOperand::Imm(v1), ParsedOperand::Imm(v2)) => v1 == v2,
        (ParsedOperand::VecMember(_, k1), ParsedOperand::VecMember(_, k2)) => k1 == k2,
        (ParsedOperand::VecPack(ns), ParsedOperand::VecPack(ids)) => ns@.len() == ids@.len(),
        _ => false,
    }
}

/// A normalized instruction has the shape of its source: same opcode, the
/// payload preserved, operands of matching shape.
pub open spec fn instruction_shape(a: ParsedInstruction, b: NormalizedInstruction) -> bool {
    match (a, b) {
        (
            Instruction::Mov { data: d1, arguments: a1 },
            Instruction::Mov { data: d2, arguments: a2 },
        ) => mov_details_eq(d2, d1) && operand_shape(a1.dst, a2.dst) && operand_shape(
            a1.src,
            a2.src,
        ),
        (
            Instruction::Ld { data: d1, arguments: a1 },
            Instruction::Ld { data: d2, arguments: a2 },
        ) => ld_details_eq(d2, d1) && operand_shape(a1.dst, a2.dst) && operand_shape(
            a1.src,
            a2.src,
        ),
        (
            Instruction::St { data: d1, arguments: a1 },
            Instruction::St { data: d2, arguments: a2 },
        ) => st_data_eq(d2, d1) && operand_shape(a1.src1, a2.src1) && operand_shape(
            a1.src2,
            a2.src2,
        ),
        (
            Instruction::Add { data: d1, arguments: a1 },
            Instruction::Add { data: d2, arguments: a2 },
        ) => d1 == d2 && operand_shape(a1.dst, a2.dst) && operand_shape(a1.src1, a2.src1)
            && operand_shape(a1.src2, a2.src2),
        (Instruction::Ret { data: d1 }, Instruction::Ret { data: d2 }) => d1 == d2,
        (
            Instruction::Call { data: d1, arguments: a1 },
            Instruction::Call { data: d2, arguments: a2 },
        ) => call_details_eq(d2, d1) && a1.return_arguments@.len() == a2.return_arguments@.len()
            && a1.input_arguments@.len() == a2.input_arguments@.len() && (forall|j: int|
            0 <= j < a1.input_arguments@.len() ==> operand_shape(
                #[trigger] a1.input_arguments@[j],
                a2.input_arguments@[j],
            )),
        (
            Instruction::Other { opcode: o1, operands: a1 },
            Instruction::Other { opcode: o2, operands: a2 },
        ) => o1 == o2 && a1@.len() == a2@.len() && (forall|j: int|
            0 <= j < a1@.len() ==> operand_shape(#[trigger] a1@[j], a2@[j])),
        _ => false,
    }
}

/// Resolution implies shape.
proof fn lemma_resolved_implies_shape(
    ss: Seq<Vec<Binding>>,
    a: ParsedInstruction,
    b: NormalizedInstruction,
)
    requires
        instruction_resolved(ss, a, b),
    ensures
        instruction_shape(a, b),
{
}

/// The output segment one parsed statement produces, by shape: one label
/// for a label, the expanded variables for a declaration — with the
/// declaration's fields — one instruction of matching shape for an
/// instruction — with its predicate polarity — and, for a block, the
/// segments of its contents in order.
pub open spec fn stmt_matches(s: ParsedStatement, seg: Seq<NormalizedStatement>) -> bool
    decreases s,
{
    match s {
        ParsedStatement::Label(_) => seg.len() == 1 && seg[0] is Label,
        ParsedStatement::Variable(mv) => {
            &&& seg.len() == stmt_out_len(s)
            &&& forall|k: int|
                0 <= k < seg.len() ==> ((#[trigger] seg[k]) matches NormalizedStatement::Variable(
                    v,
                ) && variable_fields_eq(v, mv.var))
        },
        ParsedStatement::Instruction(pred, inst) => seg.len() == 1 && (seg[0] matches NormalizedStatement::Instruction(
            p2,
            i2,
        ) && (pred is Some <==> p2 is Some) && (pred matches Some(p1) ==> p2 matches Some(q)
            && q.not == p1.not) && instruction_shape(inst, i2)),
        ParsedStatement::Block(b) => stmts_match(b@, seg),
    }
}

/// The output a statement list produces, by shape: the concatenation of
/// its statements' segments.
pub open spec fn stmts_match(ss: Seq<ParsedStatement>, out: Seq<NormalizedStatement>) -> bool
    decreases ss,
{
    if ss.len() == 0 {
        out.len() == 0
    } else {
        &&& out.len() >= stmt_out_len(ss.first())
        &&& stmt_matches(ss.first(), out.take(stmt_out_len(ss.first()) as int))
        &&& stmts_match(ss.drop_first(), out.skip(stmt_out_len(ss.first()) as int))
    }
}

/// One step of `stmts_out_len` from the front.
proof fn lemma_stmts_out_len_step(ss: Seq<ParsedStatement>, i: int)
    requires
        0 <= i < ss.len(),
    ensures
        stmts_out_len(ss.skip(i)) == stmt_out_len(ss[i]) + stmts_out_len(ss.skip(i + 1)),
{
    assert(ss.skip(i).first() == ss[i]);
    assert(ss.skip(i).drop_first() =~= ss.skip(i + 1));
}

/// One step of `stmts_out_len` over a bounded range.
proof fn lemma_stmts_out_len_range_step(ss: Seq<ParsedStatement>, i: int, k: int)
    requires
        0 <= i < k <= ss.len(),
    ensures
        stmts_out_len(ss.subrange(i, k)) == stmt_out_len(ss[i]) + stmts_out_len(
            ss.subrange(i + 1, k),
        ),
{
    assert(ss.subrange(i, k).first() == ss[i]);
    assert(ss.subrange(i, k).drop_first() =~= ss.subrange(i + 1, k));
}

/// Prefixes compose.
pub proof fn lemma_prefix_trans<A>(a: Seq<A>, b: Seq<A>, c: Seq<A>)
    requires
        a.is_prefix_of(b),
        b.is_prefix_of(c),
    ensures
        a.is_prefix_of(c),
{
    assert(a =~= c.subrange(0, a.len() as int));
}

/// Normalizes a statement list into `result`.
///
/// A label pre-pass introduces every label of the list into the current
/// scope first, so that instructions may refer to labels defined later —
/// forward references resolve to the very identifier the label statement
/// itself is emitted under. The main pass then resolves statements in
/// order, expanding variable declarations and recursing into nested
/// blocks inside a fresh scope.
pub fn run_statements(
    resolver: &mut ScopedResolver,
    result: &mut Vec<NormalizedStatement>,
    statements: &Vec<ParsedStatement>,
) -> (r: Result<(), TranslateError>)
    requires
        old(resolver).inv(),
        old(resolver).has_scope(),
    ensures
        final(resolver).inv(),
        final(resolver).has_scope(),
        table_extended(*old(resolver), *final(resolver)),
        old(result)@.is_prefix_of(final(result)@),
        r matches Ok(_) ==> scopes_preserved(*old(resolver), *final(resolver)),
        (r matches Ok(_) ==> forall|k: int|
            0 <= k < statements@.len() ==> ((#[trigger] statements@[k]) is Label ==> lookup_in_scope(
                final(resolver).current_scope(),
                statements@[k]->Label_0@,
            ) != None::<SpirvWord>)),
        (r matches Ok(_) ==> forall|k: int|
            old(result)@.len() <= k < final(result)@.len() ==> statement_ids_valid(
                #[trigger] final(result)@[k],
                final(resolver).table.entries@.len() as int,
            )),
        r matches Ok(_) ==> final(result)@.len() == old(result)@.len() + stmts_out_len(
            statements@,
        ),
        r matches Ok(_) ==> stmts_match(statements@, final(result)@.skip(old(result)@.len() as int)),
        (r matches Ok(_) ==> forall|k: int|
            0 <= k < statements@.len() ==> ((#[trigger] statements@[k]) matches ParsedStatement::Label(l)
                ==> ({
                let pos = old(result)@.len() as int + stmts_out_len(
                    statements@.subrange(0, k),
                ) as int;
                &&& 0 <= pos < final(result)@.len()
                &&& final(result)@[pos] is Label
                &&& lookup_in_scope(final(resolver).current_scope(), l@) == Some(
                    final(result)@[pos]->Label_0,
                )
            }))),
        ((exists|a: int, b: int|
            0 <= a < b < labels_of(statements@).len() && labels_of(statements@)[a] == labels_of(
                statements@,
            )[b]) ==> r matches Err(_)),
        statements@.len() == 0 ==> r matches Ok(_),
        r matches Err(_) ==> scopes_preserved_on_error(*old(resolver), *final(resolver)),
        r matches Err(e) ==> normalize_error(e),
    decreases statements@, 1int, 0int,
{
    match hoist_block_labels(resolver, statements) {
        Ok(_) => {},
        Err(e) => {
            proof {
                if statements@.len() == 0 {
                    assert(labels_of(statements@) =~= Seq::<Seq<u8>>::empty());
                    assert(false);
                }
            }
            return Err(e);
        },
    }
    let ghost hoisted = *resolver;
    match run_statements_rec(resolver, result, statements, 0) {
        Ok(_) => {
            proof {
                assert(statements@.skip(0) =~= statements@);
                assert forall|k: int|
                    0 <= k < statements@.len() && (#[trigger] statements@[k]) is Label implies lookup_in_scope(
                    resolver.current_scope(),
                    statements@[k]->Label_0@,
                ) != None::<SpirvWord> by {
                    let nm = statements@[k]->Label_0@;
                    assert(lookup_in_scope(hoisted.current_scope(), nm) != None::<SpirvWord>);
                    let x = lookup_in_scope(hoisted.current_scope(), nm)->Some_0;
                    assert(scope_names_unique(resolver.current_scope()));
                    lemma_binding_persists(
                        hoisted.current_scope(),
                        resolver.current_scope(),
                        nm,
                        x,
                    );
                }
                lemma_prefix_trans(
                    old(resolver).current_scope(),
                    hoisted.current_scope(),
                    resolver.current_scope(),
                );
                lemma_prefix_trans(
                    old(resolver).table.entries@,
                    hoisted.table.entries@,
                    resolver.table.entries@,
                );
            }
            Ok(())
        },
        Err(e) => {
            proof {
                lemma_prefix_trans(
                    old(resolver).current_scope(),
                    hoisted.current_scope(),
                    resolver.scopes@[old(resolver).scopes@.len() - 1]@,
                );
                lemma_prefix_trans(
                    old(resolver).table.entries@,
                    hoisted.table.entries@,
                    resolver.table.entries@,
                );
            }
            Err(e)
        },
    }
}

/// The main pass of `run_statements`, from statement `i` on.
#[verifier::rlimit(60)]
fn run_statements_rec(
    resolver: &mut ScopedResolver,
    result: &mut Vec<NormalizedStatement>,
    statements: &Vec<ParsedStatement>,
    i: usize,
) -> (r: Result<(), TranslateError>)
    requires
        old(resolver).inv(),
        old(resolver).has_scope(),
        i <= statements@.len(),
    ensures
        final(resolver).inv(),
        final(resolver).has_scope(),
        table_extended(*old(resolver), *final(resolver)),
        old(result)@.is_prefix_of(final(result)@),
        r matches Ok(_) ==> scopes_preserved(*old(resolver), *final(resolver)),
        (r matches Ok(_) ==> forall|k: int|
            old(result)@.len() <= k < final(result)@.len() ==> statement_ids_valid(
                #[trigger] final(result)@[k],
                final(resolver).table.entries@.len() as int,
            )),
        r matches Ok(_) ==> final(result)@.len() == old(result)@.len() + stmts_out_len(
            statements@.skip(i as int),
        ),
        r matches Ok(_) ==> stmts_match(
            statements@.skip(i as int),
            final(result)@.skip(old(result)@.len() as int),
        ),
        (r matches Ok(_) ==> forall|k: int|
            i <= k < statements@.len() ==> ((#[trigger] statements@[k]) matches ParsedStatement::Label(l)
                ==> ({
                let pos = old(result)@.len() as int + stmts_out_len(
                    statements@.subrange(i as int, k),
                ) as int;
                &&& 0 <= pos < final(result)@.len()
                &&& final(result)@[pos] is Label
                &&& lookup_in_scope(final(resolver).current_scope(), l@) == Some(
                    final(result)@[pos]->Label_0,
                )
            }))),
        i >= statements@.len() ==> r matches Ok(_),
        r matches Err(_) ==> scopes_preserved_on_error(*old(resolver), *final(resolver)),
        r matches Err(e) ==> normalize_error(e),
    decreases statements@, 0int, statements@.len() - i,
{
    if i >= statements.len() {
        proof {
            assert(statements@.skip(i as int) =~= Seq::<ParsedStatement>::empty());
            assert(result@.skip(old(result)@.len() as int) =~= Seq::<NormalizedStatement>::empty());
        }
        return Ok(());
    }
    let ghost pre_r = *old(resolver);
    let stmt = &statements[i];
    match stmt {
        ParsedStatement::Label(l) => {
            match resolver.get_in_current_scope(l) {
                Ok(id) => {
                    proof {
                        lemma_lookup_id_allocated(*resolver, l@, id);
                    }
                    result.push(NormalizedStatement::Label(id));
                    proof {
                        assert(result@.skip(old(result)@.len() as int) =~= seq![
                            NormalizedStatement::Label(id),
                        ]);
                    }
                },
                Err(e) => {
                    return Err(e);
                },
            }
        },
        ParsedStatement::Variable(mv) => {
            match run_multivariable(resolver, result, mv) {
                Ok(_) => {
                    proof {
                        assert forall|k: int|
                            old(result)@.len() <= k < result@.len() implies statement_ids_valid(
                            #[trigger] result@[k],
                            resolver.table.entries@.len() as int,
                        ) by {
                            match mv.count {
                                Some(n) => {
                                    let kk = k - old(result)@.len();
                                    assert(0 <= kk < n);
                                    assert(result@[old(result)@.len() + kk] matches NormalizedStatement::Variable(
                                        v,
                                    ) && v.name == pre_r.fresh_id() + kk);
                                    assert(result@[k] == result@[old(result)@.len() + kk]);
                                },
                                None => {
                                    assert(result@.last() == result@[k]);
                                },
                            }
                        }
                        let seg = result@.skip(old(result)@.len() as int);
                        assert(seg.len() == stmt_out_len(statements@[i as int]));
                        assert forall|k: int|
                            0 <= k < seg.len() implies (#[trigger] seg[k]) matches NormalizedStatement::Variable(
                            v,
                        ) && variable_fields_eq(v, mv.var) by {
                            assert(seg[k] == result@[old(result)@.len() + k]);
                            match mv.count {
                                Some(n) => {
                                    assert(result@[old(result)@.len() + k] matches NormalizedStatement::Variable(
                                        v,
                                    ) && variable_fields_eq(v, mv.var));
                                },
                                None => {
                                    assert(result@.last() == result@[old(result)@.len() + k]);
                                },
                            }
                        }
                        assert(stmt_matches(statements@[i as int], seg));
                    }
                },
                Err(e) => {
                    return Err(e);
                },
            }
        },
        ParsedStatement::Instruction(pred, inst) => {
            let p = match pred {
                Some(pa) => match resolver.get(&pa.label) {
                    Ok(id) => {
                        proof {
                            lemma_lookup_id_allocated(*resolver, pa.label@, id);
                        }
                        Some(PredAt { not: pa.not, label: id })
                    },
                    Err(e) => {
                        return Err(e);
                    },
                },
                None => None,
            };
            match run_instruction(resolver, inst) {
                Ok(norm) => {
                    proof {
                        lemma_resolved_implies_shape(resolver.scopes@, *inst, norm);
                    }
                    result.push(NormalizedStatement::Instruction(p, norm));
                    proof {
                        assert(result@.skip(old(result)@.len() as int) =~= seq![
                            NormalizedStatement::Instruction(p, norm),
                        ]);
                    }
                },
                Err(e) => {
                    return Err(e);
                },
            }
        },
        ParsedStatement::Block(b) => {
            resolver.start_scope();
            proof {
                assert(decreases_to!(statements@ => statements@[i as int]));
                assert(statements@[i as int]->Block_0 == *b);
                assert(decreases_to!(statements@[i as int] => *b));
                assert(decreases_to!(*b => b@));
            }
            match run_statements(resolver, result, b) {
                Ok(_) => {},
                Err(e) => {
                    proof {
                        assert(resolver.scopes@[old(resolver).scopes@.len() - 1]@ == old(resolver).current_scope());
                    }
                    return Err(e);
                },
            }
            resolver.end_scope();
            proof {
                assert(resolver.current_scope() == old(resolver).current_scope());
            }
        },
    }
    proof {
        assert forall|k: int|
            old(result)@.len() <= k < result@.len() implies statement_ids_valid(
            #[trigger] result@[k],
            resolver.table.entries@.len() as int,
        ) by {}
        assert(result@.len() == old(result)@.len() + stmt_out_len(statements@[i as int]));
        assert(stmt_matches(statements@[i as int], result@.skip(old(result)@.len() as int)));
        assert(statements@[i as int] matches ParsedStatement::Label(l) ==> (result@.len() == old(result)@.len() + 1 && result@[old(result)@.len() as int] is Label && lookup_in_scope(
            old(resolver).current_scope(),
            l@,
        ) == Some(result@[old(result)@.len() as int]->Label_0)));
    }
    let ghost mid = *resolver;
    let ghost mid_result = result@;
    let res = run_statements_rec(resolver, result, statements, i + 1);
    proof {
        lemma_prefix_trans(old(result)@, mid_result, result@);
        lemma_prefix_trans(
            old(resolver).table.entries@,
            mid.table.entries@,
            resolver.table.entries@,
        );
        if res matches Ok(_) {
            lemma_stmts_out_len_step(statements@, i as int);
            lemma_prefix_trans(
                old(resolver).current_scope(),
                mid.current_scope(),
                resolver.current_scope(),
            );
            let step_len = stmt_out_len(statements@[i as int]) as int;
            let out = result@.skip(old(result)@.len() as int);
            assert(mid_result == result@.subrange(0, mid_result.len() as int));
            assert(statements@.skip(i as int).first() == statements@[i as int]);
            assert(statements@.skip(i as int).drop_first() =~= statements@.skip(i as int + 1));
            assert(out.take(step_len) =~= mid_result.skip(old(result)@.len() as int));
            assert(out.skip(step_len) =~= result@.skip(mid_result.len() as int));
            assert(stmts_match(statements@.skip(i as int), out));
            assert(scope_names_unique(resolver.current_scope()));
            assert forall|k: int|
                i <= k < statements@.len() && (#[trigger] statements@[k]) is Label implies ({
                let pos = old(result)@.len() as int + stmts_out_len(
                    statements@.subrange(i as int, k),
                ) as int;
                &&& 0 <= pos < result@.len()
                &&& result@[pos] is Label
                &&& lookup_in_scope(resolver.current_scope(), statements@[k]->Label_0@) == Some(
                    result@[pos]->Label_0,
                )
            }) by {
                let l_v = statements@[k]->Label_0;
                if k == i {
                    assert(statements@.subrange(i as int, i as int)
                        =~= Seq::<ParsedStatement>::empty());
                    let pos = old(result)@.len() as int;
                    assert(result@[pos] == mid_result[pos]);
                    let id0 = mid_result[pos]->Label_0;
                    assert(lookup_in_scope(old(resolver).current_scope(), l_v@) == Some(id0));
                    lemma_binding_persists(
                        old(resolver).current_scope(),
                        resolver.current_scope(),
                        l_v@,
                        id0,
                    );
                } else {
                    lemma_stmts_out_len_range_step(statements@, i as int, k);
                }
            }
            assert forall|k: int|
                old(result)@.len() <= k < result@.len() implies statement_ids_valid(
                #[trigger] result@[k],
                resolver.table.entries@.len() as int,
            ) by {
                if k < mid_result.len() {
                    assert(mid_result == result@.subrange(0, mid_result.len() as int));
                    assert(result@[k] == mid_result[k]);
                    lemma_statement_ids_valid_mono(
                        result@[k],
                        mid.table.entries@.len() as int,
                        resolver.table.entries@.len() as int,
                    );
                }
            }
        } else {
            lemma_prefix_trans(
                old(resolver).current_scope(),
                mid.current_scope(),
                resolver.scopes@[old(resolver).scopes@.len() - 1]@,
            );
        }
    }
    res
}

/// The declaration's arguments as one list: returns first, inputs after.
pub open spec fn decl_args(d: MethodDeclaration<Vec<u8>>) -> Seq<Variable<Vec<u8>>> {
    d.return_arguments@ + d.input_arguments@
}

/// Interns the declaration's return and input arguments as typed
/// variables, returns first: each gets a fresh consecutive identifier —
/// distinct from every identifier any scope held before the call — and a
/// table descriptor with its source name, type and state space. Succeeds
/// exactly when the argument names are absent from the innermost scope,
/// pairwise distinct, and the table has room.
pub fn run_function_decl(
    resolver: &mut ScopedResolver,
    func_directive: MethodDeclaration<Vec<u8>>,
    name: MethodName<SpirvWord>,
) -> (r: Result<MethodDeclaration<SpirvWord>, TranslateError>)
    requires
        old(resolver).inv(),
        old(resolver).has_scope(),
        func_directive.shared_mem is None,
    ensures
        final(resolver).inv(),
        final(resolver).has_scope(),
        table_extended(*old(resolver), *final(resolver)),
        scopes_preserved(*old(resolver), *final(resolver)),
        (r matches Ok(_) <==> (arg_names_fresh(
            old(resolver).current_scope(),
            decl_args(func_directive),
        ) && arg_names_distinct(decl_args(func_directive)) && (decl_args(func_directive).len()
            == 0 || old(resolver).table.entries@.len() + decl_args(func_directive).len()
            <= IDENT_LIMIT + 1))),
        match r {
            Ok(d) => {
                &&& d.name == name
                &&& d.shared_mem is None
                &&& d.return_arguments@.len() == func_directive.return_arguments@.len()
                &&& forall|k: int|
                    0 <= k < d.return_arguments@.len() ==> (variable_fields_eq(
                        #[trigger] d.return_arguments@[k],
                        func_directive.return_arguments@[k],
                    ) && d.return_arguments@[k].name == old(resolver).fresh_id() + k)
                &&& d.input_arguments@.len() == func_directive.input_arguments@.len()
                &&& forall|k: int|
                    0 <= k < d.input_arguments@.len() ==> (variable_fields_eq(
                        #[trigger] d.input_arguments@[k],
                        func_directive.input_arguments@[k],
                    ) && d.input_arguments@[k].name == old(resolver).fresh_id()
                        + func_directive.return_arguments@.len() + k)
                &&& final(resolver).table.entries@.len() == old(resolver).table.entries@.len()
                    + decl_args(func_directive).len()
                &&& forall|k: int|
                    0 <= k < decl_args(func_directive).len() ==> ((#[trigger] final(resolver).table.entries@[old(resolver).table.entries@.len() + k].name) matches Some(nm)
                        && nm@ == decl_args(func_directive)[k].name@)
                &&& forall|k: int|
                    0 <= k < decl_args(func_directive).len() ==> ((#[trigger] final(resolver).table.entries@[old(resolver).table.entries@.len()
                        + k].type_space) matches Some(ts) && types_equal(
                        ts.0,
                        decl_args(func_directive)[k].v_type,
                    ) && ts.1 == decl_args(func_directive)[k].state_space)
            },
            Err(e) => {
                &&& (e == TranslateError::SymbolRedefinition || e == TranslateError::Unreachable)
                &&& (e == TranslateError::SymbolRedefinition ==> !(arg_names_fresh(
                    old(resolver).current_scope(),
                    decl_args(func_directive),
                ) && arg_names_distinct(decl_args(func_directive))))
                &&& (e == TranslateError::Unreachable ==> old(resolver).table.entries@.len()
                    + decl_args(func_directive).len() > IDENT_LIMIT + 1)
            },
        },
{
    let ghost all = decl_args(func_directive);
    let ghost rets = func_directive.return_arguments@;
    let ghost inps = func_directive.input_arguments@;
    let ghost nrets = rets.len() as int;
    let MethodDeclaration { return_arguments, name: _, input_arguments, shared_mem: _ } =
        func_directive;
    let return_arguments = match intern_variables(
        resolver,
        return_arguments,
        Ghost(func_directive.return_arguments@),
    ) {
        Ok(v) => v,
        Err(e) => {
            proof {
                lemma_decl_args_split(func_directive);
                if e == TranslateError::SymbolRedefinition {
                    lift_rets_violation(old(resolver).current_scope(), rets, inps);
                }
            }
            return Err(e);
        },
    };
    let ghost mid = *resolver;
    let input_arguments = match intern_variables(
        resolver,
        input_arguments,
        Ghost(func_directive.input_arguments@),
    ) {
        Ok(v) => v,
        Err(e) => {
            proof {
                lemma_prefix_trans(
                    old(resolver).current_scope(),
                    mid.current_scope(),
                    resolver.current_scope(),
                );
                lemma_prefix_trans(
                    old(resolver).table.entries@,
                    mid.table.entries@,
                    resolver.table.entries@,
                );
                lemma_decl_args_split(func_directive);
                if e == TranslateError::SymbolRedefinition {
                    lift_inps_violation(*old(resolver), mid, rets, inps);
                }
            }
            return Err(e);
        },
    };
    proof {
        lemma_prefix_trans(
            old(resolver).current_scope(),
            mid.current_scope(),
            resolver.current_scope(),
        );
        lemma_prefix_trans(
            old(resolver).table.entries@,
            mid.table.entries@,
            resolver.table.entries@,
        );
        lemma_decl_args_split(func_directive);
        lift_both_ok(*old(resolver), mid, *resolver, rets, inps);
        assert(mid.table.entries@ == resolver.table.entries@.subrange(
            0,
            mid.table.entries@.len() as int,
        ));
        assert forall|k: int| 0 <= k < all.len() implies ((#[trigger] resolver.table.entries@[old(resolver).table.entries@.len() + k].name) matches Some(nm) && nm@ == all[k].name@) by {
            if k < nrets {
                assert(mid.table.entries@[old(resolver).table.entries@.len() + k].name matches Some(
                    nm,
                ) && nm@ == rets[k].name@);
                assert(resolver.table.entries@[old(resolver).table.entries@.len() + k]
                    == mid.table.entries@[old(resolver).table.entries@.len() + k]);
            } else {
                assert(resolver.table.entries@[mid.table.entries@.len() + (k
                    - nrets)].name matches Some(nm) && nm@ == inps[k - nrets].name@);
            }
        }
        assert forall|k: int| 0 <= k < all.len() implies ((#[trigger] resolver.table.entries@[old(resolver).table.entries@.len() + k].type_space) matches Some(ts) && types_equal(
            ts.0,
            all[k].v_type,
        ) && ts.1 == all[k].state_space) by {
            if k < nrets {
                assert(mid.table.entries@[old(resolver).table.entries@.len()
                    + k].type_space matches Some(ts) && types_equal(ts.0, rets[k].v_type) && ts.1
                    == rets[k].state_space);
                assert(resolver.table.entries@[old(resolver).table.entries@.len() + k]
                    == mid.table.entries@[old(resolver).table.entries@.len() + k]);
            } else {
                assert(resolver.table.entries@[mid.table.entries@.len() + (k
                    - nrets)].type_space matches Some(ts) && types_equal(
                    ts.0,
                    inps[k - nrets].v_type,
                ) && ts.1 == inps[k - nrets].state_space);
            }
        }
    }
    Ok(MethodDeclaration { return_arguments, name, input_arguments, shared_mem: None })
}

/// Indexing the combined argument list.
proof fn lemma_decl_args_split(d: MethodDeclaration<Vec<u8>>)
    ensures
        decl_args(d).len() == d.return_arguments@.len() + d.input_arguments@.len(),
        forall|k: int|
            0 <= k < d.return_arguments@.len() ==> #[trigger] decl_args(d)[k]
                == d.return_arguments@[k],
        forall|k: int|
            0 <= k < d.input_arguments@.len() ==> #[trigger] decl_args(d)[d.return_arguments@.len()
                + k] == d.input_arguments@[k],
{
}

/// A freshness or distinctness violation among the return arguments is one
/// of the combined list.
proof fn lift_rets_violation(
    top: Seq<Binding>,
    rets: Seq<Variable<Vec<u8>>>,
    inps: Seq<Variable<Vec<u8>>>,
)
    requires
        !(arg_names_fresh(top, rets) && arg_names_distinct(rets)),
    ensures
        !(arg_names_fresh(top, rets + inps) && arg_names_distinct(rets + inps)),
{
    let all = rets + inps;
    if !arg_names_fresh(top, rets) {
        let k = choose|k: int|
            0 <= k < rets.len() && lookup_in_scope(top, (#[trigger] rets[k]).name@)
                != None::<SpirvWord>;
        assert(all[k] == rets[k]);
        assert(!arg_names_fresh(top, all));
    } else {
        let (a, b) = choose|a: int, b: int|
            0 <= a < b < rets.len() && (#[trigger] rets[a].name@) == (#[trigger] rets[b].name@);
        assert(all[a] == rets[a] && all[b] == rets[b]);
        assert(!arg_names_distinct(all));
    }
}

/// A freshness or distinctness violation among the input arguments —
/// checked against the scope holding the freshly-bound returns — is one of
/// the combined list against the scope as it stood before interning.
proof fn lift_inps_violation(
    pre: ScopedResolver,
    mid: ScopedResolver,
    rets: Seq<Variable<Vec<u8>>>,
    inps: Seq<Variable<Vec<u8>>>,
)
    requires
        mid.inv(),
        mid.has_scope(),
        mid.current_scope().len() == pre.current_scope().len() + rets.len(),
        pre.current_scope().is_prefix_of(mid.current_scope()),
        forall|k: int|
            0 <= k < rets.len() ==> (#[trigger] mid.current_scope()[pre.current_scope().len()
                + k]).name@ == rets[k].name@,
        !(arg_names_fresh(mid.current_scope(), inps) && arg_names_distinct(inps)),
    ensures
        !(arg_names_fresh(pre.current_scope(), rets + inps) && arg_names_distinct(rets + inps)),
{
    let all = rets + inps;
    let base = pre.current_scope().len() as int;
    if !arg_names_fresh(mid.current_scope(), inps) {
        let k = choose|k: int|
            0 <= k < inps.len() && lookup_in_scope(mid.current_scope(), (#[trigger] inps[k]).name@)
                != None::<SpirvWord>;
        let x = lookup_in_scope(mid.current_scope(), inps[k].name@)->Some_0;
        lemma_lookup_present(mid.current_scope(), inps[k].name@, x);
        let j = choose|j: int|
            0 <= j < mid.current_scope().len() && mid.current_scope()[j].name@ == inps[k].name@
                && #[trigger] mid.current_scope()[j].id == x;
        assert(all[rets.len() + k] == inps[k]);
        if j < base {
            assert(pre.current_scope() == mid.current_scope().subrange(0, base));
            assert(pre.current_scope()[j] == mid.current_scope()[j]);
            lemma_lookup_absent(pre.current_scope(), inps[k].name@);
            assert(lookup_in_scope(pre.current_scope(), all[rets.len() + k].name@)
                != None::<SpirvWord>);
            assert(!arg_names_fresh(pre.current_scope(), all));
        } else {
            let jj = j - base;
            assert(mid.current_scope()[base + jj].name@ == rets[jj].name@);
            assert(all[jj] == rets[jj]);
            assert(all[jj].name@ == all[rets.len() + k].name@);
            assert(!arg_names_distinct(all));
        }
    } else {
        let (a, b) = choose|a: int, b: int|
            0 <= a < b < inps.len() && (#[trigger] inps[a].name@) == (#[trigger] inps[b].name@);
        assert(all[rets.len() + a] == inps[a] && all[rets.len() + b] == inps[b]);
        assert(!arg_names_distinct(all));
    }
}

/// Both interning steps succeeded: the combined list was fresh, distinct,
/// and within the table's room.
proof fn lift_both_ok(
    pre: ScopedResolver,
    mid: ScopedResolver,
    fin: ScopedResolver,
    rets: Seq<Variable<Vec<u8>>>,
    inps: Seq<Variable<Vec<u8>>>,
)
    requires
        mid.inv(),
        mid.has_scope(),
        mid.current_scope().len() == pre.current_scope().len() + rets.len(),
        pre.current_scope().is_prefix_of(mid.current_scope()),
        mid.table.entries@.len() == pre.table.entries@.len() + rets.len(),
        forall|k: int|
            0 <= k < rets.len() ==> (#[trigger] mid.current_scope()[pre.current_scope().len()
                + k]).name@ == rets[k].name@,
        arg_names_fresh(pre.current_scope(), rets),
        arg_names_distinct(rets),
        rets.len() == 0 || pre.table.entries@.len() + rets.len() <= IDENT_LIMIT + 1,
        arg_names_fresh(mid.current_scope(), inps),
        arg_names_distinct(inps),
        inps.len() == 0 || mid.table.entries@.len() + inps.len() <= IDENT_LIMIT + 1,
    ensures
        arg_names_fresh(pre.current_scope(), rets + inps),
        arg_names_distinct(rets + inps),
        (rets + inps).len() == 0 || pre.table.entries@.len() + (rets + inps).len() <= IDENT_LIMIT
            + 1,
{
    let all = rets + inps;
    let base = pre.current_scope().len() as int;
    assert forall|k: int|
        0 <= k < all.len() implies lookup_in_scope(pre.current_scope(), (#[trigger] all[k]).name@)
        == None::<SpirvWord> by {
        if k < rets.len() {
            assert(all[k] == rets[k]);
        } else {
            assert(all[k] == inps[k - rets.len()]);
            if lookup_in_scope(pre.current_scope(), all[k].name@) != None::<SpirvWord> {
                let x = lookup_in_scope(pre.current_scope(), all[k].name@)->Some_0;
                assert(scope_names_unique(mid.current_scope()));
                lemma_binding_persists(
                    pre.current_scope(),
                    mid.current_scope(),
                    all[k].name@,
                    x,
                );
                assert(false);
            }
        }
    }
    assert forall|a: int, b: int| 0 <= a < b < all.len() implies all[a].name@ != all[b].name@ by {
        if b < rets.len() {
            assert(all[a] == rets[a] && all[b] == rets[b]);
        } else if a >= rets.len() {
            assert(all[a] == inps[a - rets.len()] && all[b] == inps[b - rets.len()]);
        } else {
            // A return argument against an input argument: the return's
            // binding is in the scope the input was checked against.
            assert(all[a] == rets[a] && all[b] == inps[b - rets.len()]);
            lemma_lookup_absent(mid.current_scope(), inps[b - rets.len()].name@);
            assert(mid.current_scope()[base + a].name@ == rets[a].name@);
        }
    }
}

/// Every name of the list is absent from the scope.
pub open spec fn arg_names_fresh(top: Seq<Binding>, vars: Seq<Variable<Vec<u8>>>) -> bool {
    forall|k: int|
        0 <= k < vars.len() ==> lookup_in_scope(top, (#[trigger] vars[k]).name@)
            == None::<SpirvWord>
}

/// No two names of the list coincide.
pub open spec fn arg_names_distinct(vars: Seq<Variable<Vec<u8>>>) -> bool {
    forall|a: int, b: int| 0 <= a < b < vars.len() ==> vars[a].name@ != vars[b].name@
}

/// What successfully interning a variable list produces: one output
/// variable per input under consecutive — hence pairwise-distinct — fresh
/// identifiers, each recorded in the table with the source name and the
/// declared type and state space, and bound in the innermost scope.
pub open spec fn vars_interned(
    pre: ScopedResolver,
    post: ScopedResolver,
    orig: Seq<Variable<Vec<u8>>>,
    out: Seq<Variable<SpirvWord>>,
) -> bool {
    &&& out.len() == orig.len()
    &&& post.table.entries@.len() == pre.table.entries@.len() + orig.len()
    &&& post.current_scope().len() == pre.current_scope().len() + orig.len()
    &&& forall|k: int|
        0 <= k < out.len() ==> (variable_fields_eq(#[trigger] out[k], orig[k]) && out[k].name
            == pre.fresh_id() + k)
    &&& forall|k: int|
        0 <= k < orig.len() ==> ((#[trigger] post.table.entries@[pre.table.entries@.len()
            + k].name) matches Some(nm) && nm@ == orig[k].name@)
    &&& forall|k: int|
        0 <= k < orig.len() ==> ((#[trigger] post.table.entries@[pre.table.entries@.len()
            + k].type_space) matches Some(ts) && types_equal(ts.0, orig[k].v_type) && ts.1
            == orig[k].state_space)
    &&& forall|k: int|
        0 <= k < orig.len() ==> ((#[trigger] post.current_scope()[pre.current_scope().len()
            + k]).name@ == orig[k].name@ && post.current_scope()[pre.current_scope().len() + k].id
            == pre.fresh_id() + k)
}

/// Interns a list of typed variables in order: succeeds exactly when the
/// names are absent from the innermost scope, pairwise distinct, and the
/// table has room.
fn intern_variables(
    resolver: &mut ScopedResolver,
    vars: Vec<Variable<Vec<u8>>>,
    Ghost(orig): Ghost<Seq<Variable<Vec<u8>>>>,
) -> (r: Result<Vec<Variable<SpirvWord>>, TranslateError>)
    requires
        old(resolver).inv(),
        old(resolver).has_scope(),
        vars@ == orig,
    ensures
        final(resolver).inv(),
        final(resolver).has_scope(),
        table_extended(*old(resolver), *final(resolver)),
        scopes_preserved(*old(resolver), *final(resolver)),
        (r matches Ok(_) <==> (arg_names_fresh(old(resolver).current_scope(), orig)
            && arg_names_distinct(orig) && (orig.len() == 0 || old(resolver).table.entries@.len()
            + orig.len() <= IDENT_LIMIT + 1))),
        match r {
            Ok(out) => vars_interned(*old(resolver), *final(resolver), orig, out@),
            Err(e) => {
                &&& (e == TranslateError::SymbolRedefinition || e == TranslateError::Unreachable)
                &&& (e == TranslateError::SymbolRedefinition ==> !(arg_names_fresh(
                    old(resolver).current_scope(),
                    orig,
                ) && arg_names_distinct(orig)))
                &&& (e == TranslateError::Unreachable ==> old(resolver).table.entries@.len()
                    + orig.len() > IDENT_LIMIT + 1)
            },
        },
{
    let mut rem = vars;
    let mut out: Vec<Variable<SpirvWord>> = Vec::new();
    while rem.len() > 0
        invariant
            resolver.inv(),
            resolver.has_scope(),
            out@.len() + rem@.len() == orig.len(),
            rem@ == orig.skip(out@.len() as int),
            resolver.scopes@.len() == old(resolver).scopes@.len(),
            forall|q: int|
                0 <= q < old(resolver).scopes@.len() - 1 ==> resolver.scopes@[q] == old(resolver).scopes@[q],
            old(resolver).current_scope().is_prefix_of(resolver.current_scope()),
            old(resolver).table.entries@.is_prefix_of(resolver.table.entries@),
            resolver.table.entries@.len() == old(resolver).table.entries@.len() + out@.len(),
            out@.len() > 0 ==> old(resolver).table.entries@.len() + out@.len() <= IDENT_LIMIT + 1,
            resolver.current_scope().len() == old(resolver).current_scope().len() + out@.len(),
            forall|k: int|
                0 <= k < out@.len() ==> (variable_fields_eq(#[trigger] out@[k], orig[k])
                    && out@[k].name == old(resolver).fresh_id() + k),
            forall|k: int|
                0 <= k < out@.len() ==> ((#[trigger] resolver.table.entries@[old(resolver).table.entries@.len() + k].name) matches Some(nm) && nm@ == orig[k].name@),
            forall|k: int|
                0 <= k < out@.len() ==> ((#[trigger] resolver.table.entries@[old(resolver).table.entries@.len() + k].type_space) matches Some(ts) && types_equal(
                    ts.0,
                    orig[k].v_type,
                ) && ts.1 == orig[k].state_space),
            forall|k: int|
                0 <= k < out@.len() ==> ((#[trigger] resolver.current_scope()[old(resolver).current_scope().len() + k]).name@ == orig[k].name@
                    && resolver.current_scope()[old(resolver).current_scope().len() + k].id == old(resolver).fresh_id() + k),
            forall|k: int|
                0 <= k < out@.len() ==> lookup_in_scope(
                    old(resolver).current_scope(),
                    (#[trigger] orig[k]).name@,
                ) == None::<SpirvWord>,
            forall|a: int, b: int| 0 <= a < b < out@.len() ==> orig[a].name@ != orig[b].name@,
        decreases rem@.len(),
    {
        let ghost done = out@.len() as int;
        let ghost pre = *resolver;
        let ghost top_k = resolver.current_scope();
        let ghost tab_k = resolver.table.entries@;
        let var = rem.remove(0);
        proof {
            assert(var == orig[done]);
            assert(rem@ =~= orig.skip(done + 1));
        }
        match run_variable(resolver, var) {
            Ok(v) => {
                out.push(v);
                proof {
                    lemma_prefix_trans(
                        old(resolver).current_scope(),
                        pre.current_scope(),
                        resolver.current_scope(),
                    );
                    lemma_prefix_trans(
                        old(resolver).table.entries@,
                        pre.table.entries@,
                        resolver.table.entries@,
                    );
                    let base_len = old(resolver).current_scope().len() as int;
                    let base_tlen = old(resolver).table.entries@.len() as int;
                    let cur = resolver.current_scope();
                    let tab = resolver.table.entries@;
                    assert(top_k == cur.subrange(0, top_k.len() as int));
                    assert(tab_k == tab.subrange(0, tab_k.len() as int));
                    // The new name was absent from the scope as it stood on
                    // entry, or its binding would have persisted to this
                    // point.
                    if lookup_in_scope(old(resolver).current_scope(), orig[done].name@)
                        != None::<SpirvWord> {
                        let x = lookup_in_scope(
                            old(resolver).current_scope(),
                            orig[done].name@,
                        )->Some_0;
                        assert(scope_names_unique(top_k));
                        lemma_binding_persists(
                            old(resolver).current_scope(),
                            top_k,
                            orig[done].name@,
                            x,
                        );
                        assert(false);
                    }
                    // No earlier name of the list coincides with the new one.
                    lemma_lookup_absent(top_k, orig[done].name@);
                    assert forall|a: int, b: int| 0 <= a < b < done + 1 implies orig[a].name@
                        != orig[b].name@ by {
                        if b == done {
                            assert(top_k[base_len + a].name@ == orig[a].name@);
                        }
                    }
                    assert forall|k: int| 0 <= k < done + 1 implies (#[trigger] cur[base_len
                        + k]).name@ == orig[k].name@ && cur[base_len + k].id == old(resolver).fresh_id() + k by {
                        if k < done {
                            assert(top_k[base_len + k].name@ == orig[k].name@);
                            assert(cur[base_len + k] == top_k[base_len + k]);
                        } else {
                            assert(cur.last() == cur[base_len + k]);
                        }
                    }
                    assert forall|k: int| 0 <= k < done + 1 implies ((#[trigger] tab[base_tlen
                        + k].name) matches Some(nm) && nm@ == orig[k].name@) by {
                        if k < done {
                            assert(tab_k[base_tlen + k].name matches Some(nm) && nm@
                                == orig[k].name@);
                            assert(tab[base_tlen + k] == tab_k[base_tlen + k]);
                        } else {
                            assert(tab.last() == tab[base_tlen + k]);
                        }
                    }
                    assert forall|k: int| 0 <= k < done + 1 implies ((#[trigger] tab[base_tlen
                        + k].type_space) matches Some(ts) && types_equal(ts.0, orig[k].v_type)
                        && ts.1 == orig[k].state_space) by {
                        if k < done {
                            assert(tab_k[base_tlen + k].type_space matches Some(ts)
                                && types_equal(ts.0, orig[k].v_type) && ts.1
                                == orig[k].state_space);
                            assert(tab[base_tlen + k] == tab_k[base_tlen + k]);
                        } else {
                            assert(tab.last() == tab[base_tlen + k]);
                        }
                    }
                }
            },
            Err(e) => {
                proof {
                    let base_len = old(resolver).current_scope().len() as int;
                    if e == TranslateError::SymbolRedefinition {
                        assert(lookup_in_scope(top_k, orig[done].name@) != None::<SpirvWord>);
                        let x = lookup_in_scope(top_k, orig[done].name@)->Some_0;
                        lemma_lookup_present(top_k, orig[done].name@, x);
                        let j = choose|j: int|
                            0 <= j < top_k.len() && top_k[j].name@ == orig[done].name@
                                && #[trigger] top_k[j].id == x;
                        if j < base_len {
                            assert(old(resolver).current_scope() == top_k.subrange(0, base_len));
                            assert(old(resolver).current_scope()[j] == top_k[j]);
                            lemma_lookup_absent(old(resolver).current_scope(), orig[done].name@);
                            assert(lookup_in_scope(
                                old(resolver).current_scope(),
                                orig[done].name@,
                            ) != None::<SpirvWord>);
                            assert(!arg_names_fresh(old(resolver).current_scope(), orig));
                        } else {
                            let jj = j - base_len;
                            assert(top_k[base_len + jj].name@ == orig[jj].name@);
                            assert(orig[jj].name@ == orig[done].name@);
                            assert(!arg_names_distinct(orig));
                        }
                    } else {
                        assert(resolver.table.entries@.len() > IDENT_LIMIT);
                        assert(old(resolver).table.entries@.len() + orig.len() > IDENT_LIMIT + 1);
                    }
                }
                return Err(e);
            },
        }
    }
    proof {
        assert(rem@.len() == 0);
        assert(out@.len() == orig.len());
    }
    Ok(out)
}

/// The shape a normalized directive shares with its source: linkage,
/// tuning, name kind, argument fields, and the presence of a body.
pub open spec fn directive_shape_rel(a: ParsedDirective, b: NormalizedDirective2) -> bool {
    match (a, b) {
        (ParsedDirective::Variable(l1, v1), Directive2::Variable(l2, v2)) => l1 == l2
            && variable_fields_eq(v2, v1),
        (ParsedDirective::Method(l1, m1), Directive2::Method(f)) => {
            &&& f.linkage == l1
            &&& f.import_as is None
            &&& f.globals@.len() == 0
            &&& f.tuning == m1.tuning
            &&& (m1.body is Some) <==> (f.body is Some)
            &&& f.func_decl.shared_mem is None
            &&& match (m1.func_directive.name, f.func_decl.name) {
                (MethodName::Kernel(n1), MethodName::Kernel(n2)) => n2@ == n1@,
                (MethodName::Func(_), MethodName::Func(_)) => true,
                _ => false,
            }
            &&& f.func_decl.return_arguments@.len() == m1.func_directive.return_arguments@.len()
            &&& forall|k: int|
                0 <= k < f.func_decl.return_arguments@.len() ==> variable_fields_eq(
                    #[trigger] f.func_decl.return_arguments@[k],
                    m1.func_directive.return_arguments@[k],
                )
            &&& f.func_decl.input_arguments@.len() == m1.func_directive.input_arguments@.len()
            &&& forall|k: int|
                0 <= k < f.func_decl.input_arguments@.len() ==> variable_fields_eq(
                    #[trigger] f.func_decl.input_arguments@[k],
                    m1.func_directive.input_arguments@[k],
                )
        },
        _ => false,
    }
}

/// Normalizes one method: interns a device function's name in the current
/// (module-level) scope, so declarations and later definitions collapse to
/// one identifier, then processes arguments and body inside a fresh scope.
pub fn run_method(
    resolver: &mut ScopedResolver,
    linkage: LinkingDirective,
    method: ParsedMethod,
) -> (r: Result<Function2<NormalizedStatement>, TranslateError>)
    requires
        old(resolver).inv(),
        old(resolver).has_scope(),
        method.func_directive.shared_mem is None,
    ensures
        final(resolver).inv(),
        final(resolver).has_scope(),
        table_extended(*old(resolver), *final(resolver)),
        r matches Ok(_) ==> scopes_preserved(*old(resolver), *final(resolver)),
        r matches Err(_) ==> scopes_preserved_on_error(*old(resolver), *final(resolver)),
        r matches Err(e) ==> normalize_error(e),
        // A body-less method normalizes whenever its argument names are
        // pairwise distinct and the table has room: the argument scope is
        // freshly opened, so no outer binding can collide.
        ((method.body is None && arg_names_distinct(decl_args(method.func_directive)) && old(
            resolver,
        ).table.entries@.len() + 1 + decl_args(method.func_directive).len() <= IDENT_LIMIT + 1)
            ==> r matches Ok(_)),
        match r {
            Ok(f) => {
                &&& directive_shape_rel(
                    ParsedDirective::Method(linkage, method),
                    Directive2::Method(f),
                )
                &&& (method.func_directive.name matches MethodName::Func(text)
                    ==> f.func_decl.name matches MethodName::Func(id) && lookup_in_scope(
                    final(resolver).current_scope(),
                    text@,
                ) == Some(id))
                // The method's own scope is popped: a kernel leaves the
                // module scope untouched, a device function adds at most
                // its own name binding.
                &&& (method.func_directive.name is Kernel ==> final(resolver).current_scope()
                    == old(resolver).current_scope())
                &&& (method.func_directive.name matches MethodName::Func(text) ==> (
                if lookup_in_scope(old(resolver).current_scope(), text@) is Some {
                    final(resolver).current_scope() == old(resolver).current_scope()
                } else {
                    final(resolver).current_scope().len() == old(resolver).current_scope().len()
                        + 1 && old(resolver).current_scope().is_prefix_of(
                        final(resolver).current_scope(),
                    ) && final(resolver).current_scope().last().name@ == text@
                }))
                &&& (f.body matches Some(sts) ==> forall|k: int|
                    0 <= k < sts@.len() ==> statement_ids_valid(
                        #[trigger] sts@[k],
                        final(resolver).table.entries@.len() as int,
                    ))
                &&& (method.body matches Some(sts_in) ==> f.body matches Some(sts_out)
                    && stmts_match(sts_in@, sts_out@))
            },
            Err(_) => true,
        },
{
    let name: MethodName<SpirvWord> = match &method.func_directive.name {
        MethodName::Kernel(n) => MethodName::Kernel(bytes_clone(n)),
        MethodName::Func(text) => {
            match resolver.add_or_get_in_current_scope_untyped(bytes_clone(text)) {
                Ok(id) => MethodName::Func(id),
                Err(e) => {
                    return Err(e);
                },
            }
        },
    };
    let ghost named = *resolver;
    resolver.start_scope();
    let ParsedMethod { func_directive, tuning, body } = method;
    let func_decl = match run_function_decl(resolver, func_directive, name) {
        Ok(d) => d,
        Err(e) => {
            proof {
                lemma_prefix_trans(
                    old(resolver).table.entries@,
                    named.table.entries@,
                    resolver.table.entries@,
                );
            }
            return Err(e);
        },
    };
    let body = match body {
        Some(statements) => {
            let mut out: Vec<NormalizedStatement> = Vec::new();
            match run_statements(resolver, &mut out, &statements) {
                Ok(_) => {
                    proof {
                        assert(out@.skip(0) =~= out@);
                    }
                    Some(out)
                },
                Err(e) => {
                    proof {
                        lemma_prefix_trans(
                            old(resolver).table.entries@,
                            named.table.entries@,
                            resolver.table.entries@,
                        );
                    }
                    return Err(e);
                },
            }
        },
        None => None,
    };
    resolver.end_scope();
    proof {
        assert(resolver.current_scope() == named.current_scope());
        lemma_prefix_trans(
            old(resolver).table.entries@,
            named.table.entries@,
            resolver.table.entries@,
        );
    }
    Ok(
        Function2 {
            func_decl,
            globals: Vec::new(),
            body,
            import_as: None,
            tuning,
            linkage,
        },
    )
}

/// Normalizes one module-level directive.
pub fn run_directive(resolver: &mut ScopedResolver, directive: ParsedDirective) -> (r: Result<
    NormalizedDirective2,
    TranslateError,
>)
    requires
        old(resolver).inv(),
        old(resolver).has_scope(),
        directive matches ParsedDirective::Method(_, m) ==> m.func_directive.shared_mem is None,
    ensures
        final(resolver).inv(),
        final(resolver).has_scope(),
        table_extended(*old(resolver), *final(resolver)),
        r matches Ok(_) ==> scopes_preserved(*old(resolver), *final(resolver)),
        r matches Err(_) ==> scopes_preserved_on_error(*old(resolver), *final(resolver)),
        r matches Err(e) ==> normalize_error(e),
        ((directive matches ParsedDirective::Variable(_, v) && lookup_in_scope(
            old(resolver).current_scope(),
            v.name@,
        ) == None::<SpirvWord> && old(resolver).table.entries@.len() <= IDENT_LIMIT) ==> r
            matches Ok(_)),
        ((directive matches ParsedDirective::Method(_, m) && m.body is None
            && arg_names_distinct(decl_args(m.func_directive)) && old(
            resolver,
        ).table.entries@.len() + 1 + decl_args(m.func_directive).len() <= IDENT_LIMIT + 1) ==> r
            matches Ok(_)),
        match r {
            Ok(d) => directive_shape_rel(directive, d) && (d matches Directive2::Method(f)
                ==> (f.body matches Some(sts) ==> forall|k: int|
                0 <= k < sts@.len() ==> statement_ids_valid(
                    #[trigger] sts@[k],
                    final(resolver).table.entries@.len() as int,
                )) && (directive matches ParsedDirective::Method(_, m) && (m.body matches Some(
                sts_in,
            ) ==> f.body matches Some(sts_out) && stmts_match(sts_in@, sts_out@)))),
            Err(_) => true,
        },
{
    match directive {
        ParsedDirective::Variable(linking, var) => {
            match run_variable(resolver, var) {
                Ok(v) => Ok(Directive2::Variable(linking, v)),
                Err(e) => Err(e),
            }
        },
        ParsedDirective::Method(linking, method) => {
            match run_method(resolver, linking, method) {
                Ok(f) => Ok(Directive2::Method(f)),
                Err(e) => Err(e),
            }
        },
    }
}

/// The identifier-normalization pass: walks the parsed directives inside a
/// module-level scope and produces the typed directive stream in which
/// every symbol is a numbered identifier.
pub fn run(resolver: &mut ScopedResolver, directives: Vec<ParsedDirective>) -> (r: Result<
    Vec<NormalizedDirective2>,
    TranslateError,
>)
    requires
        old(resolver).inv(),
        forall|k: int|
            0 <= k < directives@.len() ==> ((#[trigger] directives@[k]) matches ParsedDirective::Method(_, m)
                ==> m.func_directive.shared_mem is None),
    ensures
        final(resolver).inv(),
        table_extended(*old(resolver), *final(resolver)),
        match r {
            Ok(out) => {
                &&& out@.len() == directives@.len()
                &&& forall|k: int|
                    0 <= k < out@.len() ==> directive_shape_rel(directives@[k], #[trigger] out@[k])
                &&& forall|k: int|
                    0 <= k < out@.len() ==> ((#[trigger] out@[k]) matches Directive2::Method(f)
                        ==> (f.body matches Some(sts) ==> forall|j: int|
                        0 <= j < sts@.len() ==> statement_ids_valid(
                            #[trigger] sts@[j],
                            final(resolver).table.entries@.len() as int,
                        )))
                &&& forall|k: int|
                    0 <= k < out@.len() ==> ((#[trigger] out@[k]) matches Directive2::Method(f)
                        ==> (directives@[k] matches ParsedDirective::Method(_, m) && (
                        m.body matches Some(sts_in) ==> f.body matches Some(sts_out)
                            && stmts_match(sts_in@, sts_out@))))
                &&& final(resolver).scopes@ == old(resolver).scopes@
            },
            Err(e) => normalize_error(e),
        },
        directives@.len() == 0 ==> r matches Ok(_),
{
    resolver.start_scope();
    let mut rem = directives;
    let mut out: Vec<NormalizedDirective2> = Vec::new();
    while rem.len() > 0
        invariant
            resolver.inv(),
            resolver.has_scope(),
            out@.len() + rem@.len() == directives@.len(),
            rem@ == directives@.skip(out@.len() as int),
            forall|k: int|
                0 <= k < directives@.len() ==> ((#[trigger] directives@[k]) matches ParsedDirective::Method(_, m)
                    ==> m.func_directive.shared_mem is None),
            forall|k: int|
                0 <= k < out@.len() ==> directive_shape_rel(directives@[k], #[trigger] out@[k]),
            forall|k: int|
                0 <= k < out@.len() ==> ((#[trigger] out@[k]) matches Directive2::Method(f) ==> (
                f.body matches Some(sts) ==> forall|j: int|
                    0 <= j < sts@.len() ==> statement_ids_valid(
                        #[trigger] sts@[j],
                        resolver.table.entries@.len() as int,
                    ))),
            forall|k: int|
                0 <= k < out@.len() ==> ((#[trigger] out@[k]) matches Directive2::Method(f) ==> (
                directives@[k] matches ParsedDirective::Method(_, m) && (m.body matches Some(
                    sts_in,
                ) ==> f.body matches Some(sts_out) && stmts_match(sts_in@, sts_out@)))),
            resolver.scopes@.len() == old(resolver).scopes@.len() + 1,
            forall|q: int|
                0 <= q < old(resolver).scopes@.len() ==> resolver.scopes@[q] == old(resolver).scopes@[q],
            old(resolver).table.entries@.is_prefix_of(resolver.table.entries@),
        decreases rem@.len(),
    {
        let ghost pre = *resolver;
        let d = rem.remove(0);
        proof {
            assert(d == directives@[out@.len() as int]);
            assert(rem@ =~= directives@.skip(out@.len() as int + 1));
        }
        match run_directive(resolver, d) {
            Ok(nd) => {
                out.push(nd);
                proof {
                    lemma_prefix_trans(
                        old(resolver).table.entries@,
                        pre.table.entries@,
                        resolver.table.entries@,
                    );
                    assert forall|k: int|
                        0 <= k < out@.len() implies ((#[trigger] out@[k]) matches Directive2::Method(
                        f,
                    ) ==> (f.body matches Some(sts) ==> forall|j: int|
                        0 <= j < sts@.len() ==> statement_ids_valid(
                            #[trigger] sts@[j],
                            resolver.table.entries@.len() as int,
                        ))) by {
                        let dk = out@[k];
                        if k < out@.len() - 1 && dk is Method {
                            let f = dk->Method_0;
                            if f.body is Some {
                                let sts = f.body->0;
                                assert forall|j: int|
                                    0 <= j < sts@.len() implies statement_ids_valid(
                                    #[trigger] sts@[j],
                                    resolver.table.entries@.len() as int,
                                ) by {
                                    assert(statement_ids_valid(
                                        sts@[j],
                                        pre.table.entries@.len() as int,
                                    ));
                                    lemma_statement_ids_valid_mono(
                                        sts@[j],
                                        pre.table.entries@.len() as int,
                                        resolver.table.entries@.len() as int,
                                    );
                                }
                            }
                        }
                    }
                }
            },
            Err(e) => {
                proof {
                    lemma_prefix_trans(
                        old(resolver).table.entries@,
                        pre.table.entries@,
                        resolver.table.entries@,
                    );
                }
                return Err(e);
            },
        }
    }
    resolver.end_scope();
    proof {
        assert(resolver.scopes@ =~= old(resolver).scopes@);
    }
    Ok(out)
}

} // verus!
