use ptx::ast::{
    AddArgs, ArithDetails, CallArgs, CallDetails, ConstantDefinition, ConversionKind, Directive2,
    Function2, ImmediateValue, ImplicitConversion, Instruction, LdArgs, LdDetails, LdStQualifier,
    LinkingDirective, LoweredStatement, MethodDeclaration, MethodName, MovArgs, MovDetails,
    RetData, ScalarType, StArgs, StateSpace, StoreVarDetails, Type, Variable,
};
use ptx::emit::{self, CallConv, LlvmInst, ValueDef};
use ptx::error::TranslateError;
use ptx::resolver::ScopedResolver;

fn linkage() -> LinkingDirective {
    LinkingDirective {
        external: false,
        visible: true,
        weak: false,
    }
}

fn reg_u64(id: u32) -> Variable<u32> {
    Variable {
        align: None,
        v_type: Type::Scalar(ScalarType::U64),
        state_space: StateSpace::Reg,
        name: id,
        array_init: Vec::new(),
    }
}

fn param_u64(id: u32) -> Variable<u32> {
    Variable {
        align: None,
        v_type: Type::Scalar(ScalarType::U64),
        state_space: StateSpace::ParamEntry,
        name: id,
        array_init: Vec::new(),
    }
}

/// A resolver table with a handful of allocated identifiers.
fn table_with(names: &[&[u8]]) -> ptx::resolver::IdentityTable {
    let mut r = ScopedResolver::new();
    r.start_scope();
    for name in names {
        r.add(name.to_vec(), None).unwrap();
    }
    r.table
}

fn kernel_method(body: Vec<LoweredStatement>) -> Function2<LoweredStatement> {
    Function2 {
        func_decl: MethodDeclaration {
            return_arguments: Vec::new(),
            name: MethodName::Kernel(b"plus_one".to_vec()),
            input_arguments: vec![param_u64(1)],
            shared_mem: None,
        },
        globals: Vec::new(),
        body: Some(body),
        import_as: None,
        tuning: Vec::new(),
        linkage: linkage(),
    }
}

#[test]
fn kernel_emits_abi_and_prologue() {
    let body = vec![
        LoweredStatement::Variable(reg_u64(2)),
        LoweredStatement::Instruction(Instruction::Ld {
            data: LdDetails {
                qualifier: LdStQualifier::Weak,
                state_space: StateSpace::Global,
                non_coherent: false,
                typ: Type::Scalar(ScalarType::U64),
            },
            arguments: LdArgs { dst: 3, src: 1 },
        }),
        LoweredStatement::Instruction(Instruction::Add {
            data: ArithDetails::Integer(ScalarType::U64),
            arguments: AddArgs {
                dst: 4,
                src1: 3,
                src2: 3,
            },
        }),
        LoweredStatement::StoreVar(StoreVarDetails {
            arg: StArgs { src1: 2, src2: 4 },
            typ: Type::Scalar(ScalarType::U64),
            member_index: None,
        }),
        LoweredStatement::Instruction(Instruction::Ret {
            data: RetData { uniform: false },
        }),
    ];
    let module = emit::run(
        table_with(&[b"input", b"r1"]),
        vec![Directive2::Method(kernel_method(body))],
    )
    .unwrap();
    assert_eq!(module.functions.len(), 1);
    let f = &module.functions[0];
    assert_eq!(f.name, b"plus_one".to_vec());
    // The AMDGPU-kernel calling convention, and one byref attribute per
    // parameter at attribute index i + 1.
    assert_eq!(f.call_conv, CallConv::AmdgpuKernel);
    assert_eq!(f.params.len(), 1);
    assert_eq!(f.params[0].name, b"1".to_vec());
    assert_eq!(f.byref_attrs.len(), 1);
    assert_eq!(f.byref_attrs[0].index, 1);
    assert!(matches!(f.byref_attrs[0].pointee, ptx::llvm::LlvmType::Int(64)));
    // The allocas block holds only allocas and one branch to the real
    // entry block.
    assert_eq!(f.blocks.len(), 2);
    let allocas = &f.blocks[0];
    assert_eq!(allocas.insts.len(), 2);
    assert!(matches!(
        allocas.insts[0],
        LlvmInst::Alloca { addrspace: 5, .. }
    ));
    assert!(matches!(allocas.insts[1], LlvmInst::Br { target: 1 }));
    // The real block holds the lowered statements in source order.
    let real = &f.blocks[1];
    assert_eq!(real.insts.len(), 4);
    assert!(matches!(real.insts[0], LlvmInst::Load { .. }));
    assert!(matches!(real.insts[1], LlvmInst::IntAdd { .. }));
    assert!(matches!(real.insts[2], LlvmInst::Store { .. }));
    assert!(matches!(real.insts[3], LlvmInst::RetVoid));
    // The add consumes the loaded value twice.
    let loaded = match real.insts[0] {
        LlvmInst::Load { result, .. } => result,
        _ => unreachable!(),
    };
    match real.insts[1] {
        LlvmInst::IntAdd { lhs, rhs, .. } => {
            assert_eq!(lhs, loaded);
            assert_eq!(rhs, loaded);
        }
        _ => unreachable!(),
    }
}

#[test]
fn device_function_uses_c_convention_without_attributes() {
    let method = Function2 {
        func_decl: MethodDeclaration {
            return_arguments: Vec::new(),
            name: MethodName::Func(1),
            input_arguments: vec![reg_u64(2)],
            shared_mem: None,
        },
        globals: Vec::new(),
        body: Some(vec![LoweredStatement::Instruction(Instruction::Ret {
            data: RetData { uniform: false },
        })]),
        import_as: None,
        tuning: Vec::new(),
        linkage: linkage(),
    };
    let module = emit::run(
        table_with(&[b"helper", b"x"]),
        vec![Directive2::Method(method)],
    )
    .unwrap();
    let f = &module.functions[0];
    assert_eq!(f.name, b"helper".to_vec());
    assert_eq!(f.call_conv, CallConv::C);
    assert_eq!(f.byref_attrs.len(), 0);
    assert_eq!(f.params.len(), 1);
    assert_eq!(f.params[0].name, b"2".to_vec());
}

#[test]
fn mov_is_a_pure_rebind() {
    let body = vec![
        LoweredStatement::Variable(reg_u64(2)),
        LoweredStatement::Constant(ConstantDefinition {
            dst: 3,
            typ: ScalarType::U64,
            value: ImmediateValue::U64(42),
        }),
        LoweredStatement::Instruction(Instruction::Mov {
            data: MovDetails {
                typ: Type::Scalar(ScalarType::U64),
            },
            arguments: MovArgs { dst: 4, src: 3 },
        }),
        LoweredStatement::StoreVar(StoreVarDetails {
            arg: StArgs { src1: 2, src2: 4 },
            typ: Type::Scalar(ScalarType::U64),
            member_index: None,
        }),
    ];
    let module = emit::run(
        table_with(&[b"input", b"r1"]),
        vec![Directive2::Method(kernel_method(body))],
    )
    .unwrap();
    let f = &module.functions[0];
    // Neither the constant nor the mov emits an instruction.
    let real = &f.blocks[1];
    assert_eq!(real.insts.len(), 1);
    // The stored value traces back to the materialized constant.
    match &real.insts[0] {
        LlvmInst::Store { value, .. } => match &module.values[*value] {
            ValueDef::Const {
                value: ImmediateValue::U64(42),
                ..
            } => {}
            other => panic!("stored value is {:?}", other),
        },
        other => panic!("expected a store, found {:?}", other),
    }
}

#[test]
fn label_appends_block_with_fallthrough() {
    let body = vec![LoweredStatement::Label(3)];
    let module = emit::run(
        table_with(&[b"input", b"r1", b"l"]),
        vec![Directive2::Method(kernel_method(body))],
    )
    .unwrap();
    let f = &module.functions[0];
    assert_eq!(f.blocks.len(), 3);
    // The real entry block had no terminator, so a fallthrough branch to
    // the new block was placed.
    assert_eq!(f.blocks[1].insts.len(), 1);
    assert!(matches!(f.blocks[1].insts[0], LlvmInst::Br { target: 2 }));
    assert_eq!(f.blocks[2].name, b"3".to_vec());
    assert_eq!(f.blocks[2].insts.len(), 0);
}

#[test]
fn label_after_terminator_needs_no_fallthrough() {
    let body = vec![
        LoweredStatement::Instruction(Instruction::Ret {
            data: RetData { uniform: false },
        }),
        LoweredStatement::Label(3),
    ];
    let module = emit::run(
        table_with(&[b"input", b"r1", b"l"]),
        vec![Directive2::Method(kernel_method(body))],
    )
    .unwrap();
    let f = &module.functions[0];
    assert_eq!(f.blocks.len(), 3);
    assert_eq!(f.blocks[1].insts.len(), 1);
    assert!(matches!(f.blocks[1].insts[0], LlvmInst::RetVoid));
}

#[test]
fn non_weak_load_is_not_yet_supported() {
    let body = vec![LoweredStatement::Instruction(Instruction::Ld {
        data: LdDetails {
            qualifier: LdStQualifier::Acquire,
            state_space: StateSpace::Global,
            non_coherent: false,
            typ: Type::Scalar(ScalarType::U64),
        },
        arguments: LdArgs { dst: 3, src: 1 },
    })];
    assert_eq!(
        emit::run(
            table_with(&[b"input", b"r1"]),
            vec![Directive2::Method(kernel_method(body))]
        )
        .unwrap_err(),
        TranslateError::Todo
    );
}

#[test]
fn unbound_operand_is_an_internal_error() {
    let body = vec![LoweredStatement::Instruction(Instruction::Add {
        data: ArithDetails::Integer(ScalarType::U64),
        arguments: AddArgs {
            dst: 4,
            src1: 9,
            src2: 9,
        },
    })];
    assert_eq!(
        emit::run(
            table_with(&[b"input", b"r1"]),
            vec![Directive2::Method(kernel_method(body))]
        )
        .unwrap_err(),
        TranslateError::Unreachable
    );
}

#[test]
fn unimplemented_opcodes_fail_as_not_yet_supported() {
    let body = vec![LoweredStatement::Instruction(Instruction::Other {
        opcode: ptx::ast::PtxOpcode::Cvta,
        operands: vec![1, 1],
    })];
    assert_eq!(
        emit::run(
            table_with(&[b"input", b"r1"]),
            vec![Directive2::Method(kernel_method(body))]
        )
        .unwrap_err(),
        TranslateError::Todo
    );
}

#[test]
fn module_level_variables_are_not_yet_supported() {
    let directives = vec![Directive2::Variable(linkage(), reg_u64(1))];
    assert_eq!(
        emit::run(table_with(&[b"g"]), directives).unwrap_err(),
        TranslateError::Todo
    );
}

#[test]
fn bodyless_method_emits_a_declaration() {
    let method = Function2 {
        func_decl: MethodDeclaration {
            return_arguments: Vec::new(),
            name: MethodName::Func(1),
            input_arguments: Vec::new(),
            shared_mem: None,
        },
        globals: Vec::new(),
        body: None,
        import_as: None,
        tuning: Vec::new(),
        linkage: linkage(),
    };
    let module = emit::run(table_with(&[b"helper"]), vec![Directive2::Method(method)]).unwrap();
    assert_eq!(module.functions[0].blocks.len(), 0);
}

#[test]
fn call_binds_a_single_named_result() {
    // A device function (id 3) followed by a kernel that calls it.
    let callee = Function2 {
        func_decl: MethodDeclaration {
            return_arguments: vec![reg_u64(4)],
            name: MethodName::Func(3),
            input_arguments: vec![reg_u64(5)],
            shared_mem: None,
        },
        globals: Vec::new(),
        body: None,
        import_as: None,
        tuning: Vec::new(),
        linkage: linkage(),
    };
    let body = vec![
        LoweredStatement::Constant(ConstantDefinition {
            dst: 6,
            typ: ScalarType::U64,
            value: ImmediateValue::U64(7),
        }),
        LoweredStatement::Instruction(Instruction::Call {
            data: CallDetails {
                uniform: false,
                return_arguments: vec![(Type::Scalar(ScalarType::U64), StateSpace::Reg)],
                input_arguments: vec![(Type::Scalar(ScalarType::U64), StateSpace::Reg)],
            },
            arguments: CallArgs {
                return_arguments: vec![7],
                func: 3,
                input_arguments: vec![6],
            },
        }),
    ];
    let module = emit::run(
        table_with(&[b"input", b"r1", b"incr", b"out", b"x", b"c", b"res"]),
        vec![
            Directive2::Method(callee),
            Directive2::Method(kernel_method(body)),
        ],
    )
    .unwrap();
    assert_eq!(module.functions.len(), 2);
    let kernel = &module.functions[1];
    let real = &kernel.blocks[1];
    assert_eq!(real.insts.len(), 1);
    match &real.insts[0] {
        LlvmInst::Call {
            callee,
            args,
            name,
            ..
        } => {
            // The callee handle denotes the emitted device function.
            assert!(matches!(
                module.values[*callee],
                ValueDef::FunctionRef { func_index: 0 }
            ));
            assert_eq!(args.len(), 1);
            assert!(matches!(
                module.values[args[0]],
                ValueDef::Const {
                    value: ImmediateValue::U64(7),
                    ..
                }
            ));
            // The single result is named after its identifier.
            assert_eq!(name, &b"7".to_vec());
        }
        other => panic!("expected a call, found {:?}", other),
    }
}

#[test]
fn multiple_call_returns_are_not_yet_supported() {
    let body = vec![LoweredStatement::Instruction(Instruction::Call {
        data: CallDetails {
            uniform: false,
            return_arguments: vec![
                (Type::Scalar(ScalarType::U64), StateSpace::Reg),
                (Type::Scalar(ScalarType::U64), StateSpace::Reg),
            ],
            input_arguments: Vec::new(),
        },
        arguments: CallArgs {
            return_arguments: vec![3, 4],
            func: 1,
            input_arguments: Vec::new(),
        },
    })];
    assert_eq!(
        emit::run(
            table_with(&[b"input", b"r1", b"a", b"b"]),
            vec![Directive2::Method(kernel_method(body))]
        )
        .unwrap_err(),
        TranslateError::Todo
    );
}

#[test]
fn bit_to_ptr_conversion_is_an_int_to_ptr_cast() {
    let body = vec![
        LoweredStatement::Constant(ConstantDefinition {
            dst: 3,
            typ: ScalarType::U64,
            value: ImmediateValue::U64(0xDEAD),
        }),
        LoweredStatement::Conversion(ImplicitConversion {
            src: 3,
            dst: 4,
            from_type: Type::Scalar(ScalarType::U64),
            to_type: Type::Pointer(ScalarType::U64, StateSpace::Global),
            from_space: StateSpace::Reg,
            to_space: StateSpace::Global,
            kind: ConversionKind::BitToPtr,
        }),
    ];
    let module = emit::run(
        table_with(&[b"input", b"r1", b"bits", b"ptr"]),
        vec![Directive2::Method(kernel_method(body))],
    )
    .unwrap();
    let real = &module.functions[0].blocks[1];
    assert_eq!(real.insts.len(), 1);
    match &real.insts[0] {
        LlvmInst::IntToPtr { ty, name, .. } => {
            assert!(matches!(ty, ptx::llvm::LlvmType::Pointer(1)));
            assert_eq!(name, &b"4".to_vec());
        }
        other => panic!("expected an int-to-pointer cast, found {:?}", other),
    }
}

#[test]
fn other_conversion_kinds_are_not_yet_supported() {
    let body = vec![LoweredStatement::Conversion(ImplicitConversion {
        src: 1,
        dst: 3,
        from_type: Type::Scalar(ScalarType::U32),
        to_type: Type::Scalar(ScalarType::U64),
        from_space: StateSpace::Reg,
        to_space: StateSpace::Reg,
        kind: ConversionKind::SignExtend,
    })];
    assert_eq!(
        emit::run(
            table_with(&[b"input", b"r1", b"w"]),
            vec![Directive2::Method(kernel_method(body))]
        )
        .unwrap_err(),
        TranslateError::Todo
    );
}

#[test]
fn empty_directive_stream_emits_an_empty_module() {
    let module = emit::run(table_with(&[]), Vec::new()).unwrap();
    assert_eq!(module.functions.len(), 0);
}

#[test]
fn non_register_device_argument_is_an_internal_error() {
    let method = Function2 {
        func_decl: MethodDeclaration {
            return_arguments: Vec::new(),
            name: MethodName::Func(1),
            input_arguments: vec![Variable {
                align: None,
                v_type: Type::Scalar(ScalarType::U64),
                state_space: StateSpace::Global,
                name: 2,
                array_init: Vec::new(),
            }],
            shared_mem: None,
        },
        globals: Vec::new(),
        body: None,
        import_as: None,
        tuning: Vec::new(),
        linkage: linkage(),
    };
    assert_eq!(
        emit::run(table_with(&[b"helper", b"x"]), vec![Directive2::Method(method)]).unwrap_err(),
        TranslateError::Unreachable
    );
}

#[test]
fn import_as_overrides_the_source_name() {
    let mut method = kernel_method(Vec::new());
    method.import_as = Some(b"renamed".to_vec());
    let module = emit::run(
        table_with(&[b"input", b"r1"]),
        vec![Directive2::Method(method)],
    )
    .unwrap();
    assert_eq!(module.functions[0].name, b"renamed".to_vec());
}
