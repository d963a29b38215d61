use ptx::ast::{
    Instruction, LinkingDirective, MethodDeclaration, MethodName, MovArgs, MovDetails,
    MultiVariable, NormalizedStatement, ParsedDirective, ParsedMethod, ParsedOperand,
    ParsedStatement, PtxOpcode, ScalarType, StateSpace, Type, Variable,
};
use ptx::error::TranslateError;
use ptx::normalize;
use ptx::resolver::ScopedResolver;

fn reg_var(name: &[u8]) -> Variable<Vec<u8>> {
    Variable {
        align: None,
        v_type: Type::Scalar(ScalarType::U64),
        state_space: StateSpace::Reg,
        name: name.to_vec(),
        array_init: Vec::new(),
    }
}

fn mov(dst: &[u8], src: &[u8]) -> ParsedStatement {
    ParsedStatement::Instruction(
        None,
        Instruction::Mov {
            data: MovDetails {
                typ: Type::Scalar(ScalarType::U64),
            },
            arguments: MovArgs {
                dst: ParsedOperand::Reg(dst.to_vec()),
                src: ParsedOperand::Reg(src.to_vec()),
            },
        },
    )
}

#[test]
fn forward_label_reference_resolves_to_label_id() {
    let mut r = ScopedResolver::new();
    r.start_scope();
    let statements = vec![
        ParsedStatement::Variable(MultiVariable {
            var: reg_var(b"r1"),
            count: None,
        }),
        // The operand refers to the label before its textual definition.
        mov(b"r1", b"target"),
        ParsedStatement::Label(b"target".to_vec()),
    ];
    let mut out = Vec::new();
    normalize::run_statements(&mut r, &mut out, &statements).unwrap();
    assert_eq!(out.len(), 3);
    let src_id = match &out[1] {
        NormalizedStatement::Instruction(None, Instruction::Mov { arguments, .. }) => {
            match arguments.src {
                ParsedOperand::Reg(id) => id,
                _ => panic!("expected a register operand"),
            }
        }
        _ => panic!("expected an instruction"),
    };
    let label_id = match &out[2] {
        NormalizedStatement::Label(id) => *id,
        _ => panic!("expected a label"),
    };
    assert_eq!(src_id, label_id);
}

#[test]
fn multivariable_expands_to_counted_names() {
    let mut r = ScopedResolver::new();
    r.start_scope();
    let mv = MultiVariable {
        var: Variable {
            align: Some(8),
            v_type: Type::Scalar(ScalarType::U32),
            state_space: StateSpace::Reg,
            name: b"r".to_vec(),
            array_init: Vec::new(),
        },
        count: Some(3),
    };
    let mut out = Vec::new();
    normalize::run_multivariable(&mut r, &mut out, &mv).unwrap();
    assert_eq!(out.len(), 3);
    let mut ids = Vec::new();
    for (k, stmt) in out.iter().enumerate() {
        match stmt {
            NormalizedStatement::Variable(v) => {
                assert_eq!(v.align, Some(8));
                assert!(matches!(v.v_type, Type::Scalar(ScalarType::U32)));
                assert_eq!(v.state_space, StateSpace::Reg);
                let expected = format!("r{}", k).into_bytes();
                assert_eq!(r.table.ident_name(v.name), Some(&expected));
                ids.push(v.name);
            }
            _ => panic!("expected a variable"),
        }
    }
    assert!(ids[0] != ids[1] && ids[1] != ids[2] && ids[0] != ids[2]);
    // The expanded names resolve, the bare base name does not.
    assert!(r.get(&b"r0".to_vec()).is_ok());
    assert!(r.get(&b"r2".to_vec()).is_ok());
    assert_eq!(r.get(&b"r".to_vec()), Err(TranslateError::UnknownSymbol));
}

#[test]
fn unimplemented_opcodes_are_normalized_generically() {
    let mut r = ScopedResolver::new();
    r.start_scope();
    let statements = vec![
        ParsedStatement::Variable(MultiVariable {
            var: reg_var(b"dst"),
            count: None,
        }),
        ParsedStatement::Variable(MultiVariable {
            var: reg_var(b"src"),
            count: None,
        }),
        // A generic-to-global address cast: its lowering is an open item,
        // but its operands still resolve like any other instruction's.
        ParsedStatement::Instruction(
            None,
            Instruction::Other {
                opcode: PtxOpcode::Cvta,
                operands: vec![
                    ParsedOperand::Reg(b"dst".to_vec()),
                    ParsedOperand::Reg(b"src".to_vec()),
                ],
            },
        ),
    ];
    let mut out = Vec::new();
    normalize::run_statements(&mut r, &mut out, &statements).unwrap();
    let dst_id = r.get(&b"dst".to_vec()).unwrap();
    let src_id = r.get(&b"src".to_vec()).unwrap();
    match &out[2] {
        NormalizedStatement::Instruction(None, Instruction::Other { opcode, operands }) => {
            assert_eq!(*opcode, PtxOpcode::Cvta);
            assert_eq!(operands.len(), 2);
            assert!(matches!(operands[0], ParsedOperand::Reg(id) if id == dst_id));
            assert!(matches!(operands[1], ParsedOperand::Reg(id) if id == src_id));
        }
        _ => panic!("expected a generic instruction"),
    }
}

#[test]
fn block_scope_is_discarded() {
    let mut r = ScopedResolver::new();
    r.start_scope();
    let statements = vec![ParsedStatement::Block(vec![ParsedStatement::Variable(
        MultiVariable {
            var: reg_var(b"inner"),
            count: None,
        },
    )])];
    let mut out = Vec::new();
    normalize::run_statements(&mut r, &mut out, &statements).unwrap();
    assert_eq!(out.len(), 1);
    assert_eq!(r.get(&b"inner".to_vec()), Err(TranslateError::UnknownSymbol));
}

#[test]
fn unresolved_operand_is_an_unknown_symbol() {
    let mut r = ScopedResolver::new();
    r.start_scope();
    let statements = vec![mov(b"nowhere", b"nothing")];
    let mut out = Vec::new();
    assert_eq!(
        normalize::run_statements(&mut r, &mut out, &statements),
        Err(TranslateError::UnknownSymbol)
    );
}

#[test]
fn duplicate_label_is_a_redefinition() {
    let mut r = ScopedResolver::new();
    r.start_scope();
    let statements = vec![
        ParsedStatement::Label(b"l".to_vec()),
        ParsedStatement::Label(b"l".to_vec()),
    ];
    let mut out = Vec::new();
    assert_eq!(
        normalize::run_statements(&mut r, &mut out, &statements),
        Err(TranslateError::SymbolRedefinition)
    );
}

#[test]
fn run_normalizes_a_kernel_module() {
    let mut r = ScopedResolver::new();
    let kernel = ParsedMethod {
        func_directive: MethodDeclaration {
            return_arguments: Vec::new(),
            name: MethodName::Kernel(b"plus_one".to_vec()),
            input_arguments: vec![Variable {
                align: None,
                v_type: Type::Scalar(ScalarType::U64),
                state_space: StateSpace::ParamEntry,
                name: b"input".to_vec(),
                array_init: Vec::new(),
            }],
            shared_mem: None,
        },
        tuning: Vec::new(),
        body: Some(vec![ParsedStatement::Variable(MultiVariable {
            var: reg_var(b"r1"),
            count: None,
        })]),
    };
    let linkage = LinkingDirective {
        external: false,
        visible: true,
        weak: false,
    };
    let directives = vec![ParsedDirective::Method(linkage, kernel)];
    let out = normalize::run(&mut r, directives).unwrap();
    assert_eq!(out.len(), 1);
    match &out[0] {
        ptx::ast::Directive2::Method(f) => {
            assert!(matches!(&f.func_decl.name, MethodName::Kernel(n) if n == b"plus_one"));
            assert_eq!(f.func_decl.input_arguments.len(), 1);
            assert_eq!(f.linkage, linkage);
            assert!(f.import_as.is_none());
            let body = f.body.as_ref().unwrap();
            assert_eq!(body.len(), 1);
        }
        _ => panic!("expected a method"),
    }
}

#[test]
fn empty_module_and_empty_body_normalize() {
    let mut r = ScopedResolver::new();
    let out = normalize::run(&mut r, Vec::new()).unwrap();
    assert_eq!(out.len(), 0);
    let mut r2 = ScopedResolver::new();
    r2.start_scope();
    let mut body = Vec::new();
    normalize::run_statements(&mut r2, &mut body, &Vec::new()).unwrap();
    assert_eq!(body.len(), 0);
}

#[test]
fn duplicate_argument_names_are_a_redefinition() {
    let mut r = ScopedResolver::new();
    r.start_scope();
    let method = ParsedMethod {
        func_directive: MethodDeclaration {
            return_arguments: Vec::new(),
            name: MethodName::Kernel(b"k".to_vec()),
            input_arguments: vec![reg_var(b"a"), reg_var(b"a")],
            shared_mem: None,
        },
        tuning: Vec::new(),
        body: None,
    };
    let linkage = LinkingDirective {
        external: false,
        visible: false,
        weak: false,
    };
    assert_eq!(
        normalize::run_method(&mut r, linkage, method).unwrap_err(),
        TranslateError::SymbolRedefinition
    );
}

#[test]
fn device_function_declaration_and_definition_share_an_id() {
    let mut r = ScopedResolver::new();
    r.start_scope();
    let decl = ParsedMethod {
        func_directive: MethodDeclaration {
            return_arguments: Vec::new(),
            name: MethodName::Func(b"helper".to_vec()),
            input_arguments: Vec::new(),
            shared_mem: None,
        },
        tuning: Vec::new(),
        body: None,
    };
    let def = ParsedMethod {
        func_directive: MethodDeclaration {
            return_arguments: Vec::new(),
            name: MethodName::Func(b"helper".to_vec()),
            input_arguments: Vec::new(),
            shared_mem: None,
        },
        tuning: Vec::new(),
        body: Some(Vec::new()),
    };
    let linkage = LinkingDirective {
        external: false,
        visible: false,
        weak: false,
    };
    let f1 = normalize::run_method(&mut r, linkage, decl).unwrap();
    let f2 = normalize::run_method(&mut r, linkage, def).unwrap();
    let id1 = match f1.func_decl.name {
        MethodName::Func(id) => id,
        _ => panic!("expected a device function"),
    };
    let id2 = match f2.func_decl.name {
        MethodName::Func(id) => id,
        _ => panic!("expected a device function"),
    };
    assert_eq!(id1, id2);
    assert!(f1.body.is_none());
    assert!(f2.body.is_some());
}
