use ptx::eqmap::{
    is_block_equal, is_instr_equal, is_spirv_fn_equal, is_spirv_fns_equal, is_word_equal, EqMap,
    SpirvBlock, SpirvFunction, SpirvInstruction, SpirvOperand,
};

fn instr(opcode: u32, result_id: Option<u32>, operands: Vec<SpirvOperand>) -> SpirvInstruction {
    SpirvInstruction {
        opcode,
        result_type: None,
        result_id,
        operands,
    }
}

#[test]
fn fresh_pairs_are_recorded_and_must_stay_consistent() {
    let mut map = EqMap::new();
    assert!(map.is_equal(1, 10));
    // The same pair again is fine.
    assert!(map.is_equal(1, 10));
    // Remapping either side breaks the bijection.
    assert!(!map.is_equal(1, 11));
    assert!(!map.is_equal(2, 10));
    // A different fresh pair is fine.
    assert!(map.is_equal(2, 20));
}

#[test]
fn one_side_seen_is_inconsistent() {
    let mut map = EqMap::new();
    assert!(map.is_equal(1, 10));
    // 3 is fresh but 10 is taken; 1 is taken but 30 is fresh.
    assert!(!map.is_equal(3, 10));
    assert!(!map.is_equal(1, 30));
}

#[test]
fn word_comparison_goes_through_the_pairing() {
    let mut map = EqMap::new();
    assert!(is_word_equal(&5, &50, &mut map));
    assert!(is_word_equal(&5, &50, &mut map));
    assert!(!is_word_equal(&5, &51, &mut map));
}

#[test]
fn instructions_compare_up_to_renaming() {
    let mut map = EqMap::new();
    let a = instr(1, Some(7), vec![SpirvOperand::IdRef(8)]);
    let b = instr(1, Some(70), vec![SpirvOperand::IdRef(80)]);
    assert!(is_instr_equal(&a, &b, &mut map));
    // The pairing persists: 8 now corresponds to 80.
    assert!(!map.is_equal(8, 81));
}

#[test]
fn opcode_and_literals_compare_exactly() {
    let mut map = EqMap::new();
    let a = instr(1, None, vec![SpirvOperand::LiteralBit32(4)]);
    let b = instr(2, None, vec![SpirvOperand::LiteralBit32(4)]);
    assert!(!is_instr_equal(&a, &b, &mut map));
    let c = instr(1, None, vec![SpirvOperand::LiteralBit32(5)]);
    assert!(!is_instr_equal(&a, &c, &mut map));
    let d = instr(1, None, vec![SpirvOperand::LiteralBit32(4)]);
    assert!(is_instr_equal(&a, &d, &mut map));
    let s1 = instr(3, None, vec![SpirvOperand::LiteralString(b"ab".to_vec())]);
    let s2 = instr(3, None, vec![SpirvOperand::LiteralString(b"ab".to_vec())]);
    let s3 = instr(3, None, vec![SpirvOperand::LiteralString(b"ac".to_vec())]);
    assert!(is_instr_equal(&s1, &s2, &mut map));
    assert!(!is_instr_equal(&s1, &s3, &mut map));
}

#[test]
fn blocks_thread_the_pairing_through_labels() {
    let mut map = EqMap::new();
    let b1 = SpirvBlock {
        label: Some(instr(9, Some(1), Vec::new())),
        instructions: vec![instr(4, None, vec![SpirvOperand::IdRef(1)])],
    };
    let b2 = SpirvBlock {
        label: Some(instr(9, Some(2), Vec::new())),
        instructions: vec![instr(4, None, vec![SpirvOperand::IdRef(2)])],
    };
    assert!(is_block_equal(&b1, &b2, &mut map));
    let b3 = SpirvBlock {
        label: Some(instr(9, Some(3), Vec::new())),
        instructions: vec![instr(4, None, vec![SpirvOperand::IdRef(4)])],
    };
    // The branch target does not match the label the pairing fixed.
    let mut map2 = EqMap::new();
    assert!(!is_block_equal(&b1, &b3, &mut map2));
}

fn renumbered_functions() -> (SpirvFunction, SpirvFunction) {
    let f1 = SpirvFunction {
        def: Some(instr(54, Some(100), Vec::new())),
        end: Some(instr(56, None, Vec::new())),
        parameters: vec![instr(55, Some(101), Vec::new())],
        blocks: vec![SpirvBlock {
            label: Some(instr(248, Some(102), Vec::new())),
            instructions: vec![instr(62, Some(103), vec![SpirvOperand::IdRef(101)])],
        }],
    };
    let f2 = SpirvFunction {
        def: Some(instr(54, Some(200), Vec::new())),
        end: Some(instr(56, None, Vec::new())),
        parameters: vec![instr(55, Some(201), Vec::new())],
        blocks: vec![SpirvBlock {
            label: Some(instr(248, Some(202), Vec::new())),
            instructions: vec![instr(62, Some(203), vec![SpirvOperand::IdRef(201)])],
        }],
    };
    (f1, f2)
}

#[test]
fn functions_compare_up_to_renaming() {
    let (f1, f2) = renumbered_functions();
    assert!(is_spirv_fn_equal(&f1, &f2));
    assert!(is_spirv_fns_equal(&vec![f1], &vec![f2]));
}

#[test]
fn inconsistent_renaming_is_rejected() {
    let (f1, mut f2) = renumbered_functions();
    // The use no longer refers to the parameter's renumbered id.
    f2.blocks[0].instructions[0].operands = vec![SpirvOperand::IdRef(202)];
    assert!(!is_spirv_fn_equal(&f1, &f2));
}

#[test]
fn length_mismatches_are_unequal() {
    let (f1, f2) = renumbered_functions();
    assert!(!is_spirv_fns_equal(&vec![f1], &Vec::new()));
    let (g1, mut g2) = renumbered_functions();
    g2.blocks.clear();
    assert!(!is_spirv_fn_equal(&g1, &g2));
}
