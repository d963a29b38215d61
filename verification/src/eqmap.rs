//! Equality of SPIR-V functions up to a renaming of result ids.
//!
//! Two functions are compared instruction by instruction; id operands need
//! not be numerically equal, but the pairing of ids must be a consistent
//! bijection, built up as comparison proceeds. `EqMap` holds the two
//! directions of that pairing.

use vstd::prelude::*;
use crate::error::TranslateError;
use crate::util::bytes_eq;

verus! {

/// A SPIR-V word.
pub type Word = u32;

/// The map a key-to-word list denotes; later entries win.
pub open spec fn pair_map(s: Seq<(Word, Word)>) -> Map<Word, Word>
    decreases s.len(),
{
    if s.len() == 0 {
        Map::empty()
    } else {
        pair_map(s.drop_last()).insert(s.last().0, s.last().1)
    }
}

/// Searches a pairing list, newest entry first: the last writer wins.
fn find_pair(entries: &Vec<(Word, Word)>, n: usize, w: Word) -> (r: Option<Word>)
    requires
        n <= entries@.len(),
    ensures
        r == match pair_map(entries@.take(n as int)).contains_key(w) {
            true => Some(pair_map(entries@.take(n as int))[w]),
            false => None::<Word>,
        },
    decreases n,
{
    if n == 0 {
        None
    } else {
        proof {
            assert(entries@.take(n as int).last() == entries@[n - 1]);
            assert(entries@.take(n as int).drop_last() =~= entries@.take(n - 1 as int));
        }
        let e = &entries[n - 1];
        if e.0 == w {
            Some(e.1)
        } else {
            find_pair(entries, n - 1, w)
        }
    }
}

/// One step of the pairing: whether `t1` and `t2` may be considered equal
/// under the maps so far, and the maps afterwards. Ids both seen before
/// must map to each other; ids both fresh are paired; a fresh id against a
/// seen one breaks the bijection.
pub open spec fn eq_step(m1: Map<Word, Word>, m2: Map<Word, Word>, t1: Word, t2: Word) -> (
    bool,
    Map<Word, Word>,
    Map<Word, Word>,
) {
    if m1.contains_key(t1) && m2.contains_key(t2) {
        (m1[t1] == t2 && m2[t2] == t1, m1, m2)
    } else if !m1.contains_key(t1) && !m2.contains_key(t2) {
        (true, m1.insert(t1, t2), m2.insert(t2, t1))
    } else {
        (false, m1, m2)
    }
}

/// A bijective pairing of words, built incrementally.
#[derive(Debug)]
pub struct EqMap<T> {
    pub m1: Vec<(T, T)>,
    pub m2: Vec<(T, T)>,
}

impl EqMap<Word> {
    /// The forward pairing.
    pub open spec fn view1(&self) -> Map<Word, Word> {
        pair_map(self.m1@)
    }

    /// The backward pairing.
    pub open spec fn view2(&self) -> Map<Word, Word> {
        pair_map(self.m2@)
    }

    /// An empty pairing.
    pub fn new() -> (r: Self)
        ensures
            r.view1() == Map::<Word, Word>::empty(),
            r.view2() == Map::<Word, Word>::empty(),
    {
        EqMap { m1: Vec::new(), m2: Vec::new() }
    }

    /// Records that `t1` corresponds to `t2`, and says whether that is
    /// consistent with everything recorded so far: exactly `eq_step` on
    /// the two pairings.
    pub fn is_equal(&mut self, t1: Word, t2: Word) -> (r: bool)
        ensures
            ({
                let (ok, n1, n2) = eq_step(old(self).view1(), old(self).view2(), t1, t2);
                r == ok && final(self).view1() == n1 && final(self).view2() == n2
            }),
    {
        proof {
            assert(self.m1@.take(self.m1@.len() as int) =~= self.m1@);
            assert(self.m2@.take(self.m2@.len() as int) =~= self.m2@);
        }
        let f1 = find_pair(&self.m1, self.m1.len(), t1);
        let f2 = find_pair(&self.m2, self.m2.len(), t2);
        match (f1, f2) {
            (Some(v1), Some(v2)) => v1 == t2 && v2 == t1,
            (None, None) => {
                self.m1.push((t1, t2));
                self.m2.push((t2, t1));
                proof {
                    assert(self.m1@.drop_last() =~= old(self).m1@);
                    assert(self.m2@.drop_last() =~= old(self).m2@);
                }
                true
            },
            _ => false,
        }
    }
}

/// A SPIR-V operand, as far as the comparison reads it: the three id kinds
/// are compared through the pairing, everything else by plain equality.
#[derive(Debug)]
pub enum SpirvOperand {
    IdMemorySemantics(Word),
    IdScope(Word),
    IdRef(Word),
    LiteralBit32(u32),
    LiteralBit64(u64),
    LiteralString(Vec<u8>),
}

/// A SPIR-V instruction: opcode, optional result type and id, operands.
#[derive(Debug)]
pub struct SpirvInstruction {
    pub opcode: u32,
    pub result_type: Option<Word>,
    pub result_id: Option<Word>,
    pub operands: Vec<SpirvOperand>,
}

/// A SPIR-V basic block.
#[derive(Debug)]
pub struct SpirvBlock {
    pub label: Option<SpirvInstruction>,
    pub instructions: Vec<SpirvInstruction>,
}

/// A SPIR-V function.
#[derive(Debug)]
pub struct SpirvFunction {
    pub def: Option<SpirvInstruction>,
    pub end: Option<SpirvInstruction>,
    pub parameters: Vec<SpirvInstruction>,
    pub blocks: Vec<SpirvBlock>,
}

/// Pairing state threaded through a comparison; `None` means the compared
/// pieces cannot be equal under any extension of the pairing built so far.
pub type EqState = Option<(Map<Word, Word>, Map<Word, Word>)>;

/// Folds one word pair into the pairing.
pub open spec fn words_eq_spec(m1: Map<Word, Word>, m2: Map<Word, Word>, t1: Word, t2: Word) -> EqState {
    let (ok, n1, n2) = eq_step(m1, m2, t1, t2);
    if ok {
        Some((n1, n2))
    } else {
        None
    }
}

/// Folds an optional word pair; the comparison is only defined when both
/// sides have the same shape.
pub open spec fn opt_words_eq_spec(
    m1: Map<Word, Word>,
    m2: Map<Word, Word>,
    o1: Option<Word>,
    o2: Option<Word>,
) -> EqState {
    match (o1, o2) {
        (Some(t1), Some(t2)) => words_eq_spec(m1, m2, t1, t2),
        (None, None) => Some((m1, m2)),
        _ => None,
    }
}

/// Folds one operand pair into the pairing.
pub open spec fn operand_eq_spec(
    m1: Map<Word, Word>,
    m2: Map<Word, Word>,
    o1: SpirvOperand,
    o2: SpirvOperand,
) -> EqState {
    match (o1, o2) {
        (SpirvOperand::IdMemorySemantics(w1), SpirvOperand::IdMemorySemantics(w2)) => words_eq_spec(
            m1,
            m2,
            w1,
            w2,
        ),
        (SpirvOperand::IdScope(w1), SpirvOperand::IdScope(w2)) => words_eq_spec(m1, m2, w1, w2),
        (SpirvOperand::IdRef(w1), SpirvOperand::IdRef(w2)) => words_eq_spec(m1, m2, w1, w2),
        (SpirvOperand::LiteralBit32(a), SpirvOperand::LiteralBit32(b)) => if a == b {
            Some((m1, m2))
        } else {
            None
        },
        (SpirvOperand::LiteralBit64(a), SpirvOperand::LiteralBit64(b)) => if a == b {
            Some((m1, m2))
        } else {
            None
        },
        (SpirvOperand::LiteralString(a), SpirvOperand::LiteralString(b)) => if a@ == b@ {
            Some((m1, m2))
        } else {
            None
        },
        _ => None,
    }
}

/// Folds an operand list pairwise.
pub open spec fn operands_eq_spec(
    m1: Map<Word, Word>,
    m2: Map<Word, Word>,
    a: Seq<SpirvOperand>,
    b: Seq<SpirvOperand>,
) -> EqState
    decreases a.len(),
{
    if a.len() != b.len() {
        None
    } else if a.len() == 0 {
        Some((m1, m2))
    } else {
        match operand_eq_spec(m1, m2, a[0], b[0]) {
            Some((n1, n2)) => operands_eq_spec(n1, n2, a.skip(1), b.skip(1)),
            None => None,
        }
    }
}

/// Folds one instruction pair: opcodes must agree exactly; result type and
/// id go through the pairing; operands fold pairwise.
pub open spec fn instr_eq_spec(
    m1: Map<Word, Word>,
    m2: Map<Word, Word>,
    i1: SpirvInstruction,
    i2: SpirvInstruction,
) -> EqState {
    if i1.opcode != i2.opcode {
        None
    } else {
        match opt_words_eq_spec(m1, m2, i1.result_type, i2.result_type) {
            Some((n1, n2)) => match opt_words_eq_spec(n1, n2, i1.result_id, i2.result_id) {
                Some((p1, p2)) => operands_eq_spec(p1, p2, i1.operands@, i2.operands@),
                None => None,
            },
            None => None,
        }
    }
}

/// Folds an optional instruction pair of the same shape.
pub open spec fn opt_instr_eq_spec(
    m1: Map<Word, Word>,
    m2: Map<Word, Word>,
    o1: Option<SpirvInstruction>,
    o2: Option<SpirvInstruction>,
) -> EqState {
    match (o1, o2) {
        (Some(i1), Some(i2)) => instr_eq_spec(m1, m2, i1, i2),
        (None, None) => Some((m1, m2)),
        _ => None,
    }
}

/// Folds an instruction list pairwise.
pub open spec fn instrs_eq_spec(
    m1: Map<Word, Word>,
    m2: Map<Word, Word>,
    a: Seq<SpirvInstruction>,
    b: Seq<SpirvInstruction>,
) -> EqState
    decreases a.len(),
{
    if a.len() != b.len() {
        None
    } else if a.len() == 0 {
        Some((m1, m2))
    } else {
        match instr_eq_spec(m1, m2, a[0], b[0]) {
            Some((n1, n2)) => instrs_eq_spec(n1, n2, a.skip(1), b.skip(1)),
            None => None,
        }
    }
}

/// Folds one block pair: label, then instructions.
pub open spec fn block_eq_spec(
    m1: Map<Word, Word>,
    m2: Map<Word, Word>,
    b1: SpirvBlock,
    b2: SpirvBlock,
) -> EqState {
    match opt_instr_eq_spec(m1, m2, b1.label, b2.label) {
        Some((n1, n2)) => instrs_eq_spec(n1, n2, b1.instructions@, b2.instructions@),
        None => None,
    }
}

/// Folds a block list pairwise.
pub open spec fn blocks_eq_spec(
    m1: Map<Word, Word>,
    m2: Map<Word, Word>,
    a: Seq<SpirvBlock>,
    b: Seq<SpirvBlock>,
) -> EqState
    decreases a.len(),
{
    if a.len() != b.len() {
        None
    } else if a.len() == 0 {
        Some((m1, m2))
    } else {
        match block_eq_spec(m1, m2, a[0], b[0]) {
            Some((n1, n2)) => blocks_eq_spec(n1, n2, a.skip(1), b.skip(1)),
            None => None,
        }
    }
}

/// Two functions are equal up to id renaming: the whole fold, starting
/// from the empty pairing, goes through.
pub open spec fn fn_eq_spec(f1: SpirvFunction, f2: SpirvFunction) -> bool {
    match opt_instr_eq_spec(Map::empty(), Map::empty(), f1.def, f2.def) {
        Some((n1, n2)) => match opt_instr_eq_spec(n1, n2, f1.end, f2.end) {
            Some((p1, p2)) => match instrs_eq_spec(p1, p2, f1.parameters@, f2.parameters@) {
                Some((q1, q2)) => blocks_eq_spec(q1, q2, f1.blocks@, f2.blocks@) is Some,
                None => false,
            },
            None => false,
        },
        None => false,
    }
}

/// Two function lists are equal up to id renaming, each pair under its own
/// pairing.
pub open spec fn fns_eq_spec(a: Seq<SpirvFunction>, b: Seq<SpirvFunction>) -> bool {
    a.len() == b.len() && forall|k: int| 0 <= k < a.len() ==> fn_eq_spec(#[trigger] a[k], b[k])
}

/// Compares two words through the pairing.
pub fn is_word_equal(t1: &Word, t2: &Word, map: &mut EqMap<Word>) -> (r: bool)
    ensures
        ({
            let (ok, n1, n2) = eq_step(old(map).view1(), old(map).view2(), *t1, *t2);
            r == ok && final(map).view1() == n1 && final(map).view2() == n2
        }),
{
    map.is_equal(*t1, *t2)
}

/// Compares two operands; ids go through the pairing, literals by value.
fn is_operand_equal(o1: &SpirvOperand, o2: &SpirvOperand, map: &mut EqMap<Word>) -> (r: bool)
    ensures
        match operand_eq_spec(old(map).view1(), old(map).view2(), *o1, *o2) {
            Some((n1, n2)) => r == true && final(map).view1() == n1 && final(map).view2() == n2,
            None => r == false,
        },
{
    match (o1, o2) {
        (SpirvOperand::IdMemorySemantics(w1), SpirvOperand::IdMemorySemantics(w2)) => map.is_equal(
            *w1,
            *w2,
        ),
        (SpirvOperand::IdScope(w1), SpirvOperand::IdScope(w2)) => map.is_equal(*w1, *w2),
        (SpirvOperand::IdRef(w1), SpirvOperand::IdRef(w2)) => map.is_equal(*w1, *w2),
        (SpirvOperand::LiteralBit32(a), SpirvOperand::LiteralBit32(b)) => a == b,
        (SpirvOperand::LiteralBit64(a), SpirvOperand::LiteralBit64(b)) => a == b,
        (SpirvOperand::LiteralString(a), SpirvOperand::LiteralString(b)) => bytes_eq(a, b),
        _ => false,
    }
}

/// Compares two instructions: exact opcode, result type and id through the
/// pairing, operands pairwise; a shape mismatch of the optional parts
/// counts as unequal.
pub fn is_instr_equal(instr1: &SpirvInstruction, instr2: &SpirvInstruction, map: &mut EqMap<Word>)
    -> (r: bool)
    ensures
        match instr_eq_spec(old(map).view1(), old(map).view2(), *instr1, *instr2) {
            Some((n1, n2)) => r == true && final(map).view1() == n1 && final(map).view2() == n2,
            None => r == false,
        },
{
    if instr1.opcode != instr2.opcode {
        return false;
    }
    let rt = match (&instr1.result_type, &instr2.result_type) {
        (Some(t1), Some(t2)) => map.is_equal(*t1, *t2),
        (None, None) => true,
        _ => false,
    };
    if !rt {
        return false;
    }
    let ri = match (&instr1.result_id, &instr2.result_id) {
        (Some(t1), Some(t2)) => map.is_equal(*t1, *t2),
        (None, None) => true,
        _ => false,
    };
    if !ri {
        return false;
    }
    if instr1.operands.len() != instr2.operands.len() {
        return false;
    }
    proof {
        assert(instr1.operands@.skip(0) =~= instr1.operands@);
        assert(instr2.operands@.skip(0) =~= instr2.operands@);
    }
    let mut i: usize = 0;
    while i < instr1.operands.len()
        invariant
            instr1.operands@.len() == instr2.operands@.len(),
            i <= instr1.operands@.len(),
            instr_eq_spec(old(map).view1(), old(map).view2(), *instr1, *instr2)
                == operands_eq_spec(
                map.view1(),
                map.view2(),
                instr1.operands@.skip(i as int),
                instr2.operands@.skip(i as int),
            ),
        decreases instr1.operands@.len() - i,
    {
        let ghost pre1 = map.view1();
        let ghost pre2 = map.view2();
        if !is_operand_equal(&instr1.operands[i], &instr2.operands[i], map) {
            proof {
                assert(instr1.operands@.skip(i as int)[0] == instr1.operands@[i as int]);
                assert(instr2.operands@.skip(i as int)[0] == instr2.operands@[i as int]);
            }
            return false;
        }
        proof {
            assert(instr1.operands@.skip(i as int)[0] == instr1.operands@[i as int]);
            assert(instr2.operands@.skip(i as int)[0] == instr2.operands@[i as int]);
            assert(instr1.operands@.skip(i as int).skip(1) =~= instr1.operands@.skip(i + 1));
            assert(instr2.operands@.skip(i as int).skip(1) =~= instr2.operands@.skip(i + 1));
        }
        i = i + 1;
    }
    proof {
        assert(instr1.operands@.skip(i as int) =~= Seq::<SpirvOperand>::empty());
        assert(instr2.operands@.skip(i as int) =~= Seq::<SpirvOperand>::empty());
    }
    true
}

/// Compares two optional instructions of the same shape; a shape mismatch
/// counts as unequal.
fn is_option_equal(
    o1: &Option<SpirvInstruction>,
    o2: &Option<SpirvInstruction>,
    map: &mut EqMap<Word>,
) -> (r: bool)
    ensures
        match opt_instr_eq_spec(old(map).view1(), old(map).view2(), *o1, *o2) {
            Some((n1, n2)) => r == true && final(map).view1() == n1 && final(map).view2() == n2,
            None => r == false,
        },
{
    match (o1, o2) {
        (Some(i1), Some(i2)) => is_instr_equal(i1, i2, map),
        (None, None) => true,
        _ => false,
    }
}

/// Compares two instruction lists pairwise.
fn are_instrs_equal(
    a: &Vec<SpirvInstruction>,
    b: &Vec<SpirvInstruction>,
    map: &mut EqMap<Word>,
) -> (r: bool)
    ensures
        match instrs_eq_spec(old(map).view1(), old(map).view2(), a@, b@) {
            Some((n1, n2)) => r == true && final(map).view1() == n1 && final(map).view2() == n2,
            None => r == false,
        },
{
    if a.len() != b.len() {
        return false;
    }
    proof {
        assert(a@.skip(0) =~= a@);
        assert(b@.skip(0) =~= b@);
    }
    let mut i: usize = 0;
    while i < a.len()
        invariant
            a@.len() == b@.len(),
            i <= a@.len(),
            instrs_eq_spec(old(map).view1(), old(map).view2(), a@, b@) == instrs_eq_spec(
                map.view1(),
                map.view2(),
                a@.skip(i as int),
                b@.skip(i as int),
            ),
        decreases a@.len() - i,
    {
        let ok = is_instr_equal(&a[i], &b[i], map);
        proof {
            assert(a@.skip(i as int)[0] == a@[i as int]);
            assert(b@.skip(i as int)[0] == b@[i as int]);
            assert(a@.skip(i as int).skip(1) =~= a@.skip(i + 1));
            assert(b@.skip(i as int).skip(1) =~= b@.skip(i + 1));
        }
        if !ok {
            return false;
        }
        i = i + 1;
    }
    proof {
        assert(a@.skip(i as int) =~= Seq::<SpirvInstruction>::empty());
        assert(b@.skip(i as int) =~= Seq::<SpirvInstruction>::empty());
    }
    true
}

/// Compares two basic blocks: the label, then the instructions pairwise.
pub fn is_block_equal(b1: &SpirvBlock, b2: &SpirvBlock, map: &mut EqMap<Word>) -> (r: bool)
    ensures
        match block_eq_spec(old(map).view1(), old(map).view2(), *b1, *b2) {
            Some((n1, n2)) => r == true && final(map).view1() == n1 && final(map).view2() == n2,
            None => r == false,
        },
{
    if !is_option_equal(&b1.label, &b2.label, map) {
        return false;
    }
    are_instrs_equal(&b1.instructions, &b2.instructions, map)
}

/// Compares two functions up to a bijective renaming of ids, under a fresh
/// pairing: definition, end, parameters, then blocks.
pub fn is_spirv_fn_equal(fn1: &SpirvFunction, fn2: &SpirvFunction) -> (r: bool)
    ensures
        r == fn_eq_spec(*fn1, *fn2),
{
    let mut map = EqMap::<Word>::new();
    if !is_option_equal(&fn1.def, &fn2.def, &mut map) {
        return false;
    }
    if !is_option_equal(&fn1.end, &fn2.end, &mut map) {
        return false;
    }
    if !are_instrs_equal(&fn1.parameters, &fn2.parameters, &mut map) {
        return false;
    }
    if fn1.blocks.len() != fn2.blocks.len() {
        return false;
    }
    proof {
        assert(fn1.blocks@.skip(0) =~= fn1.blocks@);
        assert(fn2.blocks@.skip(0) =~= fn2.blocks@);
    }
    let mut i: usize = 0;
    while i < fn1.blocks.len()
        invariant
            fn1.blocks@.len() == fn2.blocks@.len(),
            i <= fn1.blocks@.len(),
            fn_eq_spec(*fn1, *fn2) == (blocks_eq_spec(
                map.view1(),
                map.view2(),
                fn1.blocks@.skip(i as int),
                fn2.blocks@.skip(i as int),
            ) is Some),
        decreases fn1.blocks@.len() - i,
    {
        let ok = is_block_equal(&fn1.blocks[i], &fn2.blocks[i], &mut map);
        proof {
            assert(fn1.blocks@.skip(i as int)[0] == fn1.blocks@[i as int]);
            assert(fn2.blocks@.skip(i as int)[0] == fn2.blocks@[i as int]);
            assert(fn1.blocks@.skip(i as int).skip(1) =~= fn1.blocks@.skip(i + 1));
            assert(fn2.blocks@.skip(i as int).skip(1) =~= fn2.blocks@.skip(i + 1));
        }
        if !ok {
            return false;
        }
        i = i + 1;
    }
    proof {
        assert(fn1.blocks@.skip(i as int) =~= Seq::<SpirvBlock>::empty());
        assert(fn2.blocks@.skip(i as int) =~= Seq::<SpirvBlock>::empty());
    }
    true
}

/// Compares two function lists pairwise, each pair under a fresh pairing.
pub fn is_spirv_fns_equal(fns1: &Vec<SpirvFunction>, fns2: &Vec<SpirvFunction>) -> (r: bool)
    ensures
        r == fns_eq_spec(fns1@, fns2@),
{
    if fns1.len() != fns2.len() {
        return false;
    }
    let mut i: usize = 0;
    while i < fns1.len()
        invariant
            fns1@.len() == fns2@.len(),
            i <= fns1@.len(),
            forall|k: int| 0 <= k < i ==> fn_eq_spec(#[trigger] fns1@[k], fns2@[k]),
        decreases fns1@.len() - i,
    {
        if !is_spirv_fn_equal(&fns1[i], &fns2[i]) {
            proof {
                assert(!fn_eq_spec(fns1@[i as int], fns2@[i as int]));
            }
            return false;
        }
        i = i + 1;
    }
    true
}

} // verus!
