//! Addressing modes and the opcode table: the canonical 6502 instruction
//! set as an explicitly constructed, immutable lookup value.
use vstd::prelude::*;
use crate::text::piece_char;

verus! {

/// The operand-encoding scheme of an instruction. Exactly one mode applies
/// to an instruction instance; it fixes the operand byte width and the text
/// rendering. The accumulator forms of the shift instructions are listed
/// under `Implied`, as they take no operand bytes.
#[derive(Clone, Copy, Debug, PartialEq, Eq, Structural)]
pub enum AddressingMode {
    Implied,
    Immediate,
    ZeroPage,
    ZeroPageX,
    ZeroPageY,
    Absolute,
    AbsoluteX,
    AbsoluteY,
    Indirect,
    IndirectX,
    IndirectY,
    Relative,
}

/// How many operand bytes follow the opcode byte in mode `m`.
pub open spec fn operand_width(m: AddressingMode) -> nat {
    match m {
        AddressingMode::Implied => 0,
        AddressingMode::Immediate => 1,
        AddressingMode::ZeroPage => 1,
        AddressingMode::ZeroPageX => 1,
        AddressingMode::ZeroPageY => 1,
        AddressingMode::Absolute => 2,
        AddressingMode::AbsoluteX => 2,
        AddressingMode::AbsoluteY => 2,
        AddressingMode::Indirect => 2,
        AddressingMode::IndirectX => 1,
        AddressingMode::IndirectY => 1,
        AddressingMode::Relative => 1,
    }
}

pub fn width_of(m: AddressingMode) -> (n: usize)
    ensures
        n == operand_width(m),
{
    match m {
        AddressingMode::Implied => 0,
        AddressingMode::Immediate => 1,
        AddressingMode::ZeroPage => 1,
        AddressingMode::ZeroPageX => 1,
        AddressingMode::ZeroPageY => 1,
        AddressingMode::Absolute => 2,
        AddressingMode::AbsoluteX => 2,
        AddressingMode::AbsoluteY => 2,
        AddressingMode::Indirect => 2,
        AddressingMode::IndirectX => 1,
        AddressingMode::IndirectY => 1,
        AddressingMode::Relative => 1,
    }
}

/// One row of the opcode table: a three-letter mnemonic, its opcode byte,
/// and the addressing mode that byte encodes. The full instruction length
/// is `1 + operand_width(mode)`.
#[derive(Clone, Copy, Debug, PartialEq, Eq, Structural)]
pub struct OpCode {
    pub m0: char,
    pub m1: char,
    pub m2: char,
    pub code: u8,
    pub mode: AddressingMode,
}

impl OpCode {
    /// The row's mnemonic as an owned string.
    pub fn mnemonic_string(&self) -> (r: String)
        requires
            wf_entry(*self),
        ensures
            r@ == seq![self.m0, self.m1, self.m2],
    {
        let mut r = String::new();
        crate::text::push_piece(&mut r, self.m0);
        crate::text::push_piece(&mut r, self.m1);
        crate::text::push_piece(&mut r, self.m2);
        proof {
            assert(r@ =~= seq![self.m0, self.m1, self.m2]);
        }
        r
    }
}

/// Shorthand constructor used by the table rows.
pub open spec fn oc(m0: char, m1: char, m2: char, code: u8, mode: AddressingMode) -> OpCode {
    OpCode { m0, m1, m2, code, mode }
}

/// A table row is well formed when its mnemonic consists of renderable
/// uppercase letters.
pub open spec fn wf_entry(e: OpCode) -> bool {
    piece_char(e.m0) && piece_char(e.m1) && piece_char(e.m2)
}

pub open spec fn wf_entries(t: Seq<OpCode>) -> bool {
    forall|i: int| 0 <= i < t.len() ==> wf_entry(#[trigger] t[i])
}

/// The name `m` is the mnemonic of row `e`.
pub open spec fn mnemonic_matches(e: OpCode, m: Seq<char>) -> bool {
    m.len() == 3 && m[0] == e.m0 && m[1] == e.m1 && m[2] == e.m2
}

/// The matching rule of opcode resolution: the row's mode must equal the
/// syntactically inferred mode, except that a row in `Relative` mode also
/// accepts a `ZeroPage`-shaped operand, branch operands being lexically
/// indistinguishable from zero-page addresses.
pub open spec fn mode_accepts(entry_mode: AddressingMode, inferred: AddressingMode) -> bool {
    entry_mode == inferred || (entry_mode == AddressingMode::Relative && inferred
        == AddressingMode::ZeroPage)
}

/// The first row whose mnemonic is `m`, whose mode accepts `inferred`, and
/// whose mode implies exactly `width` operand bytes: the parsed operand's
/// width constrains which row can match, so an instruction can never be
/// built with the wrong number of operand bytes.
pub open spec fn find_opcode(
    t: Seq<OpCode>,
    m: Seq<char>,
    inferred: AddressingMode,
    width: nat,
) -> Option<OpCode>
    decreases t.len(),
{
    if t.len() == 0 {
        None
    } else if mnemonic_matches(t[0], m) && mode_accepts(t[0].mode, inferred) && operand_width(
        t[0].mode,
    ) == width {
        Some(t[0])
    } else {
        find_opcode(t.drop_first(), m, inferred, width)
    }
}

/// The first row whose opcode byte is `b`.
pub open spec fn find_by_code(t: Seq<OpCode>, b: u8) -> Option<OpCode>
    decreases t.len(),
{
    if t.len() == 0 {
        None
    } else if t[0].code == b {
        Some(t[0])
    } else {
        find_by_code(t.drop_first(), b)
    }
}

/// Some row of `t` carries the opcode byte `b`.
pub open spec fn contains_code(t: Seq<OpCode>, b: u8) -> bool
    decreases t.len(),
{
    t.len() > 0 && (t[0].code == b || contains_code(t.drop_first(), b))
}

/// No opcode byte appears on two rows of `t`.
pub open spec fn distinct_codes(t: Seq<OpCode>) -> bool
    decreases t.len(),
{
    t.len() == 0 || (!contains_code(t.drop_first(), t[0].code) && distinct_codes(t.drop_first()))
}

/// A found row is one of the table's rows.
pub proof fn lemma_find_by_code_mem(t: Seq<OpCode>, b: u8)
    requires
        find_by_code(t, b) is Some,
    ensures
        t.contains(find_by_code(t, b)->0),
        find_by_code(t, b)->0.code == b,
    decreases t.len(),
{
    if t.len() > 0 && t[0].code != b {
        lemma_find_by_code_mem(t.drop_first(), b);
        assert(t.drop_first().contains(find_by_code(t, b)->0));
        let e = find_by_code(t, b)->0;
        let i = choose|i: int| 0 <= i < t.drop_first().len() && t.drop_first()[i] == e;
        assert(t[i + 1] == e);
    }
}

/// A found row is one of the table's rows and matches the query, width
/// included.
pub proof fn lemma_find_opcode_mem(
    t: Seq<OpCode>,
    m: Seq<char>,
    inferred: AddressingMode,
    width: nat,
)
    requires
        find_opcode(t, m, inferred, width) is Some,
    ensures
        t.contains(find_opcode(t, m, inferred, width)->0),
        mnemonic_matches(find_opcode(t, m, inferred, width)->0, m),
        mode_accepts(find_opcode(t, m, inferred, width)->0.mode, inferred),
        operand_width(find_opcode(t, m, inferred, width)->0.mode) == width,
    decreases t.len(),
{
    if t.len() > 0 && !(mnemonic_matches(t[0], m) && mode_accepts(t[0].mode, inferred)
        && operand_width(t[0].mode) == width) {
        lemma_find_opcode_mem(t.drop_first(), m, inferred, width);
        let e = find_opcode(t, m, inferred, width)->0;
        let i = choose|i: int| 0 <= i < t.drop_first().len() && t.drop_first()[i] == e;
        assert(t[i + 1] == e);
    }
}

fn push_op(t: &mut Vec<OpCode>, m0: char, m1: char, m2: char, code: u8, mode: AddressingMode)
    requires
        piece_char(m0),
        piece_char(m1),
        piece_char(m2),
        wf_entries(old(t)@),
    ensures
        final(t)@ == old(t)@.push(oc(m0, m1, m2, code, mode)),
        wf_entries(final(t)@),
{
    t.push(OpCode { m0, m1, m2, code, mode });
    proof {
        assert(forall|i: int|
            0 <= i < final(t)@.len() - 1 ==> final(t)@[i] == old(t)@[i]);
    }
}

/// Table rows: arithmetic.
pub open spec fn rows_arithmetic() -> Seq<OpCode> {
    seq![
        oc('A', 'D', 'C', 0x69, AddressingMode::Immediate),
        oc('A', 'D', 'C', 0x65, AddressingMode::ZeroPage),
        oc('A', 'D', 'C', 0x75, AddressingMode::ZeroPageX),
        oc('A', 'D', 'C', 0x6D, AddressingMode::Absolute),
        oc('A', 'D', 'C', 0x7D, AddressingMode::AbsoluteX),
        oc('A', 'D', 'C', 0x79, AddressingMode::AbsoluteY),
        oc('A', 'D', 'C', 0x61, AddressingMode::IndirectX),
        oc('A', 'D', 'C', 0x71, AddressingMode::IndirectY),
        oc('A', 'N', 'D', 0x29, AddressingMode::Immediate),
        oc('A', 'N', 'D', 0x25, AddressingMode::ZeroPage),
        oc('A', 'N', 'D', 0x35, AddressingMode::ZeroPageX),
        oc('A', 'N', 'D', 0x2D, AddressingMode::Absolute),
        oc('A', 'N', 'D', 0x3D, AddressingMode::AbsoluteX),
        oc('A', 'N', 'D', 0x39, AddressingMode::AbsoluteY),
        oc('A', 'N', 'D', 0x21, AddressingMode::IndirectX),
        oc('A', 'N', 'D', 0x31, AddressingMode::IndirectY),
    ]
}

fn add_arithmetic(t: &mut Vec<OpCode>)
    requires
        wf_entries(old(t)@),
    ensures
        final(t)@ == old(t)@ + rows_arithmetic(),
        wf_entries(final(t)@),
{
    push_op(t, 'A', 'D', 'C', 0x69, AddressingMode::Immediate);
    push_op(t, 'A', 'D', 'C', 0x65, AddressingMode::ZeroPage);
    push_op(t, 'A', 'D', 'C', 0x75, AddressingMode::ZeroPageX);
    push_op(t, 'A', 'D', 'C', 0x6D, AddressingMode::Absolute);
    push_op(t, 'A', 'D', 'C', 0x7D, AddressingMode::AbsoluteX);
    push_op(t, 'A', 'D', 'C', 0x79, AddressingMode::AbsoluteY);
    push_op(t, 'A', 'D', 'C', 0x61, AddressingMode::IndirectX);
    push_op(t, 'A', 'D', 'C', 0x71, AddressingMode::IndirectY);
    push_op(t, 'A', 'N', 'D', 0x29, AddressingMode::Immediate);
    push_op(t, 'A', 'N', 'D', 0x25, AddressingMode::ZeroPage);
    push_op(t, 'A', 'N', 'D', 0x35, AddressingMode::ZeroPageX);
    push_op(t, 'A', 'N', 'D', 0x2D, AddressingMode::Absolute);
    push_op(t, 'A', 'N', 'D', 0x3D, AddressingMode::AbsoluteX);
    push_op(t, 'A', 'N', 'D', 0x39, AddressingMode::AbsoluteY);
    push_op(t, 'A', 'N', 'D', 0x21, AddressingMode::IndirectX);
    push_op(t, 'A', 'N', 'D', 0x31, AddressingMode::IndirectY);
    proof {
        assert(final(t)@ =~= old(t)@ + rows_arithmetic());
    }
}

/// Table rows: shifts and branches.
pub open spec fn rows_shifts_and_branches() -> Seq<OpCode> {
    seq![
        oc('A', 'S', 'L', 0x0A, AddressingMode::Implied),
        oc('A', 'S', 'L', 0x06, AddressingMode::ZeroPage),
        oc('A', 'S', 'L', 0x16, AddressingMode::ZeroPageX),
        oc('A', 'S', 'L', 0x0E, AddressingMode::Absolute),
        oc('A', 'S', 'L', 0x1E, AddressingMode::AbsoluteX),
        oc('B', 'I', 'T', 0x24, AddressingMode::ZeroPage),
        oc('B', 'I', 'T', 0x2C, AddressingMode::Absolute),
        oc('B', 'R', 'K', 0x00, AddressingMode::Implied),
        oc('B', 'C', 'C', 0x90, AddressingMode::Relative),
        oc('B', 'C', 'S', 0xB0, AddressingMode::Relative),
        oc('B', 'E', 'Q', 0xF0, AddressingMode::Relative),
        oc('B', 'M', 'I', 0x30, AddressingMode::Relative),
        oc('B', 'N', 'E', 0xD0, AddressingMode::Relative),
        oc('B', 'P', 'L', 0x10, AddressingMode::Relative),
        oc('B', 'V', 'C', 0x50, AddressingMode::Relative),
        oc('B', 'V', 'S', 0x70, AddressingMode::Relative),
    ]
}

fn add_shifts_and_branches(t: &mut Vec<OpCode>)
    requires
        wf_entries(old(t)@),
    ensures
        final(t)@ == old(t)@ + rows_shifts_and_branches(),
        wf_entries(final(t)@),
{
    push_op(t, 'A', 'S', 'L', 0x0A, AddressingMode::Implied);
    push_op(t, 'A', 'S', 'L', 0x06, AddressingMode::ZeroPage);
    push_op(t, 'A', 'S', 'L', 0x16, AddressingMode::ZeroPageX);
    push_op(t, 'A', 'S', 'L', 0x0E, AddressingMode::Absolute);
    push_op(t, 'A', 'S', 'L', 0x1E, AddressingMode::AbsoluteX);
    push_op(t, 'B', 'I', 'T', 0x24, AddressingMode::ZeroPage);
    push_op(t, 'B', 'I', 'T', 0x2C, AddressingMode::Absolute);
    push_op(t, 'B', 'R', 'K', 0x00, AddressingMode::Implied);
    push_op(t, 'B', 'C', 'C', 0x90, AddressingMode::Relative);
    push_op(t, 'B', 'C', 'S', 0xB0, AddressingMode::Relative);
    push_op(t, 'B', 'E', 'Q', 0xF0, AddressingMode::Relative);
    push_op(t, 'B', 'M', 'I', 0x30, AddressingMode::Relative);
    push_op(t, 'B', 'N', 'E', 0xD0, AddressingMode::Relative);
    push_op(t, 'B', 'P', 'L', 0x10, AddressingMode::Relative);
    push_op(t, 'B', 'V', 'C', 0x50, AddressingMode::Relative);
    push_op(t, 'B', 'V', 'S', 0x70, AddressingMode::Relative);
    proof {
        assert(final(t)@ =~= old(t)@ + rows_shifts_and_branches());
    }
}

/// Table rows: flags and compares.
pub open spec fn rows_flags_and_compares() -> Seq<OpCode> {
    seq![
        oc('C', 'L', 'C', 0x18, AddressingMode::Implied),
        oc('C', 'L', 'D', 0xD8, AddressingMode::Implied),
        oc('C', 'L', 'I', 0x58, AddressingMode::Implied),
        oc('C', 'L', 'V', 0xB8, AddressingMode::Implied),
        oc('C', 'M', 'P', 0xC9, AddressingMode::Immediate),
        oc('C', 'M', 'P', 0xC5, AddressingMode::ZeroPage),
        oc('C', 'M', 'P', 0xD5, AddressingMode::ZeroPageX),
        oc('C', 'M', 'P', 0xCD, AddressingMode::Absolute),
        oc('C', 'M', 'P', 0xDD, AddressingMode::AbsoluteX),
        oc('C', 'M', 'P', 0xD9, AddressingMode::AbsoluteY),
        oc('C', 'M', 'P', 0xC1, AddressingMode::IndirectX),
        oc('C', 'M', 'P', 0xD1, AddressingMode::IndirectY),
        oc('C', 'P', 'X', 0xE0, AddressingMode::Immediate),
        oc('C', 'P', 'X', 0xE4, AddressingMode::ZeroPage),
        oc('C', 'P', 'X', 0xEC, AddressingMode::Absolute),
        oc('C', 'P', 'Y', 0xC0, AddressingMode::Immediate),
        oc('C', 'P', 'Y', 0xC4, AddressingMode::ZeroPage),
        oc('C', 'P', 'Y', 0xCC, AddressingMode::Absolute),
    ]
}

fn add_flags_and_compares(t: &mut Vec<OpCode>)
    requires
        wf_entries(old(t)@),
    ensures
        final(t)@ == old(t)@ + rows_flags_and_compares(),
        wf_entries(final(t)@),
{
    push_op(t, 'C', 'L', 'C', 0x18, AddressingMode::Implied);
    push_op(t, 'C', 'L', 'D', 0xD8, AddressingMode::Implied);
    push_op(t, 'C', 'L', 'I', 0x58, AddressingMode::Implied);
    push_op(t, 'C', 'L', 'V', 0xB8, AddressingMode::Implied);
    push_op(t, 'C', 'M', 'P', 0xC9, AddressingMode::Immediate);
    push_op(t, 'C', 'M', 'P', 0xC5, AddressingMode::ZeroPage);
    push_op(t, 'C', 'M', 'P', 0xD5, AddressingMode::ZeroPageX);
    push_op(t, 'C', 'M', 'P', 0xCD, AddressingMode::Absolute);
    push_op(t, 'C', 'M', 'P', 0xDD, AddressingMode::AbsoluteX);
    push_op(t, 'C', 'M', 'P', 0xD9, AddressingMode::AbsoluteY);
    push_op(t, 'C', 'M', 'P', 0xC1, AddressingMode::IndirectX);
    push_op(t, 'C', 'M', 'P', 0xD1, AddressingMode::IndirectY);
    push_op(t, 'C', 'P', 'X', 0xE0, AddressingMode::Immediate);
    push_op(t, 'C', 'P', 'X', 0xE4, AddressingMode::ZeroPage);
    push_op(t, 'C', 'P', 'X', 0xEC, AddressingMode::Absolute);
    push_op(t, 'C', 'P', 'Y', 0xC0, AddressingMode::Immediate);
    push_op(t, 'C', 'P', 'Y', 0xC4, AddressingMode::ZeroPage);
    push_op(t, 'C', 'P', 'Y', 0xCC, AddressingMode::Absolute);
    proof {
        assert(final(t)@ =~= old(t)@ + rows_flags_and_compares());
    }
}

/// Table rows: decrements and eor.
pub open spec fn rows_decrements_and_eor() -> Seq<OpCode> {
    seq![
        oc('D', 'E', 'C', 0xC6, AddressingMode::ZeroPage),
        oc('D', 'E', 'C', 0xD6, AddressingMode::ZeroPageX),
        oc('D', 'E', 'C', 0xCE, AddressingMode::Absolute),
        oc('D', 'E', 'C', 0xDE, AddressingMode::AbsoluteX),
        oc('D', 'E', 'X', 0xCA, AddressingMode::Implied),
        oc('D', 'E', 'Y', 0x88, AddressingMode::Implied),
        oc('E', 'O', 'R', 0x49, AddressingMode::Immediate),
        oc('E', 'O', 'R', 0x45, AddressingMode::ZeroPage),
        oc('E', 'O', 'R', 0x55, AddressingMode::ZeroPageX),
        oc('E', 'O', 'R', 0x4D, AddressingMode::Absolute),
        oc('E', 'O', 'R', 0x5D, AddressingMode::AbsoluteX),
        oc('E', 'O', 'R', 0x59, AddressingMode::AbsoluteY),
        oc('E', 'O', 'R', 0x41, AddressingMode::IndirectX),
        oc('E', 'O', 'R', 0x51, AddressingMode::IndirectY),
        oc('I', 'N', 'C', 0xE6, AddressingMode::ZeroPage),
        oc('I', 'N', 'C', 0xF6, AddressingMode::ZeroPageX),
        oc('I', 'N', 'C', 0xEE, AddressingMode::Absolute),
        oc('I', 'N', 'C', 0xFE, AddressingMode::AbsoluteX),
    ]
}

fn add_decrements_and_eor(t: &mut Vec<OpCode>)
    requires
        wf_entries(old(t)@),
    ensures
        final(t)@ == old(t)@ + rows_decrements_and_eor(),
        wf_entries(final(t)@),
{
    push_op(t, 'D', 'E', 'C', 0xC6, AddressingMode::ZeroPage);
    push_op(t, 'D', 'E', 'C', 0xD6, AddressingMode::ZeroPageX);
    push_op(t, 'D', 'E', 'C', 0xCE, AddressingMode::Absolute);
    push_op(t, 'D', 'E', 'C', 0xDE, AddressingMode::AbsoluteX);
    push_op(t, 'D', 'E', 'X', 0xCA, AddressingMode::Implied);
    push_op(t, 'D', 'E', 'Y', 0x88, AddressingMode::Implied);
    push_op(t, 'E', 'O', 'R', 0x49, AddressingMode::Immediate);
    push_op(t, 'E', 'O', 'R', 0x45, AddressingMode::ZeroPage);
    push_op(t, 'E', 'O', 'R', 0x55, AddressingMode::ZeroPageX);
    push_op(t, 'E', 'O', 'R', 0x4D, AddressingMode::Absolute);
    push_op(t, 'E', 'O', 'R', 0x5D, AddressingMode::AbsoluteX);
    push_op(t, 'E', 'O', 'R', 0x59, AddressingMode::AbsoluteY);
    push_op(t, 'E', 'O', 'R', 0x41, AddressingMode::IndirectX);
    push_op(t, 'E', 'O', 'R', 0x51, AddressingMode::IndirectY);
    push_op(t, 'I', 'N', 'C', 0xE6, AddressingMode::ZeroPage);
    push_op(t, 'I', 'N', 'C', 0xF6, AddressingMode::ZeroPageX);
    push_op(t, 'I', 'N', 'C', 0xEE, AddressingMode::Absolute);
    push_op(t, 'I', 'N', 'C', 0xFE, AddressingMode::AbsoluteX);
    proof {
        assert(final(t)@ =~= old(t)@ + rows_decrements_and_eor());
    }
}

/// Table rows: jumps and lda.
pub open spec fn rows_jumps_and_lda() -> Seq<OpCode> {
    seq![
        oc('I', 'N', 'X', 0xE8, AddressingMode::Implied),
        oc('I', 'N', 'Y', 0xC8, AddressingMode::Implied),
        oc('J', 'M', 'P', 0x4C, AddressingMode::Absolute),
        oc('J', 'M', 'P', 0x6C, AddressingMode::Indirect),
        oc('J', 'S', 'R', 0x20, AddressingMode::Absolute),
        oc('L', 'D', 'A', 0xA9, AddressingMode::Immediate),
        oc('L', 'D', 'A', 0xA5, AddressingMode::ZeroPage),
        oc('L', 'D', 'A', 0xB5, AddressingMode::ZeroPageX),
        oc('L', 'D', 'A', 0xAD, AddressingMode::Absolute),
        oc('L', 'D', 'A', 0xBD, AddressingMode::AbsoluteX),
        oc('L', 'D', 'A', 0xB9, AddressingMode::AbsoluteY),
        oc('L', 'D', 'A', 0xA1, AddressingMode::IndirectX),
        oc('L', 'D', 'A', 0xB1, AddressingMode::IndirectY),
    ]
}

fn add_jumps_and_lda(t: &mut Vec<OpCode>)
    requires
        wf_entries(old(t)@),
    ensures
        final(t)@ == old(t)@ + rows_jumps_and_lda(),
        wf_entries(final(t)@),
{
    push_op(t, 'I', 'N', 'X', 0xE8, AddressingMode::Implied);
    push_op(t, 'I', 'N', 'Y', 0xC8, AddressingMode::Implied);
    push_op(t, 'J', 'M', 'P', 0x4C, AddressingMode::Absolute);
    push_op(t, 'J', 'M', 'P', 0x6C, AddressingMode::Indirect);
    push_op(t, 'J', 'S', 'R', 0x20, AddressingMode::Absolute);
    push_op(t, 'L', 'D', 'A', 0xA9, AddressingMode::Immediate);
    push_op(t, 'L', 'D', 'A', 0xA5, AddressingMode::ZeroPage);
    push_op(t, 'L', 'D', 'A', 0xB5, AddressingMode::ZeroPageX);
    push_op(t, 'L', 'D', 'A', 0xAD, AddressingMode::Absolute);
    push_op(t, 'L', 'D', 'A', 0xBD, AddressingMode::AbsoluteX);
    push_op(t, 'L', 'D', 'A', 0xB9, AddressingMode::AbsoluteY);
    push_op(t, 'L', 'D', 'A', 0xA1, AddressingMode::IndirectX);
    push_op(t, 'L', 'D', 'A', 0xB1, AddressingMode::IndirectY);
    proof {
        assert(final(t)@ =~= old(t)@ + rows_jumps_and_lda());
    }
}

/// Table rows: other loads.
pub open spec fn rows_other_loads() -> Seq<OpCode> {
    seq![
        oc('L', 'D', 'X', 0xA2, AddressingMode::Immediate),
        oc('L', 'D', 'X', 0xA6, AddressingMode::ZeroPage),
        oc('L', 'D', 'X', 0xB6, AddressingMode::ZeroPageY),
        oc('L', 'D', 'X', 0xAE, AddressingMode::Absolute),
        oc('L', 'D', 'X', 0xBE, AddressingMode::AbsoluteY),
        oc('L', 'D', 'Y', 0xA0, AddressingMode::Immediate),
        oc('L', 'D', 'Y', 0xA4, AddressingMode::ZeroPage),
        oc('L', 'D', 'Y', 0xB4, AddressingMode::ZeroPageX),
        oc('L', 'D', 'Y', 0xAC, AddressingMode::Absolute),
        oc('L', 'D', 'Y', 0xBC, AddressingMode::AbsoluteX),
        oc('L', 'S', 'R', 0x4A, AddressingMode::Implied),
        oc('L', 'S', 'R', 0x46, AddressingMode::ZeroPage),
        oc('L', 'S', 'R', 0x56, AddressingMode::ZeroPageX),
        oc('L', 'S', 'R', 0x4E, AddressingMode::Absolute),
        oc('L', 'S', 'R', 0x5E, AddressingMode::AbsoluteX),
        oc('N', 'O', 'P', 0xEA, AddressingMode::Implied),
    ]
}

fn add_other_loads(t: &mut Vec<OpCode>)
    requires
        wf_entries(old(t)@),
    ensures
        final(t)@ == old(t)@ + rows_other_loads(),
        wf_entries(final(t)@),
{
    push_op(t, 'L', 'D', 'X', 0xA2, AddressingMode::Immediate);
    push_op(t, 'L', 'D', 'X', 0xA6, AddressingMode::ZeroPage);
    push_op(t, 'L', 'D', 'X', 0xB6, AddressingMode::ZeroPageY);
    push_op(t, 'L', 'D', 'X', 0xAE, AddressingMode::Absolute);
    push_op(t, 'L', 'D', 'X', 0xBE, AddressingMode::AbsoluteY);
    push_op(t, 'L', 'D', 'Y', 0xA0, AddressingMode::Immediate);
    push_op(t, 'L', 'D', 'Y', 0xA4, AddressingMode::ZeroPage);
    push_op(t, 'L', 'D', 'Y', 0xB4, AddressingMode::ZeroPageX);
    push_op(t, 'L', 'D', 'Y', 0xAC, AddressingMode::Absolute);
    push_op(t, 'L', 'D', 'Y', 0xBC, AddressingMode::AbsoluteX);
    push_op(t, 'L', 'S', 'R', 0x4A, AddressingMode::Implied);
    push_op(t, 'L', 'S', 'R', 0x46, AddressingMode::ZeroPage);
    push_op(t, 'L', 'S', 'R', 0x56, AddressingMode::ZeroPageX);
    push_op(t, 'L', 'S', 'R', 0x4E, AddressingMode::Absolute);
    push_op(t, 'L', 'S', 'R', 0x5E, AddressingMode::AbsoluteX);
    push_op(t, 'N', 'O', 'P', 0xEA, AddressingMode::Implied);
    proof {
        assert(final(t)@ =~= old(t)@ + rows_other_loads());
    }
}

/// Table rows: ora and stack.
pub open spec fn rows_ora_and_stack() -> Seq<OpCode> {
    seq![
        oc('O', 'R', 'A', 0x09, AddressingMode::Immediate),
        oc('O', 'R', 'A', 0x05, AddressingMode::ZeroPage),
        oc('O', 'R', 'A', 0x15, AddressingMode::ZeroPageX),
        oc('O', 'R', 'A', 0x0D, AddressingMode::Absolute),
        oc('O', 'R', 'A', 0x1D, AddressingMode::AbsoluteX),
        oc('O', 'R', 'A', 0x19, AddressingMode::AbsoluteY),
        oc('O', 'R', 'A', 0x01, AddressingMode::IndirectX),
        oc('O', 'R', 'A', 0x11, AddressingMode::IndirectY),
        oc('P', 'H', 'A', 0x48, AddressingMode::Implied),
        oc('P', 'H', 'P', 0x08, AddressingMode::Implied),
        oc('P', 'L', 'A', 0x68, AddressingMode::Implied),
        oc('P', 'L', 'P', 0x28, AddressingMode::Implied),
        oc('R', 'O', 'L', 0x2A, AddressingMode::Implied),
        oc('R', 'O', 'L', 0x26, AddressingMode::ZeroPage),
        oc('R', 'O', 'L', 0x36, AddressingMode::ZeroPageX),
        oc('R', 'O', 'L', 0x2E, AddressingMode::Absolute),
        oc('R', 'O', 'L', 0x3E, AddressingMode::AbsoluteX),
    ]
}

fn add_ora_and_stack(t: &mut Vec<OpCode>)
    requires
        wf_entries(old(t)@),
    ensures
        final(t)@ == old(t)@ + rows_ora_and_stack(),
        wf_entries(final(t)@),
{
    push_op(t, 'O', 'R', 'A', 0x09, AddressingMode::Immediate);
    push_op(t, 'O', 'R', 'A', 0x05, AddressingMode::ZeroPage);
    push_op(t, 'O', 'R', 'A', 0x15, AddressingMode::ZeroPageX);
    push_op(t, 'O', 'R', 'A', 0x0D, AddressingMode::Absolute);
    push_op(t, 'O', 'R', 'A', 0x1D, AddressingMode::AbsoluteX);
    push_op(t, 'O', 'R', 'A', 0x19, AddressingMode::AbsoluteY);
    push_op(t, 'O', 'R', 'A', 0x01, AddressingMode::IndirectX);
    push_op(t, 'O', 'R', 'A', 0x11, AddressingMode::IndirectY);
    push_op(t, 'P', 'H', 'A', 0x48, AddressingMode::Implied);
    push_op(t, 'P', 'H', 'P', 0x08, AddressingMode::Implied);
    push_op(t, 'P', 'L', 'A', 0x68, AddressingMode::Implied);
    push_op(t, 'P', 'L', 'P', 0x28, AddressingMode::Implied);
    push_op(t, 'R', 'O', 'L', 0x2A, AddressingMode::Implied);
    push_op(t, 'R', 'O', 'L', 0x26, AddressingMode::ZeroPage);
    push_op(t, 'R', 'O', 'L', 0x36, AddressingMode::ZeroPageX);
    push_op(t, 'R', 'O', 'L', 0x2E, AddressingMode::Absolute);
    push_op(t, 'R', 'O', 'L', 0x3E, AddressingMode::AbsoluteX);
    proof {
        assert(final(t)@ =~= old(t)@ + rows_ora_and_stack());
    }
}

/// Table rows: rotates and sbc.
pub open spec fn rows_rotates_and_sbc() -> Seq<OpCode> {
    seq![
        oc('R', 'O', 'R', 0x6A, AddressingMode::Implied),
        oc('R', 'O', 'R', 0x66, AddressingMode::ZeroPage),
        oc('R', 'O', 'R', 0x76, AddressingMode::ZeroPageX),
        oc('R', 'O', 'R', 0x6E, AddressingMode::Absolute),
        oc('R', 'O', 'R', 0x7E, AddressingMode::AbsoluteX),
        oc('R', 'T', 'I', 0x40, AddressingMode::Implied),
        oc('R', 'T', 'S', 0x60, AddressingMode::Implied),
        oc('S', 'B', 'C', 0xE9, AddressingMode::Immediate),
        oc('S', 'B', 'C', 0xE5, AddressingMode::ZeroPage),
        oc('S', 'B', 'C', 0xF5, AddressingMode::ZeroPageX),
        oc('S', 'B', 'C', 0xED, AddressingMode::Absolute),
        oc('S', 'B', 'C', 0xFD, AddressingMode::AbsoluteX),
        oc('S', 'B', 'C', 0xF9, AddressingMode::AbsoluteY),
        oc('S', 'B', 'C', 0xE1, AddressingMode::IndirectX),
        oc('S', 'B', 'C', 0xF1, AddressingMode::IndirectY),
    ]
}

fn add_rotates_and_sbc(t: &mut Vec<OpCode>)
    requires
        wf_entries(old(t)@),
    ensures
        final(t)@ == old(t)@ + rows_rotates_and_sbc(),
        wf_entries(final(t)@),
{
    push_op(t, 'R', 'O', 'R', 0x6A, AddressingMode::Implied);
    push_op(t, 'R', 'O', 'R', 0x66, AddressingMode::ZeroPage);
    push_op(t, 'R', 'O', 'R', 0x76, AddressingMode::ZeroPageX);
    push_op(t, 'R', 'O', 'R', 0x6E, AddressingMode::Absolute);
    push_op(t, 'R', 'O', 'R', 0x7E, AddressingMode::AbsoluteX);
    push_op(t, 'R', 'T', 'I', 0x40, AddressingMode::Implied);
    push_op(t, 'R', 'T', 'S', 0x60, AddressingMode::Implied);
    push_op(t, 'S', 'B', 'C', 0xE9, AddressingMode::Immediate);
    push_op(t, 'S', 'B', 'C', 0xE5, AddressingMode::ZeroPage);
    push_op(t, 'S', 'B', 'C', 0xF5, AddressingMode::ZeroPageX);
    push_op(t, 'S', 'B', 'C', 0xED, AddressingMode::Absolute);
    push_op(t, 'S', 'B', 'C', 0xFD, AddressingMode::AbsoluteX);
    push_op(t, 'S', 'B', 'C', 0xF9, AddressingMode::AbsoluteY);
    push_op(t, 'S', 'B', 'C', 0xE1, AddressingMode::IndirectX);
    push_op(t, 'S', 'B', 'C', 0xF1, AddressingMode::IndirectY);
    proof {
        assert(final(t)@ =~= old(t)@ + rows_rotates_and_sbc());
    }
}

/// Table rows: stores.
pub open spec fn rows_stores() -> Seq<OpCode> {
    seq![
        oc('S', 'E', 'C', 0x38, AddressingMode::Implied),
        oc('S', 'E', 'D', 0xF8, AddressingMode::Implied),
        oc('S', 'E', 'I', 0x78, AddressingMode::Implied),
        oc('S', 'T', 'A', 0x85, AddressingMode::ZeroPage),
        oc('S', 'T', 'A', 0x95, AddressingMode::ZeroPageX),
        oc('S', 'T', 'A', 0x8D, AddressingMode::Absolute),
        oc('S', 'T', 'A', 0x9D, AddressingMode::AbsoluteX),
        oc('S', 'T', 'A', 0x99, AddressingMode::AbsoluteY),
        oc('S', 'T', 'A', 0x81, AddressingMode::IndirectX),
        oc('S', 'T', 'A', 0x91, AddressingMode::IndirectY),
        oc('S', 'T', 'X', 0x86, AddressingMode::ZeroPage),
        oc('S', 'T', 'X', 0x96, AddressingMode::ZeroPageY),
        oc('S', 'T', 'X', 0x8E, AddressingMode::Absolute),
        oc('S', 'T', 'Y', 0x84, AddressingMode::ZeroPage),
        oc('S', 'T', 'Y', 0x94, AddressingMode::ZeroPageX),
        oc('S', 'T', 'Y', 0x8C, AddressingMode::Absolute),
    ]
}

fn add_stores(t: &mut Vec<OpCode>)
    requires
        wf_entries(old(t)@),
    ensures
        final(t)@ == old(t)@ + rows_stores(),
        wf_entries(final(t)@),
{
    push_op(t, 'S', 'E', 'C', 0x38, AddressingMode::Implied);
    push_op(t, 'S', 'E', 'D', 0xF8, AddressingMode::Implied);
    push_op(t, 'S', 'E', 'I', 0x78, AddressingMode::Implied);
    push_op(t, 'S', 'T', 'A', 0x85, AddressingMode::ZeroPage);
    push_op(t, 'S', 'T', 'A', 0x95, AddressingMode::ZeroPageX);
    push_op(t, 'S', 'T', 'A', 0x8D, AddressingMode::Absolute);
    push_op(t, 'S', 'T', 'A', 0x9D, AddressingMode::AbsoluteX);
    push_op(t, 'S', 'T', 'A', 0x99, AddressingMode::AbsoluteY);
    push_op(t, 'S', 'T', 'A', 0x81, AddressingMode::IndirectX);
    push_op(t, 'S', 'T', 'A', 0x91, AddressingMode::IndirectY);
    push_op(t, 'S', 'T', 'X', 0x86, AddressingMode::ZeroPage);
    push_op(t, 'S', 'T', 'X', 0x96, AddressingMode::ZeroPageY);
    push_op(t, 'S', 'T', 'X', 0x8E, AddressingMode::Absolute);
    push_op(t, 'S', 'T', 'Y', 0x84, AddressingMode::ZeroPage);
    push_op(t, 'S', 'T', 'Y', 0x94, AddressingMode::ZeroPageX);
    push_op(t, 'S', 'T', 'Y', 0x8C, AddressingMode::Absolute);
    proof {
        assert(final(t)@ =~= old(t)@ + rows_stores());
    }
}

/// Table rows: transfers.
pub open spec fn rows_transfers() -> Seq<OpCode> {
    seq![
        oc('T', 'A', 'X', 0xAA, AddressingMode::Implied),
        oc('T', 'A', 'Y', 0xA8, AddressingMode::Implied),
        oc('T', 'S', 'X', 0xBA, AddressingMode::Implied),
        oc('T', 'X', 'A', 0x8A, AddressingMode::Implied),
        oc('T', 'X', 'S', 0x9A, AddressingMode::Implied),
        oc('T', 'Y', 'A', 0x98, AddressingMode::Implied),
    ]
}

fn add_transfers(t: &mut Vec<OpCode>)
    requires
        wf_entries(old(t)@),
    ensures
        final(t)@ == old(t)@ + rows_transfers(),
        wf_entries(final(t)@),
{
    push_op(t, 'T', 'A', 'X', 0xAA, AddressingMode::Implied);
    push_op(t, 'T', 'A', 'Y', 0xA8, AddressingMode::Implied);
    push_op(t, 'T', 'S', 'X', 0xBA, AddressingMode::Implied);
    push_op(t, 'T', 'X', 'A', 0x8A, AddressingMode::Implied);
    push_op(t, 'T', 'X', 'S', 0x9A, AddressingMode::Implied);
    push_op(t, 'T', 'Y', 'A', 0x98, AddressingMode::Implied);
    proof {
        assert(final(t)@ =~= old(t)@ + rows_transfers());
    }
}

/// Every row of the canonical 6502 opcode table, in group order.
pub open spec fn canonical_entries() -> Seq<OpCode> {
    rows_arithmetic() + rows_shifts_and_branches() + rows_flags_and_compares()
        + rows_decrements_and_eor() + rows_jumps_and_lda() + rows_other_loads()
        + rows_ora_and_stack() + rows_rotates_and_sbc() + rows_stores() + rows_transfers()
}

/// The opcode table: an immutable, explicitly constructed lookup value
/// mapping mnemonic and mode to an opcode byte, and an opcode byte back to
/// its row. Construct one with `OpcodeTable::new` and share it freely; the
/// core never mutates it.
pub struct OpcodeTable {
    pub entries: Vec<OpCode>,
}

impl OpcodeTable {
    /// The fully populated canonical 6502 table.
    pub fn new() -> (t: OpcodeTable)
        ensures
            t.entries@ == canonical_entries(),
            wf_entries(t.entries@),
    {
        let mut rows: Vec<OpCode> = Vec::new();
        add_arithmetic(&mut rows);
        add_shifts_and_branches(&mut rows);
        add_flags_and_compares(&mut rows);
        add_decrements_and_eor(&mut rows);
        add_jumps_and_lda(&mut rows);
        add_other_loads(&mut rows);
        add_ora_and_stack(&mut rows);
        add_rotates_and_sbc(&mut rows);
        add_stores(&mut rows);
        add_transfers(&mut rows);
        proof {
            assert(rows@ =~= canonical_entries());
        }
        OpcodeTable { entries: rows }
    }

    /// Resolve a mnemonic, a syntactically inferred addressing mode, and
    /// the parsed operand byte count to the first matching table row. A row
    /// matches only when its mode's width equals the count, so no
    /// instruction is ever built with the wrong number of operand bytes.
    pub fn resolve(&self, mnemonic: &str, inferred: AddressingMode, count: usize) -> (r: Option<
        OpCode,
    >)
        ensures
            r == find_opcode(self.entries@, mnemonic@, inferred, count as nat),
    {
        let n: usize = mnemonic.unicode_len();
        let mut i: usize = 0;
        proof {
            assert(self.entries@.skip(0) =~= self.entries@);
        }
        while i < self.entries.len()
            invariant
                i <= self.entries@.len(),
                n == mnemonic@.len(),
                find_opcode(self.entries@, mnemonic@, inferred, count as nat) == find_opcode(
                    self.entries@.skip(i as int),
                    mnemonic@,
                    inferred,
                    count as nat,
                ),
            decreases self.entries@.len() - i,
        {
            let e = self.entries[i];
            let name_hit: bool = n == 3 && mnemonic.get_char(0) == e.m0 && mnemonic.get_char(1)
                == e.m1 && mnemonic.get_char(2) == e.m2;
            let mode_hit: bool = e.mode == inferred || (e.mode == AddressingMode::Relative
                && inferred == AddressingMode::ZeroPage);
            let width_hit: bool = width_of(e.mode) == count;
            proof {
                assert(self.entries@.skip(i as int).drop_first() =~= self.entries@.skip(
                    i + 1,
                ));
                assert(self.entries@.skip(i as int)[0] == self.entries@[i as int]);
            }
            if name_hit && mode_hit && width_hit {
                return Some(e);
            }
            i += 1;
        }
        proof {
            assert(self.entries@.skip(self.entries@.len() as int) =~= Seq::<OpCode>::empty());
        }
        None
    }

    /// Whether any row past position `i` carries the opcode byte `b`.
    fn contains_code_from(&self, i: usize, b: u8) -> (r: bool)
        requires
            i <= self.entries@.len(),
        ensures
            r == contains_code(self.entries@.skip(i as int), b),
    {
        let mut j: usize = i;
        while j < self.entries.len()
            invariant
                i <= j <= self.entries@.len(),
                contains_code(self.entries@.skip(i as int), b) == contains_code(
                    self.entries@.skip(j as int),
                    b,
                ),
            decreases self.entries@.len() - j,
        {
            proof {
                assert(self.entries@.skip(j as int)[0] == self.entries@[j as int]);
                assert(self.entries@.skip(j as int).drop_first() =~= self.entries@.skip(
                    j + 1,
                ));
            }
            if self.entries[j].code == b {
                return true;
            }
            j += 1;
        }
        proof {
            assert(self.entries@.skip(self.entries@.len() as int) =~= Seq::<OpCode>::empty());
        }
        false
    }

    /// Decide whether every row's opcode byte is unique in the table.
    pub fn codes_distinct(&self) -> (r: bool)
        ensures
            r == distinct_codes(self.entries@),
    {
        let mut i: usize = 0;
        proof {
            assert(self.entries@.skip(0) =~= self.entries@);
        }
        while i < self.entries.len()
            invariant
                i <= self.entries@.len(),
                distinct_codes(self.entries@) == distinct_codes(self.entries@.skip(i as int)),
            decreases self.entries@.len() - i,
        {
            proof {
                assert(self.entries@.skip(i as int)[0] == self.entries@[i as int]);
                assert(self.entries@.skip(i as int).drop_first() =~= self.entries@.skip(
                    i + 1,
                ));
            }
            if self.contains_code_from(i + 1, self.entries[i].code) {
                return false;
            }
            i += 1;
        }
        proof {
            assert(self.entries@.skip(self.entries@.len() as int) =~= Seq::<OpCode>::empty());
        }
        true
    }

    /// All rows of one mnemonic, in table order: the mnemonic-indexed
    /// lookup of the table interface.
    pub fn lookup_by_mnemonic(&self, name: &str) -> (r: Vec<OpCode>)
        ensures
            r@ == self.entries@.filter(|e: OpCode| mnemonic_matches(e, name@)),
    {
        let n: usize = name.unicode_len();
        let mut r: Vec<OpCode> = Vec::new();
        let mut i: usize = 0;
        proof {
            assert(self.entries@.take(0) =~= Seq::<OpCode>::empty());
            assert(Seq::<OpCode>::empty().filter(|e: OpCode| mnemonic_matches(e, name@))
                =~= Seq::<OpCode>::empty());
        }
        while i < self.entries.len()
            invariant
                i <= self.entries@.len(),
                n == name@.len(),
                r@ == self.entries@.take(i as int).filter(
                    |e: OpCode| mnemonic_matches(e, name@),
                ),
            decreases self.entries@.len() - i,
        {
            let e = self.entries[i];
            proof {
                assert(self.entries@.take(i + 1) =~= self.entries@.take(i as int).push(
                    self.entries@[i as int],
                ));
                self.entries@.take(i as int).lemma_filter_push(
                    self.entries@[i as int],
                    |e: OpCode| mnemonic_matches(e, name@),
                );
            }
            let hit: bool = n == 3 && name.get_char(0) == e.m0 && name.get_char(1) == e.m1
                && name.get_char(2) == e.m2;
            if hit {
                r.push(e);
            }
            i += 1;
        }
        proof {
            assert(self.entries@.take(self.entries@.len() as int) =~= self.entries@);
        }
        r
    }

    /// Look up the table row of an opcode byte, if the byte encodes one.
    pub fn lookup_by_opcode(&self, b: u8) -> (r: Option<OpCode>)
        ensures
            r == find_by_code(self.entries@, b),
    {
        let mut i: usize = 0;
        proof {
            assert(self.entries@.skip(0) =~= self.entries@);
        }
        while i < self.entries.len()
            invariant
                i <= self.entries@.len(),
                find_by_code(self.entries@, b) == find_by_code(
                    self.entries@.skip(i as int),
                    b,
                ),
            decreases self.entries@.len() - i,
        {
            let e = self.entries[i];
            proof {
                assert(self.entries@.skip(i as int).drop_first() =~= self.entries@.skip(
                    i + 1,
                ));
                assert(self.entries@.skip(i as int)[0] == self.entries@[i as int]);
            }
            if e.code == b {
                return Some(e);
            }
            i += 1;
        }
        proof {
            assert(self.entries@.skip(self.entries@.len() as int) =~= Seq::<OpCode>::empty());
        }
        None
    }
}

} // verus!
