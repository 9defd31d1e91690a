//! One 6502 instruction: parsing a source line into it and rendering it
//! back to text.
//!
//! The parse of a line is specified by `line_spec`, built from
//! `value_spec` (operand token to bytes) and `infer_spec` (operand token to
//! addressing mode); the executable functions are proved to follow those
//! specifications exactly.
use vstd::prelude::*;
use vstd::string::StrSliceExecFns;
use vstd::string::StringExecFns;
use crate::error::ParseError;
use crate::labels::LabelTable;
use crate::ops::AddressingMode;
use crate::ops::OpCode;
use crate::ops::OpcodeTable;
use crate::ops::find_opcode;
use crate::ops::lemma_find_opcode_mem;
use crate::ops::operand_width;
use crate::text::all_digits;
use crate::text::digits_value;
use crate::text::hex2;
use crate::text::hex4;
use crate::text::le_bytes;
use crate::text::nonempty_parts;
use crate::text::parse_radix;
use crate::text::push_hex2;
use crate::text::push_hex4;
use crate::text::push_piece;
use crate::text::retain_nonempty;
use crate::text::split_on;
use crate::text::split_string;
use crate::text::u16_from_le;
use crate::text::u16_of;
use crate::text::u16_to_le;

verus! {

/// Where an instruction sits in memory: not yet assigned, assigned a
/// concrete address, or still naming a label. A `LabelReference` is only an
/// intermediate parse result; the assembler driver replaces it before the
/// instruction leaves the run.
#[derive(Clone, Debug)]
pub enum InstructionAddress {
    Unresolved,
    Resolved(u16),
    LabelReference(String),
}

/// The mathematical shape of an `InstructionAddress`.
pub enum AddressView {
    Unresolved,
    Resolved(u16),
    LabelReference(Seq<char>),
}

impl View for InstructionAddress {
    type V = AddressView;

    open spec fn view(&self) -> AddressView {
        match self {
            InstructionAddress::Unresolved => AddressView::Unresolved,
            InstructionAddress::Resolved(a) => AddressView::Resolved(*a),
            InstructionAddress::LabelReference(n) => AddressView::LabelReference(n@),
        }
    }
}

/// One decoded instruction: mnemonic, addressing mode, opcode byte, its
/// operand bytes (little-endian for two-byte values), and its address.
#[derive(Clone, Debug)]
pub struct Instruction {
    pub mnemonic: String,
    pub mode: AddressingMode,
    pub code: u8,
    pub operands: Vec<u8>,
    pub address: InstructionAddress,
}

/// The mathematical shape of an `Instruction`.
pub struct InstructionView {
    pub mnemonic: Seq<char>,
    pub mode: AddressingMode,
    pub code: u8,
    pub operands: Seq<u8>,
    pub address: AddressView,
}

impl View for Instruction {
    type V = InstructionView;

    open spec fn view(&self) -> InstructionView {
        InstructionView {
            mnemonic: self.mnemonic@,
            mode: self.mode,
            code: self.code,
            operands: self.operands@,
            address: self.address@,
        }
    }
}

/// The views of a sequence of instructions.
pub open spec fn views_of(s: Seq<Instruction>) -> Seq<InstructionView> {
    Seq::new(s.len(), |i: int| s[i]@)
}

/// An instruction is well formed when its operand byte count matches the
/// width its addressing mode implies.
pub open spec fn wf_instruction(i: InstructionView) -> bool {
    i.operands.len() == operand_width(i.mode)
}

// ---------------------------------------------------------------------------
// Operand values
// ---------------------------------------------------------------------------
/// What a bare operand token denotes: its byte sequence and whether it is a
/// memory reference (`true`) or an immediate value (`false`).
///
/// In priority order: `$` starts a hexadecimal address, four digits wide
/// for two bytes, otherwise one byte; `#` starts an immediate whose second
/// character selects the radix (`$` hexadecimal, `%` binary, else decimal);
/// anything else is a label reference, which must already be bound. Widths:
/// two hexadecimal immediate digits are one byte, any other count two; up
/// to eight binary digits are one byte, more are two; a decimal fitting one
/// byte is one byte, otherwise two.
pub open spec fn value_spec(labels: Map<Seq<char>, u16>, s: Seq<char>) -> Result<
    (Seq<u8>, bool),
    ParseError,
> {
    if s.len() == 0 {
        Err(ParseError::InvalidNumeric)
    } else if s[0] == '$' {
        let d = s.skip(1);
        if d.len() == 4 {
            if all_digits(d, 16) && digits_value(d, 16) <= 0xFFFF {
                Ok((le_bytes(digits_value(d, 16) as u16), true))
            } else {
                Err(ParseError::InvalidNumeric)
            }
        } else {
            if all_digits(d, 16) && digits_value(d, 16) < 256 {
                Ok((seq![digits_value(d, 16) as u8], true))
            } else {
                Err(ParseError::InvalidNumeric)
            }
        }
    } else if s[0] == '#' {
        let t = s.skip(1);
        if t.len() > 0 && t[0] == '$' {
            let d = t.skip(1);
            if d.len() == 2 {
                if all_digits(d, 16) && digits_value(d, 16) < 256 {
                    Ok((seq![digits_value(d, 16) as u8], false))
                } else {
                    Err(ParseError::InvalidNumeric)
                }
            } else {
                if all_digits(d, 16) && digits_value(d, 16) <= 0xFFFF {
                    Ok((le_bytes(digits_value(d, 16) as u16), false))
                } else {
                    Err(ParseError::InvalidNumeric)
                }
            }
        } else if t.len() > 0 && t[0] == '%' {
            let d = t.skip(1);
            if d.len() <= 8 {
                if all_digits(d, 2) && digits_value(d, 2) < 256 {
                    Ok((seq![digits_value(d, 2) as u8], false))
                } else {
                    Err(ParseError::InvalidNumeric)
                }
            } else {
                if all_digits(d, 2) && digits_value(d, 2) <= 0xFFFF {
                    Ok((le_bytes(digits_value(d, 2) as u16), false))
                } else {
                    Err(ParseError::InvalidNumeric)
                }
            }
        } else {
            let d = t;
            if all_digits(d, 10) && digits_value(d, 10) < 256 {
                Ok((seq![digits_value(d, 10) as u8], false))
            } else if all_digits(d, 10) && digits_value(d, 10) <= 0xFFFF {
                Ok((le_bytes(digits_value(d, 10) as u16), false))
            } else {
                Err(ParseError::InvalidNumeric)
            }
        }
    } else {
        if labels.contains_key(s) {
            Ok((le_bytes(labels[s]), true))
        } else {
            Err(ParseError::UnknownLabel)
        }
    }
}

/// An operand value is one or two bytes.
pub proof fn lemma_value_spec_len(labels: Map<Seq<char>, u16>, s: Seq<char>)
    ensures
        value_spec(labels, s) matches Ok(v) ==> 1 <= v.0.len() <= 2,
{
}

/// Build a one-byte vector.
fn vec1(b: u8) -> (r: Vec<u8>)
    ensures
        r@ == seq![b],
{
    let mut r: Vec<u8> = Vec::new();
    r.push(b);
    proof {
        assert(r@ =~= seq![b]);
    }
    r
}

/// Parse a bare operand token (after any indirect or indexed wrapping has
/// been peeled off) into its bytes and memory-reference flag.
pub fn operand_value(labels: &LabelTable, tok: &str) -> (r: Result<(Vec<u8>, bool), ParseError>)
    ensures
        match r {
            Ok(v) => value_spec(labels@, tok@) == Ok::<_, ParseError>((v.0@, v.1)),
            Err(e) => value_spec(labels@, tok@) == Err::<(Seq<u8>, bool), _>(e),
        },
{
    let n: usize = tok.unicode_len();
    if n == 0 {
        return Err(ParseError::InvalidNumeric);
    }
    let c0 = tok.get_char(0);
    if c0 == '$' {
        let d = tok.substring_char(1, n);
        proof {
            assert(d@ =~= tok@.skip(1));
        }
        if n == 5 {
            match parse_radix(d, 16) {
                Some(v) => Ok((u16_to_le(v), true)),
                None => Err(ParseError::InvalidNumeric),
            }
        } else {
            match parse_radix(d, 16) {
                Some(v) => {
                    if v < 256 {
                        Ok((vec1(v as u8), true))
                    } else {
                        Err(ParseError::InvalidNumeric)
                    }
                },
                None => Err(ParseError::InvalidNumeric),
            }
        }
    } else if c0 == '#' {
        if n == 1 {
            proof {
                assert(tok@.skip(1).len() == 0);
                assert(!all_digits(tok@.skip(1), 10));
            }
            return Err(ParseError::InvalidNumeric);
        }
        let c1 = tok.get_char(1);
        if c1 == '$' {
            let d = tok.substring_char(2, n);
            proof {
                assert(d@ =~= tok@.skip(1).skip(1));
                assert(tok@.skip(1)[0] == tok@[1]);
            }
            if n == 4 {
                match parse_radix(d, 16) {
                    Some(v) => {
                        if v < 256 {
                            Ok((vec1(v as u8), false))
                        } else {
                            Err(ParseError::InvalidNumeric)
                        }
                    },
                    None => Err(ParseError::InvalidNumeric),
                }
            } else {
                match parse_radix(d, 16) {
                    Some(v) => Ok((u16_to_le(v), false)),
                    None => Err(ParseError::InvalidNumeric),
                }
            }
        } else if c1 == '%' {
            let d = tok.substring_char(2, n);
            proof {
                assert(d@ =~= tok@.skip(1).skip(1));
                assert(tok@.skip(1)[0] == tok@[1]);
            }
            if n <= 10 {
                match parse_radix(d, 2) {
                    Some(v) => {
                        if v < 256 {
                            Ok((vec1(v as u8), false))
                        } else {
                            Err(ParseError::InvalidNumeric)
                        }
                    },
                    None => Err(ParseError::InvalidNumeric),
                }
            } else {
                match parse_radix(d, 2) {
                    Some(v) => Ok((u16_to_le(v), false)),
                    None => Err(ParseError::InvalidNumeric),
                }
            }
        } else {
            let d = tok.substring_char(1, n);
            proof {
                assert(d@ =~= tok@.skip(1));
                assert(tok@.skip(1)[0] == tok@[1]);
            }
            match parse_radix(d, 10) {
                Some(v) => {
                    if v < 256 {
                        Ok((vec1(v as u8), false))
                    } else {
                        Ok((u16_to_le(v), false))
                    }
                },
                None => Err(ParseError::InvalidNumeric),
            }
        }
    } else {
        match labels.get(tok) {
            Some(a) => Ok((u16_to_le(a), true)),
            None => Err(ParseError::UnknownLabel),
        }
    }
}

// ---------------------------------------------------------------------------
// Addressing-mode inference
// ---------------------------------------------------------------------------
/// Infer the addressing mode of a raw operand token from its shape alone.
///
/// An empty token is `Implied`. A token in parentheses is indirect:
/// `(..,X)` pre-indexed, `(..),Y` post-indexed, plain `(..)` indirect; any
/// other parenthesised shape is malformed. A `,X`/`,Y` suffix indexes a
/// two-byte value as absolute and a one-byte value as zero-page. A bare
/// memory reference is absolute or zero-page by width; a bare immediate is
/// `Immediate` whatever its width.
pub open spec fn infer_spec(labels: Map<Seq<char>, u16>, s: Seq<char>) -> Result<
    (Seq<u8>, AddressingMode),
    ParseError,
> {
    if s.len() == 0 {
        Ok((Seq::empty(), AddressingMode::Implied))
    } else if s[0] == '(' {
        if s.len() >= 4 && s[s.len() - 3] == ',' && s[s.len() - 2] == 'X' && s[s.len() - 1]
            == ')' {
            match value_spec(labels, s.subrange(1, s.len() - 3)) {
                Ok(v) => Ok((v.0, AddressingMode::IndirectX)),
                Err(e) => Err(e),
            }
        } else if s.len() >= 4 && s[s.len() - 3] == ')' && s[s.len() - 2] == ',' && s[s.len()
            - 1] == 'Y' {
            match value_spec(labels, s.subrange(1, s.len() - 3)) {
                Ok(v) => Ok((v.0, AddressingMode::IndirectY)),
                Err(e) => Err(e),
            }
        } else if s[s.len() - 1] == ')' {
            match value_spec(labels, s.subrange(1, s.len() - 1)) {
                Ok(v) => Ok((v.0, AddressingMode::Indirect)),
                Err(e) => Err(e),
            }
        } else {
            Err(ParseError::InvalidOperandSyntax)
        }
    } else if s.len() >= 2 && s[s.len() - 2] == ',' && (s[s.len() - 1] == 'X' || s[s.len() - 1]
        == 'Y') {
        let x = s[s.len() - 1] == 'X';
        match value_spec(labels, s.take(s.len() - 2)) {
            Ok(v) => if v.0.len() == 2 {
                Ok((v.0, if x { AddressingMode::AbsoluteX } else { AddressingMode::AbsoluteY }))
            } else {
                Ok((v.0, if x { AddressingMode::ZeroPageX } else { AddressingMode::ZeroPageY }))
            },
            Err(e) => Err(e),
        }
    } else {
        match value_spec(labels, s) {
            Ok(v) => if v.1 {
                if v.0.len() == 2 {
                    Ok((v.0, AddressingMode::Absolute))
                } else {
                    Ok((v.0, AddressingMode::ZeroPage))
                }
            } else {
                Ok((v.0, AddressingMode::Immediate))
            },
            Err(e) => Err(e),
        }
    }
}

/// Inferred operands are at most two bytes.
pub proof fn lemma_infer_spec_len(labels: Map<Seq<char>, u16>, s: Seq<char>)
    ensures
        infer_spec(labels, s) matches Ok(v) ==> v.0.len() <= 2,
{
    lemma_value_spec_len(labels, s.subrange(1, s.len() - 3));
    lemma_value_spec_len(labels, s.subrange(1, s.len() - 1));
    lemma_value_spec_len(labels, s.take(s.len() - 2));
    lemma_value_spec_len(labels, s);
}

/// Infer the addressing mode and operand bytes of a raw operand token.
pub fn infer_mode(labels: &LabelTable, tok: &str) -> (r: Result<
    (Vec<u8>, AddressingMode),
    ParseError,
>)
    ensures
        match r {
            Ok(v) => infer_spec(labels@, tok@) == Ok::<_, ParseError>((v.0@, v.1)),
            Err(e) => infer_spec(labels@, tok@) == Err::<(Seq<u8>, AddressingMode), _>(e),
        },
{
    let n: usize = tok.unicode_len();
    if n == 0 {
        let r: Vec<u8> = Vec::new();
        proof {
            assert(r@ =~= Seq::<u8>::empty());
        }
        return Ok((r, AddressingMode::Implied));
    }
    let c0 = tok.get_char(0);
    if c0 == '(' {
        if n >= 4 && tok.get_char(n - 3) == ',' && tok.get_char(n - 2) == 'X' && tok.get_char(
            n - 1,
        ) == ')' {
            let inner = tok.substring_char(1, n - 3);
            proof {
                assert(inner@ =~= tok@.subrange(1, n - 3));
            }
            match operand_value(labels, inner) {
                Ok(v) => Ok((v.0, AddressingMode::IndirectX)),
                Err(e) => Err(e),
            }
        } else if n >= 4 && tok.get_char(n - 3) == ')' && tok.get_char(n - 2) == ','
            && tok.get_char(n - 1) == 'Y' {
            let inner = tok.substring_char(1, n - 3);
            proof {
                assert(inner@ =~= tok@.subrange(1, n - 3));
            }
            match operand_value(labels, inner) {
                Ok(v) => Ok((v.0, AddressingMode::IndirectY)),
                Err(e) => Err(e),
            }
        } else if tok.get_char(n - 1) == ')' {
            let inner = tok.substring_char(1, n - 1);
            proof {
                assert(inner@ =~= tok@.subrange(1, n - 1));
            }
            match operand_value(labels, inner) {
                Ok(v) => Ok((v.0, AddressingMode::Indirect)),
                Err(e) => Err(e),
            }
        } else {
            Err(ParseError::InvalidOperandSyntax)
        }
    } else if n >= 2 && tok.get_char(n - 2) == ',' && (tok.get_char(n - 1) == 'X'
        || tok.get_char(n - 1) == 'Y') {
        let x = tok.get_char(n - 1) == 'X';
        let rem = tok.substring_char(0, n - 2);
        proof {
            assert(rem@ =~= tok@.take(n - 2));
        }
        match operand_value(labels, rem) {
            Ok(v) => {
                if v.0.len() == 2 {
                    Ok((v.0, if x {
                        AddressingMode::AbsoluteX
                    } else {
                        AddressingMode::AbsoluteY
                    }))
                } else {
                    Ok((v.0, if x {
                        AddressingMode::ZeroPageX
                    } else {
                        AddressingMode::ZeroPageY
                    }))
                }
            },
            Err(e) => Err(e),
        }
    } else {
        match operand_value(labels, tok) {
            Ok(v) => {
                if v.1 {
                    if v.0.len() == 2 {
                        Ok((v.0, AddressingMode::Absolute))
                    } else {
                        Ok((v.0, AddressingMode::ZeroPage))
                    }
                } else {
                    Ok((v.0, AddressingMode::Immediate))
                }
            },
            Err(e) => Err(e),
        }
    }
}

// ---------------------------------------------------------------------------
// Parsing a whole source line
// ---------------------------------------------------------------------------
/// The parse of one source line against a table and the labels bound so
/// far.
///
/// A line is tab-separated: with two or more non-empty fields the first is
/// an address (hexadecimal, at most `FFFF`) or a label declaration and the
/// second holds the statement; with one field the whole line is the
/// statement. The statement's first space-separated token is the mnemonic,
/// the second (if any) the operand; further tokens are ignored. A line
/// without a mnemonic, or whose mnemonic, inferred mode and operand width
/// together match no table row, fails with `UnknownOpcode`: the width the
/// operand parsed at constrains which row can match, so a parsed line
/// always carries exactly the operand bytes its mode implies.
pub open spec fn line_spec(
    table: Seq<OpCode>,
    labels: Map<Seq<char>, u16>,
    line: Seq<char>,
) -> Result<InstructionView, ParseError> {
    let parts = nonempty_parts(split_on(line, '\t'));
    if parts.len() == 0 {
        Err(ParseError::UnknownOpcode)
    } else {
        let addr = if parts.len() > 1 {
            if all_digits(parts[0], 16) && digits_value(parts[0], 16) <= 0xFFFF {
                AddressView::Resolved(digits_value(parts[0], 16) as u16)
            } else {
                AddressView::LabelReference(parts[0])
            }
        } else {
            AddressView::Unresolved
        };
        let stmt = if parts.len() > 1 {
            parts[1]
        } else {
            parts[0]
        };
        let toks = nonempty_parts(split_on(stmt, ' '));
        if toks.len() == 0 {
            Err(ParseError::UnknownOpcode)
        } else {
            let mnemonic = toks[0];
            let operand = if toks.len() > 1 {
                toks[1]
            } else {
                Seq::empty()
            };
            match infer_spec(labels, operand) {
                Err(e) => Err(e),
                Ok(v) => match find_opcode(table, mnemonic, v.1, v.0.len()) {
                    None => Err(ParseError::UnknownOpcode),
                    Some(e) => Ok(
                        InstructionView {
                            mnemonic,
                            mode: v.1,
                            code: e.code,
                            operands: v.0,
                            address: addr,
                        },
                    ),
                },
            }
        }
    }
}

// ---------------------------------------------------------------------------
// Rendering
// ---------------------------------------------------------------------------
/// The address column of a rendered line: four hexadecimal digits for a
/// resolved address, the label's own name for a reference, four spaces for
/// an unassigned address.
pub open spec fn render_address(a: AddressView) -> Seq<char> {
    match a {
        AddressView::Unresolved => seq![' ', ' ', ' ', ' '],
        AddressView::Resolved(v) => hex4(v),
        AddressView::LabelReference(n) => n,
    }
}

/// The operand column of a rendered line, driven by the operand bytes
/// actually present so that a truncated instruction still renders: two
/// bytes print as a four-digit value in the mode's syntax, one byte as a
/// two-digit value (a two-byte mode shortens its value), and no bytes
/// print nothing.
pub open spec fn render_operand(mode: AddressingMode, operands: Seq<u8>) -> Seq<char> {
    if operands.len() == 2 {
        let v = u16_of(operands[0], operands[1]);
        match mode {
            AddressingMode::Absolute => seq!['$'] + hex4(v),
            AddressingMode::AbsoluteX => seq!['$'] + hex4(v) + seq![',', 'X'],
            AddressingMode::AbsoluteY => seq!['$'] + hex4(v) + seq![',', 'Y'],
            AddressingMode::Indirect => seq!['(', '$'] + hex4(v) + seq![')'],
            AddressingMode::Immediate => seq!['#', '$'] + hex4(v),
            _ => Seq::empty(),
        }
    } else if operands.len() == 1 {
        let v = operands[0];
        match mode {
            AddressingMode::Immediate => seq!['#', '$'] + hex2(v),
            AddressingMode::ZeroPage => seq!['$'] + hex2(v),
            AddressingMode::Relative => seq!['$'] + hex2(v),
            AddressingMode::ZeroPageX => seq!['$'] + hex2(v) + seq![',', 'X'],
            AddressingMode::ZeroPageY => seq!['$'] + hex2(v) + seq![',', 'Y'],
            AddressingMode::IndirectX => seq!['(', '$'] + hex2(v) + seq![',', 'X', ')'],
            AddressingMode::IndirectY => seq!['(', '$'] + hex2(v) + seq![')', ',', 'Y'],
            AddressingMode::Absolute => seq!['$'] + hex2(v),
            AddressingMode::AbsoluteX => seq!['$'] + hex2(v) + seq![',', 'X'],
            AddressingMode::AbsoluteY => seq!['$'] + hex2(v) + seq![',', 'Y'],
            AddressingMode::Indirect => seq!['(', '$'] + hex2(v) + seq![')'],
            AddressingMode::Implied => Seq::empty(),
        }
    } else {
        Seq::empty()
    }
}

/// A whole rendered line: address column, a tab, the mnemonic, and the
/// operand column after one space when there is one.
pub open spec fn render_line(i: InstructionView) -> Seq<char> {
    let op = render_operand(i.mode, i.operands);
    render_address(i.address) + seq!['\t'] + i.mnemonic + (if op.len() > 0 {
        seq![' '] + op
    } else {
        Seq::<char>::empty()
    })
}


/// Append the operand column (with its leading space when non-empty).
#[verifier::rlimit(60)]
fn push_operand_text(out: &mut String, mode: AddressingMode, operands: &Vec<u8>)
    ensures
        final(out)@ == old(out)@ + (if render_operand(mode, operands@).len() > 0 {
            seq![' '] + render_operand(mode, operands@)
        } else {
            Seq::<char>::empty()
        }),
{
    if operands.len() == 2 {
        let v = u16_from_le(operands[0], operands[1]);
        match mode {
            AddressingMode::Absolute => {
                push_piece(out, ' ');
                push_piece(out, '$');
                push_hex4(out, v);
            },
            AddressingMode::AbsoluteX => {
                push_piece(out, ' ');
                push_piece(out, '$');
                push_hex4(out, v);
                push_piece(out, ',');
                push_piece(out, 'X');
            },
            AddressingMode::AbsoluteY => {
                push_piece(out, ' ');
                push_piece(out, '$');
                push_hex4(out, v);
                push_piece(out, ',');
                push_piece(out, 'Y');
            },
            AddressingMode::Indirect => {
                push_piece(out, ' ');
                push_piece(out, '(');
                push_piece(out, '$');
                push_hex4(out, v);
                push_piece(out, ')');
            },
            AddressingMode::Immediate => {
                push_piece(out, ' ');
                push_piece(out, '#');
                push_piece(out, '$');
                push_hex4(out, v);
            },
            _ => {},
        }
    } else if operands.len() == 1 {
        let v = operands[0];
        match mode {
            AddressingMode::Immediate => {
                push_piece(out, ' ');
                push_piece(out, '#');
                push_piece(out, '$');
                push_hex2(out, v);
            },
            AddressingMode::ZeroPage | AddressingMode::Relative | AddressingMode::Absolute => {
                push_piece(out, ' ');
                push_piece(out, '$');
                push_hex2(out, v);
            },
            AddressingMode::ZeroPageX | AddressingMode::AbsoluteX => {
                push_piece(out, ' ');
                push_piece(out, '$');
                push_hex2(out, v);
                push_piece(out, ',');
                push_piece(out, 'X');
            },
            AddressingMode::ZeroPageY | AddressingMode::AbsoluteY => {
                push_piece(out, ' ');
                push_piece(out, '$');
                push_hex2(out, v);
                push_piece(out, ',');
                push_piece(out, 'Y');
            },
            AddressingMode::IndirectX => {
                push_piece(out, ' ');
                push_piece(out, '(');
                push_piece(out, '$');
                push_hex2(out, v);
                push_piece(out, ',');
                push_piece(out, 'X');
                push_piece(out, ')');
            },
            AddressingMode::IndirectY => {
                push_piece(out, ' ');
                push_piece(out, '(');
                push_piece(out, '$');
                push_hex2(out, v);
                push_piece(out, ')');
                push_piece(out, ',');
                push_piece(out, 'Y');
            },
            AddressingMode::Indirect => {
                push_piece(out, ' ');
                push_piece(out, '(');
                push_piece(out, '$');
                push_hex2(out, v);
                push_piece(out, ')');
            },
            AddressingMode::Implied => {},
        }
    }
    proof {
        assert(final(out)@ =~= old(out)@ + (if render_operand(mode, operands@).len() > 0 {
        seq![' '] + render_operand(mode, operands@)
    } else {
        Seq::<char>::empty()
    }));
    }
}

/// A parsed line carries at most two operand bytes.
pub proof fn lemma_line_spec_len(table: Seq<OpCode>, labels: Map<Seq<char>, u16>, line: Seq<char>)
    ensures
        line_spec(table, labels, line) matches Ok(iv) ==> iv.operands.len() <= 2,
{
    let parts = nonempty_parts(split_on(line, '\t'));
    if parts.len() > 0 {
        let stmt = if parts.len() > 1 {
            parts[1]
        } else {
            parts[0]
        };
        let toks = nonempty_parts(split_on(stmt, ' '));
        if toks.len() > 0 {
            let operand = if toks.len() > 1 {
                toks[1]
            } else {
                Seq::empty()
            };
            lemma_infer_spec_len(labels, operand);
        }
    }
}

/// The instruction a line parses to is well formed: opcode resolution only
/// accepts a row whose mode implies exactly the operand width the operand
/// parsed at, so the count always matches the mode.
pub proof fn lemma_line_spec_wf(table: Seq<OpCode>, labels: Map<Seq<char>, u16>, line: Seq<char>)
    ensures
        line_spec(table, labels, line) matches Ok(iv) ==> wf_instruction(iv),
{
    if line_spec(table, labels, line) is Ok {
        let iv = line_spec(table, labels, line)->Ok_0;
        lemma_find_opcode_mem(table, iv.mnemonic, iv.mode, iv.operands.len());
    }
}

impl Instruction {
    /// Plain constructor.
    pub fn new(
        mnemonic: String,
        mode: AddressingMode,
        code: u8,
        operands: Vec<u8>,
        address: InstructionAddress,
    ) -> (r: Instruction)
        ensures
            r.mnemonic == mnemonic,
            r.mode == mode,
            r.code == code,
            r.operands == operands,
            r.address == address,
    {
        Instruction { mnemonic, mode, code, operands, address }
    }

    /// Parse one source line against the opcode table and the labels bound
    /// so far, exactly as `line_spec` describes. A parsed instruction is
    /// always well formed: its operand byte count matches its mode's
    /// width.
    pub fn from_source_line(
        table: &OpcodeTable,
        labels: &LabelTable,
        input: &str,
    ) -> (r: Result<Instruction, ParseError>)
        ensures
            match r {
                Ok(ins) => line_spec(table.entries@, labels@, input@) == Ok::<_, ParseError>(
                    ins@,
                ),
                Err(e) => line_spec(table.entries@, labels@, input@) == Err::<
                    InstructionView,
                    _,
                >(e),
            },
            r matches Ok(ins) ==> wf_instruction(ins@),
    {
        proof {
            lemma_line_spec_wf(table.entries@, labels@, input@);
        }
        let parts = retain_nonempty(split_string(input, '\t'));
        if parts.len() == 0 {
            return Err(ParseError::UnknownOpcode);
        }
        proof {
            assert(parts.deep_view()[0] == parts@[0]@);
        }
        let mut address: InstructionAddress = InstructionAddress::Unresolved;
        if parts.len() > 1 {
            proof {
                assert(parts.deep_view()[1] == parts@[1]@);
            }
            let head = &parts[0];
            match parse_radix(head.as_str(), 16) {
                Some(v) => {
                    address = InstructionAddress::Resolved(v);
                },
                None => {
                    address = InstructionAddress::LabelReference(String::from_str(head.as_str()));
                },
            }
        }
        let stmt = if parts.len() > 1 {
            &parts[1]
        } else {
            &parts[0]
        };
        let toks = retain_nonempty(split_string(stmt.as_str(), ' '));
        if toks.len() == 0 {
            return Err(ParseError::UnknownOpcode);
        }
        proof {
            assert(toks.deep_view()[0] == toks@[0]@);
        }
        let mnemonic = String::from_str(toks[0].as_str());
        let inferred = if toks.len() > 1 {
            proof {
                assert(toks.deep_view()[1] == toks@[1]@);
            }
            infer_mode(labels, toks[1].as_str())
        } else {
            proof {
                reveal_strlit("");
                assert(""@ =~= Seq::<char>::empty());
            }
            infer_mode(labels, "")
        };
        match inferred {
            Err(e) => Err(e),
            Ok(v) => {
                match table.resolve(mnemonic.as_str(), v.1, v.0.len()) {
                    None => Err(ParseError::UnknownOpcode),
                    Some(e) => Ok(Instruction {
                        mnemonic,
                        mode: v.1,
                        code: e.code,
                        operands: v.0,
                        address,
                    }),
                }
            },
        }
    }

    /// The serialized form of the instruction: opcode byte, then operand
    /// bytes.
    pub fn to_bytes(&self) -> (r: Vec<u8>)
        ensures
            r@ == seq![self.code] + self.operands@,
    {
        let mut r: Vec<u8> = Vec::new();
        r.push(self.code);
        let mut i: usize = 0;
        while i < self.operands.len()
            invariant
                i <= self.operands@.len(),
                r@ == seq![self.code] + self.operands@.take(i as int),
            decreases self.operands@.len() - i,
        {
            r.push(self.operands[i]);
            proof {
                assert(seq![self.code] + self.operands@.take(i + 1) =~= (seq![self.code]
                    + self.operands@.take(i as int)).push(self.operands@[i as int]));
            }
            i += 1;
        }
        proof {
            assert(self.operands@.take(self.operands@.len() as int) =~= self.operands@);
        }
        r
    }

    /// The line of text this instruction prints as: `render_line` of its
    /// view.
    pub fn render(&self) -> (r: String)
        ensures
            r@ == render_line(self@),
    {
        let mut out = String::new();
        match &self.address {
            InstructionAddress::Unresolved => {
                proof {
                    reveal_strlit("    ");
                }
                out.append("    ");
                proof {
                    assert(out@ =~= render_address(self@.address));
                }
            },
            InstructionAddress::Resolved(v) => {
                push_hex4(&mut out, *v);
            },
            InstructionAddress::LabelReference(n) => {
                out.append(n.as_str());
            },
        }
        push_piece(&mut out, '\t');
        out.append(self.mnemonic.as_str());
        let ghost head = render_address(self@.address) + seq!['\t'] + self@.mnemonic;
        proof {
            assert(out@ =~= head);
        }
        push_operand_text(&mut out, self.mode, &self.operands);
        proof {
            assert(out@ =~= render_line(self@));
        }
        out
    }

    /// The instruction's serialized form: its address together with its
    /// bytes, opcode byte first, two-byte operand values little-endian.
    pub fn serialize(self) -> (r: (InstructionAddress, Vec<u8>))
        ensures
            r.0 == self.address,
            r.1@ == seq![self.code] + self.operands@,
    {
        let bytes = self.to_bytes();
        (self.address, bytes)
    }

    /// An equal-valued copy.
    pub fn duplicate(&self) -> (r: Instruction)
        ensures
            r@ == self@,
    {
        let mut ops: Vec<u8> = Vec::new();
        let mut i: usize = 0;
        while i < self.operands.len()
            invariant
                i <= self.operands@.len(),
                ops@ == self.operands@.take(i as int),
            decreases self.operands@.len() - i,
        {
            ops.push(self.operands[i]);
            proof {
                assert(self.operands@.take(i + 1) =~= self.operands@.take(i as int).push(
                    self.operands@[i as int],
                ));
            }
            i += 1;
        }
        proof {
            assert(ops@ =~= self.operands@);
        }
        let address = match &self.address {
            InstructionAddress::Unresolved => InstructionAddress::Unresolved,
            InstructionAddress::Resolved(a) => InstructionAddress::Resolved(*a),
            InstructionAddress::LabelReference(n) => InstructionAddress::LabelReference(
                String::from_str(n.as_str()),
            ),
        };
        Instruction {
            mnemonic: String::from_str(self.mnemonic.as_str()),
            mode: self.mode,
            code: self.code,
            operands: ops,
            address,
        }
    }
}

} // verus!
