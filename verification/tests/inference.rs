//! Addressing-mode inference from operand syntax alone.
use asm_6502::Instruction;
use asm_6502::ParseError;
use asm_6502::instruction::infer_mode;
use asm_6502::labels::LabelTable;
use asm_6502::ops::AddressingMode;
use asm_6502::ops::OpcodeTable;

fn parse_line(labels: &LabelTable, line: &str) -> Instruction {
    let table = OpcodeTable::new();
    Instruction::from_source_line(&table, labels, line).expect("line must parse")
}

#[test]
fn width_inference_zero_page() {
    let ins = parse_line(&LabelTable::new(), "LDA $2A");
    assert_eq!(ins.mode, AddressingMode::ZeroPage);
    assert_eq!(ins.operands, vec![0x2A]);
    assert_eq!(ins.code, 0xA5);
}

#[test]
fn width_inference_absolute() {
    let ins = parse_line(&LabelTable::new(), "LDA $C001");
    assert_eq!(ins.mode, AddressingMode::Absolute);
    assert_eq!(ins.operands, vec![0x01, 0xC0]);
    assert_eq!(ins.code, 0xAD);
}

#[test]
fn width_inference_immediate_one_byte() {
    let ins = parse_line(&LabelTable::new(), "LDA #$2A");
    assert_eq!(ins.mode, AddressingMode::Immediate);
    assert_eq!(ins.operands, vec![0x2A]);
    assert_eq!(ins.code, 0xA9);
}

#[test]
fn width_inference_immediate_two_bytes() {
    // a 4-hex-digit immediate still infers as a two-byte Immediate ...
    let (bytes, mode) =
        infer_mode(&LabelTable::new(), "#$C001").expect("the literal itself is well formed");
    assert_eq!(mode, AddressingMode::Immediate);
    assert_eq!(bytes, vec![0x01, 0xC0]);
    // ... but that width constrains the table match: the 6502 has no
    // two-byte immediate load, so the line as a whole is rejected
    let table = OpcodeTable::new();
    let err = Instruction::from_source_line(&table, &LabelTable::new(), "LDA #$C001")
        .expect_err("no row takes a two-byte immediate");
    assert_eq!(err, ParseError::UnknownOpcode);
}

#[test]
fn indexed_inference_zero_page_x() {
    let ins = parse_line(&LabelTable::new(), "LDA $2A,X");
    assert_eq!(ins.mode, AddressingMode::ZeroPageX);
    assert_eq!(ins.operands, vec![0x2A]);
    assert_eq!(ins.code, 0xB5);
}

#[test]
fn indexed_inference_absolute_x() {
    let ins = parse_line(&LabelTable::new(), "ADC $C001,X");
    assert_eq!(ins.mode, AddressingMode::AbsoluteX);
    assert_eq!(ins.operands, vec![0x01, 0xC0]);
    assert_eq!(ins.code, 0x7D);
}

#[test]
fn indexed_inference_zero_page_y() {
    let ins = parse_line(&LabelTable::new(), "LDX $2A,Y");
    assert_eq!(ins.mode, AddressingMode::ZeroPageY);
    assert_eq!(ins.operands, vec![0x2A]);
    assert_eq!(ins.code, 0xB6);
}

#[test]
fn indirect_x_inference() {
    let ins = parse_line(&LabelTable::new(), "STA ($15,X)");
    assert_eq!(ins.mode, AddressingMode::IndirectX);
    assert_eq!(ins.operands, vec![0x15]);
    assert_eq!(ins.code, 0x81);
}

#[test]
fn indirect_y_inference() {
    let ins = parse_line(&LabelTable::new(), "EOR ($2A),Y");
    assert_eq!(ins.mode, AddressingMode::IndirectY);
    assert_eq!(ins.operands, vec![0x2A]);
    assert_eq!(ins.code, 0x51);
}

#[test]
fn indirect_inference_through_label() {
    let mut labels = LabelTable::new();
    labels.insert("target".to_string(), 0x1234);
    let ins = parse_line(&labels, "JMP (target)");
    assert_eq!(ins.mode, AddressingMode::Indirect);
    assert_eq!(ins.operands, vec![0x34, 0x12]);
    assert_eq!(ins.code, 0x6C);
}

#[test]
fn implied_inference() {
    let ins = parse_line(&LabelTable::new(), "TAX");
    assert_eq!(ins.mode, AddressingMode::Implied);
    assert_eq!(ins.operands, Vec::<u8>::new());
    assert_eq!(ins.code, 0xAA);
}

#[test]
fn branch_accepts_zero_page_shaped_operand() {
    let ins = parse_line(&LabelTable::new(), "BPL $2D");
    // syntactically zero-page; the table row is Relative and accepts it
    assert_eq!(ins.mode, AddressingMode::ZeroPage);
    assert_eq!(ins.operands, vec![0x2D]);
    assert_eq!(ins.code, 0x10);
}

#[test]
fn binary_literal_up_to_eight_digits_is_one_byte() {
    let ins = parse_line(&LabelTable::new(), "LDA #%0101");
    assert_eq!(ins.operands, vec![0x05]);
    let wide = parse_line(&LabelTable::new(), "LDA #%10000000");
    assert_eq!(wide.operands, vec![0x80]);
}

#[test]
fn binary_literal_past_eight_digits_is_two_bytes() {
    let (bytes, mode) =
        infer_mode(&LabelTable::new(), "#%100000000").expect("nine digits parse");
    assert_eq!(mode, AddressingMode::Immediate);
    assert_eq!(bytes, vec![0x00, 0x01]);
}

#[test]
fn hex_immediate_width_follows_digit_count() {
    // exactly two hexadecimal digits make one byte; any other count two
    let (one, _) = infer_mode(&LabelTable::new(), "#$1").expect("one digit parses");
    assert_eq!(one, vec![0x01, 0x00]);
    let (three, _) = infer_mode(&LabelTable::new(), "#$012").expect("three digits parse");
    assert_eq!(three, vec![0x12, 0x00]);
}

#[test]
fn decimal_literal_widths() {
    let small = parse_line(&LabelTable::new(), "LDA #65");
    assert_eq!(small.operands, vec![0x41]);
    let (wide, _) = infer_mode(&LabelTable::new(), "#300").expect("wide decimals parse");
    assert_eq!(wide, vec![0x2C, 0x01]);
}

#[test]
fn malformed_hex_literal_is_invalid_numeric() {
    let table = OpcodeTable::new();
    let labels = LabelTable::new();
    let err = Instruction::from_source_line(&table, &labels, "LDA $GG").expect_err("GG is no hex");
    assert_eq!(err, ParseError::InvalidNumeric);
}

#[test]
fn unclosed_indirect_operand_is_invalid_syntax() {
    let table = OpcodeTable::new();
    let labels = LabelTable::new();
    let err = Instruction::from_source_line(&table, &labels, "LDA ($15").expect_err("no closing paren");
    assert_eq!(err, ParseError::InvalidOperandSyntax);
}

#[test]
fn unknown_mnemonic_is_unknown_opcode() {
    let table = OpcodeTable::new();
    let labels = LabelTable::new();
    let err = Instruction::from_source_line(&table, &labels, "XYZ").expect_err("XYZ is no mnemonic");
    assert_eq!(err, ParseError::UnknownOpcode);
}

#[test]
fn wide_operand_with_one_byte_mode_is_unknown_opcode() {
    let table = OpcodeTable::new();
    let labels = LabelTable::new();
    // the pre-indexed form takes a one-byte address; a two-byte value
    // matches no row
    let err = Instruction::from_source_line(&table, &labels, "STA ($C001,X)")
        .expect_err("no two-byte pre-indexed row exists");
    assert_eq!(err, ParseError::UnknownOpcode);
}

#[test]
fn mode_without_table_row_is_unknown_opcode() {
    let table = OpcodeTable::new();
    let labels = LabelTable::new();
    // TAX takes no operand, so an Immediate operand matches no row
    let err = Instruction::from_source_line(&table, &labels, "TAX #$01").expect_err("TAX is implied only");
    assert_eq!(err, ParseError::UnknownOpcode);
}

#[test]
fn canonical_table_has_distinct_opcode_bytes() {
    // the premise under which decoding always finds the encoded row again
    assert!(OpcodeTable::new().codes_distinct());
}

#[test]
fn mnemonic_lookup_lists_all_rows_of_a_mnemonic() {
    let table = OpcodeTable::new();
    let rows = table.lookup_by_mnemonic("LDA");
    assert_eq!(rows.len(), 8);
    assert!(rows.iter().any(|r| r.code == 0xA9 && r.mode == AddressingMode::Immediate));
    assert!(rows.iter().any(|r| r.code == 0xB1 && r.mode == AddressingMode::IndirectY));
    assert_eq!(table.lookup_by_mnemonic("XYZ").len(), 0);
}

#[test]
fn opcode_table_lookups() {
    let table = OpcodeTable::new();
    let row = table.lookup_by_opcode(0xA9).expect("0xA9 encodes LDA immediate");
    assert_eq!(row.mode, AddressingMode::Immediate);
    assert_eq!((row.m0, row.m1, row.m2), ('L', 'D', 'A'));
    assert!(table.lookup_by_opcode(0xFF).is_none());
    let hit = table
        .resolve("STA", AddressingMode::IndirectX, 1)
        .expect("STA has an (zp,X) form");
    assert_eq!(hit.code, 0x81);
    assert!(table.resolve("STA", AddressingMode::Immediate, 1).is_none());
    // the width constrains the match: no STA row takes a two-byte zero page
    assert!(table.resolve("STA", AddressingMode::ZeroPage, 2).is_none());
}
