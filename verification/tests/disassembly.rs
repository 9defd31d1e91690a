//! The disassembler: address tagging, unknown-byte recovery, truncation,
//! and the textual round trip with the assembler.
use asm_6502::Asm6502;
use asm_6502::Instruction;
use asm_6502::InstructionAddress;
use asm_6502::assemble;
use asm_6502::ops::AddressingMode;

#[test]
fn disassembles_the_example_with_sequential_addresses() {
    let lines = Asm6502::decompile(vec![0xA9, 0x05, 0x81, 0x15, 0xAA], 0x8000);
    assert_eq!(lines.len(), 3);
    assert_eq!(lines[0], "8000\tLDA #$05");
    assert_eq!(lines[1], "8002\tSTA ($15,X)");
    assert_eq!(lines[2], "8004\tTAX");
}

#[test]
fn unknown_opcode_byte_is_skipped() {
    // 0xFF encodes no 6502 instruction: scanning resumes at the next byte
    let lines = Asm6502::decompile(vec![0xFF, 0xAA], 0x8000);
    assert_eq!(lines.len(), 1);
    assert_eq!(lines[0], "8001\tTAX");
}

#[test]
fn truncated_final_instruction_keeps_remaining_bytes() {
    // 0xAD wants two operand bytes; only one remains
    let lines = Asm6502::decompile(vec![0xAA, 0xAD, 0x01], 0x8000);
    assert_eq!(lines.len(), 2);
    assert_eq!(lines[0], "8000\tTAX");
    assert_eq!(lines[1], "8001\tLDA $01");
}

#[test]
fn empty_stream_disassembles_to_nothing() {
    let lines = Asm6502::decompile(vec![], 0x8000);
    assert_eq!(lines.len(), 0);
}

#[test]
fn all_mode_renderings() {
    let lines = Asm6502::decompile(
        vec![
            0xA9, 0x2A, // LDA #$2A
            0xA5, 0x2A, // LDA $2A
            0xB5, 0x2A, // LDA $2A,X
            0xB6, 0x2A, // LDX $2A,Y
            0xAD, 0x01, 0xC0, // LDA $C001
            0xBD, 0x01, 0xC0, // LDA $C001,X
            0xB9, 0x01, 0xC0, // LDA $C001,Y
            0x6C, 0x34, 0x12, // JMP ($1234)
            0xA1, 0x15, // LDA ($15,X)
            0xB1, 0x15, // LDA ($15),Y
            0x10, 0x2D, // BPL $2D
            0xAA, // TAX
        ],
        0x0000,
    );
    assert_eq!(
        lines,
        vec![
            "0000\tLDA #$2A",
            "0002\tLDA $2A",
            "0004\tLDA $2A,X",
            "0006\tLDX $2A,Y",
            "0008\tLDA $C001",
            "000B\tLDA $C001,X",
            "000E\tLDA $C001,Y",
            "0011\tJMP ($1234)",
            "0014\tLDA ($15,X)",
            "0016\tLDA ($15),Y",
            "0018\tBPL $2D",
            "001A\tTAX",
        ]
    );
}

#[test]
fn round_trip_reproduces_the_rendered_lines() {
    // a program without labels: disassembling its bytes must reproduce
    // the very lines the compiled instructions render as
    let source = "LDA #$05\nSTA ($15,X)\nADC $C001,X\nBPL $2D\nTAX";
    let mut unit = Asm6502::new(source.to_string(), 0x8000);
    let instructions = unit.compile().expect("label-free program");
    let rendered: Vec<String> = instructions.iter().map(|i| i.render()).collect();
    let bytes = assemble(source.to_string(), 0x8000).expect("same program");
    let decompiled = Asm6502::decompile(bytes, 0x8000);
    assert_eq!(decompiled, rendered);
}

#[test]
fn round_trip_renders_label_operands_as_absolute_addresses() {
    let source = "spot\tTAX\nJMP spot";
    let mut unit = Asm6502::new(source.to_string(), 0x8000);
    let instructions = unit.compile().expect("backward reference");
    let mut bytes: Vec<u8> = vec![];
    for instruction in &instructions {
        bytes.append(&mut instruction.to_bytes());
    }
    let decompiled = Asm6502::decompile(bytes, 0x8000);
    // the label name is gone; its resolved address remains
    assert_eq!(decompiled, vec!["8000\tTAX", "8001\tJMP $8000"]);
}

#[test]
fn rendering_shows_unresolved_and_label_addresses() {
    let bare = Instruction::new(
        "TAX".to_string(),
        AddressingMode::Implied,
        0xAA,
        vec![],
        InstructionAddress::Unresolved,
    );
    assert_eq!(bare.render(), "    \tTAX");
    let named = Instruction::new(
        "TAY".to_string(),
        AddressingMode::Implied,
        0xA8,
        vec![],
        InstructionAddress::LabelReference("begin".to_string()),
    );
    assert_eq!(named.render(), "begin\tTAY");
}
