//! The end-to-end exercise over a mixed program, and the full
//! assemble/disassemble pipeline on programs whose labels resolve.
use asm_6502::Asm6502;
use asm_6502::ParseError;

#[test]
fn general_parse() {
    let mut unit = Asm6502::new(
        "LDA #%0101\nSTA ($15,X)\nEOR ($2A),Y\nTAX\nJMP (label_a)\nADC $C001,X\nINC $F001,X\nLDA $01,X\nLDA ($01),Y\nBPL $2D\nLDY $02\nLDX label_a".to_string(),
        0x8000,
    );
    match unit.compile() {
        Ok(instructions) => {
            let mut bytes: Vec<u8> = vec![];
            for instruction in &instructions {
                let mut buffer = instruction.to_bytes();
                bytes.append(&mut buffer);
                println!("{}", instruction.render());
            }
            let decomp = Asm6502::decompile(bytes.clone(), 0x8000);
            println!("Bytecode: {:?}\n", bytes);
            println!("Decompiled:\n");
            for line in decomp {
                println!("{}", line);
            }
            panic!("no line defines label_a, so compilation must not succeed");
        }
        Err(err) => {
            // `label_a` is referenced but never defined: the one-pass
            // assembler must reject the first line that names it.
            assert_eq!(err.line, 5);
            assert_eq!(err.kind, ParseError::UnknownLabel);
        }
    }
}

#[test]
fn general_parse_with_defined_label() {
    let mut unit = Asm6502::new(
        "label_a\tNOP\nLDA #%0101\nSTA ($15,X)\nEOR ($2A),Y\nTAX\nJMP (label_a)\nADC $C001,X\nLDX label_a".to_string(),
        0x8000,
    );
    let instructions = unit.compile().expect("every label is defined before use");
    assert_eq!(instructions.len(), 8);
    let mut bytes: Vec<u8> = vec![];
    for instruction in &instructions {
        bytes.append(&mut instruction.to_bytes());
    }
    assert_eq!(
        bytes,
        vec![
            0xEA, // NOP
            0xA9, 0x05, // LDA #$05
            0x81, 0x15, // STA ($15,X)
            0x51, 0x2A, // EOR ($2A),Y
            0xAA, // TAX
            0x6C, 0x00, 0x80, // JMP (label_a)
            0x7D, 0x01, 0xC0, // ADC $C001,X
            0xAE, 0x00, 0x80, // LDX label_a
        ]
    );
    let decomp = Asm6502::decompile(bytes, 0x8000);
    assert_eq!(decomp.len(), 8);
    assert_eq!(decomp[0], "8000\tNOP");
    assert_eq!(decomp[5], "8008\tJMP ($8000)");
}

#[test]
fn compile_keeps_instructions_on_the_run() {
    let mut unit = Asm6502::new("TAX\nTAY".to_string(), 0x1000);
    let returned = unit.compile().expect("both lines are plain mnemonics");
    assert_eq!(returned.len(), 2);
    assert_eq!(unit.instructions.len(), 2);
    assert_eq!(unit.instructions[0].code, 0xAA);
    assert_eq!(unit.instructions[1].code, 0xA8);
}

#[test]
fn compile_failure_keeps_the_run_untouched() {
    let mut unit = Asm6502::new("TAX\nXYZ".to_string(), 0x1000);
    let err = unit.compile().expect_err("XYZ is no 6502 mnemonic");
    assert_eq!(err.line, 2);
    assert_eq!(err.kind, ParseError::UnknownOpcode);
    assert_eq!(unit.instructions.len(), 0);
}

#[test]
fn crlf_input_is_normalised() {
    let mut unit = Asm6502::new("TAX\r\nTAY\r\n".to_string(), 0x1000);
    assert_eq!(unit.input, "TAX\nTAY");
    let instructions = unit.compile().expect("CRLF endings are normalised to LF");
    assert_eq!(instructions.len(), 2);
}

#[test]
fn surrounding_whitespace_is_trimmed() {
    let unit = Asm6502::new("  \nTAX\n  ".to_string(), 0x1000);
    assert_eq!(unit.input, "TAX");
}
