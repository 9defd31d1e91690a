//! The driver: label binding, program-counter bookkeeping, whole-program
//! byte output, and error reporting.
use asm_6502::Asm6502;
use asm_6502::InstructionAddress;
use asm_6502::CompileError;
use asm_6502::ParseError;
use asm_6502::assemble;

#[test]
fn end_to_end_example() {
    let bytes = assemble("LDA #%0101\nSTA ($15,X)\nTAX".to_string(), 0x8000)
        .expect("the example program assembles");
    assert_eq!(bytes, vec![0xA9, 0x05, 0x81, 0x15, 0xAA]);
}

#[test]
fn forward_label_reference_fails() {
    let mut unit = Asm6502::new("JMP skip\nskip\tTAX".to_string(), 0x8000);
    let err = unit.compile().expect_err("skip is not bound yet on line 1");
    assert_eq!(err.line, 1);
    assert_eq!(err.kind, ParseError::UnknownLabel);
}

#[test]
fn backward_label_reference_resolves_to_recorded_address() {
    let mut unit = Asm6502::new("TAX\nhere\tTAY\nJMP here".to_string(), 0x8000);
    let instructions = unit.compile().expect("here is bound on line 2");
    // `here` was bound while the program counter stood at 0x8001
    assert_eq!(instructions[2].operands, vec![0x01, 0x80]);
    assert_eq!(instructions[2].code, 0x4C);
}

#[test]
fn label_rebinding_shadows_the_earlier_address() {
    let mut unit = Asm6502::new("mark\tTAX\nmark\tTAY\nLDX mark".to_string(), 0x8000);
    let instructions = unit.compile().expect("mark is bound twice, last wins");
    assert_eq!(instructions[2].operands, vec![0x01, 0x80]);
}

#[test]
fn program_counter_advances_by_instruction_size() {
    let mut unit = Asm6502::new("TAX\nLDA #$01\nSTA $0200".to_string(), 0x8000);
    let instructions = unit.compile().expect("three plain lines");
    let addresses: Vec<InstructionAddress> =
        instructions.iter().map(|i| i.address.clone()).collect();
    match addresses.as_slice() {
        [InstructionAddress::Resolved(a), InstructionAddress::Resolved(b), InstructionAddress::Resolved(c)] =>
        {
            assert_eq!(*a, 0x8000);
            assert_eq!(*b, 0x8001); // TAX is one byte
            assert_eq!(*c, 0x8003); // LDA #$01 is two bytes
        }
        other => panic!("unexpected addresses: {:?}", other),
    }
}

#[test]
fn explicit_address_on_the_first_line_overrides_the_origin() {
    let mut unit = Asm6502::new("C000\tTAX\nTAY".to_string(), 0x8000);
    let instructions = unit.compile().expect("explicit first address");
    match (&instructions[0].address, &instructions[1].address) {
        (InstructionAddress::Resolved(a), InstructionAddress::Resolved(b)) => {
            assert_eq!(*a, 0xC000);
            assert_eq!(*b, 0xC001);
        }
        other => panic!("unexpected addresses: {:?}", other),
    }
}

#[test]
fn label_line_takes_the_current_address() {
    let mut unit = Asm6502::new("TAX\nloop\tDEX".to_string(), 0x8000);
    let instructions = unit.compile().expect("label line");
    match &instructions[1].address {
        InstructionAddress::Resolved(a) => assert_eq!(*a, 0x8001),
        other => panic!("unexpected address: {:?}", other),
    }
}

#[test]
fn first_error_aborts_with_its_line_number() {
    let err = assemble("TAX\nLDA $GG\nTAY".to_string(), 0x8000)
        .expect_err("line 2 holds a malformed literal");
    assert_eq!(err.line, 2);
    assert_eq!(err.kind, ParseError::InvalidNumeric);
    assert_eq!(
        err.describe(),
        "compile error on line 2: invalid numeric literal"
    );
}

#[test]
fn error_descriptions_name_each_kind() {
    assert_eq!(
        CompileError::new(12, ParseError::UnknownLabel).describe(),
        "compile error on line 12: unknown label"
    );
    assert_eq!(
        CompileError::new(3, ParseError::UnknownOpcode).describe(),
        "compile error on line 3: unknown opcode"
    );
    assert_eq!(
        CompileError::new(100, ParseError::InvalidOperandSyntax).describe(),
        "compile error on line 100: invalid operand syntax"
    );
}

#[test]
fn empty_line_is_rejected_as_unknown_opcode() {
    let err = assemble("TAX\n\nTAY".to_string(), 0x8000).expect_err("blank line in the middle");
    assert_eq!(err.line, 2);
    assert_eq!(err.kind, ParseError::UnknownOpcode);
}

#[test]
fn serialization_is_opcode_then_operands() {
    let mut unit = Asm6502::new("LDA $C001".to_string(), 0x8000);
    let mut instructions = unit.compile().expect("one absolute load");
    assert_eq!(instructions[0].to_bytes(), vec![0xAD, 0x01, 0xC0]);
    let (address, bytes) = instructions.remove(0).serialize();
    assert!(matches!(address, InstructionAddress::Resolved(0x8000)));
    assert_eq!(bytes, vec![0xAD, 0x01, 0xC0]);
}
