//! A small 6502 assembler and disassembler.
//!
//! Source text is assembled line by line into `Instruction` records whose
//! addressing mode is inferred from the operand's syntax, with label
//! bindings resolved in a single pass; a byte stream is disassembled back
//! into instruction text through the same opcode table.

pub mod driver;
pub mod error;
pub mod instruction;
pub mod labels;
pub mod laws;
pub mod ops;
pub mod text;

pub use driver::Asm6502;
pub use driver::assemble;
pub use error::CompileError;
pub use error::ParseError;
pub use instruction::Instruction;
pub use instruction::InstructionAddress;
