//! Error values reported when assembly of a source text fails.
use vstd::prelude::*;
use vstd::string::StringExecFns;
use crate::text::dec_digits;
use crate::text::dec_string;

verus! {

/// The reason a single source line could not be assembled.
#[derive(Clone, Copy, Debug, PartialEq, Eq, Structural)]
pub enum ParseError {
    /// A numeric literal does not parse under its radix, or its value does
    /// not fit the width implied by its digit count.
    InvalidNumeric,
    /// An operand names a label that no earlier line has defined.
    UnknownLabel,
    /// No opcode table entry matches the mnemonic together with the
    /// addressing mode inferred from the operand.
    UnknownOpcode,
    /// An indirect or indexed operand token has a malformed shape.
    InvalidOperandSyntax,
}

/// A failed compilation: the 1-based number of the offending line and the
/// kind of failure. Assembly aborts at the first error; no partial output.
#[derive(Clone, Copy, Debug, PartialEq, Eq, Structural)]
pub struct CompileError {
    pub line: usize,
    pub kind: ParseError,
}

/// The message text of an error kind.
pub open spec fn kind_text(k: ParseError) -> Seq<char> {
    match k {
        ParseError::InvalidNumeric => "invalid numeric literal"@,
        ParseError::UnknownLabel => "unknown label"@,
        ParseError::UnknownOpcode => "unknown opcode"@,
        ParseError::InvalidOperandSyntax => "invalid operand syntax"@,
    }
}

impl ParseError {
    /// The message this kind of failure prints.
    pub fn message(&self) -> (r: &'static str)
        ensures
            r@ == kind_text(*self),
    {
        match self {
            ParseError::InvalidNumeric => "invalid numeric literal",
            ParseError::UnknownLabel => "unknown label",
            ParseError::UnknownOpcode => "unknown opcode",
            ParseError::InvalidOperandSyntax => "invalid operand syntax",
        }
    }
}

impl CompileError {
    pub fn new(line: usize, kind: ParseError) -> (e: CompileError)
        ensures
            e.line == line,
            e.kind == kind,
    {
        CompileError { line, kind }
    }

    /// The full report: which line failed and why.
    pub fn describe(&self) -> (r: String)
        ensures
            r@ == "compile error on line "@ + dec_digits(self.line as nat) + ": "@ + kind_text(
                self.kind,
            ),
    {
        let mut out = String::from_str("compile error on line ");
        let num = dec_string(self.line);
        out.append(num.as_str());
        out.append(": ");
        out.append(self.kind.message());
        out
    }
}

} // verus!
