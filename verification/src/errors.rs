//! Errors an assembly run can end with.  Any error aborts the whole run and
//! no output bytes are produced.

use vstd::prelude::*;

verus! {

/// Why an assembly run failed.  Line numbers are zero-based indexes into the
/// sequence of source lines.
#[derive(Clone, PartialEq, Eq, Debug)]
pub enum AsmError {
    /// An instruction line whose mnemonic is not in the opcode table.
    UnknownOpcode { mnemonic: Vec<u8> },
    /// A string-literal operand with a missing opening or closing quote.
    UnterminatedStringLiteral { line: usize },
    /// A label-reference mnemonic with no operand token after it.
    MissingOperand { mnemonic: Vec<u8>, line: usize },
    /// A line with no characters, or one holding only whitespace.
    EmptyLine { line: usize },
    /// A label reference whose name no line of the program defines.
    UndefinedLabel { name: Vec<u8> },
    /// A label definition whose name an earlier line already defined.
    DuplicateLabel { name: Vec<u8> },
}

/// The mathematical form of an `AsmError`: names as byte sequences, line
/// numbers as unbounded integers.
pub enum SpecErr {
    UnknownOpcode(Seq<u8>),
    UnterminatedStringLiteral(int),
    MissingOperand(Seq<u8>, int),
    EmptyLine(int),
    UndefinedLabel(Seq<u8>),
    DuplicateLabel(Seq<u8>),
}

impl View for AsmError {
    type V = SpecErr;

    open spec fn view(&self) -> SpecErr {
        match self {
            AsmError::UnknownOpcode { mnemonic } => SpecErr::UnknownOpcode(mnemonic@),
            AsmError::UnterminatedStringLiteral { line } => SpecErr::UnterminatedStringLiteral(
                *line as int,
            ),
            AsmError::MissingOperand { mnemonic, line } => SpecErr::MissingOperand(
                mnemonic@,
                *line as int,
            ),
            AsmError::EmptyLine { line } => SpecErr::EmptyLine(*line as int),
            AsmError::UndefinedLabel { name } => SpecErr::UndefinedLabel(name@),
            AsmError::DuplicateLabel { name } => SpecErr::DuplicateLabel(name@),
        }
    }
}

} // verus!
