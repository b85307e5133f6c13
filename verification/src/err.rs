//! Error taxonomy and section state shared by the assembler's passes.
use vstd::prelude::*;

verus! {

/// Which section the cursor is in while walking the cleaned lines.
#[derive(Clone, Copy, PartialEq, Eq, Structural, Debug)]
pub enum Section {
    Global,
    Text,
    Data,
}

/// A fatal assembly error. `line` is the 1-based source line of the offence.
#[derive(Clone, Copy, PartialEq, Eq, Structural, Debug)]
pub enum AsmError {
    /// A label defined before any `.text`/`.data` directive.
    LabelOutsideSection { line: usize },
    /// A label name already present in either symbol table.
    DuplicateLabel { line: usize },
    /// A data label followed by a directive other than `.word`/`.space`, or by none.
    UnsupportedDirective { line: usize },
    /// A data-section line that does not start with a label definition.
    DataLineWithoutLabel { line: usize },
    /// No `main` label was defined.
    MainMissing,
    /// `main` does not name instruction-word index 0.
    MainNotAtZero,
    /// A text-section line that starts with no recognised mnemonic.
    UnknownMnemonic { line: usize },
    /// An operand that names no known label.
    UnknownLabel { line: usize },
    /// An operand that does not fit the instruction's format.
    BadOperand { line: usize },
    /// More than 256 instruction words.
    TooManyInstructions { line: usize },
    /// More than 256 data words.
    TooManyData { line: usize },
}

impl AsmError {
    /// A short description of the error kind, for diagnostics.
    pub fn describe(&self) -> (r: &'static str) {
        match self {
            AsmError::LabelOutsideSection { .. } => "label defined outside any section",
            AsmError::DuplicateLabel { .. } => "label defined twice",
            AsmError::UnsupportedDirective { .. } => "unsupported data directive; only .word and .space are implemented",
            AsmError::DataLineWithoutLabel { .. } => "data must be inline with its label",
            AsmError::MainMissing => "no main label",
            AsmError::MainNotAtZero => "the main label must come before any instruction",
            AsmError::UnknownMnemonic { .. } => "unknown instruction mnemonic",
            AsmError::UnknownLabel { .. } => "label does not exist",
            AsmError::BadOperand { .. } => "operand does not fit the instruction",
            AsmError::TooManyInstructions { .. } => "too many instructions; at most 256 fit",
            AsmError::TooManyData { .. } => "too much data; at most 256 words fit",
        }
    }

    /// The 1-based source line the error points at, if it points at one.
    pub fn line(&self) -> (r: Option<usize>)
        ensures
            match *self {
                AsmError::MainMissing => r == Option::<usize>::None,
                AsmError::MainNotAtZero => r == Option::<usize>::None,
                AsmError::LabelOutsideSection { line } => r == Some(line),
                AsmError::DuplicateLabel { line } => r == Some(line),
                AsmError::UnsupportedDirective { line } => r == Some(line),
                AsmError::DataLineWithoutLabel { line } => r == Some(line),
                AsmError::UnknownMnemonic { line } => r == Some(line),
                AsmError::UnknownLabel { line } => r == Some(line),
                AsmError::BadOperand { line } => r == Some(line),
                AsmError::TooManyInstructions { line } => r == Some(line),
                AsmError::TooManyData { line } => r == Some(line),
            },
    {
        match *self {
            AsmError::MainMissing => None,
            AsmError::MainNotAtZero => None,
            AsmError::LabelOutsideSection { line } => Some(line),
            AsmError::DuplicateLabel { line } => Some(line),
            AsmError::UnsupportedDirective { line } => Some(line),
            AsmError::DataLineWithoutLabel { line } => Some(line),
            AsmError::UnknownMnemonic { line } => Some(line),
            AsmError::UnknownLabel { line } => Some(line),
            AsmError::BadOperand { line } => Some(line),
            AsmError::TooManyInstructions { line } => Some(line),
            AsmError::TooManyData { line } => Some(line),
        }
    }
}

} // verus!
