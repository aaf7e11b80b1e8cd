use vstd::prelude::*;

verus! {

/// A value on the operand stack. Only numbers exist today; the variant type
/// leaves room for further kinds of value.
#[derive(Clone, Copy, Debug, PartialEq, Eq, Structural)]
pub enum StackVal {
    Number(i32),
}

impl StackVal {
    /// The number this value carries.
    pub open spec fn num(self) -> i32 {
        match self {
            StackVal::Number(n) => n,
        }
    }
}

/// One executable instruction.
#[derive(Clone, Debug)]
pub enum Instr {
    Push(StackVal),
    Pop,
    Add,
    Dup,
    Sub,
    /// Pops a value and jumps to the label when it equals the operand.
    JumpEqual(i32, String),
    /// Pops a value and jumps to the label when it differs from the operand.
    JumpNotEqual(i32, String),
    Print,
}

/// The mathematical shape of an instruction: label names become character
/// sequences.
pub enum InstrV {
    Push(i32),
    Pop,
    Add,
    Dup,
    Sub,
    JumpEqual(i32, Seq<char>),
    JumpNotEqual(i32, Seq<char>),
    Print,
}

impl View for Instr {
    type V = InstrV;

    open spec fn view(&self) -> InstrV {
        match self {
            Instr::Push(v) => InstrV::Push(v.num()),
            Instr::Pop => InstrV::Pop,
            Instr::Add => InstrV::Add,
            Instr::Dup => InstrV::Dup,
            Instr::Sub => InstrV::Sub,
            Instr::JumpEqual(c, l) => InstrV::JumpEqual(*c, l@),
            Instr::JumpNotEqual(c, l) => InstrV::JumpNotEqual(*c, l@),
            Instr::Print => InstrV::Print,
        }
    }
}

/// What one line of program text stands for.
#[derive(Clone, Debug)]
pub enum ParsedLine {
    Label(String),
    Instr(Instr),
}

pub enum ParsedLineV {
    Label(Seq<char>),
    Instr(InstrV),
}

impl View for ParsedLine {
    type V = ParsedLineV;

    open spec fn view(&self) -> ParsedLineV {
        match self {
            ParsedLine::Label(l) => ParsedLineV::Label(l@),
            ParsedLine::Instr(i) => ParsedLineV::Instr(i@),
        }
    }
}

/// Why program text could not be loaded.
#[derive(Clone, Copy, Debug, PartialEq, Eq, Structural)]
pub enum LoadError {
    TooFewArguments,
    TooManyOperands,
    UnparsedNumber,
    UnknownOpcode,
    DuplicateLabel,
}

/// Why execution stopped before running off the end of the program.
#[derive(Clone, Copy, Debug, PartialEq, Eq, Structural)]
pub enum RunError {
    StackUnderflow,
    UndefinedLabel,
}

impl LoadError {
    /// The diagnostic line for this error.
    pub fn message(&self) -> (r: &'static str)
        ensures
            *self == LoadError::TooFewArguments ==> r@ == "parse error: too few arguments"@,
            *self == LoadError::TooManyOperands ==> r@ == "parse error: too many operands"@,
            *self == LoadError::UnparsedNumber ==> r@ == "parse error: unparsed number"@,
            *self == LoadError::UnknownOpcode ==> r@ == "parse error: unknown opcode"@,
            *self == LoadError::DuplicateLabel ==> r@ == "parse error: duplicate label"@,
    {
        match self {
            LoadError::TooFewArguments => "parse error: too few arguments",
            LoadError::TooManyOperands => "parse error: too many operands",
            LoadError::UnparsedNumber => "parse error: unparsed number",
            LoadError::UnknownOpcode => "parse error: unknown opcode",
            LoadError::DuplicateLabel => "parse error: duplicate label",
        }
    }
}

impl RunError {
    /// The diagnostic line for this error.
    pub fn message(&self) -> (r: &'static str)
        ensures
            *self == RunError::StackUnderflow ==> r@ == "stack underflow"@,
            *self == RunError::UndefinedLabel ==> r@ == "undefined label"@,
    {
        match self {
            RunError::StackUnderflow => "stack underflow",
            RunError::UndefinedLabel => "undefined label",
        }
    }
}

} // verus!
