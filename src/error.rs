use crate::value::Value;
use vstd::prelude::*;

verus! {

/// `std::io::Error`, carried as it is by [`AssemblerError::IoError`] when the
/// host fails to read a program.
#[verifier::external_type_specification]
#[verifier::external_body]
pub struct ExIoError(std::io::Error);

/// Why the interpreter stopped. Every one of these is fatal.
#[derive(Debug)]
pub enum VMError {
    // Stack errors
    StackOverflow,
    StackUnderflow,
    NotInFrame,
    /// (expected, received)
    InvalidStackValueType(Value, Value),
    // Index errors
    InvalidLocalIndex(u16),
    InvalidGlobalIndex(u16),
    InvalidConstantIndex(u16),
    InvalidFunctionIndex(u16),
    // Opcode errors
    InvalidOpcode(u8),
    /// An operand that runs past the end of the code: (opcode byte, operand width).
    InvalidOperandSize(u8, u8),
    // Operand errors
    InvalidOperandType(Value, Value),
    InvalidUnaryOperandType(Value),
    DivisionByZero,
    /// (index, length)
    IndexOutsideRangeOfArray(i64, usize),
    CouldNotPopArray,
}

/// Why assembly failed. Each error that a source line causes carries its
/// line number (for the tuple form: the position of the entry).
#[derive(Debug)]
pub enum AssemblerError {
    IoError(std::io::Error),
    /// (mnemonic, line)
    InvalidOpcode(String, usize),
    /// (message, line)
    InvalidArgument(String, usize),
    /// (message, line)
    InvalidLiteral(String, usize),
    /// The label that no line defines.
    InvalidJumpTarget(String),
    /// A function definition inside another one.
    InvalidFunctionLocation(usize),
    /// A function end outside any function.
    InvalidFunctionEnd(usize),
    /// (function name, line)
    InvalidFunctionCall(String, usize),
    /// (name, line)
    InvalidIdentifier(String, usize),
    AccessLocalOutsideFunction(usize),
    /// A label defined twice in the tuple form.
    DuplicateLabel(String),
    UnexpectedEof,
}

/// An assembler error as the contracts see it: names as their characters,
/// line numbers as integers; free-form messages are left out.
pub enum AsmErr {
    Io,
    InvalidOpcode(Seq<char>, int),
    InvalidArgument(int),
    InvalidLiteral(int),
    InvalidJumpTarget(Seq<char>),
    InvalidFunctionLocation(int),
    InvalidFunctionEnd(int),
    InvalidFunctionCall(Seq<char>, int),
    InvalidIdentifier(Seq<char>, int),
    AccessLocalOutsideFunction(int),
    DuplicateLabel(Seq<char>),
    UnexpectedEof,
}

impl AssemblerError {
    pub open spec fn model(self) -> AsmErr {
        match self {
            AssemblerError::IoError(_) => AsmErr::Io,
            AssemblerError::InvalidOpcode(m, l) => AsmErr::InvalidOpcode(m@, l as int),
            AssemblerError::InvalidArgument(_, l) => AsmErr::InvalidArgument(l as int),
            AssemblerError::InvalidLiteral(_, l) => AsmErr::InvalidLiteral(l as int),
            AssemblerError::InvalidJumpTarget(n) => AsmErr::InvalidJumpTarget(n@),
            AssemblerError::InvalidFunctionLocation(l) => AsmErr::InvalidFunctionLocation(l as int),
            AssemblerError::InvalidFunctionEnd(l) => AsmErr::InvalidFunctionEnd(l as int),
            AssemblerError::InvalidFunctionCall(n, l) => AsmErr::InvalidFunctionCall(n@, l as int),
            AssemblerError::InvalidIdentifier(n, l) => AsmErr::InvalidIdentifier(n@, l as int),
            AssemblerError::AccessLocalOutsideFunction(l) => AsmErr::AccessLocalOutsideFunction(
                l as int,
            ),
            AssemblerError::DuplicateLabel(n) => AsmErr::DuplicateLabel(n@),
            AssemblerError::UnexpectedEof => AsmErr::UnexpectedEof,
        }
    }
}

impl From<std::io::Error> for AssemblerError {
    fn from(error: std::io::Error) -> (r: AssemblerError)
        ensures
            r == AssemblerError::IoError(error),
    {
        AssemblerError::IoError(error)
    }
}

impl vstd::std_specs::convert::FromSpecImpl<std::io::Error> for AssemblerError {
    open spec fn obeys_from_spec() -> bool {
        true
    }

    open spec fn from_spec(v: std::io::Error) -> AssemblerError {
        AssemblerError::IoError(v)
    }
}

} // verus!
