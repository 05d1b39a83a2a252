use crate::error::VMError;
use vstd::prelude::*;

verus! {

/// The instruction set. Each opcode has a fixed one-byte code and a fixed
/// little-endian operand width (see [`OpCode::width`]).
#[derive(Debug, Clone, Copy, PartialEq, Eq, Structural)]
pub enum OpCode {
    /// Arithmetic: pop two operands, push one result.
    Add,
    Sub,
    Mul,
    Div,
    DivInt,
    Mod,
    /// Stack and memory.
    PushConst,
    PushLocal,
    StoreLocal,
    PushGlobal,
    StoreGlobal,
    Pop,
    PushImmediate,
    Box,
    Unbox,
    SetBox,
    Array,
    ArraySet,
    ArrayGet,
    ArrayPush,
    ArrayPop,
    ArrayLen,
    /// Control flow; the operand is an absolute code offset.
    Jump,
    JumpIfFalse,
    JumpIfTrue,
    /// Comparisons and logic.
    Equal,
    NotEqual,
    LessThan,
    GreaterThan,
    GreaterEqual,
    LessEqual,
    Not,
    LogicalAnd,
    LogicalOr,
    /// Functions.
    CallFunction,
    Return,
    /// Emit the popped value to the host.
    Print,
    /// Anchor for labels, function entries and the entry point.
    NoOp,
}

impl OpCode {
    /// The byte that encodes this opcode.
    pub open spec fn spec_byte(&self) -> u8 {
        match self {
            OpCode::Add => 0x00,
            OpCode::Sub => 0x01,
            OpCode::Mul => 0x02,
            OpCode::Div => 0x03,
            OpCode::DivInt => 0x04,
            OpCode::Mod => 0x05,
            OpCode::PushConst => 0x10,
            OpCode::PushLocal => 0x11,
            OpCode::StoreLocal => 0x12,
            OpCode::PushGlobal => 0x13,
            OpCode::StoreGlobal => 0x14,
            OpCode::Pop => 0x15,
            OpCode::PushImmediate => 0x16,
            OpCode::Box => 0x17,
            OpCode::Unbox => 0x18,
            OpCode::SetBox => 0x19,
            OpCode::Array => 0x1A,
            OpCode::ArraySet => 0x1B,
            OpCode::ArrayGet => 0x1C,
            OpCode::ArrayPush => 0x1D,
            OpCode::ArrayPop => 0x1E,
            OpCode::ArrayLen => 0x1F,
            OpCode::Jump => 0x26,
            OpCode::JumpIfFalse => 0x27,
            OpCode::JumpIfTrue => 0x28,
            OpCode::Equal => 0x40,
            OpCode::NotEqual => 0x41,
            OpCode::LessThan => 0x42,
            OpCode::GreaterThan => 0x43,
            OpCode::GreaterEqual => 0x44,
            OpCode::LessEqual => 0x45,
            OpCode::Not => 0x46,
            OpCode::LogicalAnd => 0x47,
            OpCode::LogicalOr => 0x48,
            OpCode::CallFunction => 0x50,
            OpCode::Return => 0x51,
            OpCode::Print => 0xF5,
            OpCode::NoOp => 0xFF,
        }
    }

    /// The number of operand bytes that follow this opcode in the code.
    pub open spec fn spec_width(&self) -> usize {
        match self {
            OpCode::PushLocal | OpCode::StoreLocal | OpCode::Array => 1,
            OpCode::PushConst | OpCode::PushGlobal | OpCode::StoreGlobal | OpCode::PushImmediate | OpCode::CallFunction => 2,
            OpCode::Jump | OpCode::JumpIfFalse | OpCode::JumpIfTrue => 4,
            _ => 0,
        }
    }

    /// The opcode that a byte encodes, if any.
    pub open spec fn spec_decode(b: u8) -> Option<OpCode> {
        if b == 0x00 {
            Some(OpCode::Add)
        } else if b == 0x01 {
            Some(OpCode::Sub)
        } else if b == 0x02 {
            Some(OpCode::Mul)
        } else if b == 0x03 {
            Some(OpCode::Div)
        } else if b == 0x04 {
            Some(OpCode::DivInt)
        } else if b == 0x05 {
            Some(OpCode::Mod)
        } else if b == 0x10 {
            Some(OpCode::PushConst)
        } else if b == 0x11 {
            Some(OpCode::PushLocal)
        } else if b == 0x12 {
            Some(OpCode::StoreLocal)
        } else if b == 0x13 {
            Some(OpCode::PushGlobal)
        } else if b == 0x14 {
            Some(OpCode::StoreGlobal)
        } else if b == 0x15 {
            Some(OpCode::Pop)
        } else if b == 0x16 {
            Some(OpCode::PushImmediate)
        } else if b == 0x17 {
            Some(OpCode::Box)
        } else if b == 0x18 {
            Some(OpCode::Unbox)
        } else if b == 0x19 {
            Some(OpCode::SetBox)
        } else if b == 0x1A {
            Some(OpCode::Array)
        } else if b == 0x1B {
            Some(OpCode::ArraySet)
        } else if b == 0x1C {
            Some(OpCode::ArrayGet)
        } else if b == 0x1D {
            Some(OpCode::ArrayPush)
        } else if b == 0x1E {
            Some(OpCode::ArrayPop)
        } else if b == 0x1F {
            Some(OpCode::ArrayLen)
        } else if b == 0x26 {
            Some(OpCode::Jump)
        } else if b == 0x27 {
            Some(OpCode::JumpIfFalse)
        } else if b == 0x28 {
            Some(OpCode::JumpIfTrue)
        } else if b == 0x40 {
            Some(OpCode::Equal)
        } else if b == 0x41 {
            Some(OpCode::NotEqual)
        } else if b == 0x42 {
            Some(OpCode::LessThan)
        } else if b == 0x43 {
            Some(OpCode::GreaterThan)
        } else if b == 0x44 {
            Some(OpCode::GreaterEqual)
        } else if b == 0x45 {
            Some(OpCode::LessEqual)
        } else if b == 0x46 {
            Some(OpCode::Not)
        } else if b == 0x47 {
            Some(OpCode::LogicalAnd)
        } else if b == 0x48 {
            Some(OpCode::LogicalOr)
        } else if b == 0x50 {
            Some(OpCode::CallFunction)
        } else if b == 0x51 {
            Some(OpCode::Return)
        } else if b == 0xF5 {
            Some(OpCode::Print)
        } else if b == 0xFF {
            Some(OpCode::NoOp)
        } else {
            None
        }
    }

    /// Is this one of the three jumps?
    pub open spec fn is_jump(&self) -> bool {
        self == OpCode::Jump || self == OpCode::JumpIfFalse || self == OpCode::JumpIfTrue
    }

    #[verifier::when_used_as_spec(spec_byte)]
    pub fn to_byte(&self) -> (r: u8)
        ensures
            r == self.spec_byte(),
    {
        match self {
            OpCode::Add => 0x00,
            OpCode::Sub => 0x01,
            OpCode::Mul => 0x02,
            OpCode::Div => 0x03,
            OpCode::DivInt => 0x04,
            OpCode::Mod => 0x05,
            OpCode::PushConst => 0x10,
            OpCode::PushLocal => 0x11,
            OpCode::StoreLocal => 0x12,
            OpCode::PushGlobal => 0x13,
            OpCode::StoreGlobal => 0x14,
            OpCode::Pop => 0x15,
            OpCode::PushImmediate => 0x16,
            OpCode::Box => 0x17,
            OpCode::Unbox => 0x18,
            OpCode::SetBox => 0x19,
            OpCode::Array => 0x1A,
            OpCode::ArraySet => 0x1B,
            OpCode::ArrayGet => 0x1C,
            OpCode::ArrayPush => 0x1D,
            OpCode::ArrayPop => 0x1E,
            OpCode::ArrayLen => 0x1F,
            OpCode::Jump => 0x26,
            OpCode::JumpIfFalse => 0x27,
            OpCode::JumpIfTrue => 0x28,
            OpCode::Equal => 0x40,
            OpCode::NotEqual => 0x41,
            OpCode::LessThan => 0x42,
            OpCode::GreaterThan => 0x43,
            OpCode::GreaterEqual => 0x44,
            OpCode::LessEqual => 0x45,
            OpCode::Not => 0x46,
            OpCode::LogicalAnd => 0x47,
            OpCode::LogicalOr => 0x48,
            OpCode::CallFunction => 0x50,
            OpCode::Return => 0x51,
            OpCode::Print => 0xF5,
            OpCode::NoOp => 0xFF,
        }
    }

    #[verifier::when_used_as_spec(spec_width)]
    pub fn width(&self) -> (r: usize)
        ensures
            r == self.spec_width(),
    {
        match self {
            OpCode::PushLocal | OpCode::StoreLocal | OpCode::Array => 1,
            OpCode::PushConst | OpCode::PushGlobal | OpCode::StoreGlobal | OpCode::PushImmediate | OpCode::CallFunction => 2,
            OpCode::Jump | OpCode::JumpIfFalse | OpCode::JumpIfTrue => 4,
            _ => 0,
        }
    }

    /// The sizes, in bytes, of the operands that the opcode takes.
    pub fn arg_sizecount(&self) -> (r: Vec<usize>)
        ensures
            r@ == seq![self.spec_width()],
    {
        let v = vec![self.width()];
        v
    }

    /// Decodes one opcode byte.
    pub fn from_byte(b: u8) -> (r: Option<OpCode>)
        ensures
            r == OpCode::spec_decode(b),
    {
        match b {
            0x00 => Some(OpCode::Add),
            0x01 => Some(OpCode::Sub),
            0x02 => Some(OpCode::Mul),
            0x03 => Some(OpCode::Div),
            0x04 => Some(OpCode::DivInt),
            0x05 => Some(OpCode::Mod),
            0x10 => Some(OpCode::PushConst),
            0x11 => Some(OpCode::PushLocal),
            0x12 => Some(OpCode::StoreLocal),
            0x13 => Some(OpCode::PushGlobal),
            0x14 => Some(OpCode::StoreGlobal),
            0x15 => Some(OpCode::Pop),
            0x16 => Some(OpCode::PushImmediate),
            0x17 => Some(OpCode::Box),
            0x18 => Some(OpCode::Unbox),
            0x19 => Some(OpCode::SetBox),
            0x1A => Some(OpCode::Array),
            0x1B => Some(OpCode::ArraySet),
            0x1C => Some(OpCode::ArrayGet),
            0x1D => Some(OpCode::ArrayPush),
            0x1E => Some(OpCode::ArrayPop),
            0x1F => Some(OpCode::ArrayLen),
            0x26 => Some(OpCode::Jump),
            0x27 => Some(OpCode::JumpIfFalse),
            0x28 => Some(OpCode::JumpIfTrue),
            0x40 => Some(OpCode::Equal),
            0x41 => Some(OpCode::NotEqual),
            0x42 => Some(OpCode::LessThan),
            0x43 => Some(OpCode::GreaterThan),
            0x44 => Some(OpCode::GreaterEqual),
            0x45 => Some(OpCode::LessEqual),
            0x46 => Some(OpCode::Not),
            0x47 => Some(OpCode::LogicalAnd),
            0x48 => Some(OpCode::LogicalOr),
            0x50 => Some(OpCode::CallFunction),
            0x51 => Some(OpCode::Return),
            0xF5 => Some(OpCode::Print),
            0xFF => Some(OpCode::NoOp),
            _ => None,
        }
    }

    /// A byte that decodes is the byte of what it decodes to.
    pub proof fn lemma_byte_of_decode(b: u8)
        requires
            OpCode::spec_decode(b) is Some,
        ensures
            OpCode::spec_decode(b)->Some_0.spec_byte() == b,
    {
    }

    /// Decoding the byte of an opcode gives that opcode back.
    pub proof fn lemma_decode_byte(op: OpCode)
        ensures
            OpCode::spec_decode(op.spec_byte()) == Some(op),
    {
    }
}

impl TryFrom<u8> for OpCode {
    type Error = VMError;

    /// Decodes one opcode byte; an unknown byte is `InvalidOpcode`.
    fn try_from(value: u8) -> (r: Result<OpCode, VMError>) {
        match OpCode::from_byte(value) {
            Some(op) => Ok(op),
            None => Err(VMError::InvalidOpcode(value)),
        }
    }
}

impl vstd::std_specs::convert::TryFromSpecImpl<u8> for OpCode {
    open spec fn obeys_try_from_spec() -> bool {
        true
    }

    open spec fn try_from_spec(v: u8) -> Result<OpCode, VMError> {
        match OpCode::spec_decode(v) {
            Some(op) => Ok(op),
            None => Err(VMError::InvalidOpcode(v)),
        }
    }
}

} // verus!
