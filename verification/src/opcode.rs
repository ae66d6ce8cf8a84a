//! The instruction set: one byte per opcode, followed by its operand bytes.
use vstd::prelude::*;

verus! {

/// The operations of the machine. `Unknown` stands for every byte that names
/// no operation.
#[derive(Clone, Copy, Debug, PartialEq, Eq, Structural)]
pub enum Opcode {
    Return,
    Constant,
    Negate,
    Add,
    Subtract,
    Multiply,
    Divide,
    Nil,
    True,
    False,
    Not,
    Equal,
    Greater,
    Less,
    Mod,
    Print,
    Pop,
    DefineGlobal,
    GetGlobal,
    SetGlobal,
    GetLocal,
    SetLocal,
    JumpIfFalse,
    Jump,
    Loop,
    Call,
    LogicalAnd,
    LogicalOr,
    BitwiseAnd,
    BitwiseOr,
    Unknown,
}

/// The operations in the order of their bytes: the opcode at index `b` is
/// encoded as the byte `b`.
pub open spec fn opcode_table() -> Seq<Opcode> {
    seq![
        Opcode::Return,
        Opcode::Constant,
        Opcode::Negate,
        Opcode::Add,
        Opcode::Subtract,
        Opcode::Multiply,
        Opcode::Divide,
        Opcode::Nil,
        Opcode::True,
        Opcode::False,
        Opcode::Not,
        Opcode::Equal,
        Opcode::Greater,
        Opcode::Less,
        Opcode::Mod,
        Opcode::Print,
        Opcode::Pop,
        Opcode::DefineGlobal,
        Opcode::GetGlobal,
        Opcode::SetGlobal,
        Opcode::GetLocal,
        Opcode::SetLocal,
        Opcode::JumpIfFalse,
        Opcode::Jump,
        Opcode::Loop,
        Opcode::Call,
        Opcode::LogicalAnd,
        Opcode::LogicalOr,
        Opcode::BitwiseAnd,
        Opcode::BitwiseOr,
    ]
}

/// The operation that a byte names.
pub open spec fn decode(x: u8) -> Opcode {
    if (x as int) < opcode_table().len() {
        opcode_table()[x as int]
    } else {
        Opcode::Unknown
    }
}

impl Opcode {
    /// The byte that encodes this operation: its place in the table.
    /// `Unknown` has no place there and is given 255.
    pub open spec fn byte(self) -> u8 {
        match self {
            Opcode::Return => 0,
            Opcode::Constant => 1,
            Opcode::Negate => 2,
            Opcode::Add => 3,
            Opcode::Subtract => 4,
            Opcode::Multiply => 5,
            Opcode::Divide => 6,
            Opcode::Nil => 7,
            Opcode::True => 8,
            Opcode::False => 9,
            Opcode::Not => 10,
            Opcode::Equal => 11,
            Opcode::Greater => 12,
            Opcode::Less => 13,
            Opcode::Mod => 14,
            Opcode::Print => 15,
            Opcode::Pop => 16,
            Opcode::DefineGlobal => 17,
            Opcode::GetGlobal => 18,
            Opcode::SetGlobal => 19,
            Opcode::GetLocal => 20,
            Opcode::SetLocal => 21,
            Opcode::JumpIfFalse => 22,
            Opcode::Jump => 23,
            Opcode::Loop => 24,
            Opcode::Call => 25,
            Opcode::LogicalAnd => 26,
            Opcode::LogicalOr => 27,
            Opcode::BitwiseAnd => 28,
            Opcode::BitwiseOr => 29,
            Opcode::Unknown => 255,
        }
    }

    /// How many operand bytes follow the opcode byte.
    pub open spec fn operand_width(self) -> nat {
        match self {
            Opcode::Constant
            | Opcode::DefineGlobal
            | Opcode::GetGlobal
            | Opcode::SetGlobal
            | Opcode::GetLocal
            | Opcode::SetLocal
            | Opcode::Call => 1,
            Opcode::JumpIfFalse | Opcode::Jump | Opcode::Loop => 2,
            _ => 0,
        }
    }

    /// Encodes the operation as its byte.
    pub fn to_u8(self) -> (b: u8)
        ensures
            b == self.byte(),
            self != Opcode::Unknown ==> decode(b) == self,
    {
        match self {
            Opcode::Return => 0,
            Opcode::Constant => 1,
            Opcode::Negate => 2,
            Opcode::Add => 3,
            Opcode::Subtract => 4,
            Opcode::Multiply => 5,
            Opcode::Divide => 6,
            Opcode::Nil => 7,
            Opcode::True => 8,
            Opcode::False => 9,
            Opcode::Not => 10,
            Opcode::Equal => 11,
            Opcode::Greater => 12,
            Opcode::Less => 13,
            Opcode::Mod => 14,
            Opcode::Print => 15,
            Opcode::Pop => 16,
            Opcode::DefineGlobal => 17,
            Opcode::GetGlobal => 18,
            Opcode::SetGlobal => 19,
            Opcode::GetLocal => 20,
            Opcode::SetLocal => 21,
            Opcode::JumpIfFalse => 22,
            Opcode::Jump => 23,
            Opcode::Loop => 24,
            Opcode::Call => 25,
            Opcode::LogicalAnd => 26,
            Opcode::LogicalOr => 27,
            Opcode::BitwiseAnd => 28,
            Opcode::BitwiseOr => 29,
            Opcode::Unknown => 255,
        }
    }

    /// The number of operand bytes of the operation.
    pub fn width(self) -> (w: usize)
        ensures
            w == self.operand_width(),
            w <= 2,
    {
        match self {
            Opcode::Constant
            | Opcode::DefineGlobal
            | Opcode::GetGlobal
            | Opcode::SetGlobal
            | Opcode::GetLocal
            | Opcode::SetLocal
            | Opcode::Call => 1,
            Opcode::JumpIfFalse | Opcode::Jump | Opcode::Loop => 2,
            _ => 0,
        }
    }
}

/// Decodes a byte: the operation it names, or `Unknown`.
pub fn from_u8(x: u8) -> (op: Opcode)
    ensures
        op == decode(x),
        op != Opcode::Unknown ==> op.byte() == x,
        (op == Opcode::Unknown) == (x >= 30),
{
    let op = match x {
        0 => Opcode::Return,
        1 => Opcode::Constant,
        2 => Opcode::Negate,
        3 => Opcode::Add,
        4 => Opcode::Subtract,
        5 => Opcode::Multiply,
        6 => Opcode::Divide,
        7 => Opcode::Nil,
        8 => Opcode::True,
        9 => Opcode::False,
        10 => Opcode::Not,
        11 => Opcode::Equal,
        12 => Opcode::Greater,
        13 => Opcode::Less,
        14 => Opcode::Mod,
        15 => Opcode::Print,
        16 => Opcode::Pop,
        17 => Opcode::DefineGlobal,
        18 => Opcode::GetGlobal,
        19 => Opcode::SetGlobal,
        20 => Opcode::GetLocal,
        21 => Opcode::SetLocal,
        22 => Opcode::JumpIfFalse,
        23 => Opcode::Jump,
        24 => Opcode::Loop,
        25 => Opcode::Call,
        26 => Opcode::LogicalAnd,
        27 => Opcode::LogicalOr,
        28 => Opcode::BitwiseAnd,
        29 => Opcode::BitwiseOr,
        _ => Opcode::Unknown,
    };
    op
}

/// Encoding and decoding are inverse to each other: every operation but
/// `Unknown` comes back from its byte, every byte that names an operation
/// comes back from it, and the bytes from 30 on name none.
pub proof fn lemma_opcode_round_trip()
    ensures
        forall|op: Opcode| op != Opcode::Unknown ==> decode(#[trigger] op.byte()) == op,
        forall|x: u8| decode(x) != Opcode::Unknown ==> (#[trigger] decode(x)).byte() == x,
        forall|x: u8| (#[trigger] decode(x) == Opcode::Unknown) == (x >= 30),
{
}

} // verus!
