use vstd::prelude::*;
use crate::text::string_views;

verus! {

/// What an operand denotes.
#[derive(Clone, Copy, Debug, PartialEq, Eq, Structural)]
pub enum OperandKind {
    Register,
    Memory,
    Immediate,
    Other,
}

/// Access direction reported by the decoder for an operand.
#[derive(Clone, Copy, Debug, PartialEq, Eq, Structural)]
pub enum Access {
    ReadOnly,
    WriteOnly,
    ReadWrite,
    Unknown,
}

#[derive(Clone, Copy, Debug, PartialEq, Eq, Structural)]
pub struct Operand {
    pub kind: OperandKind,
    pub access: Access,
}

/// One instruction as the disassembler reports it.
#[derive(Clone, Debug)]
pub struct DecodedInsn {
    /// Mnemonic, e.g. `mov`.
    pub mnemonic: String,
    /// Full textual rendering of the instruction.
    pub text: String,
    /// Semantic group names.
    pub groups: Vec<String>,
    /// Operands in decoder order.
    pub operands: Vec<Operand>,
    /// Encoded length in bytes.
    pub length: usize,
}

impl DecodedInsn {
    pub open spec fn group_views(&self) -> Seq<Seq<char>> {
        string_views(self.groups@)
    }
}

} // verus!
