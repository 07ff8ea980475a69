use vstd::prelude::*;
use crate::insn::{DecodedInsn, Operand, OperandKind};
use crate::text::{has_prefix, has_sub, starts_with, contains};
use crate::classify::ClassificationError;

verus! {

/// Loads and stores of an AArch64 instruction, decided by the mnemonic's
/// prefix; `None` when no prefix rule applies yet an operand is a memory
/// operand.
pub open spec fn arm_memops(mn: Seq<char>, ops: Seq<Operand>) -> Option<(nat, nat)> {
    if has_prefix(mn, "stp"@) {
        Some((0, 2))
    } else if has_prefix(mn, "st"@) {
        Some((0, 1))
    } else if has_prefix(mn, "ldp"@) {
        Some((2, 0))
    } else if has_prefix(mn, "ld"@) {
        Some((1, 0))
    } else if has_prefix(mn, "cas"@) || has_prefix(mn, "swp"@) {
        Some((1, 1))
    } else if has_prefix(mn, "prfm"@) {
        Some((1, 0))
    } else if exists|i: int| 0 <= i < ops.len() && (#[trigger] ops[i]).kind == OperandKind::Memory {
        None
    } else {
        Some((0, 0))
    }
}

/// Element width of a SIMD instruction, read from its lowercase rendering:
/// the widest of `d`, `s`, `h`, `b` that occurs in it.
pub open spec fn simd_width_of(t: Seq<char>) -> Option<Seq<char>> {
    if has_sub(t, "d"@) {
        Some("d"@)
    } else if has_sub(t, "s"@) {
        Some("s"@)
    } else if has_sub(t, "h"@) {
        Some("h"@)
    } else if has_sub(t, "b"@) {
        Some("b"@)
    } else {
        None
    }
}

/// Counts the loads and stores of a decoded AArch64 instruction.
pub fn extract_memops_arm(insn: &DecodedInsn) -> (r: Result<(usize, usize), ClassificationError>)
    ensures
        r matches Ok((l, s)) ==> arm_memops(insn.mnemonic@, insn.operands@) == Some((l as nat, s as nat)),
        r is Err ==> arm_memops(insn.mnemonic@, insn.operands@) is None,
        r is Err ==> r == Err::<(usize, usize), ClassificationError>(ClassificationError::UnclassifiableOperation),
{
    let mn = insn.mnemonic.as_str();
    if starts_with(mn, "stp") {
        Ok((0, 2))
    } else if starts_with(mn, "st") {
        Ok((0, 1))
    } else if starts_with(mn, "ldp") {
        Ok((2, 0))
    } else if starts_with(mn, "ld") {
        Ok((1, 0))
    } else if starts_with(mn, "cas") || starts_with(mn, "swp") {
        Ok((1, 1))
    } else if starts_with(mn, "prfm") {
        Ok((1, 0))
    } else {
        let ops = &insn.operands;
        let mut i: usize = 0;
        while i < ops.len()
            invariant
                i <= ops@.len(),
                ops@ == insn.operands@,
                mn@ == insn.mnemonic@,
                !has_prefix(mn@, "stp"@) && !has_prefix(mn@, "st"@) && !has_prefix(mn@, "ldp"@),
                !has_prefix(mn@, "ld"@) && !has_prefix(mn@, "cas"@) && !has_prefix(mn@, "swp"@),
                !has_prefix(mn@, "prfm"@),
                forall|j: int| 0 <= j < i ==> (#[trigger] ops@[j]).kind != OperandKind::Memory,
            decreases ops@.len() - i,
        {
            if ops[i].kind == OperandKind::Memory {
                assert(ops@[i as int].kind == OperandKind::Memory);
                return Err(ClassificationError::UnclassifiableOperation);
            }
            i = i + 1;
        }
        Ok((0, 0))
    }
}

/// Element-width tag of a SIMD instruction from its lowercase rendering.
pub fn simd_width(lowered: &str) -> (r: Option<&'static str>)
    ensures
        r matches Some(w) ==> simd_width_of(lowered@) == Some(w@),
        r is None ==> simd_width_of(lowered@) is None,
{
    if contains(lowered, "d") {
        Some("d")
    } else if contains(lowered, "s") {
        Some("s")
    } else if contains(lowered, "h") {
        Some("h")
    } else if contains(lowered, "b") {
        Some("b")
    } else {
        None
    }
}

} // verus!
