use vstd::prelude::*;
use crate::insn::{Access, DecodedInsn, Operand, OperandKind};
use crate::text::{contains, has_sub, occurs_at};
use crate::classify::ClassificationError;

verus! {

/// Loads and stores contributed by one memory operand of an x86 instruction
/// with mnemonic `mn`; `ptr` tells whether the rendering has a pointer marker.
/// `None` when no rule covers the operand.
pub open spec fn x86_operand_access(mn: Seq<char>, ptr: bool, acc: Access) -> Option<(nat, nat)> {
    if ptr {
        match acc {
            Access::ReadOnly => Some((1, 0)),
            Access::WriteOnly => Some((0, 1)),
            Access::ReadWrite => Some((1, 1)),
            Access::Unknown => if has_sub(mn, "ins"@) || has_sub(mn, "movzx"@) {
                Some((1, 1))
            } else if has_sub(mn, "cvtsi2s"@) || has_sub(mn, "palignr"@) {
                Some((1, 0))
            } else if has_sub(mn, "outs"@) {
                Some((0, 1))
            } else {
                None
            },
        }
    } else if has_sub(mn, "sgdt"@) {
        Some((0, 1))
    } else if has_sub(mn, "lea"@) {
        Some((1, 0))
    } else {
        None
    }
}

/// Loads and stores of the memory operands among `ops`, summed; `None` when
/// one of them is not covered.
pub open spec fn x86_scan(mn: Seq<char>, ptr: bool, ops: Seq<Operand>) -> Option<(nat, nat)>
    decreases ops.len(),
{
    if ops.len() == 0 {
        Some((0, 0))
    } else {
        match x86_scan(mn, ptr, ops.drop_last()) {
            None => None,
            Some((l, s)) => if ops.last().kind == OperandKind::Memory {
                match x86_operand_access(mn, ptr, ops.last().access) {
                    None => None,
                    Some((dl, ds)) => Some((l + dl, s + ds)),
                }
            } else {
                Some((l, s))
            },
        }
    }
}

/// Loads and stores of an x86 instruction, or `None` where the rules cannot
/// classify it.
pub open spec fn x86_memops(mn: Seq<char>, text: Seq<char>, ops: Seq<Operand>) -> Option<(nat, nat)> {
    if has_sub(mn, "push"@) {
        Some((0, 1))
    } else if has_sub(mn, "pop"@) {
        Some((1, 0))
    } else {
        let ptr = has_sub(text, "ptr"@);
        match x86_scan(mn, ptr, ops) {
            None => None,
            Some((l, s)) => if ptr && l + s == 0 {
                None
            } else {
                Some((l, s))
            },
        }
    }
}

/// Loads and stores of one memory operand.
fn operand_access(mn: &str, ptr: bool, acc: Access) -> (r: Option<(usize, usize)>)
    ensures
        r matches Some((l, s)) ==> x86_operand_access(mn@, ptr, acc) == Some((l as nat, s as nat)),
        r is None ==> x86_operand_access(mn@, ptr, acc) is None,
{
    if ptr {
        match acc {
            Access::ReadOnly => Some((1, 0)),
            Access::WriteOnly => Some((0, 1)),
            Access::ReadWrite => Some((1, 1)),
            Access::Unknown => {
                if contains(mn, "ins") || contains(mn, "movzx") {
                    Some((1, 1))
                } else if contains(mn, "cvtsi2s") || contains(mn, "palignr") {
                    Some((1, 0))
                } else if contains(mn, "outs") {
                    Some((0, 1))
                } else {
                    None
                }
            },
        }
    } else if contains(mn, "sgdt") {
        Some((0, 1))
    } else if contains(mn, "lea") {
        Some((1, 0))
    } else {
        None
    }
}

/// Counts the loads and stores of a decoded x86 instruction.
pub fn extract_memops_x86(insn: &DecodedInsn) -> (r: Result<(usize, usize), ClassificationError>)
    ensures
        r matches Ok((l, s)) ==> x86_memops(insn.mnemonic@, insn.text@, insn.operands@) == Some((l as nat, s as nat)),
        r is Err ==> x86_memops(insn.mnemonic@, insn.text@, insn.operands@) is None,
        r is Err ==> r == Err::<(usize, usize), ClassificationError>(ClassificationError::UnclassifiableOperation),
{
    let mn = insn.mnemonic.as_str();
    if contains(mn, "push") {
        return Ok((0, 1));
    } else if contains(mn, "pop") {
        return Ok((1, 0));
    }
    let ptr = contains(insn.text.as_str(), "ptr");
    let ops = &insn.operands;
    let mut loads: usize = 0;
    let mut stores: usize = 0;
    let mut i: usize = 0;
    while i < ops.len()
        invariant
            i <= ops@.len(),
            ptr == has_sub(insn.text@, "ptr"@),
            mn@ == insn.mnemonic@,
            !has_sub(mn@, "push"@),
            !has_sub(mn@, "pop"@),
            ops@ == insn.operands@,
            x86_scan(mn@, ptr, ops@.take(i as int)) == Some((loads as nat, stores as nat)),
            loads <= i,
            stores <= i,
        decreases ops@.len() - i,
    {
        let op = ops[i];
        assert(ops@.take(i + 1).drop_last() =~= ops@.take(i as int));
        if op.kind == OperandKind::Memory {
            match operand_access(mn, ptr, op.access) {
                Some((dl, ds)) => {
                    loads = loads + dl;
                    stores = stores + ds;
                },
                None => {
                    proof {
                        assert(ops@.take(i + 1).last() == op);
                        assert(x86_scan(mn@, ptr, ops@.take(i + 1)) is None);
                        lemma_none_stays(mn@, ptr, ops@, i as int + 1);
                    }
                    return Err(ClassificationError::UnclassifiableOperation);
                },
            }
        }
        i = i + 1;
    }
    assert(ops@.take(i as int) =~= ops@);
    if ptr && loads == 0 && stores == 0 {
        return Err(ClassificationError::UnclassifiableOperation);
    }
    Ok((loads, stores))
}

proof fn lemma_none_stays(mn: Seq<char>, ptr: bool, ops: Seq<Operand>, i: int)
    requires
        0 <= i <= ops.len(),
        x86_scan(mn, ptr, ops.take(i)) is None,
    ensures
        x86_scan(mn, ptr, ops) is None,
    decreases ops.len() - i,
{
    if i < ops.len() {
        assert(ops.take(i + 1).drop_last() =~= ops.take(i));
        lemma_none_stays(mn, ptr, ops, i + 1);
    } else {
        assert(ops.take(i) =~= ops);
    }
}

/// `push` stores once and `pop` loads once, whatever their operands and
/// rendering.
pub proof fn lemma_push_pop(text: Seq<char>, ops: Seq<Operand>)
    ensures
        x86_memops("push"@, text, ops) == Some((0nat, 1nat)),
        x86_memops("pop"@, text, ops) == Some((1nat, 0nat)),
{
    reveal_strlit("push");
    reveal_strlit("pop");
    assert("push"@.subrange(0, 4) =~= "push"@);
    assert(occurs_at("push"@, "push"@, 0));
    assert("pop"@.subrange(0, 3) =~= "pop"@);
    assert(occurs_at("pop"@, "pop"@, 0));
    assert(!has_sub("pop"@, "push"@));
}

} // verus!
