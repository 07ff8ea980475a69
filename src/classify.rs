use vstd::prelude::*;
use vstd::string::*;
use crate::arm::{arm_memops, extract_memops_arm, simd_width, simd_width_of};
use crate::breakdown::BreakdownData;
use crate::category::{
    branch_groups, crypto_groups, fp_groups, mem_mnemonics, other_groups, privileged_groups,
    simd_groups, Arch, GroupTypeEnum, branch_table, crypto_table, fp_table, mem_table,
    others_table, privileged_table, simd_table,
};
use crate::decoder::{decode_block, decodable, decodes_to, Disassembler};
use crate::insn::DecodedInsn;
use crate::text::{any_contains_any, any_hits, contains_any, hits, lower_of, lowercase, string_views};
use crate::x86::{extract_memops_x86, x86_memops};

verus! {

/// Why a block of instructions cannot be classified.
#[derive(Clone, Copy, Debug, PartialEq, Eq, Structural)]
pub enum ClassificationError {
    /// A decoded instruction that the classification rules do not cover.
    UnclassifiableOperation,
    /// The disassembler failed on the block.
    DecoderFailure,
}

/// Which rule tables an instruction hits.
#[derive(Clone, Copy, Debug, PartialEq, Eq, Structural)]
pub struct Signals {
    pub is_br: bool,
    pub is_priviledge: bool,
    pub is_mem: bool,
    pub is_fp: bool,
    pub is_simd: bool,
    pub is_crypto: bool,
    pub is_others: bool,
}

pub open spec fn spec_signals(a: Arch, groups: Seq<Seq<char>>, mn: Seq<char>) -> Signals {
    Signals {
        is_br: any_hits(groups, branch_groups(a)),
        is_priviledge: any_hits(groups, privileged_groups()),
        is_mem: hits(mn, mem_mnemonics(a)),
        is_fp: any_hits(groups, fp_groups(a)),
        is_simd: any_hits(groups, simd_groups(a)),
        is_crypto: any_hits(groups, crypto_groups(a)),
        is_others: any_hits(groups, other_groups(a)),
    }
}

/// The category: the first of privileged, crypto, floating-point/SIMD,
/// branch, memory and other that holds, else logic.
pub open spec fn spec_group(s: Signals) -> GroupTypeEnum {
    if s.is_priviledge {
        GroupTypeEnum::CAT_PRIV
    } else if s.is_crypto {
        GroupTypeEnum::CAT_CRYPTO
    } else if s.is_fp || s.is_simd {
        GroupTypeEnum::CAT_FP
    } else if s.is_br {
        GroupTypeEnum::CAT_BR
    } else if s.is_mem {
        GroupTypeEnum::CAT_MEM
    } else if s.is_others {
        GroupTypeEnum::CAT_OTHERS
    } else {
        GroupTypeEnum::CAT_LOGIC
    }
}

/// Display mnemonic of an x86 instruction.
pub open spec fn x86_display(s: Signals, mn: Seq<char>) -> Seq<char> {
    if s.is_fp {
        "fp "@ + mn
    } else if s.is_simd {
        "simd "@ + mn
    } else {
        mn
    }
}

/// Display mnemonic of an AArch64 instruction whose SIMD width tag is `w`.
pub open spec fn arm_display(s: Signals, mn: Seq<char>, w: Seq<char>) -> Seq<char> {
    if s.is_fp {
        "fp "@ + mn
    } else if s.is_simd {
        "simd "@ + mn + "."@ + w
    } else {
        mn
    }
}

/// `d` holds the facts given by the other arguments.
pub open spec fn facts_are(
    d: BreakdownData,
    mnemonic: Seq<char>,
    s: Signals,
    is_user: bool,
    byte_len: nat,
    loads: nat,
    stores: nat,
) -> bool {
    &&& d.mnemonic@ == mnemonic
    &&& d.group == spec_group(s)
    &&& d.is_user == is_user
    &&& d.byte_len == byte_len
    &&& d.loads == loads
    &&& d.stores == stores
    &&& d.is_br == s.is_br
    &&& d.is_priviledge == s.is_priviledge
    &&& d.is_mem == s.is_mem
    &&& d.is_fp == (s.is_fp || s.is_simd)
    &&& d.is_crypto == s.is_crypto
    &&& d.wf()
}

pub open spec fn insn_signals(a: Arch, insn: DecodedInsn) -> Signals {
    spec_signals(a, insn.group_views(), insn.mnemonic@)
}

/// The rules classify an x86 instruction into `d`.
pub open spec fn x86_facts(insn: DecodedInsn, is_user: bool, d: BreakdownData) -> bool {
    let s = insn_signals(Arch::X86, insn);
    match x86_memops(insn.mnemonic@, insn.text@, insn.operands@) {
        Some((l, st)) => facts_are(d, x86_display(s, insn.mnemonic@), s, is_user, insn.length as nat, l, st),
        None => false,
    }
}

/// The rules classify an AArch64 instruction with lowercase rendering
/// `lowered` into `d`.
pub open spec fn arm_facts(insn: DecodedInsn, lowered: Seq<char>, is_user: bool, d: BreakdownData) -> bool {
    let s = insn_signals(Arch::Arm, insn);
    match arm_memops(insn.mnemonic@, insn.operands@) {
        Some((l, st)) => {
            &&& (s.is_simd ==> simd_width_of(lowered) is Some)
            &&& facts_are(d, arm_display(s, insn.mnemonic@, simd_width_of(lowered).unwrap_or(Seq::empty())), s, is_user, 4, l, st)
        },
        None => false,
    }
}

/// The rules cover the x86 instruction.
pub open spec fn x86_ok(insn: DecodedInsn) -> bool {
    x86_memops(insn.mnemonic@, insn.text@, insn.operands@) is Some
}

/// The rules cover the AArch64 instruction with lowercase rendering `lowered`.
pub open spec fn arm_ok(insn: DecodedInsn, lowered: Seq<char>) -> bool {
    &&& arm_memops(insn.mnemonic@, insn.operands@) is Some
    &&& (insn_signals(Arch::Arm, insn).is_simd ==> simd_width_of(lowered) is Some)
}

pub open spec fn classifies(a: Arch, insn: DecodedInsn, is_user: bool, d: BreakdownData) -> bool {
    match a {
        Arch::X86 => x86_facts(insn, is_user, d),
        Arch::Arm => arm_facts(insn, lower_of(insn.text@), is_user, d),
    }
}

pub open spec fn covered(a: Arch, insn: DecodedInsn) -> bool {
    match a {
        Arch::X86 => x86_ok(insn),
        Arch::Arm => arm_ok(insn, lower_of(insn.text@)),
    }
}

/// Evaluates every rule table on an instruction's groups and mnemonic, and
/// picks its category.
pub fn extract_data(arch: Arch, groups: &Vec<String>, mnemonic: &str) -> (r: (GroupTypeEnum, Signals))
    ensures
        r.1 == spec_signals(arch, string_views(groups@), mnemonic@),
        r.0 == spec_group(r.1),
{
    let s = Signals {
        is_br: any_contains_any(groups, &branch_table(arch)),
        is_priviledge: any_contains_any(groups, &privileged_table()),
        is_mem: contains_any(mnemonic, &mem_table(arch)),
        is_fp: any_contains_any(groups, &fp_table(arch)),
        is_simd: any_contains_any(groups, &simd_table(arch)),
        is_crypto: any_contains_any(groups, &crypto_table(arch)),
        is_others: any_contains_any(groups, &others_table(arch)),
    };
    let group = if s.is_priviledge {
        GroupTypeEnum::CAT_PRIV
    } else if s.is_crypto {
        GroupTypeEnum::CAT_CRYPTO
    } else if s.is_fp || s.is_simd {
        GroupTypeEnum::CAT_FP
    } else if s.is_br {
        GroupTypeEnum::CAT_BR
    } else if s.is_mem {
        GroupTypeEnum::CAT_MEM
    } else if s.is_others {
        GroupTypeEnum::CAT_OTHERS
    } else {
        GroupTypeEnum::CAT_LOGIC
    };
    (group, s)
}

fn build(
    mnemonic: String,
    group: GroupTypeEnum,
    s: Signals,
    is_user: bool,
    byte_len: usize,
    loads: usize,
    stores: usize,
) -> (d: BreakdownData)
    requires
        group == spec_group(s),
    ensures
        facts_are(d, mnemonic@, s, is_user, byte_len as nat, loads as nat, stores as nat),
{
    BreakdownData {
        mnemonic,
        group,
        is_user,
        byte_len,
        loads,
        stores,
        is_br: s.is_br,
        is_priviledge: s.is_priviledge,
        is_mem: s.is_mem,
        is_fp: s.is_fp || s.is_simd,
        is_crypto: s.is_crypto,
        has_both_mem: loads >= 1 && stores >= 1,
        has_mem: loads >= 1 || stores >= 1,
        has_multi_mem: loads >= 2 || stores >= 2 || (loads >= 1 && stores >= 1),
    }
}

/// Classifies one decoded x86-64 instruction.
pub fn execute_x86(insn: &DecodedInsn, is_user: bool) -> (r: Result<BreakdownData, ClassificationError>)
    ensures
        r is Ok <==> x86_ok(*insn),
        r is Err ==> r == Err::<BreakdownData, ClassificationError>(ClassificationError::UnclassifiableOperation),
        r matches Ok(d) ==> x86_facts(*insn, is_user, d),
{
    let (loads, stores) = match extract_memops_x86(insn) {
        Ok(p) => p,
        Err(e) => return Err(e),
    };
    let (group, s) = extract_data(Arch::X86, &insn.groups, insn.mnemonic.as_str());
    let mnemonic = if s.is_fp {
        String::from_str("fp ").concat(insn.mnemonic.as_str())
    } else if s.is_simd {
        String::from_str("simd ").concat(insn.mnemonic.as_str())
    } else {
        insn.mnemonic.clone()
    };
    Ok(build(mnemonic, group, s, is_user, insn.length, loads, stores))
}

/// Classifies one decoded AArch64 instruction with lowercase rendering
/// `lowered`.
pub fn classify_arm(insn: &DecodedInsn, lowered: &str, is_user: bool) -> (r: Result<BreakdownData, ClassificationError>)
    ensures
        r is Ok <==> arm_ok(*insn, lowered@),
        r is Err ==> r == Err::<BreakdownData, ClassificationError>(ClassificationError::UnclassifiableOperation),
        r matches Ok(d) ==> arm_facts(*insn, lowered@, is_user, d),
{
    let (loads, stores) = match extract_memops_arm(insn) {
        Ok(p) => p,
        Err(e) => return Err(e),
    };
    let (group, s) = extract_data(Arch::Arm, &insn.groups, insn.mnemonic.as_str());
    let width = simd_width(lowered);
    if s.is_simd && width.is_none() {
        return Err(ClassificationError::UnclassifiableOperation);
    }
    let mnemonic = if s.is_fp {
        String::from_str("fp ").concat(insn.mnemonic.as_str())
    } else if s.is_simd {
        let w = width.unwrap();
        String::from_str("simd ").concat(insn.mnemonic.as_str()).concat(".").concat(w)
    } else {
        insn.mnemonic.clone()
    };
    Ok(build(mnemonic, group, s, is_user, 4, loads, stores))
}

/// Classifies one decoded AArch64 instruction.
pub fn execute_arm(insn: &DecodedInsn, is_user: bool) -> (r: Result<BreakdownData, ClassificationError>)
    ensures
        r is Ok <==> arm_ok(*insn, lower_of(insn.text@)),
        r is Err ==> r == Err::<BreakdownData, ClassificationError>(ClassificationError::UnclassifiableOperation),
        r matches Ok(d) ==> arm_facts(*insn, lower_of(insn.text@), is_user, d),
{
    let lowered = lowercase(insn.text.as_str());
    classify_arm(insn, lowered.as_str(), is_user)
}

/// Classifies each instruction of a decoded block, in order; fails on the
/// first instruction that the rules do not cover.
pub fn classify_block(arch: Arch, insns: &Vec<DecodedInsn>, is_user: bool) -> (r: Result<Vec<BreakdownData>, ClassificationError>)
    ensures
        r is Ok <==> forall|i: int| 0 <= i < insns@.len() ==> covered(arch, #[trigger] insns@[i]),
        r is Err ==> r == Err::<Vec<BreakdownData>, ClassificationError>(ClassificationError::UnclassifiableOperation),
        r matches Ok(v) ==> v@.len() == insns@.len() && forall|i: int| 0 <= i < insns@.len() ==> classifies(arch, #[trigger] insns@[i], is_user, v@[i]),
{
    let mut out: Vec<BreakdownData> = Vec::new();
    let mut i: usize = 0;
    while i < insns.len()
        invariant
            i <= insns@.len(),
            out@.len() == i,
            forall|j: int| 0 <= j < i ==> covered(arch, #[trigger] insns@[j]),
            forall|j: int| 0 <= j < i ==> classifies(arch, #[trigger] insns@[j], is_user, out@[j]),
        decreases insns@.len() - i,
    {
        let d = match arch {
            Arch::X86 => execute_x86(&insns[i], is_user),
            Arch::Arm => execute_arm(&insns[i], is_user),
        };
        match d {
            Ok(d) => {
                out.push(d);
            },
            Err(_) => {
                return Err(ClassificationError::UnclassifiableOperation);
            },
        }
        i = i + 1;
    }
    Ok(out)
}

/// Decodes a block of machine code with `cs` and classifies each of its
/// instructions, in order, for the architecture that `cs` decodes.
pub fn execute(cs: &Disassembler, inst_bytes: &[u8], is_user: bool) -> (r: Result<Vec<BreakdownData>, ClassificationError>)
    ensures
        r == Err::<Vec<BreakdownData>, ClassificationError>(ClassificationError::DecoderFailure) <==> !decodable(cs.spec_arch(), inst_bytes@),
        r matches Ok(v) ==> exists|ds: Seq<DecodedInsn>| #[trigger] decodes_to(cs.spec_arch(), inst_bytes@, ds) && ds.len() == v@.len()
            && forall|i: int| 0 <= i < ds.len() ==> classifies(cs.spec_arch(), #[trigger] ds[i], is_user, v@[i]),
        r matches Err(e) ==> e == ClassificationError::DecoderFailure || exists|ds: Seq<DecodedInsn>| #[trigger] decodes_to(cs.spec_arch(), inst_bytes@, ds)
            && exists|i: int| 0 <= i < ds.len() && !covered(cs.spec_arch(), #[trigger] ds[i]),
{
    let arch = cs.arch();
    let insns = match decode_block(cs, inst_bytes) {
        Some(d) => d,
        None => return Err(ClassificationError::DecoderFailure),
    };
    let r = classify_block(arch, &insns, is_user);
    proof {
        let ds = insns@;
        assert(decodes_to(arch, inst_bytes@, ds));
        if r is Ok {
            let v = r->Ok_0;
            assert(ds.len() == v@.len() && forall|i: int| 0 <= i < ds.len() ==> classifies(arch, #[trigger] ds[i], is_user, v@[i]));
        } else {
            let i = choose|i: int| 0 <= i < ds.len() && !covered(arch, #[trigger] ds[i]);
            assert(0 <= i < ds.len() && !covered(arch, ds[i]));
        }
    }
    r
}

/// Category precedence: groups that hit both the privileged and the crypto
/// tables file the instruction under the privileged category, whatever its
/// other groups and its mnemonic.
pub proof fn lemma_privileged_precedes_crypto(a: Arch, groups: Seq<Seq<char>>, mn: Seq<char>)
    requires
        any_hits(groups, privileged_groups()),
        any_hits(groups, crypto_groups(a)),
    ensures
        spec_group(spec_signals(a, groups, mn)) == GroupTypeEnum::CAT_PRIV,
{
}

} // verus!
