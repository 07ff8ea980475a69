use vstd::prelude::*;
use crate::text::{any_contains_any, any_hits, contains_any, hits, str_views, string_views};

verus! {

/// Instruction category. The declaration order gives each category's slot in
/// the per-mnemonic tables.
#[allow(non_camel_case_types)]
#[derive(Clone, Copy, Debug, PartialEq, Eq, Hash, Structural)]
pub enum GroupTypeEnum {
    CAT_MEM,
    CAT_BR,
    CAT_LOGIC,
    CAT_PRIV,
    CAT_FP,
    CAT_CRYPTO,
    CAT_OTHERS,
}

/// The architecture whose decoder produced an instruction.
#[derive(Clone, Copy, Debug, PartialEq, Eq, Structural)]
pub enum Arch {
    X86,
    Arm,
}

pub open spec fn spec_index(g: GroupTypeEnum) -> nat {
    match g {
        GroupTypeEnum::CAT_MEM => 0,
        GroupTypeEnum::CAT_BR => 1,
        GroupTypeEnum::CAT_LOGIC => 2,
        GroupTypeEnum::CAT_PRIV => 3,
        GroupTypeEnum::CAT_FP => 4,
        GroupTypeEnum::CAT_CRYPTO => 5,
        GroupTypeEnum::CAT_OTHERS => 6,
    }
}

pub open spec fn spec_from_index(i: nat) -> GroupTypeEnum {
    if i == 0 {
        GroupTypeEnum::CAT_MEM
    } else if i == 1 {
        GroupTypeEnum::CAT_BR
    } else if i == 2 {
        GroupTypeEnum::CAT_LOGIC
    } else if i == 3 {
        GroupTypeEnum::CAT_PRIV
    } else if i == 4 {
        GroupTypeEnum::CAT_FP
    } else if i == 5 {
        GroupTypeEnum::CAT_CRYPTO
    } else {
        GroupTypeEnum::CAT_OTHERS
    }
}

pub open spec fn spec_label(g: GroupTypeEnum) -> Seq<char> {
    match g {
        GroupTypeEnum::CAT_MEM => "MEM   "@,
        GroupTypeEnum::CAT_BR => "BR    "@,
        GroupTypeEnum::CAT_LOGIC => "LOGIC "@,
        GroupTypeEnum::CAT_PRIV => "PRIV  "@,
        GroupTypeEnum::CAT_FP => "FP    "@,
        GroupTypeEnum::CAT_CRYPTO => "CRYPTO"@,
        GroupTypeEnum::CAT_OTHERS => "OTHERS"@,
    }
}

impl GroupTypeEnum {
    /// Slot of the category in the per-mnemonic tables.
    pub fn index(&self) -> (r: usize)
        ensures
            r as nat == spec_index(*self),
            r < 7,
    {
        match *self {
            GroupTypeEnum::CAT_MEM => 0,
            GroupTypeEnum::CAT_BR => 1,
            GroupTypeEnum::CAT_LOGIC => 2,
            GroupTypeEnum::CAT_PRIV => 3,
            GroupTypeEnum::CAT_FP => 4,
            GroupTypeEnum::CAT_CRYPTO => 5,
            GroupTypeEnum::CAT_OTHERS => 6,
        }
    }

    /// Fixed-width label used in reports.
    pub fn get_str(&self) -> (r: &'static str)
        ensures
            r@ == spec_label(*self),
    {
        match *self {
            GroupTypeEnum::CAT_MEM => "MEM   ",
            GroupTypeEnum::CAT_BR => "BR    ",
            GroupTypeEnum::CAT_LOGIC => "LOGIC ",
            GroupTypeEnum::CAT_PRIV => "PRIV  ",
            GroupTypeEnum::CAT_FP => "FP    ",
            GroupTypeEnum::CAT_CRYPTO => "CRYPTO",
            GroupTypeEnum::CAT_OTHERS => "OTHERS",
        }
    }

    /// The category stored in slot `idx` of the per-mnemonic tables.
    pub fn from(idx: usize) -> (r: GroupTypeEnum)
        requires
            idx < 7,
        ensures
            r == spec_from_index(idx as nat),
            spec_index(r) == idx,
    {
        if idx == 0 {
            GroupTypeEnum::CAT_MEM
        } else if idx == 1 {
            GroupTypeEnum::CAT_BR
        } else if idx == 2 {
            GroupTypeEnum::CAT_LOGIC
        } else if idx == 3 {
            GroupTypeEnum::CAT_PRIV
        } else if idx == 4 {
            GroupTypeEnum::CAT_FP
        } else if idx == 5 {
            GroupTypeEnum::CAT_CRYPTO
        } else {
            GroupTypeEnum::CAT_OTHERS
        }
    }
}

// Rule tables. A group table entry matches a group name that contains it; a
// mnemonic table entry matches a mnemonic that contains it.

pub open spec fn privileged_groups() -> Seq<Seq<char>> {
    seq!["privilege"@]
}

pub open spec fn branch_groups(a: Arch) -> Seq<Seq<char>> {
    match a {
        Arch::X86 => seq!["jump"@, "ret"@, "branch_relative"@, "call"@],
        Arch::Arm => seq!["return"@, "branch_relative"@, "call"@, "jump"@],
    }
}

pub open spec fn simd_groups(a: Arch) -> Seq<Seq<char>> {
    match a {
        Arch::X86 => seq!["sse1"@, "sse2"@, "sse41"@, "sse42"@, "ssse3"@],
        Arch::Arm => seq!["neon"@],
    }
}

pub open spec fn fp_groups(a: Arch) -> Seq<Seq<char>> {
    match a {
        Arch::X86 => seq!["fpu"@],
        Arch::Arm => seq!["fparmv8"@],
    }
}

pub open spec fn crypto_groups(a: Arch) -> Seq<Seq<char>> {
    match a {
        Arch::X86 => seq!["adx"@, "aes"@, "pclmul"@],
        Arch::Arm => seq!["crypto"@],
    }
}

pub open spec fn other_groups(a: Arch) -> Seq<Seq<char>> {
    match a {
        Arch::X86 => seq!["not64bitmode"@, "fsgsbse"@],
        Arch::Arm => seq!["pointer"@],
    }
}

pub open spec fn mem_mnemonics(a: Arch) -> Seq<Seq<char>> {
    match a {
        Arch::X86 => seq!["mov"@, "ins"@, "stosd"@, "push"@, "pop"@, "leave"@],
        Arch::Arm => seq!["stp"@, "ldp"@, "ld"@, "st"@, "cas"@, "prfm"@, "swp"@],
    }
}

pub(crate) fn privileged_table() -> (r: Vec<&'static str>)
    ensures
        str_views(r@) == privileged_groups(),
{
    let r = vec!["privilege"];
    assert(str_views(r@) =~= privileged_groups());
    r
}

pub(crate) fn branch_table(a: Arch) -> (r: Vec<&'static str>)
    ensures
        str_views(r@) == branch_groups(a),
{
    let r = match a {
        Arch::X86 => vec!["jump", "ret", "branch_relative", "call"],
        Arch::Arm => vec!["return", "branch_relative", "call", "jump"],
    };
    assert(str_views(r@) =~= branch_groups(a));
    r
}

pub(crate) fn simd_table(a: Arch) -> (r: Vec<&'static str>)
    ensures
        str_views(r@) == simd_groups(a),
{
    let r = match a {
        Arch::X86 => vec!["sse1", "sse2", "sse41", "sse42", "ssse3"],
        Arch::Arm => vec!["neon"],
    };
    assert(str_views(r@) =~= simd_groups(a));
    r
}

pub(crate) fn fp_table(a: Arch) -> (r: Vec<&'static str>)
    ensures
        str_views(r@) == fp_groups(a),
{
    let r = match a {
        Arch::X86 => vec!["fpu"],
        Arch::Arm => vec!["fparmv8"],
    };
    assert(str_views(r@) =~= fp_groups(a));
    r
}

pub(crate) fn crypto_table(a: Arch) -> (r: Vec<&'static str>)
    ensures
        str_views(r@) == crypto_groups(a),
{
    let r = match a {
        Arch::X86 => vec!["adx", "aes", "pclmul"],
        Arch::Arm => vec!["crypto"],
    };
    assert(str_views(r@) =~= crypto_groups(a));
    r
}

pub(crate) fn others_table(a: Arch) -> (r: Vec<&'static str>)
    ensures
        str_views(r@) == other_groups(a),
{
    let r = match a {
        Arch::X86 => vec!["not64bitmode", "fsgsbse"],
        Arch::Arm => vec!["pointer"],
    };
    assert(str_views(r@) =~= other_groups(a));
    r
}

pub(crate) fn mem_table(a: Arch) -> (r: Vec<&'static str>)
    ensures
        str_views(r@) == mem_mnemonics(a),
{
    let r = match a {
        Arch::X86 => vec!["mov", "ins", "stosd", "push", "pop", "leave"],
        Arch::Arm => vec!["stp", "ldp", "ld", "st", "cas", "prfm", "swp"],
    };
    assert(str_views(r@) =~= mem_mnemonics(a));
    r
}

} // verus!
