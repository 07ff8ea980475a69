use vstd::prelude::*;
use capstone::arch::arm64::Arm64OperandType;
use capstone::arch::x86::X86OperandType;
use capstone::arch::{BuildsCapstone, DetailsArchInsn};
use capstone::{Capstone, Instructions, InsnGroupId, RegAccessType};
use crate::category::Arch;
use crate::insn::{Access, DecodedInsn, Operand, OperandKind};
use crate::text::{has_prefix, starts_with};

verus! {

#[verifier::external_type_specification]
#[verifier::external_body]
pub struct ExCapstone(capstone::Capstone);

#[verifier::external_type_specification]
#[verifier::external_body]
pub struct ExInstructions<'a>(capstone::Instructions<'a>);

#[verifier::external_type_specification]
#[verifier::external_body]
pub struct ExInsn<'a>(capstone::Insn<'a>);

/// One instruction as capstone lists it: mnemonic, textual rendering,
/// encoded length, and, where capstone has the instruction's detail, its
/// group ids and its operands.
pub type RawInsn = (Seq<char>, Seq<char>, nat, Option<(Seq<u8>, Seq<Operand>)>);

/// What capstone's `disasm_all` gives for `code` placed at address 0, with
/// a disassembler in the mode of `arch` and details on; `None` where it
/// fails.
pub uninterp spec fn disassembly(arch: Arch, code: Seq<u8>) -> Option<Seq<RawInsn>>;

/// The instructions that capstone's `Instructions` value holds.
pub uninterp spec fn listing(insts: Instructions) -> Seq<RawInsn>;

/// The name that capstone's `group_name` gives to group `id` in the mode of
/// `arch`, if any.
pub uninterp spec fn group_label(arch: Arch, id: u8) -> Option<Seq<char>>;

/// A capstone disassembler with instruction details on, and the
/// architecture it decodes.
pub struct Disassembler {
    arch: Arch,
    cs: Capstone,
}

impl Disassembler {
    pub closed spec fn spec_arch(&self) -> Arch {
        self.arch
    }

    /// The architecture this disassembler decodes.
    pub fn arch(&self) -> (r: Arch)
        ensures
            r == self.spec_arch(),
    {
        self.arch
    }
}

/// The instructions decoded from one block, with the disassembler that
/// decoded them.
struct Block<'a> {
    arch: Arch,
    cs: &'a Capstone,
    insts: Instructions<'a>,
}

/// Relies on capstone's builder (`Capstone::new`, `x86` or `arm64`, `mode`,
/// `detail`, `build`): a 64-bit x86 or AArch64 disassembler with instruction
/// details on; `None` where `build` fails.
#[verifier::external_body]
pub fn get_capstone(arch: Arch) -> (r: Option<Disassembler>)
    ensures
        r matches Some(d) ==> d.spec_arch() == arch,
{
    let cs = match arch {
        Arch::X86 => Capstone::new().x86().mode(capstone::arch::x86::ArchMode::Mode64).detail(true).build(),
        Arch::Arm => Capstone::new().arm64().mode(capstone::arch::arm64::ArchMode::Arm).detail(true).build(),
    };
    match cs {
        Ok(cs) => Some(Disassembler { arch, cs }),
        Err(_) => None,
    }
}

/// Relies on `Capstone::disasm_all`: the instructions decoded from `code`
/// placed at address 0; `None` where decoding fails.
#[verifier::external_body]
fn disasm<'a>(d: &'a Disassembler, code: &[u8]) -> (r: Option<Block<'a>>)
    ensures
        r is Some <==> disassembly(d.arch, code@) is Some,
        r matches Some(b) ==> b.arch == d.arch && disassembly(d.arch, code@) == Some(listing(b.insts)),
{
    let insts = d.cs.disasm_all(code, 0).ok()?;
    Some(Block { arch: d.arch, cs: &d.cs, insts })
}

/// Relies on the slice that `Instructions` dereferences to: its length.
#[verifier::external_body]
fn insn_count(b: &Block) -> (r: usize)
    ensures
        r == listing(b.insts).len(),
{
    b.insts.len()
}

/// Relies on `Insn::mnemonic` (empty where capstone gives none).
#[verifier::external_body]
fn mnemonic_at(b: &Block, i: usize) -> (r: String)
    requires
        i < listing(b.insts).len(),
    ensures
        r@ == listing(b.insts)[i as int].0,
{
    b.insts[i].mnemonic().unwrap_or("").to_string()
}

/// Relies on `Insn`'s `Display`: address, mnemonic and operand string.
#[verifier::external_body]
fn rendering_at(b: &Block, i: usize) -> (r: String)
    requires
        i < listing(b.insts).len(),
    ensures
        r@ == listing(b.insts)[i as int].1,
{
    format!("{}", b.insts[i])
}

/// Relies on `Insn::len`: the encoded size in bytes.
#[verifier::external_body]
fn length_at(b: &Block, i: usize) -> (r: usize)
    requires
        i < listing(b.insts).len(),
    ensures
        r == listing(b.insts)[i as int].2,
{
    b.insts[i].len()
}

/// Relies on `Capstone::insn_detail` and `InsnDetail::groups`: the group ids
/// of instruction `i`; `None` where capstone has no detail for it.
#[verifier::external_body]
fn group_ids_at(b: &Block, i: usize) -> (r: Option<Vec<u8>>)
    requires
        i < listing(b.insts).len(),
    ensures
        r is Some <==> listing(b.insts)[i as int].3 is Some,
        r matches Some(g) ==> g@ == listing(b.insts)[i as int].3->Some_0.0,
{
    let d = b.cs.insn_detail(&b.insts[i]).ok()?;
    Some(d.groups().iter().map(|g| g.0).collect())
}

/// Relies on `Capstone::group_name`: the name of group `id`, if any.
#[verifier::external_body]
fn group_name(b: &Block, id: u8) -> (r: Option<String>)
    ensures
        r is Some <==> group_label(b.arch, id) is Some,
        r matches Some(n) ==> n@ == group_label(b.arch, id)->Some_0,
{
    b.cs.group_name(InsnGroupId(id))
}

/// Relies on `Capstone::insn_detail` and the operand iterator of the
/// architecture's detail: the number of operands of instruction `i`; `None`
/// where capstone has no detail for it.
#[verifier::external_body]
fn operand_count_at(b: &Block, i: usize) -> (r: Option<usize>)
    requires
        i < listing(b.insts).len(),
    ensures
        r is Some <==> listing(b.insts)[i as int].3 is Some,
        r matches Some(n) ==> n == listing(b.insts)[i as int].3->Some_0.1.len(),
{
    let d = b.cs.insn_detail(&b.insts[i]).ok()?;
    let ad = d.arch_detail();
    let n = match b.arch {
        Arch::X86 => match ad.x86() {
            Some(x) => x.operands().len(),
            None => 0,
        },
        Arch::Arm => match ad.arm64() {
            Some(a) => a.operands().len(),
            None => 0,
        },
    };
    Some(n)
}

/// Relies on `Capstone::insn_detail` and the x86 operand iterator: operand
/// `k` of instruction `i`, with its kind and its access direction (`Unknown`
/// where capstone gives none).
#[verifier::external_body]
fn x86_operand_at(b: &Block, i: usize, k: usize) -> (r: Option<Operand>)
    requires
        i < listing(b.insts).len(),
        listing(b.insts)[i as int].3 matches Some(det) && k < det.1.len(),
        b.arch == Arch::X86,
    ensures
        r == Some(listing(b.insts)[i as int].3->Some_0.1[k as int]),
{
    let d = b.cs.insn_detail(&b.insts[i]).ok()?;
    let op = d.arch_detail().x86()?.operands().nth(k)?;
    let kind = match op.op_type {
        X86OperandType::Reg(_) => OperandKind::Register,
        X86OperandType::Imm(_) => OperandKind::Immediate,
        X86OperandType::Mem(_) => OperandKind::Memory,
        X86OperandType::Invalid => OperandKind::Other,
    };
    let access = match op.access {
        Some(RegAccessType::ReadOnly) => Access::ReadOnly,
        Some(RegAccessType::WriteOnly) => Access::WriteOnly,
        Some(RegAccessType::ReadWrite) => Access::ReadWrite,
        None => Access::Unknown,
    };
    Some(Operand { kind, access })
}

/// Relies on `Capstone::insn_detail` and the AArch64 operand iterator: the
/// kind of operand `k` of instruction `i`; capstone reports no access
/// direction for these.
#[verifier::external_body]
fn arm_operand_at(b: &Block, i: usize, k: usize) -> (r: Option<Operand>)
    requires
        i < listing(b.insts).len(),
        listing(b.insts)[i as int].3 matches Some(det) && k < det.1.len(),
        b.arch == Arch::Arm,
    ensures
        r == Some(listing(b.insts)[i as int].3->Some_0.1[k as int]),
{
    let d = b.cs.insn_detail(&b.insts[i]).ok()?;
    let op = d.arch_detail().arm64()?.operands().nth(k)?;
    let kind = match op.op_type {
        Arm64OperandType::Reg(_) => OperandKind::Register,
        Arm64OperandType::Imm(_) => OperandKind::Immediate,
        Arm64OperandType::Cimm(_) => OperandKind::Immediate,
        Arm64OperandType::Mem(_) => OperandKind::Memory,
        _ => OperandKind::Other,
    };
    Some(Operand { kind, access: Access::Unknown })
}

/// Names of the groups `ids`, in order, leaving out ids without a name and
/// the decoding-mode groups (names that start with `mode`).
pub open spec fn labels(arch: Arch, ids: Seq<u8>) -> Seq<Seq<char>>
    decreases ids.len(),
{
    if ids.len() == 0 {
        Seq::empty()
    } else {
        let rest = labels(arch, ids.drop_last());
        match group_label(arch, ids.last()) {
            Some(n) => if has_prefix(n, "mode"@) {
                rest
            } else {
                rest.push(n)
            },
            None => rest,
        }
    }
}

/// `d` is the instruction `raw` as the library holds it.
pub open spec fn decoded_as(arch: Arch, raw: RawInsn, d: DecodedInsn) -> bool {
    &&& raw.3 is Some
    &&& d.mnemonic@ == raw.0
    &&& d.text@ == raw.1
    &&& d.length == raw.2
    &&& d.group_views() == labels(arch, raw.3->Some_0.0)
    &&& d.operands@ == raw.3->Some_0.1
}

/// Capstone decodes `code`, with the detail of every instruction.
pub open spec fn decodable(arch: Arch, code: Seq<u8>) -> bool {
    disassembly(arch, code) matches Some(raws) && forall|i: int| 0 <= i < raws.len() ==> (#[trigger] raws[i]).3 is Some
}

/// `ds` are the instructions that capstone decodes from `code`, in order.
pub open spec fn decodes_to(arch: Arch, code: Seq<u8>, ds: Seq<DecodedInsn>) -> bool {
    disassembly(arch, code) matches Some(raws) && raws.len() == ds.len() && forall|i: int|
        0 <= i < ds.len() ==> decoded_as(arch, #[trigger] raws[i], ds[i])
}

fn group_names(b: &Block, ids: &Vec<u8>) -> (r: Vec<String>)
    ensures
        crate::text::string_views(r@) == labels(b.arch, ids@),
{
    let mut names: Vec<String> = Vec::new();
    let mut k: usize = 0;
    while k < ids.len()
        invariant
            k <= ids@.len(),
            crate::text::string_views(names@) == labels(b.arch, ids@.take(k as int)),
        decreases ids@.len() - k,
    {
        proof {
            assert(ids@.take(k + 1).drop_last() =~= ids@.take(k as int));
            assert(ids@.take(k + 1).last() == ids@[k as int]);
        }
        let ghost before = names@;
        match group_name(b, ids[k]) {
            Some(n) => {
                if !starts_with(n.as_str(), "mode") {
                    names.push(n);
                    assert(crate::text::string_views(names@) =~= crate::text::string_views(before).push(n@));
                }
            },
            None => {},
        }
        k = k + 1;
    }
    assert(ids@.take(k as int) =~= ids@);
    names
}

/// The instructions that `d` decodes from `code`, in order; `None` where
/// capstone fails on the block or has no detail for one of its instructions.
pub fn decode_block(d: &Disassembler, code: &[u8]) -> (r: Option<Vec<DecodedInsn>>)
    ensures
        r is Some <==> decodable(d.spec_arch(), code@),
        r matches Some(v) ==> decodes_to(d.spec_arch(), code@, v@),
{
    let b = match disasm(d, code) {
        Some(b) => b,
        None => return None,
    };
    let ghost raws = listing(b.insts);
    let n = insn_count(&b);
    let mut out: Vec<DecodedInsn> = Vec::new();
    let mut i: usize = 0;
    while i < n
        invariant
            i <= n,
            n == raws.len(),
            raws == listing(b.insts),
            b.arch == d.arch,
            disassembly(d.arch, code@) == Some(raws),
            out@.len() == i,
            forall|j: int| 0 <= j < i ==> decoded_as(b.arch, raws[j], #[trigger] out@[j]),
        decreases n - i,
    {
        let ids = match group_ids_at(&b, i) {
            Some(g) => g,
            None => {
                assert(!((#[trigger] raws[i as int]).3 is Some));
                return None;
            },
        };
        let count = match operand_count_at(&b, i) {
            Some(c) => c,
            None => return None,
        };
        let ghost ops_spec = raws[i as int].3->Some_0.1;
        let mut operands: Vec<Operand> = Vec::new();
        let mut k: usize = 0;
        while k < count
            invariant
                k <= count,
                i < n,
                n == raws.len(),
                raws == listing(b.insts),
                raws[i as int].3 is Some,
                ops_spec == raws[i as int].3->Some_0.1,
                count == ops_spec.len(),
                operands@ == ops_spec.take(k as int),
            decreases count - k,
        {
            let op = match b.arch {
                Arch::X86 => x86_operand_at(&b, i, k),
                Arch::Arm => arm_operand_at(&b, i, k),
            };
            match op {
                Some(o) => operands.push(o),
                None => return None,
            }
            assert(operands@ =~= ops_spec.take(k + 1));
            k = k + 1;
        }
        assert(operands@ =~= ops_spec);
        let insn = DecodedInsn {
            mnemonic: mnemonic_at(&b, i),
            text: rendering_at(&b, i),
            groups: group_names(&b, &ids),
            operands,
            length: length_at(&b, i),
        };
        out.push(insn);
        assert(decoded_as(b.arch, raws[i as int], out@[i as int]));
        i = i + 1;
    }
    assert forall|j: int| 0 <= j < raws.len() implies (#[trigger] raws[j]).3 is Some by {
        assert(decoded_as(b.arch, raws[j], out@[j]));
    }
    Some(out)
}

} // verus!
