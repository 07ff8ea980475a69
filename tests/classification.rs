use trace_breakdown::{
    classify_arm, classify_block, execute_arm, execute_x86, extract_data, extract_memops_arm,
    extract_memops_x86, simd_width, Access, Arch, ClassificationError, DecodedInsn, GroupTypeEnum,
    Operand, OperandKind,
};

fn insn(mnemonic: &str, text: &str, groups: &[&str], operands: Vec<Operand>, length: usize) -> DecodedInsn {
    DecodedInsn {
        mnemonic: mnemonic.to_string(),
        text: text.to_string(),
        groups: groups.iter().map(|g| g.to_string()).collect(),
        operands,
        length,
    }
}

fn mem(access: Access) -> Operand {
    Operand { kind: OperandKind::Memory, access }
}

fn reg() -> Operand {
    Operand { kind: OperandKind::Register, access: Access::ReadOnly }
}

#[test]
fn push_without_operands_stores_once() {
    let i = insn("push", "0x0: push rbp", &[], vec![], 1);
    let d = execute_x86(&i, true).unwrap();
    assert_eq!((d.loads, d.stores), (0, 1));
    assert!(d.has_mem && !d.has_both_mem && !d.has_multi_mem);
    assert_eq!(d.group, GroupTypeEnum::CAT_MEM);
}

#[test]
fn pop_loads_once_whatever_its_operands() {
    let i = insn("pop", "0x0: pop qword ptr [rax]", &[], vec![mem(Access::WriteOnly), reg()], 2);
    let d = execute_x86(&i, false).unwrap();
    assert_eq!((d.loads, d.stores), (1, 0));
    assert!(!d.is_user);
}

#[test]
fn x86_access_directions() {
    let ro = insn("mov", "0x0: mov rax, qword ptr [rbx]", &[], vec![reg(), mem(Access::ReadOnly)], 3);
    assert_eq!(extract_memops_x86(&ro).unwrap(), (1, 0));
    let wo = insn("mov", "0x0: mov qword ptr [rbx], rax", &[], vec![mem(Access::WriteOnly), reg()], 3);
    assert_eq!(extract_memops_x86(&wo).unwrap(), (0, 1));
    let rw = insn("add", "0x0: add dword ptr [rbx], 1", &[], vec![mem(Access::ReadWrite)], 3);
    let d = execute_x86(&rw, true).unwrap();
    assert_eq!((d.loads, d.stores), (1, 1));
    assert!(d.has_both_mem && d.has_multi_mem);
}

#[test]
fn x86_fallback_rules_for_unknown_access() {
    let movzx = insn("movzx", "0x0: movzx eax, byte ptr [rbx]", &[], vec![reg(), mem(Access::Unknown)], 3);
    assert_eq!(extract_memops_x86(&movzx).unwrap(), (1, 1));
    let cvt = insn("cvtsi2sd", "0x0: cvtsi2sd xmm0, dword ptr [rax]", &[], vec![reg(), mem(Access::Unknown)], 4);
    assert_eq!(extract_memops_x86(&cvt).unwrap(), (1, 0));
    let outs = insn("outsb", "0x0: outsb dx, byte ptr [rsi]", &[], vec![reg(), mem(Access::Unknown)], 1);
    assert_eq!(extract_memops_x86(&outs).unwrap(), (0, 1));
    let outs_known = insn("outsb", "0x0: outsb dx, byte ptr [rsi]", &[], vec![reg(), mem(Access::ReadOnly)], 1);
    assert_eq!(extract_memops_x86(&outs_known).unwrap(), (1, 0));
    let test = insn("test", "0x0: test byte ptr [rax], 1", &[], vec![mem(Access::ReadOnly)], 3);
    assert_eq!(extract_memops_x86(&test).unwrap(), (1, 0));
}

#[test]
fn x86_unknown_access_without_rule_is_an_error() {
    let i = insn("xadd", "0x0: xadd dword ptr [rax], ecx", &[], vec![mem(Access::Unknown), reg()], 4);
    assert_eq!(extract_memops_x86(&i).unwrap_err(), ClassificationError::UnclassifiableOperation);
    assert!(execute_x86(&i, true).is_err());
}

#[test]
fn x86_memory_operand_without_pointer_marker() {
    let lea = insn("lea", "0x0: lea rax, [rbx + 8]", &[], vec![reg(), mem(Access::Unknown)], 4);
    assert_eq!(extract_memops_x86(&lea).unwrap(), (1, 0));
    let sgdt = insn("sgdt", "0x0: sgdt [rax]", &["privilege"], vec![mem(Access::Unknown)], 3);
    let d = execute_x86(&sgdt, false).unwrap();
    assert_eq!((d.loads, d.stores), (0, 1));
    assert_eq!(d.group, GroupTypeEnum::CAT_PRIV);
    let other = insn("nopw", "0x0: nopw [rax]", &[], vec![mem(Access::Unknown)], 4);
    assert!(extract_memops_x86(&other).is_err());
}

#[test]
fn x86_pointer_marker_without_access_is_an_error() {
    let i = insn("nop", "0x0: nop dword ptr [rax]", &[], vec![reg()], 4);
    assert!(extract_memops_x86(&i).is_err());
}

#[test]
fn x86_register_only_instruction() {
    let i = insn("add", "0x0: add rax, rbx", &[], vec![reg(), reg()], 3);
    let d = execute_x86(&i, true).unwrap();
    assert_eq!((d.loads, d.stores), (0, 0));
    assert!(!d.has_mem);
    assert_eq!(d.group, GroupTypeEnum::CAT_LOGIC);
    assert_eq!(d.mnemonic, "add");
    assert_eq!(d.byte_len, 3);
}

#[test]
fn privileged_precedes_crypto() {
    let i = insn("aesenc", "0x0: aesenc xmm0, xmm1", &["privilege", "aes", "sse2"], vec![reg(), reg()], 5);
    let d = execute_x86(&i, false).unwrap();
    assert_eq!(d.group, GroupTypeEnum::CAT_PRIV);
    assert!(d.is_priviledge && d.is_crypto);
    let (g, s) = extract_data(Arch::Arm, &vec!["crypto".to_string(), "privilege".to_string()], "aese");
    assert_eq!(g, GroupTypeEnum::CAT_PRIV);
    assert!(s.is_crypto && s.is_priviledge);
}

#[test]
fn category_precedence_order() {
    let groups = |v: &[&str]| v.iter().map(|g| g.to_string()).collect::<Vec<String>>();
    assert_eq!(extract_data(Arch::X86, &groups(&["aes", "sse2"]), "aesenc").0, GroupTypeEnum::CAT_CRYPTO);
    assert_eq!(extract_data(Arch::X86, &groups(&["sse2", "jump"]), "movq").0, GroupTypeEnum::CAT_FP);
    assert_eq!(extract_data(Arch::X86, &groups(&["call"]), "call").0, GroupTypeEnum::CAT_BR);
    assert_eq!(extract_data(Arch::X86, &groups(&["not64bitmode"]), "movsb").0, GroupTypeEnum::CAT_MEM);
    assert_eq!(extract_data(Arch::X86, &groups(&["not64bitmode"]), "aaa").0, GroupTypeEnum::CAT_OTHERS);
    assert_eq!(extract_data(Arch::X86, &groups(&[]), "xor").0, GroupTypeEnum::CAT_LOGIC);
}

#[test]
fn x86_display_mnemonics() {
    let fp = insn("fadd", "0x0: fadd st(1)", &["fpu"], vec![reg()], 2);
    let d = execute_x86(&fp, true).unwrap();
    assert_eq!(d.mnemonic, "fp fadd");
    assert_eq!(d.group, GroupTypeEnum::CAT_FP);
    assert!(d.is_fp);
    let simd = insn("paddd", "0x0: paddd xmm0, xmm1", &["sse2"], vec![reg(), reg()], 4);
    let d = execute_x86(&simd, true).unwrap();
    assert_eq!(d.mnemonic, "simd paddd");
    assert_eq!(d.group, GroupTypeEnum::CAT_FP);
}

#[test]
fn arm_prefix_rules() {
    let cases: Vec<(&str, (usize, usize))> = vec![
        ("stp", (0, 2)),
        ("str", (0, 1)),
        ("ldp", (2, 0)),
        ("ldr", (1, 0)),
        ("casal", (1, 1)),
        ("swp", (1, 1)),
        ("prfm", (1, 0)),
    ];
    for (mn, expected) in cases {
        let i = insn(mn, "0x0: op x0, [x1]", &[], vec![reg(), mem(Access::Unknown)], 4);
        assert_eq!(extract_memops_arm(&i).unwrap(), expected, "{}", mn);
    }
}

#[test]
fn arm_memory_operand_without_rule_is_an_error() {
    let i = insn("dc", "0x0: dc zva, [x0]", &[], vec![mem(Access::Unknown)], 4);
    assert_eq!(extract_memops_arm(&i).unwrap_err(), ClassificationError::UnclassifiableOperation);
    let ok = insn("add", "0x0: add x0, x1, x2", &[], vec![reg(), reg(), reg()], 4);
    assert_eq!(extract_memops_arm(&ok).unwrap(), (0, 0));
}

#[test]
fn arm_facts_and_fixed_length() {
    let i = insn("ldp", "0x0: ldp x29, x30, [sp], #0x10", &[], vec![reg(), reg(), mem(Access::Unknown)], 4);
    let d = execute_arm(&i, true).unwrap();
    assert_eq!((d.loads, d.stores), (2, 0));
    assert_eq!(d.byte_len, 4);
    assert!(d.has_multi_mem && !d.has_both_mem);
    assert_eq!(d.group, GroupTypeEnum::CAT_MEM);
    let br = insn("ret", "0x0: ret", &["return", "jump"], vec![], 4);
    let d = execute_arm(&br, false).unwrap();
    assert_eq!(d.group, GroupTypeEnum::CAT_BR);
    assert!(d.is_br);
}

#[test]
fn arm_simd_width_and_display() {
    let i = insn("mul", "0x0: MUL V0.4S, V1.4S, V2.4S", &["neon"], vec![reg(), reg(), reg()], 4);
    let d = execute_arm(&i, true).unwrap();
    assert_eq!(d.mnemonic, "simd mul.s");
    assert_eq!(d.group, GroupTypeEnum::CAT_FP);
    let d = classify_arm(&i, "0x0: mul v0.8h, v1.8h, v2.8h", true).unwrap();
    assert_eq!(d.mnemonic, "simd mul.h");
    assert_eq!(simd_width("0x0: add v0.2d, v1.2d"), Some("d"));
    assert_eq!(simd_width("0x0: cnt v0.8b, v1.8b"), Some("b"));
    assert_eq!(simd_width("0x0: mov v0.4s"), Some("s"));
    assert_eq!(simd_width("0x0: nop"), None);
}

#[test]
fn arm_simd_without_width_is_an_error() {
    let i = insn("mvn", "0x0: mvn v0.16", &["neon"], vec![reg()], 4);
    assert_eq!(classify_arm(&i, "0x0: mvn v0.16", true).unwrap_err(), ClassificationError::UnclassifiableOperation);
}

#[test]
fn arm_fp_display_wins_over_simd() {
    let i = insn("fmul", "0x0: fmul d0, d1, d2", &["fparmv8", "neon"], vec![reg(), reg(), reg()], 4);
    let d = execute_arm(&i, true).unwrap();
    assert_eq!(d.mnemonic, "fp fmul");
}

#[test]
fn block_classification_is_total() {
    let block = vec![
        insn("push", "0x0: push rbp", &[], vec![], 1),
        insn("mov", "0x1: mov rbp, rsp", &[], vec![reg(), reg()], 3),
        insn("mov", "0x4: mov dword ptr [rbp - 4], edi", &[], vec![mem(Access::WriteOnly), reg()], 3),
        insn("call", "0x7: call 0x100", &["call", "branch_relative"], vec![], 5),
        insn("ret", "0xc: ret", &["ret"], vec![], 1),
    ];
    let facts = classify_block(Arch::X86, &block, true).unwrap();
    assert_eq!(facts.len(), 5);
    assert_eq!(facts[2].stores, 1);
    assert_eq!(facts[3].group, GroupTypeEnum::CAT_BR);
    let mut bad = block.clone();
    bad.push(insn("xadd", "0xd: xadd dword ptr [rax], ecx", &[], vec![mem(Access::Unknown)], 4));
    assert_eq!(classify_block(Arch::X86, &bad, true).unwrap_err(), ClassificationError::UnclassifiableOperation);
    assert!(classify_block(Arch::Arm, &vec![], true).unwrap().is_empty());
}
