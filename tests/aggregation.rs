use trace_breakdown::{
    arm_extra_uops, count_other_uops, execute_x86, extract_uops_extra_others, extract_uops_mem_arm, Access, Breakdown,
    BreakdownCategories, BreakdownData, DecodedInsn, GroupTypeEnum, Operand, OperandKind,
};

fn facts(mnemonic: &str, group: GroupTypeEnum, is_user: bool, byte_len: usize, loads: usize, stores: usize, is_br: bool) -> BreakdownData {
    BreakdownData {
        mnemonic: mnemonic.to_string(),
        group,
        is_user,
        byte_len,
        loads,
        stores,
        is_br,
        is_priviledge: false,
        is_mem: loads + stores > 0,
        is_fp: false,
        is_crypto: false,
        has_both_mem: loads >= 1 && stores >= 1,
        has_mem: loads + stores >= 1,
        has_multi_mem: loads + stores >= 2,
    }
}

fn sample_a() -> Vec<(BreakdownData, usize)> {
    vec![
        (facts("mov", GroupTypeEnum::CAT_MEM, true, 3, 1, 0, false), 2),
        (facts("add", GroupTypeEnum::CAT_LOGIC, false, 4, 0, 0, false), 1),
        (facts("mov", GroupTypeEnum::CAT_MEM, false, 7, 0, 1, false), 5),
    ]
}

fn sample_b() -> Vec<(BreakdownData, usize)> {
    vec![
        (facts("jmp", GroupTypeEnum::CAT_BR, true, 2, 1, 0, true), 3),
        (facts("mov", GroupTypeEnum::CAT_MEM, true, 3, 1, 1, false), 1),
    ]
}

fn fold(xs: &[(BreakdownData, usize)]) -> BreakdownCategories {
    let mut t = BreakdownCategories::new();
    for (d, n) in xs {
        assert!(t.can_update(d, *n));
        t.update_breakdown(d, *n);
    }
    t
}

fn conserved(b: &Breakdown) -> bool {
    let sides = [b.user, b.sys];
    let flags = [b.is_br, b.is_mem, b.is_fp, b.is_crypto, b.is_priviledge, b.with_both, b.mem_branch, b.has_multi_mem];
    b.tot == b.user + b.sys
        && flags.iter().all(|f| f[0] <= sides[0] && f[1] <= sides[1])
        && (0..13).all(|k| b.byte_sizes[0][k] <= sides[0] && b.byte_sizes[1][k] <= sides[1])
}

#[test]
fn fold_scales_by_repeat_count() {
    let mut b = Breakdown::new();
    let d = facts("mov", GroupTypeEnum::CAT_MEM, true, 3, 1, 1, false);
    b.update(&d, 4);
    assert_eq!(b.tot, 4);
    assert_eq!(b.user, 4);
    assert_eq!(b.sys, 0);
    assert_eq!(b.tot_load, [4, 0]);
    assert_eq!(b.tot_store, [4, 0]);
    assert_eq!(b.with_both, [4, 0]);
    assert_eq!(b.has_multi_mem, [4, 0]);
    assert_eq!(b.byte_sizes[0][3], 4);
    assert_eq!(b.is_br, [0, 0]);
}

#[test]
fn kernel_facts_go_to_slot_one() {
    let mut b = Breakdown::new();
    let d = facts("jmp", GroupTypeEnum::CAT_BR, false, 2, 1, 0, true);
    b.update(&d, 1);
    assert_eq!((b.user, b.sys), (0, 1));
    assert_eq!(b.is_br, [0, 1]);
    assert_eq!(b.mem_branch, [0, 1]);
    assert_eq!(b.byte_sizes[1][2], 1);
}

#[test]
fn counters_are_conserved_after_every_fold() {
    let mut t = BreakdownCategories::new();
    for (d, n) in sample_a().iter().chain(sample_b().iter()) {
        t.update_breakdown(d, *n);
        for g in 0..7 {
            if let Some(b) = t.group_stats(GroupTypeEnum::from(g)) {
                assert!(conserved(&b));
            }
        }
    }
    let mem = t.group_stats(GroupTypeEnum::CAT_MEM).unwrap();
    assert_eq!(mem.tot, 8);
    assert_eq!((mem.user, mem.sys), (3, 5));
}

#[test]
fn buckets_are_created_lazily() {
    let t = fold(&sample_a());
    assert!(t.group_stats(GroupTypeEnum::CAT_BR).is_none());
    assert!(t.group_stats(GroupTypeEnum::CAT_MEM).is_some());
    assert_eq!(t.n_mnemonics(), 2);
    let mov = t.mnemonic_stats(GroupTypeEnum::CAT_MEM, &"mov".to_string()).unwrap();
    assert_eq!(mov.tot, 7);
    assert_eq!(mov.tot_load, [2, 0]);
    assert_eq!(mov.tot_store, [0, 5]);
    assert!(t.mnemonic_stats(GroupTypeEnum::CAT_LOGIC, &"mov".to_string()).is_none());
}

#[test]
fn merge_equals_folding_the_concatenation() {
    let mut a = fold(&sample_a());
    let b = fold(&sample_b());
    let mut all = sample_a();
    all.extend(sample_b());
    let whole = fold(&all);
    assert!(a.can_merge(&b));
    a.merge(&b);
    assert_eq!(a.get_log_stats(true), whole.get_log_stats(true));
}

#[test]
fn merge_order_does_not_change_counters() {
    let mut ab = fold(&sample_a());
    ab.merge(&fold(&sample_b()));
    let mut ba = fold(&sample_b());
    ba.merge(&fold(&sample_a()));
    for g in 0..7 {
        let g = GroupTypeEnum::from(g);
        assert_eq!(ab.group_stats(g), ba.group_stats(g));
        for m in ["mov", "add", "jmp"] {
            assert_eq!(ab.mnemonic_stats(g, &m.to_string()), ba.mnemonic_stats(g, &m.to_string()));
        }
    }
}

#[test]
fn report_lines_are_exact() {
    let mut t = BreakdownCategories::new();
    t.update_breakdown(&facts("jmp", GroupTypeEnum::CAT_BR, true, 2, 1, 0, true), 3);
    let stats = "tot  ,3,3,0,3,3,0,0,0,0,3,0,user,3,3,0,3,3,0,0,0,0,3,0,os   ,0,0,0,0,0,0,0,0,0,0,0,";
    let expected = format!(
        "Groups:\nBR    ,{stats}\nStats:\nMEM   :\nBR    :\n\"jmp\",{stats}\nLOGIC :\nPRIV  :\nFP    :\nCRYPTO:\nOTHERS:\n"
    );
    assert_eq!(t.get_log_stats(false), expected);
    let with_bytes = t.get_log_stats(true);
    assert!(with_bytes.starts_with(&expected));
    assert!(with_bytes.ends_with(
        "ByteDist:\nMEM   :\nBR    :\n\"jmp\",user,0,3,0,0,0,0,0,0,0,0,0,0,os  ,0,0,0,0,0,0,0,0,0,0,0,0,\nLOGIC :\nPRIV  :\nFP    :\nCRYPTO:\nOTHERS:\n"
    ));
}

#[test]
fn breakdown_lines() {
    let mut b = Breakdown::new();
    b.update(&facts("mov", GroupTypeEnum::CAT_MEM, false, 12, 2, 1, false), 10);
    assert_eq!(b.print_stats_tot(), "tot  ,10,20,10,0,10,0,0,0,10,0,10,");
    assert_eq!(b.print_stats_user(), "user,0,0,0,0,0,0,0,0,0,0,0,");
    assert_eq!(b.print_stats_sys(), "os   ,10,20,10,0,10,0,0,0,10,0,10,");
    assert_eq!(b.print_byte_dist(1), "os  ,0,0,0,0,0,0,0,0,0,0,0,10,");
}

#[test]
fn update_that_would_overflow_is_detected() {
    let mut t = BreakdownCategories::new();
    let d = facts("mov", GroupTypeEnum::CAT_MEM, true, 3, 2, 0, false);
    assert!(!t.can_update(&d, usize::MAX));
    let long = facts("vpxor", GroupTypeEnum::CAT_FP, true, 13, 0, 0, false);
    assert!(!t.can_update(&long, 1));
    t.update_breakdown(&d, 1);
    assert!(t.can_update(&d, 1));
}

#[test]
fn other_uop_count_from_pattern_results() {
    assert_eq!(count_other_uops("add", "0x0: add x0, x1, x2, lsl #2", true, false), Some(1));
    assert_eq!(count_other_uops("add", "0x0: add x0, x1, x2", true, false), None);
    assert_eq!(count_other_uops("lsl", "0x0: lsl x0, x1, #2", true, false), Some(0));
    assert_eq!(count_other_uops("orr", "0x0: orr x0, x1, #0xf0", false, true), Some(1));
    assert_eq!(count_other_uops("bfm", "0x0: bfm x0, x1, #1, #2", false, false), Some(1));
    assert_eq!(count_other_uops("eor", "0x0: eor x0, x1, x2, ror #3", true, false), Some(1));
}

#[test]
fn merge_guard_rejects_overflow() {
    let mut a = BreakdownCategories::new();
    a.update_breakdown(&facts("mov", GroupTypeEnum::CAT_MEM, true, 3, 1, 0, false), usize::MAX - 1);
    let mut b = BreakdownCategories::new();
    b.update_breakdown(&facts("mov", GroupTypeEnum::CAT_MEM, true, 3, 1, 0, false), 2);
    assert!(!a.can_merge(&b));
    let c = BreakdownCategories::new();
    assert!(a.can_merge(&c));
}

#[test]
fn memory_uop_estimate() {
    assert_eq!(extract_uops_mem_arm("0x0: ldr x0, [x1, #8]!"), 1);
    assert_eq!(extract_uops_mem_arm("0x0: ldr x0, [x1], #8"), 1);
    assert_eq!(extract_uops_mem_arm("0x0: ldr x0, [x1]"), 0);
}

#[test]
fn other_uop_estimate() {
    assert_eq!(extract_uops_extra_others("add", "0x0: add x0, x1, x2, lsl #2"), Some(1));
    assert_eq!(extract_uops_extra_others("and", "0x0: and x0, x1, #0xff"), Some(1));
    assert_eq!(extract_uops_extra_others("lsl", "0x0: lsl x0, x1, #2"), Some(0));
    assert_eq!(extract_uops_extra_others("bfm", "0x0: bfm x0, x1, #1, #2"), Some(1));
    assert_eq!(extract_uops_extra_others("add", "0x0: add x0, x1, x2"), Some(0));
}

#[test]
fn uop_estimate_reads_the_lowercase_rendering() {
    let i = DecodedInsn {
        mnemonic: "ldr".to_string(),
        text: "0x0: LDR X0, [X1, #8]!".to_string(),
        groups: vec![],
        operands: vec![Operand { kind: OperandKind::Memory, access: Access::ReadOnly }],
        length: 4,
    };
    assert_eq!(arm_extra_uops(&i), Some(1));
    let j = DecodedInsn {
        mnemonic: "orr".to_string(),
        text: "0x0: ORR X0, X1, #0XF0".to_string(),
        groups: vec![],
        operands: vec![],
        length: 4,
    };
    assert_eq!(arm_extra_uops(&j), Some(1));
}

#[test]
fn classified_facts_fold_into_table() {
    let i = DecodedInsn {
        mnemonic: "mov".to_string(),
        text: "0x0: mov qword ptr [rax], rbx".to_string(),
        groups: vec![],
        operands: vec![
            Operand { kind: OperandKind::Memory, access: Access::WriteOnly },
            Operand { kind: OperandKind::Register, access: Access::ReadOnly },
        ],
        length: 3,
    };
    let d = execute_x86(&i, true).unwrap();
    let mut t = BreakdownCategories::new();
    t.update_breakdown(&d, 2);
    let b = t.mnemonic_stats(GroupTypeEnum::CAT_MEM, &"mov".to_string()).unwrap();
    assert_eq!(b.tot_store, [2, 0]);
    assert_eq!(b.byte_sizes[0][3], 2);
}

#[test]
fn default_values_are_empty() {
    let b = Breakdown::default();
    assert_eq!(b, Breakdown::new());
    let d = BreakdownData::default();
    assert_eq!(d.group, GroupTypeEnum::CAT_OTHERS);
    assert!(d.mnemonic.is_empty());
}

#[test]
fn category_labels_and_slots() {
    for i in 0..7 {
        assert_eq!(GroupTypeEnum::from(i).index(), i);
    }
    assert_eq!(GroupTypeEnum::CAT_CRYPTO.get_str(), "CRYPTO");
    assert_eq!(GroupTypeEnum::CAT_MEM.get_str(), "MEM   ");
}
