use trace_breakdown::{decode_block, execute, get_capstone, Arch, GroupTypeEnum};

#[test]
fn x86_push_is_one_store() {
    let cs = get_capstone(Arch::X86).unwrap();
    assert_eq!(cs.arch(), Arch::X86);
    let facts = execute(&cs, &[0x55], true).unwrap();
    assert_eq!(facts.len(), 1);
    assert_eq!(facts[0].mnemonic, "push");
    assert_eq!((facts[0].loads, facts[0].stores), (0, 1));
    assert_eq!(facts[0].byte_len, 1);
    assert_eq!(facts[0].group, GroupTypeEnum::CAT_MEM);
    assert!(facts[0].is_user);
}

#[test]
fn x86_load_and_store_through_pointer() {
    let cs = get_capstone(Arch::X86).unwrap();
    let load = execute(&cs, &[0x48, 0x8b, 0x03], false).unwrap();
    assert_eq!((load[0].loads, load[0].stores), (1, 0));
    assert_eq!(load[0].byte_len, 3);
    assert!(!load[0].is_user);
    let store = execute(&cs, &[0x48, 0x89, 0x03], false).unwrap();
    assert_eq!((store[0].loads, store[0].stores), (0, 1));
}

#[test]
fn x86_block_is_decoded_in_order() {
    let cs = get_capstone(Arch::X86).unwrap();
    let insns = decode_block(&cs, &[0x55, 0x48, 0x89, 0xe5, 0xc3]).unwrap();
    assert_eq!(insns.len(), 3);
    assert_eq!(insns[0].mnemonic, "push");
    assert_eq!(insns[1].mnemonic, "mov");
    assert_eq!(insns[1].length, 3);
    assert_eq!(insns[2].mnemonic, "ret");
    assert!(insns[2].text.contains("ret"));
    assert!(insns.iter().all(|i| i.groups.iter().all(|g| !g.starts_with("mode"))));
    let facts = execute(&cs, &[0x55, 0x48, 0x89, 0xe5, 0xc3], true).unwrap();
    assert_eq!(facts[2].group, GroupTypeEnum::CAT_BR);
    assert!(facts[2].is_br);
}

#[test]
fn empty_block_gives_no_facts() {
    let cs = get_capstone(Arch::X86).unwrap();
    assert_eq!(execute(&cs, &[], true).unwrap().len(), 0);
    assert_eq!(decode_block(&cs, &[]).unwrap().len(), 0);
}

#[test]
fn arm_store_pair() {
    let cs = get_capstone(Arch::Arm).unwrap();
    let word: u32 = 0xa9bf7bfd;
    let facts = execute(&cs, &word.to_le_bytes(), true).unwrap();
    assert_eq!(facts.len(), 1);
    assert_eq!(facts[0].mnemonic, "stp");
    assert_eq!((facts[0].loads, facts[0].stores), (0, 2));
    assert_eq!(facts[0].byte_len, 4);
    assert_eq!(facts[0].group, GroupTypeEnum::CAT_MEM);
}

#[test]
fn arm_load_register() {
    let cs = get_capstone(Arch::Arm).unwrap();
    let word: u32 = 0xf9400020;
    let facts = execute(&cs, &word.to_le_bytes(), false).unwrap();
    assert_eq!(facts[0].mnemonic, "ldr");
    assert_eq!((facts[0].loads, facts[0].stores), (1, 0));
}

#[test]
fn arm_nop_has_no_memory_access() {
    let cs = get_capstone(Arch::Arm).unwrap();
    let word: u32 = 0xd503201f;
    let facts = execute(&cs, &word.to_le_bytes(), true).unwrap();
    assert_eq!((facts[0].loads, facts[0].stores), (0, 0));
    assert_ne!(facts[0].group, GroupTypeEnum::CAT_MEM);
}
