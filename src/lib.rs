//! Classification and aggregation of instruction traces.
//!
//! `trace` reads the binary trace records, `decoder` disassembles their
//! payload with capstone, `classify` turns one decoded instruction into its
//! behavioural facts (with the per-architecture memory rules in `x86` and
//! `arm`), and `table` folds those facts into counter buckets per category
//! and per mnemonic, which `report` renders.

pub mod text;
pub mod category;
pub mod breakdown;
pub mod insn;
pub mod classify;
pub mod x86;
pub mod arm;
pub mod trace;
pub mod table;
pub mod uops;
pub mod report;
pub mod decoder;

pub use crate::arm::{extract_memops_arm, simd_width};
pub use crate::breakdown::{Breakdown, BreakdownData};
pub use crate::category::{Arch, GroupTypeEnum};
pub use crate::decoder::{decode_block, get_capstone, Disassembler};
pub use crate::classify::{
    classify_arm, classify_block, execute, execute_arm, execute_x86, extract_data,
    ClassificationError, Signals,
};
pub use crate::insn::{Access, DecodedInsn, Operand, OperandKind};
pub use crate::table::BreakdownCategories;
pub use crate::trace::{
    display_address, encode_record, get_next_trace_arm, get_next_trace_x86, parse_header,
    DecodeError, RecordHeader, TraceEntryARM, TraceEntryX86, HEADER_LEN,
};
pub use crate::uops::{
    arm_extra_uops, count_other_uops, extract_uops_extra_others, extract_uops_mem_arm,
};
pub use crate::x86::extract_memops_x86;
