use vstd::prelude::*;
use vstd::string::*;
use crate::category::{mem_mnemonics, mem_table, Arch};
use crate::insn::DecodedInsn;
use crate::text::{contains, contains_any, has_sub, hits, lower_of, lowercase, str_views};

verus! {

/// Whether the regular expression `pattern` matches somewhere in `text`, as
/// `regex::Regex::is_match` decides it.
pub uninterp spec fn regex_is_match(pattern: Seq<char>, text: Seq<char>) -> bool;

/// Relies on `regex::Regex::new`, which returns an error only for an invalid
/// pattern or one over the default size limit (neither holds of the four
/// short, valid patterns of this module), and on `regex::Regex::is_match`,
/// which tells whether the compiled pattern matches anywhere in `text`.
#[verifier::external_body]
fn pattern_matches(pattern: &str, text: &str) -> (r: Option<bool>)
    ensures
        r matches Some(b) ==> b == regex_is_match(pattern@, text@),
        pattern@ == pre_index_pattern() || pattern@ == post_index_pattern() || pattern@ == bitmask_pattern()
            || pattern@ == shift_pattern() ==> r is Some,
{
    match regex::Regex::new(pattern) {
        Ok(re) => Some(re.is_match(text)),
        Err(_) => None,
    }
}

/// Pre-indexed addressing: `[...]!`.
pub open spec fn pre_index_pattern() -> Seq<char> {
    "\\[.*\\]!"@
}

/// Post-indexed addressing: `[...],` followed by a register or immediate.
pub open spec fn post_index_pattern() -> Seq<char> {
    "\\[.*\\],.*[#xrw]"@
}

/// Logical operations with an immediate that goes through bitmask decoding.
pub open spec fn bitmask_pattern() -> Seq<char> {
    "(and|orr|ands|tst|eor).*#0x"@
}

/// Any shift operator.
pub open spec fn shift_pattern() -> Seq<char> {
    "(ror|lsr|asr|lsl)"@
}

pub open spec fn shift_words() -> Seq<Seq<char>> {
    seq!["ror"@, "lsr"@, "asr"@, "lsl"@]
}

/// `s` without its space characters.
pub open spec fn drop_spaces(s: Seq<char>) -> Seq<char>
    decreases s.len(),
{
    if s.len() == 0 {
        s
    } else if s.last() == ' ' {
        drop_spaces(s.drop_last())
    } else {
        drop_spaces(s.drop_last()).push(s.last())
    }
}

/// Position of the first space of `s`, or its length.
pub open spec fn first_space(s: Seq<char>) -> int
    decreases s.len(),
{
    if s.len() == 0 {
        0
    } else if s[0] == ' ' {
        0
    } else {
        1 + first_space(s.drop_first())
    }
}

/// What follows the first space of `s`, without spaces; empty when `s` has
/// no space.
pub open spec fn after_first_word(s: Seq<char>) -> Seq<char> {
    if first_space(s) < s.len() {
        drop_spaces(s.subrange(first_space(s) + 1, s.len() as int))
    } else {
        Seq::empty()
    }
}

/// Number of shift operators that occur in `t`.
pub open spec fn shift_count(t: Seq<char>) -> nat {
    (if has_sub(t, "ror"@) { 1nat } else { 0nat }) + (if has_sub(t, "lsr"@) { 1nat } else { 0nat })
        + (if has_sub(t, "asr"@) { 1nat } else { 0nat }) + (if has_sub(t, "lsl"@) { 1nat } else { 0nat })
}

/// Extra micro-ops of a memory instruction with lowercase rendering `t`: one
/// for a pre- or post-indexed address.
pub open spec fn spec_uops_mem(t: Seq<char>) -> nat {
    if regex_is_match(pre_index_pattern(), t) || regex_is_match(post_index_pattern(), t) {
        1
    } else {
        0
    }
}

/// Extra micro-ops of another instruction with mnemonic `mn` and lowercase
/// rendering `t`, given whether the shift pattern (`shift_hit`) and the
/// bitmask-immediate pattern (`bitmask_hit`) match `t`: one per shift
/// operator among the operands (unless the mnemonic is itself a shift), one
/// for a bitmask immediate, and one for a bitfield move. `None` when the
/// shift pattern matches yet no shift operator was counted.
pub open spec fn spec_others_from(mn: Seq<char>, t: Seq<char>, shift_hit: bool, bitmask_hit: bool) -> Option<nat> {
    let is_shift = hits(mn, shift_words());
    let shifts = if is_shift { 0 } else { shift_count(after_first_word(t)) };
    if !is_shift && shifts == 0 && shift_hit {
        None
    } else {
        Some(shifts + (if bitmask_hit { 1nat } else { 0nat }) + (if has_sub(mn, "bfm"@) { 1nat } else { 0nat }))
    }
}

/// `spec_others_from` with the patterns evaluated by the regex engine.
pub open spec fn spec_uops_others(mn: Seq<char>, t: Seq<char>) -> Option<nat> {
    spec_others_from(mn, t, regex_is_match(shift_pattern(), t), regex_is_match(bitmask_pattern(), t))
}

fn shift_table() -> (r: Vec<&'static str>)
    ensures
        str_views(r@) == shift_words(),
{
    let r = vec!["ror", "lsr", "asr", "lsl"];
    assert(str_views(r@) =~= shift_words());
    r
}

/// `s` from its first space on, spaces removed.
fn operand_text(s: &str) -> (r: String)
    ensures
        r@ == after_first_word(s@),
{
    let n = s.unicode_len();
    let mut i: usize = 0;
    assert(s@.subrange(0, n as int) =~= s@);
    while i < n && s.get_char(i) != ' '
        invariant
            i <= n,
            n == s@.len(),
            first_space(s@) == i + first_space(s@.subrange(i as int, n as int)),
        decreases n - i,
    {
        proof {
            assert(s@.subrange(i as int, n as int).drop_first() =~= s@.subrange(i + 1, n as int));
        }
        i = i + 1;
    }
    proof {
        if i < n {
            assert(s@.subrange(i as int, n as int)[0] == ' ');
        }
    }
    let mut out = String::new();
    if i == n {
        return out;
    }
    let start = i + 1;
    let mut k: usize = start;
    proof {
        assert(s@.subrange(start as int, start as int) =~= Seq::<char>::empty());
    }
    while k < n
        invariant
            start <= k <= n,
            n == s@.len(),
            start == first_space(s@) + 1,
            out@ == drop_spaces(s@.subrange(start as int, k as int)),
        decreases n - k,
    {
        let c = s.get_char(k);
        proof {
            assert(s@.subrange(start as int, k + 1).drop_last() =~= s@.subrange(start as int, k as int));
        }
        if c != ' ' {
            let piece = s.substring_char(k, k + 1);
            proof {
                assert(piece@ =~= seq![c]);
            }
            out.append(piece);
            assert(out@ =~= drop_spaces(s@.subrange(start as int, k + 1)));
        }
        k = k + 1;
    }
    out
}

/// Extra micro-ops of a memory instruction with lowercase rendering
/// `lowered`: one for a pre- or post-indexed address.
pub fn extract_uops_mem_arm(lowered: &str) -> (r: usize)
    ensures
        r == spec_uops_mem(lowered@),
{
    let pre = pattern_matches("\\[.*\\]!", lowered);
    let post = pattern_matches("\\[.*\\],.*[#xrw]", lowered);
    match (pre, post) {
        (Some(a), Some(b)) => if a || b { 1 } else { 0 },
        _ => 0,
    }
}

/// Extra micro-ops of a non-memory instruction, given whether the shift
/// pattern and the bitmask-immediate pattern match its lowercase rendering.
pub fn count_other_uops(mnemonic: &str, lowered: &str, shift_hit: bool, bitmask_hit: bool) -> (r: Option<usize>)
    ensures
        r matches Some(n) ==> spec_others_from(mnemonic@, lowered@, shift_hit, bitmask_hit) == Some(n as nat),
        r is None ==> spec_others_from(mnemonic@, lowered@, shift_hit, bitmask_hit) is None,
{
    let is_shift = contains_any(mnemonic, &shift_table());
    let mut uops: usize = 0;
    if !is_shift {
        let ops = operand_text(lowered);
        let o = ops.as_str();
        uops = (if contains(o, "ror") { 1 } else { 0 }) + (if contains(o, "lsr") { 1usize } else { 0 })
            + (if contains(o, "asr") { 1usize } else { 0 }) + (if contains(o, "lsl") { 1usize } else { 0 });
        if uops == 0 && shift_hit {
            return None;
        }
    }
    if bitmask_hit {
        uops = uops + 1;
    }
    if contains(mnemonic, "bfm") {
        uops = uops + 1;
    }
    Some(uops)
}

/// Extra micro-ops of a non-memory instruction with mnemonic `mnemonic` and
/// lowercase rendering `lowered`. `None` when a shift operator matches but
/// none was counted.
pub fn extract_uops_extra_others(mnemonic: &str, lowered: &str) -> (r: Option<usize>)
    ensures
        r matches Some(n) ==> spec_uops_others(mnemonic@, lowered@) == Some(n as nat),
        r is None ==> spec_uops_others(mnemonic@, lowered@) is None,
{
    let shift_hit = pattern_matches("(ror|lsr|asr|lsl)", lowered);
    let bitmask_hit = pattern_matches("(and|orr|ands|tst|eor).*#0x", lowered);
    match (shift_hit, bitmask_hit) {
        (Some(a), Some(b)) => count_other_uops(mnemonic, lowered, a, b),
        _ => None,
    }
}

/// Extra micro-ops of a decoded AArch64 instruction: addressing side effects
/// for a memory instruction, shifts and bitmask decoding otherwise. Purely
/// diagnostic; `None` when a shift operator matches but none was counted.
pub fn arm_extra_uops(insn: &DecodedInsn) -> (r: Option<usize>)
    ensures
        hits(insn.mnemonic@, mem_mnemonics(Arch::Arm)) ==> r == Some(spec_uops_mem(lower_of(insn.text@)) as usize),
        !hits(insn.mnemonic@, mem_mnemonics(Arch::Arm)) ==> (r matches Some(n) ==> spec_uops_others(insn.mnemonic@, lower_of(insn.text@)) == Some(n as nat)),
        !hits(insn.mnemonic@, mem_mnemonics(Arch::Arm)) ==> (r is None ==> spec_uops_others(insn.mnemonic@, lower_of(insn.text@)) is None),
{
    let lowered = lowercase(insn.text.as_str());
    if contains_any(insn.mnemonic.as_str(), &mem_table(Arch::Arm)) {
        Some(extract_uops_mem_arm(lowered.as_str()))
    } else {
        extract_uops_extra_others(insn.mnemonic.as_str(), lowered.as_str())
    }
}

} // verus!
