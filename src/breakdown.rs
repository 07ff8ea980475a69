use vstd::prelude::*;
use crate::category::GroupTypeEnum;

verus! {

/// Behavioural facts of one decoded instruction.
#[derive(Clone, Debug)]
pub struct BreakdownData {
    pub mnemonic: String,
    pub group: GroupTypeEnum,
    pub is_user: bool,
    pub byte_len: usize,
    pub loads: usize,
    pub stores: usize,
    pub is_br: bool,
    pub is_priviledge: bool,
    pub is_mem: bool,
    pub is_fp: bool,
    pub is_crypto: bool,
    pub has_both_mem: bool,
    pub has_mem: bool,
    pub has_multi_mem: bool,
}

impl BreakdownData {
    /// The memory flags agree with the load and store counts.
    pub open spec fn wf(&self) -> bool {
        &&& self.has_both_mem == (self.loads >= 1 && self.stores >= 1)
        &&& self.has_mem == (self.loads + self.stores >= 1)
        &&& self.has_multi_mem == (self.loads + self.stores >= 2)
    }
}

/// One counter bucket, split by privilege level: slot 0 counts user-mode
/// instructions and slot 1 kernel-mode ones.
#[derive(Clone, Copy, Debug, PartialEq, Eq)]
pub struct Breakdown {
    pub tot: usize,
    pub user: usize,
    pub sys: usize,
    pub tot_load: [usize; 2],
    pub tot_store: [usize; 2],
    pub is_br: [usize; 2],
    pub is_mem: [usize; 2],
    pub is_fp: [usize; 2],
    pub is_crypto: [usize; 2],
    pub is_priviledge: [usize; 2],
    pub with_both: [usize; 2],
    pub mem_branch: [usize; 2],
    pub has_multi_mem: [usize; 2],
    pub byte_sizes: [[usize; 13]; 2],
}

/// Names one counter of a `Breakdown`. The `bool` is the side: `true` for
/// user mode, `false` for kernel mode.
pub enum Counter {
    Total,
    User,
    Sys,
    Loads(bool),
    Stores(bool),
    Branch(bool),
    Memory(bool),
    Fp(bool),
    Crypto(bool),
    Privileged(bool),
    BothMem(bool),
    MemBranch(bool),
    MultiMem(bool),
    Bytes(bool, int),
}

pub open spec fn side(user: bool) -> int {
    if user {
        0
    } else {
        1
    }
}

pub open spec fn valid_counter(c: Counter) -> bool {
    match c {
        Counter::Bytes(_, k) => 0 <= k < 13,
        _ => true,
    }
}

/// Value of counter `c` in `b`.
pub open spec fn value_of(b: Breakdown, c: Counter) -> int {
    match c {
        Counter::Total => b.tot as int,
        Counter::User => b.user as int,
        Counter::Sys => b.sys as int,
        Counter::Loads(u) => b.tot_load@[side(u)] as int,
        Counter::Stores(u) => b.tot_store@[side(u)] as int,
        Counter::Branch(u) => b.is_br@[side(u)] as int,
        Counter::Memory(u) => b.is_mem@[side(u)] as int,
        Counter::Fp(u) => b.is_fp@[side(u)] as int,
        Counter::Crypto(u) => b.is_crypto@[side(u)] as int,
        Counter::Privileged(u) => b.is_priviledge@[side(u)] as int,
        Counter::BothMem(u) => b.with_both@[side(u)] as int,
        Counter::MemBranch(u) => b.mem_branch@[side(u)] as int,
        Counter::MultiMem(u) => b.has_multi_mem@[side(u)] as int,
        Counter::Bytes(u, k) => b.byte_sizes@[side(u)]@[k] as int,
    }
}

/// Instructions counted on one side.
pub open spec fn side_total(b: Breakdown, user: bool) -> int {
    if user {
        b.user as int
    } else {
        b.sys as int
    }
}

/// How much folding `n` copies of `d` adds to counter `c`.
pub open spec fn delta(d: BreakdownData, n: int, c: Counter) -> int {
    let u = d.is_user;
    let on = |flag: bool| if flag { n } else { 0 };
    match c {
        Counter::Total => n,
        Counter::User => on(u),
        Counter::Sys => on(!u),
        Counter::Loads(s) => if s == u { d.loads * n } else { 0 },
        Counter::Stores(s) => if s == u { d.stores * n } else { 0 },
        Counter::Branch(s) => on(s == u && d.is_br),
        Counter::Memory(s) => on(s == u && d.is_mem),
        Counter::Fp(s) => on(s == u && d.is_fp),
        Counter::Crypto(s) => on(s == u && d.is_crypto),
        Counter::Privileged(s) => on(s == u && d.is_priviledge),
        Counter::BothMem(s) => on(s == u && d.has_both_mem),
        Counter::MemBranch(s) => on(s == u && d.has_mem && d.is_br),
        Counter::MultiMem(s) => on(s == u && d.has_multi_mem),
        Counter::Bytes(s, k) => on(s == u && k == d.byte_len),
    }
}

/// A counter that counts instructions of one side (as opposed to the load
/// and store totals and the three overall counts).
pub open spec fn is_flag(c: Counter) -> bool {
    match c {
        Counter::Total | Counter::User | Counter::Sys | Counter::Loads(_) | Counter::Stores(_) => false,
        _ => true,
    }
}

pub open spec fn flag_side(c: Counter) -> bool {
    match c {
        Counter::Branch(s) | Counter::Memory(s) | Counter::Fp(s) | Counter::Crypto(s)
        | Counter::Privileged(s) | Counter::BothMem(s) | Counter::MemBranch(s)
        | Counter::MultiMem(s) | Counter::Bytes(s, _) => s,
        _ => true,
    }
}

/// Adds `n` to slot `i`.
fn bump(a: &mut [usize; 2], i: usize, n: usize)
    requires
        i < 2,
        old(a)@[i as int] + n <= usize::MAX,
    ensures
        final(a)@[i as int] == old(a)@[i as int] + n,
        final(a)@[1 - i] == old(a)@[1 - i],
{
    a[i] = a[i] + n;
}

/// Adds `n` to slot `i` when `flag` holds.
fn bump_if(a: &mut [usize; 2], i: usize, flag: bool, n: usize)
    requires
        i < 2,
        old(a)@[i as int] + n <= usize::MAX,
    ensures
        final(a)@[i as int] == old(a)@[i as int] + if flag { n } else { 0 },
        final(a)@[1 - i] == old(a)@[1 - i],
{
    if flag {
        a[i] = a[i] + n;
    }
}

/// Slot-wise sum.
fn add2(a: [usize; 2], b: [usize; 2]) -> (r: [usize; 2])
    requires
        a@[0] + b@[0] <= usize::MAX,
        a@[1] + b@[1] <= usize::MAX,
    ensures
        r@[0] == a@[0] + b@[0],
        r@[1] == a@[1] + b@[1],
{
    [a[0] + b[0], a[1] + b[1]]
}

/// Slot-wise sum of two length histograms.
fn add13(a: [usize; 13], b: [usize; 13]) -> (r: [usize; 13])
    requires
        forall|k: int| 0 <= k < 13 ==> a@[k] + b@[k] <= usize::MAX,
    ensures
        forall|k: int| 0 <= k < 13 ==> #[trigger] r@[k] == a@[k] + b@[k],
{
    let mut r = a;
    let mut k: usize = 0;
    while k < 13
        invariant
            k <= 13,
            forall|j: int| 0 <= j < 13 ==> a@[j] + b@[j] <= usize::MAX,
            forall|j: int| 0 <= j < k ==> #[trigger] r@[j] == a@[j] + b@[j],
            forall|j: int| k <= j < 13 ==> #[trigger] r@[j] == a@[j],
        decreases 13 - k,
    {
        r[k] = a[k] + b[k];
        k = k + 1;
    }
    r
}

/// Under `wf`, every per-side counter of `b` on side `u` is at most the
/// number of instructions on that side.
proof fn lemma_side_bounds(b: Breakdown, u: bool)
    requires
        b.wf(),
    ensures
        forall|c: Counter| valid_counter(c) && is_flag(c) && flag_side(c) == u ==> #[trigger] value_of(b, c) <= side_total(b, u),
        b.is_br@[side(u)] <= side_total(b, u),
        b.is_mem@[side(u)] <= side_total(b, u),
        b.is_fp@[side(u)] <= side_total(b, u),
        b.is_crypto@[side(u)] <= side_total(b, u),
        b.is_priviledge@[side(u)] <= side_total(b, u),
        b.with_both@[side(u)] <= side_total(b, u),
        b.mem_branch@[side(u)] <= side_total(b, u),
        b.has_multi_mem@[side(u)] <= side_total(b, u),
        forall|k: int| 0 <= k < 13 ==> #[trigger] b.byte_sizes@[side(u)]@[k] <= side_total(b, u),
{
    let flags = seq![Counter::Branch(u), Counter::Memory(u), Counter::Fp(u), Counter::Crypto(u),
        Counter::Privileged(u), Counter::BothMem(u), Counter::MemBranch(u), Counter::MultiMem(u)];
    assert forall|j: int| 0 <= j < 8 implies value_of(b, #[trigger] flags[j]) <= side_total(b, u) by {
        assert(valid_counter(flags[j]) && is_flag(flags[j]) && flag_side(flags[j]) == u);
    }
    assert forall|k: int| 0 <= k < 13 implies #[trigger] b.byte_sizes@[side(u)]@[k] <= side_total(b, u) by {
        assert(value_of(b, Counter::Bytes(u, k)) <= side_total(b, u));
    }
}

impl Breakdown {
    /// Conservation: total is user plus kernel, and each per-side flag
    /// counter and length bucket is at most the number of instructions on
    /// its side.
    pub open spec fn wf(&self) -> bool {
        &&& self.tot == self.user + self.sys
        &&& forall|c: Counter| valid_counter(c) && is_flag(c) ==> #[trigger] value_of(*self, c) <= side_total(*self, flag_side(c))
    }

    /// Folding `n` copies of `d` keeps every counter in range.
    pub open spec fn fold_fits(&self, d: BreakdownData, n: int) -> bool {
        &&& self.tot + n <= usize::MAX
        &&& self.tot_load@[side(d.is_user)] + d.loads * n <= usize::MAX
        &&& self.tot_store@[side(d.is_user)] + d.stores * n <= usize::MAX
        &&& d.byte_len < 13
    }

    /// An empty bucket.
    pub fn new() -> (r: Breakdown)
        ensures
            r.wf(),
            forall|c: Counter| valid_counter(c) ==> #[trigger] value_of(r, c) == 0,
            r.tot == 0,
            r.tot_load@[0] == 0 && r.tot_load@[1] == 0,
            r.tot_store@[0] == 0 && r.tot_store@[1] == 0,
    {
        Breakdown {
            tot: 0,
            user: 0,
            sys: 0,
            tot_load: [0; 2],
            tot_store: [0; 2],
            is_br: [0; 2],
            is_mem: [0; 2],
            is_fp: [0; 2],
            is_crypto: [0; 2],
            is_priviledge: [0; 2],
            with_both: [0; 2],
            mem_branch: [0; 2],
            has_multi_mem: [0; 2],
            byte_sizes: [[0; 13]; 2],
        }
    }

    /// Whether `update(data, count)` keeps every counter in range.
    pub fn can_update(&self, data: &BreakdownData, count: usize) -> (r: bool)
        ensures
            r == self.fold_fits(*data, count as int),
    {
        let i: usize = if data.is_user { 0 } else { 1 };
        if data.byte_len >= 13 || count > usize::MAX - self.tot {
            return false;
        }
        match (data.loads.checked_mul(count), data.stores.checked_mul(count)) {
            (Some(l), Some(s)) => l <= usize::MAX - self.tot_load[i] && s <= usize::MAX - self.tot_store[i],
            _ => false,
        }
    }

    /// Folds `count` copies of `data` into the bucket.
    #[verifier::rlimit(50)]
    pub fn update(&mut self, data: &BreakdownData, count: usize)
        requires
            old(self).wf(),
            old(self).fold_fits(*data, count as int),
        ensures
            final(self).wf(),
            forall|c: Counter| valid_counter(c) ==> #[trigger] value_of(*final(self), c) == value_of(*old(self), c) + delta(*data, count as int, c),
    {
        let ghost pre = *self;
        let i: usize = if data.is_user { 0 } else { 1 };
        proof {
            lemma_side_bounds(pre, data.is_user);
        }
        self.tot = self.tot + count;
        if data.is_user {
            self.user = self.user + count;
        } else {
            self.sys = self.sys + count;
        }
        let mut row = self.byte_sizes[i];
        row[data.byte_len] = row[data.byte_len] + count;
        self.byte_sizes[i] = row;
        bump(&mut self.tot_load, i, data.loads * count);
        bump(&mut self.tot_store, i, data.stores * count);
        bump_if(&mut self.is_br, i, data.is_br, count);
        bump_if(&mut self.is_mem, i, data.is_mem, count);
        bump_if(&mut self.is_fp, i, data.is_fp, count);
        bump_if(&mut self.is_crypto, i, data.is_crypto, count);
        bump_if(&mut self.is_priviledge, i, data.is_priviledge, count);
        bump_if(&mut self.with_both, i, data.has_both_mem, count);
        bump_if(&mut self.mem_branch, i, data.has_mem && data.is_br, count);
        bump_if(&mut self.has_multi_mem, i, data.has_multi_mem, count);
        assert forall|c: Counter| valid_counter(c) implies #[trigger] value_of(*self, c) == value_of(pre, c) + delta(*data, count as int, c) by {
            match c {
                Counter::Bytes(s, k) => {
                    if s != data.is_user {
                        assert(self.byte_sizes@[side(s)] == pre.byte_sizes@[side(s)]);
                    }
                },
                Counter::Total => {},
                Counter::User => {},
                Counter::Sys => {},
                Counter::Loads(_) => {},
                Counter::Stores(_) => {},
                Counter::Branch(_) => {},
                Counter::Memory(_) => {},
                Counter::Fp(_) => {},
                Counter::Crypto(_) => {},
                Counter::Privileged(_) => {},
                Counter::BothMem(_) => {},
                Counter::MemBranch(_) => {},
                Counter::MultiMem(_) => {},
            }
        }
        assert forall|c: Counter| valid_counter(c) && is_flag(c) implies #[trigger] value_of(*self, c) <= side_total(*self, flag_side(c)) by {
            assert(value_of(pre, c) <= side_total(pre, flag_side(c)));
            assert(value_of(*self, c) == value_of(pre, c) + delta(*data, count as int, c));
        }
    }
    /// Summing `self` and `other` keeps every counter in range.
    pub open spec fn merge_fits(&self, other: Breakdown) -> bool {
        &&& self.tot + other.tot <= usize::MAX
        &&& self.tot_load@[0] + other.tot_load@[0] <= usize::MAX
        &&& self.tot_load@[1] + other.tot_load@[1] <= usize::MAX
        &&& self.tot_store@[0] + other.tot_store@[0] <= usize::MAX
        &&& self.tot_store@[1] + other.tot_store@[1] <= usize::MAX
    }

    /// Whether `merge(other)` keeps every counter in range.
    pub fn can_merge(&self, other: &Breakdown) -> (r: bool)
        ensures
            r == self.merge_fits(*other),
    {
        other.tot <= usize::MAX - self.tot && other.tot_load[0] <= usize::MAX - self.tot_load[0]
            && other.tot_load[1] <= usize::MAX - self.tot_load[1] && other.tot_store[0] <= usize::MAX
            - self.tot_store[0] && other.tot_store[1] <= usize::MAX - self.tot_store[1]
    }

    /// Adds every counter of `other` to the same counter of `self`.
    #[verifier::rlimit(50)]
    pub fn merge(&mut self, other: &Breakdown)
        requires
            old(self).wf(),
            other.wf(),
            old(self).merge_fits(*other),
        ensures
            final(self).wf(),
            forall|c: Counter| valid_counter(c) ==> #[trigger] value_of(*final(self), c) == value_of(*old(self), c) + value_of(*other, c),
    {
        let ghost pre = *self;
        proof {
            assert forall|c: Counter| valid_counter(c) && is_flag(c) implies #[trigger] value_of(pre, c) + value_of(*other, c) <= usize::MAX by {
                assert(value_of(pre, c) <= side_total(pre, flag_side(c)));
                assert(value_of(*other, c) <= side_total(*other, flag_side(c)));
            }
            lemma_side_bounds(pre, true);
            lemma_side_bounds(pre, false);
            lemma_side_bounds(*other, true);
            lemma_side_bounds(*other, false);
        }
        self.tot = self.tot + other.tot;
        self.user = self.user + other.user;
        self.sys = self.sys + other.sys;
        self.tot_load = add2(self.tot_load, other.tot_load);
        self.tot_store = add2(self.tot_store, other.tot_store);
        self.is_br = add2(self.is_br, other.is_br);
        self.is_mem = add2(self.is_mem, other.is_mem);
        self.is_fp = add2(self.is_fp, other.is_fp);
        self.is_crypto = add2(self.is_crypto, other.is_crypto);
        self.is_priviledge = add2(self.is_priviledge, other.is_priviledge);
        self.with_both = add2(self.with_both, other.with_both);
        self.mem_branch = add2(self.mem_branch, other.mem_branch);
        self.has_multi_mem = add2(self.has_multi_mem, other.has_multi_mem);
        let row0 = add13(self.byte_sizes[0], other.byte_sizes[0]);
        let row1 = add13(self.byte_sizes[1], other.byte_sizes[1]);
        self.byte_sizes = [row0, row1];
        assert forall|c: Counter| valid_counter(c) implies #[trigger] value_of(*self, c) == value_of(pre, c) + value_of(*other, c) by {
            match c {
                Counter::Bytes(s, k) => {
                    if s {
                        assert(self.byte_sizes@[0]@[k] == row0@[k]);
                    } else {
                        assert(self.byte_sizes@[1]@[k] == row1@[k]);
                    }
                },
                _ => {},
            }
        }
        assert forall|c: Counter| valid_counter(c) && is_flag(c) implies #[trigger] value_of(*self, c) <= side_total(*self, flag_side(c)) by {
            assert(value_of(pre, c) <= side_total(pre, flag_side(c)));
            assert(value_of(*other, c) <= side_total(*other, flag_side(c)));
            assert(value_of(*self, c) == value_of(pre, c) + value_of(*other, c));
        }
    }
}


impl Default for Breakdown {
    fn default() -> (r: Breakdown)
        ensures
            r.wf(),
            forall|c: Counter| valid_counter(c) ==> #[trigger] value_of(r, c) == 0,
    {
        Breakdown::new()
    }
}

impl Default for BreakdownData {
    fn default() -> (r: BreakdownData)
        ensures
            r.mnemonic@ == Seq::<char>::empty(),
            r.group == GroupTypeEnum::CAT_OTHERS,
            !r.is_user && r.byte_len == 0 && r.loads == 0 && r.stores == 0,
            !r.is_br && !r.is_priviledge && !r.is_mem && !r.is_fp && !r.is_crypto,
            !r.has_both_mem && !r.has_mem && !r.has_multi_mem,
    {
        BreakdownData {
            mnemonic: String::new(),
            group: GroupTypeEnum::CAT_OTHERS,
            is_user: false,
            byte_len: 0,
            loads: 0,
            stores: 0,
            is_br: false,
            is_priviledge: false,
            is_mem: false,
            is_fp: false,
            is_crypto: false,
            has_both_mem: false,
            has_mem: false,
            has_multi_mem: false,
        }
    }
}

} // verus!
