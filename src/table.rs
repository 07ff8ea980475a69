use vstd::prelude::*;
use crate::breakdown::{delta, value_of, valid_counter, Breakdown, BreakdownData, Counter};
use crate::category::{spec_from_index, spec_index, GroupTypeEnum};

verus! {

/// Counter bucket per category and per (category, display mnemonic), each
/// created on first use.
pub struct BreakdownCategories {
    /// Slot `spec_index(g)` holds the bucket of category `g`.
    pub map_groups: Vec<Option<Breakdown>>,
    /// Entry `j` is the bucket of mnemonic `mnem_names[j]` in category
    /// `mnem_groups[j]`; entries are kept in order of first use.
    pub mnem_groups: Vec<GroupTypeEnum>,
    pub mnem_names: Vec<String>,
    pub mnem_stats: Vec<Breakdown>,
}

/// `n` copies of `d` fit into the bucket `b`, or into a new one.
pub open spec fn bucket_fits(b: Option<Breakdown>, d: BreakdownData, n: int) -> bool {
    match b {
        Some(b) => b.fold_fits(d, n),
        None => n <= usize::MAX && d.loads * n <= usize::MAX && d.stores * n <= usize::MAX && d.byte_len < 13,
    }
}

pub open spec fn opt_value(b: Option<Breakdown>, c: Counter) -> int {
    match b {
        Some(b) => value_of(b, c),
        None => 0,
    }
}

impl BreakdownCategories {
    pub open spec fn n_entries(&self) -> int {
        self.mnem_names@.len() as int
    }

    /// Entry `j` has key (`g`, `m`).
    pub open spec fn key_at(&self, j: int, g: GroupTypeEnum, m: Seq<char>) -> bool {
        0 <= j < self.n_entries() && self.mnem_groups@[j] == g && self.mnem_names@[j]@ == m
    }

    pub open spec fn has_mnemonic(&self, g: GroupTypeEnum, m: Seq<char>) -> bool {
        exists|j: int| self.key_at(j, g, m)
    }

    /// Bucket of category `g`, if any.
    pub open spec fn group_bucket(&self, g: GroupTypeEnum) -> Option<Breakdown> {
        self.map_groups@[spec_index(g) as int]
    }

    /// Bucket of mnemonic `m` in category `g`, if any.
    pub open spec fn mnem_bucket(&self, g: GroupTypeEnum, m: Seq<char>) -> Option<Breakdown> {
        if self.has_mnemonic(g, m) {
            Some(self.mnem_stats@[choose|j: int| self.key_at(j, g, m)])
        } else {
            None
        }
    }

    /// Counter `c` of category `g` (zero for a category not seen).
    pub open spec fn group_value(&self, g: GroupTypeEnum, c: Counter) -> int {
        opt_value(self.group_bucket(g), c)
    }

    /// Counter `c` of mnemonic `m` in category `g` (zero for a pair not seen).
    pub open spec fn mnem_value(&self, g: GroupTypeEnum, m: Seq<char>, c: Counter) -> int {
        opt_value(self.mnem_bucket(g, m), c)
    }

    pub open spec fn wf(&self) -> bool {
        &&& self.map_groups@.len() == 7
        &&& forall|i: int| 0 <= i < 7 ==> (#[trigger] self.map_groups@[i] matches Some(b) ==> b.wf())
        &&& self.mnem_groups@.len() == self.n_entries()
        &&& self.mnem_stats@.len() == self.n_entries()
        &&& forall|j: int| 0 <= j < self.n_entries() ==> (#[trigger] self.mnem_stats@[j]).wf()
        &&& forall|i: int, j: int|
            0 <= i < self.n_entries() && 0 <= j < self.n_entries() && i != j ==> !(self.mnem_groups@[i]
                == self.mnem_groups@[j] && #[trigger] self.mnem_names@[i]@ == #[trigger] self.mnem_names@[j]@)
    }

    /// Folding `count` copies of `data` keeps every counter in range.
    pub open spec fn update_fits(&self, data: BreakdownData, count: int) -> bool {
        &&& bucket_fits(self.group_bucket(data.group), data, count)
        &&& bucket_fits(self.mnem_bucket(data.group, data.mnemonic@), data, count)
    }

    /// An empty table.
    pub fn new() -> (r: BreakdownCategories)
        ensures
            r.wf(),
            forall|g: GroupTypeEnum| #[trigger] r.group_bucket(g) is None,
            forall|g: GroupTypeEnum, m: Seq<char>| !#[trigger] r.has_mnemonic(g, m),
            holds_fold(r, Seq::empty()),
    {
        let mut map_groups: Vec<Option<Breakdown>> = Vec::new();
        let mut i: usize = 0;
        while i < 7
            invariant
                i <= 7,
                map_groups@.len() == i,
                forall|j: int| 0 <= j < i ==> #[trigger] map_groups@[j] is None,
            decreases 7 - i,
        {
            map_groups.push(None);
            i = i + 1;
        }
        let r = BreakdownCategories {
            map_groups,
            mnem_groups: Vec::new(),
            mnem_names: Vec::new(),
            mnem_stats: Vec::new(),
        };
        assert forall|g: GroupTypeEnum| #[trigger] r.group_bucket(g) is None by {
            assert(spec_index(g) < 7);
        }
        assert forall|g: GroupTypeEnum, m: Seq<char>, c: Counter| valid_counter(c) implies #[trigger] r.mnem_value(g, m, c) == fold_mnem(Seq::empty(), g, m, c) by {
            assert(!r.has_mnemonic(g, m));
        }
        assert forall|g: GroupTypeEnum, c: Counter| valid_counter(c) implies #[trigger] r.group_value(g, c) == fold_group(Seq::empty(), g, c) by {
            assert(spec_index(g) < 7);
        }
        r
    }

    /// Index of the entry with key (`g`, `m`), if any.
    fn find(&self, g: GroupTypeEnum, m: &String) -> (r: Option<usize>)
        requires
            self.wf(),
        ensures
            r matches Some(j) ==> self.key_at(j as int, g, m@),
            r is None ==> !self.has_mnemonic(g, m@),
    {
        let mut j: usize = 0;
        while j < self.mnem_names.len()
            invariant
                self.wf(),
                j <= self.n_entries(),
                forall|i: int| 0 <= i < j ==> !self.key_at(i, g, m@),
            decreases self.n_entries() - j,
        {
            if self.mnem_groups[j] == g && self.mnem_names[j] == *m {
                return Some(j);
            }
            j = j + 1;
        }
        None
    }

    /// Whether `update_breakdown(data, count)` keeps every counter in range.
    pub fn can_update(&self, data: &BreakdownData, count: usize) -> (r: bool)
        requires
            self.wf(),
        ensures
            r == self.update_fits(*data, count as int),
    {
        let gb = self.map_groups[data.group.index()];
        let group_ok = match gb {
            Some(b) => b.can_update(data, count),
            None => fresh_fits(data, count),
        };
        let mnem_ok = match self.find(data.group, &data.mnemonic) {
            Some(j) => {
                proof {
                    self.lemma_unique_key(j as int, data.group, data.mnemonic@);
                }
                self.mnem_stats[j].can_update(data, count)
            },
            None => fresh_fits(data, count),
        };
        group_ok && mnem_ok
    }

    proof fn lemma_unique_key(&self, j: int, g: GroupTypeEnum, m: Seq<char>)
        requires
            self.wf(),
            self.key_at(j, g, m),
        ensures
            self.has_mnemonic(g, m),
            (choose|i: int| self.key_at(i, g, m)) == j,
            self.mnem_bucket(g, m) == Some(self.mnem_stats@[j]),
    {
        let i = choose|i: int| self.key_at(i, g, m);
        if i != j {
            assert(self.mnem_names@[i]@ == self.mnem_names@[j]@);
        }
    }

    /// Folds `count` copies of `data` into the bucket of its category and
    /// into the bucket of its display mnemonic within that category.
    #[verifier::rlimit(60)]
    pub fn update_breakdown(&mut self, data: &BreakdownData, count: usize)
        requires
            old(self).wf(),
            old(self).update_fits(*data, count as int),
        ensures
            final(self).wf(),
            forall|g: GroupTypeEnum| #[trigger] final(self).group_bucket(g) is Some <==> (old(self).group_bucket(g) is Some || g == data.group),
            forall|g: GroupTypeEnum, m: Seq<char>| #[trigger] final(self).has_mnemonic(g, m) <==> (old(self).has_mnemonic(g, m) || (g == data.group && m == data.mnemonic@)),
            forall|g: GroupTypeEnum, c: Counter| valid_counter(c) ==> #[trigger] final(self).group_value(g, c) == old(self).group_value(g, c)
                + if g == data.group { delta(*data, count as int, c) } else { 0 },
            forall|g: GroupTypeEnum, m: Seq<char>, c: Counter| valid_counter(c) ==> #[trigger] final(self).mnem_value(g, m, c) == old(self).mnem_value(g, m, c)
                + if g == data.group && m == data.mnemonic@ { delta(*data, count as int, c) } else { 0 },
    {
        let ghost pre = *self;
        let gi = data.group.index();
        let mut gb = match self.map_groups[gi] {
            Some(b) => b,
            None => Breakdown::new(),
        };
        gb.update(data, count);
        self.map_groups.set(gi, Some(gb));
        assert forall|g: GroupTypeEnum, c: Counter| valid_counter(c) implies #[trigger] self.group_value(g, c) == pre.group_value(g, c)
            + if g == data.group { delta(*data, count as int, c) } else { 0 } by {
            if g != data.group {
                assert(spec_index(g) != spec_index(data.group));
            }
        }
        assert forall|g: GroupTypeEnum| #[trigger] self.group_bucket(g) is Some <==> (pre.group_bucket(g) is Some || g == data.group) by {
            if g != data.group {
                assert(spec_index(g) != spec_index(data.group));
            }
        }
        assert forall|i: int| 0 <= i < 7 implies (#[trigger] self.map_groups@[i] matches Some(b) ==> b.wf()) by {
            assert(pre.map_groups@[i] matches Some(b) ==> b.wf());
        }
        let ghost mid = *self;
        assert forall|g: GroupTypeEnum, m: Seq<char>| #[trigger] mid.has_mnemonic(g, m) == pre.has_mnemonic(g, m) by {
            if mid.has_mnemonic(g, m) {
                let i = choose|i: int| mid.key_at(i, g, m);
                assert(pre.key_at(i, g, m));
            }
            if pre.has_mnemonic(g, m) {
                let i = choose|i: int| pre.key_at(i, g, m);
                assert(mid.key_at(i, g, m));
            }
        }
        assert forall|g: GroupTypeEnum, m: Seq<char>| #[trigger] mid.mnem_bucket(g, m) == pre.mnem_bucket(g, m) by {
            assert forall|j: int| mid.key_at(j, g, m) <==> pre.key_at(j, g, m) by {}
            if mid.has_mnemonic(g, m) {
                let i = choose|i: int| mid.key_at(i, g, m);
                assert(pre.key_at(i, g, m));
            }
            if pre.has_mnemonic(g, m) {
                let i = choose|i: int| pre.key_at(i, g, m);
                assert(mid.key_at(i, g, m));
            }
        }
        match self.find(data.group, &data.mnemonic) {
            Some(j) => {
                proof {
                    self.lemma_unique_key(j as int, data.group, data.mnemonic@);
                    assert(mid.key_at(j as int, data.group, data.mnemonic@));
                    assert(pre.has_mnemonic(data.group, data.mnemonic@));
                }
                let mut b = self.mnem_stats[j];
                b.update(data, count);
                self.mnem_stats.set(j, b);
                assert forall|g: GroupTypeEnum, m: Seq<char>| #[trigger] self.has_mnemonic(g, m) == mid.has_mnemonic(g, m) by {
                    if self.has_mnemonic(g, m) {
                        let i = choose|i: int| self.key_at(i, g, m);
                        assert(mid.key_at(i, g, m));
                    }
                    if mid.has_mnemonic(g, m) {
                        let i = choose|i: int| mid.key_at(i, g, m);
                        assert(self.key_at(i, g, m));
                    }
                }
                assert forall|g: GroupTypeEnum, m: Seq<char>, c: Counter| valid_counter(c) implies #[trigger] self.mnem_value(g, m, c) == mid.mnem_value(g, m, c)
                    + if g == data.group && m == data.mnemonic@ { delta(*data, count as int, c) } else { 0 } by {
                    assert forall|i: int| self.key_at(i, g, m) <==> mid.key_at(i, g, m) by {}
                    if g == data.group && m == data.mnemonic@ {
                        self.lemma_unique_key(j as int, g, m);
                    } else if mid.has_mnemonic(g, m) {
                        let i = choose|i: int| mid.key_at(i, g, m);
                        mid.lemma_unique_key(i, g, m);
                        self.lemma_unique_key(i, g, m);
                    }
                }
                assert forall|i: int, k: int|
                    0 <= i < self.n_entries() && 0 <= k < self.n_entries() && i != k implies !(self.mnem_groups@[i]
                        == self.mnem_groups@[k] && #[trigger] self.mnem_names@[i]@ == #[trigger] self.mnem_names@[k]@) by {
                    assert(mid.mnem_names@[i]@ == self.mnem_names@[i]@);
                }
            },
            None => {
                let mut b = Breakdown::new();
                b.update(data, count);
                self.mnem_groups.push(data.group);
                self.mnem_names.push(data.mnemonic.clone());
                self.mnem_stats.push(b);
                let n = self.mnem_names.len() - 1;
                assert(self.key_at(n as int, data.group, data.mnemonic@));
                assert forall|i: int, k: int|
                    0 <= i < self.n_entries() && 0 <= k < self.n_entries() && i != k implies !(self.mnem_groups@[i]
                        == self.mnem_groups@[k] && #[trigger] self.mnem_names@[i]@ == #[trigger] self.mnem_names@[k]@) by {
                    if i < n && k < n {
                        assert(mid.mnem_names@[i]@ == self.mnem_names@[i]@);
                        assert(mid.mnem_names@[k]@ == self.mnem_names@[k]@);
                    } else if i < n {
                        assert(!mid.key_at(i, data.group, data.mnemonic@));
                    } else {
                        assert(!mid.key_at(k, data.group, data.mnemonic@));
                    }
                }
                assert forall|j: int| 0 <= j < self.n_entries() implies (#[trigger] self.mnem_stats@[j]).wf() by {
                    if j < n {
                        assert(mid.mnem_stats@[j].wf());
                    }
                }
                assert forall|g: GroupTypeEnum, m: Seq<char>| #[trigger] self.has_mnemonic(g, m) == (mid.has_mnemonic(g, m) || (g == data.group && m == data.mnemonic@)) by {
                    if mid.has_mnemonic(g, m) {
                        let i = choose|i: int| mid.key_at(i, g, m);
                        assert(self.key_at(i, g, m));
                    }
                    if self.has_mnemonic(g, m) && !(g == data.group && m == data.mnemonic@) {
                        let i = choose|i: int| self.key_at(i, g, m);
                        assert(mid.key_at(i, g, m));
                    }
                }
                assert forall|g: GroupTypeEnum, m: Seq<char>, c: Counter| valid_counter(c) implies #[trigger] self.mnem_value(g, m, c) == mid.mnem_value(g, m, c)
                    + if g == data.group && m == data.mnemonic@ { delta(*data, count as int, c) } else { 0 } by {
                    if g == data.group && m == data.mnemonic@ {
                        self.lemma_unique_key(n as int, g, m);
                    } else if mid.has_mnemonic(g, m) {
                        let i = choose|i: int| mid.key_at(i, g, m);
                        mid.lemma_unique_key(i, g, m);
                        assert(self.key_at(i, g, m));
                        self.lemma_unique_key(i, g, m);
                    } else {
                        if self.has_mnemonic(g, m) {
                            let i = choose|i: int| self.key_at(i, g, m);
                            assert(mid.key_at(i, g, m));
                        }
                    }
                }
            },
        }
    }
}

/// `n` copies of `d` fit into a new bucket.
fn fresh_fits(d: &BreakdownData, n: usize) -> (r: bool)
    ensures
        r == bucket_fits(None, *d, n as int),
{
    d.byte_len < 13 && d.loads.checked_mul(n).is_some() && d.stores.checked_mul(n).is_some()
}

/// Two buckets, either possibly absent, can be summed.
pub open spec fn opt_merge_fits(a: Option<Breakdown>, b: Option<Breakdown>) -> bool {
    match (a, b) {
        (Some(a), Some(b)) => a.merge_fits(b),
        _ => true,
    }
}

/// Key (`g`, `m`) is among the first `k` entries of `t`.
pub open spec fn key_before(t: BreakdownCategories, k: int, g: GroupTypeEnum, m: Seq<char>) -> bool {
    exists|i: int| 0 <= i < k && t.key_at(i, g, m)
}

impl BreakdownCategories {
    /// Summing `self` and `other` keeps every counter in range.
    pub open spec fn merge_fits(&self, other: BreakdownCategories) -> bool {
        &&& forall|g: GroupTypeEnum| opt_merge_fits(#[trigger] self.group_bucket(g), other.group_bucket(g))
        &&& forall|g: GroupTypeEnum, m: Seq<char>| opt_merge_fits(#[trigger] self.mnem_bucket(g, m), other.mnem_bucket(g, m))
    }

    /// Adds bucket `b` into the bucket of key (`g`, `name`), creating it if
    /// needed.
    #[verifier::rlimit(60)]
    fn add_entry(&mut self, g: GroupTypeEnum, name: &String, b: &Breakdown)
        requires
            old(self).wf(),
            b.wf(),
            opt_merge_fits(old(self).mnem_bucket(g, name@), Some(*b)),
        ensures
            final(self).wf(),
            final(self).map_groups@ == old(self).map_groups@,
            forall|h: GroupTypeEnum, m: Seq<char>| #[trigger] final(self).has_mnemonic(h, m) <==> (old(self).has_mnemonic(h, m) || (h == g && m == name@)),
            forall|h: GroupTypeEnum, m: Seq<char>| !(h == g && m == name@) ==> #[trigger] final(self).mnem_bucket(h, m) == old(self).mnem_bucket(h, m),
            forall|c: Counter| valid_counter(c) ==> #[trigger] final(self).mnem_value(g, name@, c) == old(self).mnem_value(g, name@, c) + value_of(*b, c),
    {
        let ghost pre = *self;
        match self.find(g, name) {
            Some(j) => {
                proof {
                    self.lemma_unique_key(j as int, g, name@);
                }
                let mut e = self.mnem_stats[j];
                e.merge(b);
                self.mnem_stats.set(j, e);
                assert forall|h: GroupTypeEnum, m: Seq<char>| #[trigger] self.has_mnemonic(h, m) == pre.has_mnemonic(h, m) by {
                    if self.has_mnemonic(h, m) {
                        let i = choose|i: int| self.key_at(i, h, m);
                        assert(pre.key_at(i, h, m));
                    }
                    if pre.has_mnemonic(h, m) {
                        let i = choose|i: int| pre.key_at(i, h, m);
                        assert(self.key_at(i, h, m));
                    }
                }
                assert forall|h: GroupTypeEnum, m: Seq<char>| !(h == g && m == name@) implies #[trigger] self.mnem_bucket(h, m) == pre.mnem_bucket(h, m) by {
                    if pre.has_mnemonic(h, m) {
                        let i = choose|i: int| pre.key_at(i, h, m);
                        pre.lemma_unique_key(i, h, m);
                        assert(self.key_at(i, h, m));
                        self.lemma_unique_key(i, h, m);
                    }
                }
                assert(self.key_at(j as int, g, name@));
                proof {
                    self.lemma_unique_key(j as int, g, name@);
                }
                assert forall|i: int, k: int|
                    0 <= i < self.n_entries() && 0 <= k < self.n_entries() && i != k implies !(self.mnem_groups@[i]
                        == self.mnem_groups@[k] && #[trigger] self.mnem_names@[i]@ == #[trigger] self.mnem_names@[k]@) by {
                    assert(pre.mnem_names@[i]@ == self.mnem_names@[i]@);
                }
            },
            None => {
                self.mnem_groups.push(g);
                self.mnem_names.push(name.clone());
                self.mnem_stats.push(*b);
                let n = self.mnem_names.len() - 1;
                assert(self.key_at(n as int, g, name@));
                assert forall|i: int, k: int|
                    0 <= i < self.n_entries() && 0 <= k < self.n_entries() && i != k implies !(self.mnem_groups@[i]
                        == self.mnem_groups@[k] && #[trigger] self.mnem_names@[i]@ == #[trigger] self.mnem_names@[k]@) by {
                    if i < n && k < n {
                        assert(pre.mnem_names@[i]@ == self.mnem_names@[i]@);
                        assert(pre.mnem_names@[k]@ == self.mnem_names@[k]@);
                    } else if i < n {
                        assert(!pre.key_at(i, g, name@));
                    } else {
                        assert(!pre.key_at(k, g, name@));
                    }
                }
                assert forall|j: int| 0 <= j < self.n_entries() implies (#[trigger] self.mnem_stats@[j]).wf() by {
                    if j < n {
                        assert(pre.mnem_stats@[j].wf());
                    }
                }
                assert forall|h: GroupTypeEnum, m: Seq<char>| #[trigger] self.has_mnemonic(h, m) == (pre.has_mnemonic(h, m) || (h == g && m == name@)) by {
                    if pre.has_mnemonic(h, m) {
                        let i = choose|i: int| pre.key_at(i, h, m);
                        assert(self.key_at(i, h, m));
                    }
                    if self.has_mnemonic(h, m) && !(h == g && m == name@) {
                        let i = choose|i: int| self.key_at(i, h, m);
                        assert(pre.key_at(i, h, m));
                    }
                }
                assert forall|h: GroupTypeEnum, m: Seq<char>| !(h == g && m == name@) implies #[trigger] self.mnem_bucket(h, m) == pre.mnem_bucket(h, m) by {
                    if pre.has_mnemonic(h, m) {
                        let i = choose|i: int| pre.key_at(i, h, m);
                        pre.lemma_unique_key(i, h, m);
                        assert(self.key_at(i, h, m));
                        self.lemma_unique_key(i, h, m);
                    }
                }
                proof {
                    self.lemma_unique_key(n as int, g, name@);
                }
            },
        }
    }
}

/// `r` is the sum of the buckets `a` and `b`, either possibly absent.
pub open spec fn merged_opt(a: Option<Breakdown>, b: Option<Breakdown>, r: Option<Breakdown>) -> bool {
    &&& (r is Some <==> (a is Some || b is Some))
    &&& forall|c: Counter| valid_counter(c) ==> #[trigger] opt_value(r, c) == opt_value(a, c) + opt_value(b, c)
}

proof fn lemma_index_round_trip(j: int)
    requires
        0 <= j < 7,
    ensures
        spec_index(spec_from_index(j as nat)) == j,
{
}

impl BreakdownCategories {
    /// Adds every bucket of `other` into the bucket of `self` with the same
    /// key, creating missing buckets: counters are summed field by field.
    #[verifier::rlimit(60)]
    pub fn merge(&mut self, other: &BreakdownCategories)
        requires
            old(self).wf(),
            other.wf(),
            old(self).merge_fits(*other),
        ensures
            final(self).wf(),
            forall|g: GroupTypeEnum| #[trigger] final(self).group_bucket(g) is Some <==> (old(self).group_bucket(g) is Some || other.group_bucket(g) is Some),
            forall|g: GroupTypeEnum, m: Seq<char>| #[trigger] final(self).has_mnemonic(g, m) <==> (old(self).has_mnemonic(g, m) || other.has_mnemonic(g, m)),
            forall|g: GroupTypeEnum, c: Counter| valid_counter(c) ==> #[trigger] final(self).group_value(g, c) == old(self).group_value(g, c) + other.group_value(g, c),
            forall|g: GroupTypeEnum, m: Seq<char>, c: Counter| valid_counter(c) ==> #[trigger] final(self).mnem_value(g, m, c) == old(self).mnem_value(g, m, c) + other.mnem_value(g, m, c),
            sums(*final(self), *old(self), *other),
    {
        let ghost pre = *self;
        let mut i: usize = 0;
        while i < 7
            invariant
                pre.wf(),
                other.wf(),
                pre.merge_fits(*other),
                i <= 7,
                self.map_groups@.len() == 7,
                self.mnem_groups == pre.mnem_groups,
                self.mnem_names == pre.mnem_names,
                self.mnem_stats == pre.mnem_stats,
                forall|j: int| 0 <= j < 7 ==> (#[trigger] self.map_groups@[j] matches Some(b) ==> b.wf()),
                forall|j: int| 0 <= j < i ==> merged_opt(pre.map_groups@[j], other.map_groups@[j], #[trigger] self.map_groups@[j]),
                forall|j: int| i <= j < 7 ==> #[trigger] self.map_groups@[j] == pre.map_groups@[j],
            decreases 7 - i,
        {
            proof {
                lemma_index_round_trip(i as int);
                assert(opt_merge_fits(pre.group_bucket(spec_from_index(i as nat)), other.group_bucket(spec_from_index(i as nat))));
                assert(other.map_groups@[i as int] matches Some(b) ==> b.wf());
            }
            let a = self.map_groups[i];
            let b = other.map_groups[i];
            match (a, b) {
                (Some(x), Some(y)) => {
                    let mut x = x;
                    x.merge(&y);
                    self.map_groups.set(i, Some(x));
                },
                (None, Some(y)) => {
                    self.map_groups.set(i, Some(y));
                },
                _ => {},
            }
            i = i + 1;
        }
        assert forall|g: GroupTypeEnum| merged_opt(pre.group_bucket(g), other.group_bucket(g), #[trigger] self.group_bucket(g)) by {
            assert(spec_index(g) < 7);
        }
        let ghost mid = *self;
        assert forall|g: GroupTypeEnum, m: Seq<char>| #[trigger] mid.has_mnemonic(g, m) == pre.has_mnemonic(g, m) by {
            if mid.has_mnemonic(g, m) {
                let i = choose|i: int| mid.key_at(i, g, m);
                assert(pre.key_at(i, g, m));
            }
            if pre.has_mnemonic(g, m) {
                let i = choose|i: int| pre.key_at(i, g, m);
                assert(mid.key_at(i, g, m));
            }
        }
        assert forall|g: GroupTypeEnum, m: Seq<char>| #[trigger] mid.mnem_bucket(g, m) == pre.mnem_bucket(g, m) by {
            assert forall|j: int| mid.key_at(j, g, m) <==> pre.key_at(j, g, m) by {}
        }
        let mut k: usize = 0;
        while k < other.mnem_names.len()
            invariant
                pre.wf(),
                other.wf(),
                pre.merge_fits(*other),
                self.wf(),
                k <= other.n_entries(),
                self.map_groups@ == mid.map_groups@,
                forall|g: GroupTypeEnum, m: Seq<char>| #[trigger] self.has_mnemonic(g, m) <==> (mid.has_mnemonic(g, m) || key_before(*other, k as int, g, m)),
                forall|g: GroupTypeEnum, m: Seq<char>| !key_before(*other, k as int, g, m) ==> #[trigger] self.mnem_bucket(g, m) == mid.mnem_bucket(g, m),
                forall|g: GroupTypeEnum, m: Seq<char>, c: Counter| valid_counter(c) && key_before(*other, k as int, g, m) ==> #[trigger] self.mnem_value(g, m, c) == mid.mnem_value(g, m, c) + other.mnem_value(g, m, c),
                forall|g: GroupTypeEnum, m: Seq<char>| #[trigger] mid.mnem_bucket(g, m) == pre.mnem_bucket(g, m),
                forall|g: GroupTypeEnum, m: Seq<char>| #[trigger] mid.has_mnemonic(g, m) == pre.has_mnemonic(g, m),
            decreases other.n_entries() - k,
        {
            let g = other.mnem_groups[k];
            let name = &other.mnem_names[k];
            let ghost m = name@;
            proof {
                assert(other.key_at(k as int, g, m));
                other.lemma_unique_key(k as int, g, m);
                assert(!key_before(*other, k as int, g, m)) by {
                    if key_before(*other, k as int, g, m) {
                        let i = choose|i: int| 0 <= i < k && other.key_at(i, g, m);
                        assert(other.mnem_names@[i]@ == other.mnem_names@[k as int]@);
                    }
                }
                assert(opt_merge_fits(pre.mnem_bucket(g, m), other.mnem_bucket(g, m)));
                assert(other.mnem_stats@[k as int].wf());
            }
            let ghost before = *self;
            self.add_entry(g, name, &other.mnem_stats[k]);
            assert forall|h: GroupTypeEnum, n: Seq<char>| key_before(*other, k + 1, h, n) <==> (key_before(*other, k as int, h, n) || (h == g && n == m)) by {
                if key_before(*other, k + 1, h, n) && !(h == g && n == m) {
                    let i = choose|i: int| 0 <= i < k + 1 && other.key_at(i, h, n);
                    assert(i != k);
                    assert(key_before(*other, k as int, h, n));
                }
                if key_before(*other, k as int, h, n) {
                    let i = choose|i: int| 0 <= i < k && other.key_at(i, h, n);
                    assert(0 <= i < k + 1 && other.key_at(i, h, n));
                }
                if h == g && n == m {
                    assert(other.key_at(k as int, h, n));
                }
            }
            assert forall|h: GroupTypeEnum, n: Seq<char>, c: Counter| valid_counter(c) && key_before(*other, k + 1, h, n) implies #[trigger] self.mnem_value(h, n, c) == mid.mnem_value(h, n, c) + other.mnem_value(h, n, c) by {
                if h == g && n == m {
                    assert(before.mnem_bucket(h, n) == mid.mnem_bucket(h, n));
                    assert(other.mnem_bucket(h, n) == Some(other.mnem_stats@[k as int]));
                    assert(self.mnem_value(h, n, c) == before.mnem_value(h, n, c) + value_of(other.mnem_stats@[k as int], c));
                } else {
                    assert(key_before(*other, k as int, h, n));
                    assert(before.mnem_value(h, n, c) == mid.mnem_value(h, n, c) + other.mnem_value(h, n, c));
                    assert(self.mnem_bucket(h, n) == before.mnem_bucket(h, n));
                }
            }
            k = k + 1;
        }
        assert forall|g: GroupTypeEnum, m: Seq<char>| key_before(*other, k as int, g, m) <==> other.has_mnemonic(g, m) by {
            if other.has_mnemonic(g, m) {
                let i = choose|i: int| other.key_at(i, g, m);
                assert(0 <= i < k && other.key_at(i, g, m));
            }
        }
        assert forall|g: GroupTypeEnum, m: Seq<char>, c: Counter| valid_counter(c) implies #[trigger] self.mnem_value(g, m, c) == pre.mnem_value(g, m, c) + other.mnem_value(g, m, c) by {
            if !other.has_mnemonic(g, m) {
                assert(self.mnem_bucket(g, m) == mid.mnem_bucket(g, m));
            }
        }
        assert forall|g: GroupTypeEnum, c: Counter| valid_counter(c) implies #[trigger] self.group_value(g, c) == pre.group_value(g, c) + other.group_value(g, c) by {
            assert(merged_opt(pre.group_bucket(g), other.group_bucket(g), self.group_bucket(g)));
        }
        assert forall|g: GroupTypeEnum| #[trigger] self.group_bucket(g) is Some <==> (pre.group_bucket(g) is Some || other.group_bucket(g) is Some) by {
            assert(merged_opt(pre.group_bucket(g), other.group_bucket(g), self.group_bucket(g)));
        }
    }
}

/// Counter `c` of category `g` after folding each `(facts, repeat count)`
/// pair of `xs` into an empty table.
pub open spec fn fold_group(xs: Seq<(BreakdownData, int)>, g: GroupTypeEnum, c: Counter) -> int
    decreases xs.len(),
{
    if xs.len() == 0 {
        0
    } else {
        fold_group(xs.drop_last(), g, c) + if xs.last().0.group == g {
            delta(xs.last().0, xs.last().1, c)
        } else {
            0
        }
    }
}

/// Counter `c` of mnemonic `m` in category `g` after folding `xs` into an
/// empty table.
pub open spec fn fold_mnem(xs: Seq<(BreakdownData, int)>, g: GroupTypeEnum, m: Seq<char>, c: Counter) -> int
    decreases xs.len(),
{
    if xs.len() == 0 {
        0
    } else {
        fold_mnem(xs.drop_last(), g, m, c) + if xs.last().0.group == g && xs.last().0.mnemonic@ == m {
            delta(xs.last().0, xs.last().1, c)
        } else {
            0
        }
    }
}

/// Every counter of `t` is what folding `xs` into an empty table gives.
pub open spec fn holds_fold(t: BreakdownCategories, xs: Seq<(BreakdownData, int)>) -> bool {
    &&& forall|g: GroupTypeEnum, c: Counter| valid_counter(c) ==> #[trigger] t.group_value(g, c) == fold_group(xs, g, c)
    &&& forall|g: GroupTypeEnum, m: Seq<char>, c: Counter| valid_counter(c) ==> #[trigger] t.mnem_value(g, m, c) == fold_mnem(xs, g, m, c)
}

/// Every counter of `r` is the sum of the same counters of `a` and `b`.
pub open spec fn sums(r: BreakdownCategories, a: BreakdownCategories, b: BreakdownCategories) -> bool {
    &&& forall|g: GroupTypeEnum, c: Counter| valid_counter(c) ==> #[trigger] r.group_value(g, c) == a.group_value(g, c) + b.group_value(g, c)
    &&& forall|g: GroupTypeEnum, m: Seq<char>, c: Counter| valid_counter(c) ==> #[trigger] r.mnem_value(g, m, c) == a.mnem_value(g, m, c) + b.mnem_value(g, m, c)
}

/// Every counter of `a` equals the same counter of `b`.
pub open spec fn same_counts(a: BreakdownCategories, b: BreakdownCategories) -> bool {
    &&& forall|g: GroupTypeEnum, c: Counter| valid_counter(c) ==> #[trigger] a.group_value(g, c) == b.group_value(g, c)
    &&& forall|g: GroupTypeEnum, m: Seq<char>, c: Counter| valid_counter(c) ==> #[trigger] a.mnem_value(g, m, c) == b.mnem_value(g, m, c)
}

/// Folding a concatenation gives, counter by counter, the sum of folding
/// each part.
pub proof fn lemma_fold_concat(xs: Seq<(BreakdownData, int)>, ys: Seq<(BreakdownData, int)>)
    ensures
        forall|g: GroupTypeEnum, c: Counter| #[trigger] fold_group(xs + ys, g, c) == fold_group(xs, g, c) + fold_group(ys, g, c),
        forall|g: GroupTypeEnum, m: Seq<char>, c: Counter| #[trigger] fold_mnem(xs + ys, g, m, c) == fold_mnem(xs, g, m, c) + fold_mnem(ys, g, m, c),
    decreases ys.len(),
{
    if ys.len() == 0 {
        assert(xs + ys =~= xs);
    } else {
        let zs = xs + ys;
        lemma_fold_concat(xs, ys.drop_last());
        assert(zs.drop_last() =~= xs + ys.drop_last());
        assert(zs.last() == ys.last());
        assert forall|g: GroupTypeEnum, c: Counter| #[trigger] fold_group(zs, g, c) == fold_group(xs, g, c) + fold_group(ys, g, c) by {
            assert(fold_group(zs.drop_last(), g, c) == fold_group(xs, g, c) + fold_group(ys.drop_last(), g, c));
        }
        assert forall|g: GroupTypeEnum, m: Seq<char>, c: Counter| #[trigger] fold_mnem(zs, g, m, c) == fold_mnem(xs, g, m, c) + fold_mnem(ys, g, m, c) by {
            assert(fold_mnem(zs.drop_last(), g, m, c) == fold_mnem(xs, g, m, c) + fold_mnem(ys.drop_last(), g, m, c));
        }
    }
}

/// An empty table holds the fold of the empty sequence, and folding one more
/// pair with `update_breakdown` extends the sequence that a table holds.
pub proof fn lemma_update_extends(t: BreakdownCategories, t2: BreakdownCategories, xs: Seq<(BreakdownData, int)>, d: BreakdownData, n: int)
    requires
        holds_fold(t, xs),
        forall|g: GroupTypeEnum, c: Counter| valid_counter(c) ==> #[trigger] t2.group_value(g, c) == t.group_value(g, c)
            + if g == d.group { delta(d, n, c) } else { 0 },
        forall|g: GroupTypeEnum, m: Seq<char>, c: Counter| valid_counter(c) ==> #[trigger] t2.mnem_value(g, m, c) == t.mnem_value(g, m, c)
            + if g == d.group && m == d.mnemonic@ { delta(d, n, c) } else { 0 },
    ensures
        holds_fold(t2, xs.push((d, n))),
{
    assert(xs.push((d, n)).drop_last() =~= xs);
}

/// Merging two tables that hold the folds of `xs` and `ys` gives a table
/// that holds the fold of `xs + ys`.
pub proof fn lemma_merge_is_concat_fold(
    a: BreakdownCategories,
    b: BreakdownCategories,
    r: BreakdownCategories,
    xs: Seq<(BreakdownData, int)>,
    ys: Seq<(BreakdownData, int)>,
)
    requires
        holds_fold(a, xs),
        holds_fold(b, ys),
        sums(r, a, b),
    ensures
        holds_fold(r, xs + ys),
{
    lemma_fold_concat(xs, ys);
}

/// Merge order does not matter: `(x + y) + z` and `z + (y + x)`, merged in
/// either grouping and order, hold the same counters.
pub proof fn lemma_merge_order(
    x: BreakdownCategories,
    y: BreakdownCategories,
    z: BreakdownCategories,
    xy: BreakdownCategories,
    xy_z: BreakdownCategories,
    yx: BreakdownCategories,
    z_yx: BreakdownCategories,
)
    requires
        sums(xy, x, y),
        sums(xy_z, xy, z),
        sums(yx, y, x),
        sums(z_yx, z, yx),
    ensures
        same_counts(xy, yx),
        same_counts(xy_z, z_yx),
{
}

impl BreakdownCategories {
    /// The bucket of category `g`, if it has been created.
    pub fn group_stats(&self, g: GroupTypeEnum) -> (r: Option<Breakdown>)
        requires
            self.wf(),
        ensures
            r == self.group_bucket(g),
    {
        self.map_groups[g.index()]
    }

    /// The bucket of mnemonic `name` in category `g`, if it has been created.
    pub fn mnemonic_stats(&self, g: GroupTypeEnum, name: &String) -> (r: Option<Breakdown>)
        requires
            self.wf(),
        ensures
            r == self.mnem_bucket(g, name@),
    {
        match self.find(g, name) {
            Some(j) => {
                proof {
                    self.lemma_unique_key(j as int, g, name@);
                }
                Some(self.mnem_stats[j])
            },
            None => None,
        }
    }

    /// Number of (category, mnemonic) buckets.
    pub fn n_mnemonics(&self) -> (r: usize)
        ensures
            r == self.n_entries(),
    {
        self.mnem_names.len()
    }
}

/// Whether two buckets, either possibly absent, can be summed.
fn opt_can_merge(a: Option<Breakdown>, b: Option<Breakdown>) -> (r: bool)
    ensures
        r == opt_merge_fits(a, b),
{
    match (a, b) {
        (Some(x), Some(y)) => x.can_merge(&y),
        _ => true,
    }
}

impl BreakdownCategories {
    /// Whether `merge(other)` keeps every counter in range.
    pub fn can_merge(&self, other: &BreakdownCategories) -> (r: bool)
        requires
            self.wf(),
            other.wf(),
        ensures
            r == self.merge_fits(*other),
    {
        let mut i: usize = 0;
        while i < 7
            invariant
                self.wf(),
                other.wf(),
                i <= 7,
                forall|g: GroupTypeEnum| spec_index(g) < i ==> opt_merge_fits(#[trigger] self.group_bucket(g), other.group_bucket(g)),
            decreases 7 - i,
        {
            if !opt_can_merge(self.map_groups[i], other.map_groups[i]) {
                proof {
                    lemma_index_round_trip(i as int);
                    assert(!opt_merge_fits(self.group_bucket(spec_from_index(i as nat)), other.group_bucket(spec_from_index(i as nat))));
                }
                return false;
            }
            i = i + 1;
        }
        assert forall|g: GroupTypeEnum| opt_merge_fits(#[trigger] self.group_bucket(g), other.group_bucket(g)) by {
            assert(spec_index(g) < 7);
        }
        let mut k: usize = 0;
        while k < other.mnem_names.len()
            invariant
                self.wf(),
                other.wf(),
                k <= other.n_entries(),
                forall|g: GroupTypeEnum, m: Seq<char>| key_before(*other, k as int, g, m) ==> opt_merge_fits(#[trigger] self.mnem_bucket(g, m), other.mnem_bucket(g, m)),
            decreases other.n_entries() - k,
        {
            let g = other.mnem_groups[k];
            let name = &other.mnem_names[k];
            proof {
                assert(other.key_at(k as int, g, name@));
                other.lemma_unique_key(k as int, g, name@);
            }
            let mine = self.mnemonic_stats(g, name);
            if !opt_can_merge(mine, Some(other.mnem_stats[k])) {
                return false;
            }
            assert forall|h: GroupTypeEnum, n: Seq<char>| key_before(*other, k + 1, h, n) implies opt_merge_fits(#[trigger] self.mnem_bucket(h, n), other.mnem_bucket(h, n)) by {
                if !(h == g && n == name@) {
                    let i = choose|i: int| 0 <= i < k + 1 && other.key_at(i, h, n);
                    assert(i != k);
                    assert(key_before(*other, k as int, h, n));
                }
            }
            k = k + 1;
        }
        assert forall|g: GroupTypeEnum, m: Seq<char>| opt_merge_fits(#[trigger] self.mnem_bucket(g, m), other.mnem_bucket(g, m)) by {
            if other.has_mnemonic(g, m) {
                let i = choose|i: int| other.key_at(i, g, m);
                assert(0 <= i < k && other.key_at(i, g, m));
            }
        }
        true
    }
}

/// `t2` is `t` with `n` copies of `d` folded in, as `update_breakdown`
/// states it.
pub open spec fn folded_once(t: BreakdownCategories, t2: BreakdownCategories, d: BreakdownData, n: int) -> bool {
    &&& forall|g: GroupTypeEnum, c: Counter| valid_counter(c) ==> #[trigger] t2.group_value(g, c) == t.group_value(g, c)
        + if g == d.group { delta(d, n, c) } else { 0 }
    &&& forall|g: GroupTypeEnum, m: Seq<char>, c: Counter| valid_counter(c) ==> #[trigger] t2.mnem_value(g, m, c) == t.mnem_value(g, m, c)
        + if g == d.group && m == d.mnemonic@ { delta(d, n, c) } else { 0 }
}

/// Folding two facts in either order gives the same counters.
pub proof fn lemma_update_order(
    t: BreakdownCategories,
    d1: BreakdownData,
    n1: int,
    d2: BreakdownData,
    n2: int,
    a: BreakdownCategories,
    ab: BreakdownCategories,
    b: BreakdownCategories,
    ba: BreakdownCategories,
)
    requires
        folded_once(t, a, d1, n1),
        folded_once(a, ab, d2, n2),
        folded_once(t, b, d2, n2),
        folded_once(b, ba, d1, n1),
    ensures
        same_counts(ab, ba),
{
}

} // verus!
