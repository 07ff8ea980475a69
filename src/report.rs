use vstd::prelude::*;
use vstd::string::*;
use crate::breakdown::Breakdown;
use crate::category::{spec_from_index, spec_label, GroupTypeEnum};
use crate::table::BreakdownCategories;

verus! {

pub open spec fn digit_char(d: nat) -> char {
    "0123456789"@[d as int]
}

/// Decimal digits of `n`, most significant first.
pub open spec fn dec(n: nat) -> Seq<char>
    decreases n,
{
    if n < 10 {
        seq![digit_char(n)]
    } else {
        dec(n / 10).push(digit_char(n % 10))
    }
}

/// The digit `d` as a one-character string.
fn digit(d: u128) -> (r: &'static str)
    requires
        d < 10,
    ensures
        r@ == seq![digit_char(d as nat)],
{
    let all = "0123456789";
    proof {
        reveal_strlit("0123456789");
    }
    let r = all.substring_char(d as usize, d as usize + 1);
    assert(r@ =~= seq![digit_char(d as nat)]);
    r
}

/// Decimal digits of `n`.
fn decimal(n: u128) -> (r: String)
    ensures
        r@ == dec(n as nat),
    decreases n,
{
    if n < 10 {
        String::from_str(digit(n))
    } else {
        let mut s = decimal(n / 10);
        s.append(digit(n % 10));
        s
    }
}

/// One report cell: the value and a comma.
pub open spec fn cell(v: nat) -> Seq<char> {
    dec(v) + ","@
}

fn push_cell(out: &mut String, v: u128)
    ensures
        final(out)@ == old(out)@ + cell(v as nat),
{
    let d = decimal(v);
    out.append(d.as_str());
    out.append(",");
    assert(final(out)@ =~= old(out)@ + cell(v as nat)) by {
        assert(old(out)@ + d@ + ","@ =~= old(out)@ + (d@ + ","@));
    }
}

pub open spec fn both(a: [usize; 2]) -> nat {
    (a@[0] + a@[1]) as nat
}

/// Totals line: both sides summed.
pub open spec fn spec_stats_tot(b: Breakdown) -> Seq<char> {
    "tot  ,"@ + cell(b.tot as nat) + cell(both(b.tot_load)) + cell(both(b.tot_store)) + cell(both(b.is_br))
        + cell(both(b.is_mem)) + cell(both(b.is_fp)) + cell(both(b.is_crypto)) + cell(both(b.is_priviledge))
        + cell(both(b.with_both)) + cell(both(b.mem_branch)) + cell(both(b.has_multi_mem))
}

pub open spec fn side_count(b: Breakdown, idx: int) -> nat {
    if idx == 0 {
        b.user as nat
    } else {
        b.sys as nat
    }
}

/// Line of one side: slot `idx`, labelled `op`.
pub open spec fn spec_stats(b: Breakdown, op: Seq<char>, idx: int) -> Seq<char> {
    op + ","@ + cell(side_count(b, idx)) + cell(b.tot_load@[idx] as nat) + cell(b.tot_store@[idx] as nat)
        + cell(b.is_br@[idx] as nat) + cell(b.is_mem@[idx] as nat) + cell(b.is_fp@[idx] as nat)
        + cell(b.is_crypto@[idx] as nat) + cell(b.is_priviledge@[idx] as nat) + cell(b.with_both@[idx] as nat)
        + cell(b.mem_branch@[idx] as nat) + cell(b.has_multi_mem@[idx] as nat)
}

/// Cells of the length buckets `1 ..= k` of `row`.
pub open spec fn hist_cells(row: Seq<usize>, k: nat) -> Seq<char>
    decreases k,
{
    if k == 0 {
        Seq::empty()
    } else {
        hist_cells(row, (k - 1) as nat) + cell(row[k as int] as nat)
    }
}

pub open spec fn side_label(idx: int) -> Seq<char> {
    if idx == 0 {
        "user"@
    } else {
        "os  "@
    }
}

/// Length histogram line of slot `idx`, buckets 1 to 12.
pub open spec fn spec_byte_dist(b: Breakdown, idx: int) -> Seq<char> {
    side_label(idx) + ","@ + hist_cells(b.byte_sizes@[idx]@, 12)
}

/// Totals, user and kernel lines of a bucket.
pub open spec fn spec_bucket_stats(b: Breakdown) -> Seq<char> {
    spec_stats_tot(b) + spec_stats(b, "user"@, 0) + spec_stats(b, "os   "@, 1)
}

impl Breakdown {
    pub fn print_stats_tot(&self) -> (r: String)
        ensures
            r@ == spec_stats_tot(*self),
    {
        let mut s = String::from_str("tot  ,");
        push_cell(&mut s, self.tot as u128);
        push_cell(&mut s, self.tot_load[0] as u128 + self.tot_load[1] as u128);
        push_cell(&mut s, self.tot_store[0] as u128 + self.tot_store[1] as u128);
        push_cell(&mut s, self.is_br[0] as u128 + self.is_br[1] as u128);
        push_cell(&mut s, self.is_mem[0] as u128 + self.is_mem[1] as u128);
        push_cell(&mut s, self.is_fp[0] as u128 + self.is_fp[1] as u128);
        push_cell(&mut s, self.is_crypto[0] as u128 + self.is_crypto[1] as u128);
        push_cell(&mut s, self.is_priviledge[0] as u128 + self.is_priviledge[1] as u128);
        push_cell(&mut s, self.with_both[0] as u128 + self.with_both[1] as u128);
        push_cell(&mut s, self.mem_branch[0] as u128 + self.mem_branch[1] as u128);
        push_cell(&mut s, self.has_multi_mem[0] as u128 + self.has_multi_mem[1] as u128);
        s
    }

    pub fn print_stats(&self, op: &str, idx: usize) -> (r: String)
        requires
            idx < 2,
        ensures
            r@ == spec_stats(*self, op@, idx as int),
    {
        let mut s = String::from_str(op);
        s.append(",");
        let n = if idx == 0 { self.user } else { self.sys };
        push_cell(&mut s, n as u128);
        push_cell(&mut s, self.tot_load[idx] as u128);
        push_cell(&mut s, self.tot_store[idx] as u128);
        push_cell(&mut s, self.is_br[idx] as u128);
        push_cell(&mut s, self.is_mem[idx] as u128);
        push_cell(&mut s, self.is_fp[idx] as u128);
        push_cell(&mut s, self.is_crypto[idx] as u128);
        push_cell(&mut s, self.is_priviledge[idx] as u128);
        push_cell(&mut s, self.with_both[idx] as u128);
        push_cell(&mut s, self.mem_branch[idx] as u128);
        push_cell(&mut s, self.has_multi_mem[idx] as u128);
        s
    }

    pub fn print_stats_user(&self) -> (r: String)
        ensures
            r@ == spec_stats(*self, "user"@, 0),
    {
        self.print_stats("user", 0)
    }

    pub fn print_stats_sys(&self) -> (r: String)
        ensures
            r@ == spec_stats(*self, "os   "@, 1),
    {
        self.print_stats("os   ", 1)
    }

    pub fn print_byte_dist(&self, idx: usize) -> (r: String)
        requires
            idx < 2,
        ensures
            r@ == spec_byte_dist(*self, idx as int),
    {
        let mut s = if idx == 0 { String::from_str("user") } else { String::from_str("os  ") };
        s.append(",");
        let row = self.byte_sizes[idx];
        let ghost head = s@;
        let mut k: usize = 1;
        while k <= 12
            invariant
                1 <= k <= 13,
                row@ == self.byte_sizes@[idx as int]@,
                s@ == head + hist_cells(row@, (k - 1) as nat),
            decreases 13 - k,
        {
            push_cell(&mut s, row[k] as u128);
            assert(s@ =~= head + hist_cells(row@, k as nat));
            k = k + 1;
        }
        s
    }
}

/// Aggregate lines of the categories in slots `0 .. k` that have a bucket.
pub open spec fn group_lines(t: BreakdownCategories, k: nat) -> Seq<char>
    decreases k,
{
    if k == 0 {
        Seq::empty()
    } else {
        group_lines(t, (k - 1) as nat) + match t.map_groups@[k - 1] {
            Some(b) => spec_label(spec_from_index((k - 1) as nat)) + ","@ + spec_bucket_stats(b) + "\n"@,
            None => Seq::empty(),
        }
    }
}

/// Line of entry `j`: its quoted mnemonic, then either its statistics or its
/// two length histograms.
pub open spec fn entry_line(t: BreakdownCategories, j: int, bytes: bool) -> Seq<char> {
    let b = t.mnem_stats@[j];
    "\""@ + t.mnem_names@[j]@ + "\","@ + (if bytes {
        spec_byte_dist(b, 0) + spec_byte_dist(b, 1)
    } else {
        spec_bucket_stats(b)
    }) + "\n"@
}

/// Lines of the entries among the first `k` that belong to category `g`.
pub open spec fn entry_lines(t: BreakdownCategories, g: GroupTypeEnum, k: nat, bytes: bool) -> Seq<char>
    decreases k,
{
    if k == 0 {
        Seq::empty()
    } else {
        entry_lines(t, g, (k - 1) as nat, bytes) + if t.mnem_groups@[k - 1] == g {
            entry_line(t, k - 1, bytes)
        } else {
            Seq::empty()
        }
    }
}

/// For the categories in slots `0 .. k`: a heading, then their entries.
pub open spec fn sections(t: BreakdownCategories, k: nat, bytes: bool) -> Seq<char>
    decreases k,
{
    if k == 0 {
        Seq::empty()
    } else {
        sections(t, (k - 1) as nat, bytes) + spec_label(spec_from_index((k - 1) as nat)) + ":\n"@
            + entry_lines(t, spec_from_index((k - 1) as nat), t.n_entries() as nat, bytes)
    }
}

fn group_text(g: GroupTypeEnum, b: &Breakdown) -> (r: String)
    ensures
        r@ == spec_label(g) + ","@ + spec_bucket_stats(*b) + "\n"@,
{
    let mut out = String::from_str(g.get_str());
    out.append(",");
    let t = b.print_stats_tot();
    let u = b.print_stats_user();
    let k = b.print_stats_sys();
    out.append(t.as_str());
    out.append(u.as_str());
    out.append(k.as_str());
    out.append("\n");
    assert(out@ =~= spec_label(g) + ","@ + spec_bucket_stats(*b) + "\n"@);
    out
}

/// The whole report.
pub open spec fn spec_report(t: BreakdownCategories, with_byte_dist: bool) -> Seq<char> {
    "Groups:\n"@ + group_lines(t, 7) + "Stats:\n"@ + sections(t, 7, false) + if with_byte_dist {
        "ByteDist:\n"@ + sections(t, 7, true)
    } else {
        Seq::empty()
    }
}

impl BreakdownCategories {
    /// The table's vectors have the lengths the report reads.
    pub open spec fn shape_ok(&self) -> bool {
        &&& self.map_groups@.len() == 7
        &&& self.mnem_groups@.len() == self.n_entries()
        &&& self.mnem_stats@.len() == self.n_entries()
    }

    fn entry_text(&self, j: usize, bytes: bool) -> (r: String)
        requires
            self.shape_ok(),
            j < self.n_entries(),
        ensures
            r@ == entry_line(*self, j as int, bytes),
    {
        let b = self.mnem_stats[j];
        let mut out = String::from_str("\"");
        out.append(self.mnem_names[j].as_str());
        out.append("\",");
        if bytes {
            let u = b.print_byte_dist(0);
            let k = b.print_byte_dist(1);
            out.append(u.as_str());
            out.append(k.as_str());
        } else {
            let t = b.print_stats_tot();
            let u = b.print_stats_user();
            let k = b.print_stats_sys();
            out.append(t.as_str());
            out.append(u.as_str());
            out.append(k.as_str());
        }
        out.append("\n");
        assert(out@ =~= entry_line(*self, j as int, bytes));
        out
    }

    fn push_entry_lines(&self, out: &mut String, g: GroupTypeEnum, bytes: bool)
        requires
            self.shape_ok(),
        ensures
            final(out)@ == old(out)@ + entry_lines(*self, g, self.n_entries() as nat, bytes),
    {
        let ghost head = out@;
        let mut j: usize = 0;
        while j < self.mnem_names.len()
            invariant
                self.shape_ok(),
                j <= self.n_entries(),
                out@ == head + entry_lines(*self, g, j as nat, bytes),
            decreases self.n_entries() - j,
        {
            if self.mnem_groups[j] == g {
                let line = self.entry_text(j, bytes);
                out.append(line.as_str());
            }
            assert(out@ =~= head + entry_lines(*self, g, (j + 1) as nat, bytes));
            j = j + 1;
        }
    }

    fn push_sections(&self, out: &mut String, bytes: bool)
        requires
            self.shape_ok(),
        ensures
            final(out)@ == old(out)@ + sections(*self, 7, bytes),
    {
        let ghost head = out@;
        let mut i: usize = 0;
        while i < 7
            invariant
                self.shape_ok(),
                i <= 7,
                out@ == head + sections(*self, i as nat, bytes),
            decreases 7 - i,
        {
            let g = GroupTypeEnum::from(i);
            let ghost before = out@;
            let mut part = String::from_str(g.get_str());
            part.append(":\n");
            self.push_entry_lines(&mut part, g, bytes);
            out.append(part.as_str());
            proof {
                let el = entry_lines(*self, g, self.n_entries() as nat, bytes);
                assert(part@ == spec_label(g) + ":\n"@ + el);
                assert(sections(*self, (i + 1) as nat, bytes) == sections(*self, i as nat, bytes) + spec_label(g) + ":\n"@ + el);
                assert(out@ == before + part@);
            }
            assert(out@ =~= head + sections(*self, (i + 1) as nat, bytes));
            i = i + 1;
        }
    }

    /// The report: the aggregate line of each category seen, then for each
    /// category in slot order its per-mnemonic lines in order of first use,
    /// then, if asked, the per-mnemonic length histograms.
    pub fn get_log_stats(&self, with_byte_dist: bool) -> (r: String)
        requires
            self.shape_ok(),
        ensures
            r@ == spec_report(*self, with_byte_dist),
    {
        let mut out = String::from_str("Groups:\n");
        let mut i: usize = 0;
        while i < 7
            invariant
                self.shape_ok(),
                i <= 7,
                out@ == "Groups:\n"@ + group_lines(*self, i as nat),
            decreases 7 - i,
        {
            match self.map_groups[i] {
                Some(b) => {
                    let line = group_text(GroupTypeEnum::from(i), &b);
                    out.append(line.as_str());
                },
                None => {},
            }
            assert(out@ =~= "Groups:\n"@ + group_lines(*self, (i + 1) as nat));
            i = i + 1;
        }
        out.append("Stats:\n");
        self.push_sections(&mut out, false);
        if with_byte_dist {
            out.append("ByteDist:\n");
            self.push_sections(&mut out, true);
        }
        assert(out@ =~= spec_report(*self, with_byte_dist));
        out
    }
}

} // verus!
