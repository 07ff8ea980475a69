use vstd::prelude::*;

verus! {

/// `n` occurs in `h` starting at position `i`.
pub open spec fn occurs_at(h: Seq<char>, n: Seq<char>, i: int) -> bool {
    0 <= i && i + n.len() <= h.len() && h.subrange(i, i + n.len()) == n
}

/// `n` is a substring of `h`.
pub open spec fn has_sub(h: Seq<char>, n: Seq<char>) -> bool {
    exists|i: int| occurs_at(h, n, i)
}

/// `p` is a prefix of `h`.
pub open spec fn has_prefix(h: Seq<char>, p: Seq<char>) -> bool {
    occurs_at(h, p, 0)
}

/// Some entry of `table` is a substring of `h`.
pub open spec fn hits(h: Seq<char>, table: Seq<Seq<char>>) -> bool {
    exists|t: int| 0 <= t < table.len() && has_sub(h, #[trigger] table[t])
}

/// Some entry of `table` is a substring of some element of `names`.
pub open spec fn any_hits(names: Seq<Seq<char>>, table: Seq<Seq<char>>) -> bool {
    exists|g: int| 0 <= g < names.len() && hits(#[trigger] names[g], table)
}

pub open spec fn str_views(s: Seq<&str>) -> Seq<Seq<char>> {
    s.map_values(|x: &str| x@)
}

pub open spec fn string_views(s: Seq<String>) -> Seq<Seq<char>> {
    s.map_values(|x: String| x@)
}

/// Whether `n` occurs in `h` at position `i`.
fn occurs_at_exec(h: &str, n: &str, i: usize, hl: usize, nl: usize) -> (r: bool)
    requires
        hl == h@.len(),
        nl == n@.len(),
        i + nl <= hl,
    ensures
        r == occurs_at(h@, n@, i as int),
{
    let mut k: usize = 0;
    while k < nl
        invariant
            hl == h@.len(),
            nl == n@.len(),
            i + nl <= hl,
            k <= nl,
            forall|j: int| 0 <= j < k ==> h@[i + j] == n@[j],
        decreases nl - k,
    {
        if h.get_char(i + k) != n.get_char(k) {
            assert(h@.subrange(i as int, i + nl)[k as int] != n@[k as int]);
            return false;
        }
        k = k + 1;
    }
    assert(h@.subrange(i as int, i + nl) =~= n@);
    true
}

/// Substring test.
pub fn contains(h: &str, n: &str) -> (r: bool)
    ensures
        r == has_sub(h@, n@),
{
    let hl = h.unicode_len();
    let nl = n.unicode_len();
    if nl > hl {
        return false;
    }
    let last = hl - nl;
    let mut i: usize = 0;
    while i < last
        invariant
            hl == h@.len(),
            nl == n@.len(),
            last == hl - nl,
            i <= last,
            forall|j: int| 0 <= j < i ==> !occurs_at(h@, n@, j),
        decreases last - i,
    {
        if occurs_at_exec(h, n, i, hl, nl) {
            return true;
        }
        i = i + 1;
    }
    occurs_at_exec(h, n, last, hl, nl)
}

/// Prefix test.
pub fn starts_with(h: &str, p: &str) -> (r: bool)
    ensures
        r == has_prefix(h@, p@),
{
    let hl = h.unicode_len();
    let pl = p.unicode_len();
    if pl > hl {
        return false;
    }
    occurs_at_exec(h, p, 0, hl, pl)
}

/// Whether some entry of `table` is a substring of `h`.
pub fn contains_any(h: &str, table: &Vec<&str>) -> (r: bool)
    ensures
        r == hits(h@, str_views(table@)),
{
    let mut t: usize = 0;
    while t < table.len()
        invariant
            t <= table@.len(),
            forall|j: int| 0 <= j < t ==> !has_sub(h@, #[trigger] table@[j]@),
        decreases table@.len() - t,
    {
        if contains(h, table[t]) {
            assert(str_views(table@)[t as int] == table@[t as int]@);
            return true;
        }
        t = t + 1;
    }
    assert forall|j: int| 0 <= j < str_views(table@).len() implies !has_sub(h@, #[trigger] str_views(table@)[j]) by {
        assert(str_views(table@)[j] == table@[j]@);
    }
    false
}

/// Whether some entry of `table` is a substring of some element of `names`.
pub fn any_contains_any(names: &Vec<String>, table: &Vec<&str>) -> (r: bool)
    ensures
        r == any_hits(string_views(names@), str_views(table@)),
{
    let mut g: usize = 0;
    while g < names.len()
        invariant
            g <= names@.len(),
            forall|j: int| 0 <= j < g ==> !hits(#[trigger] names@[j]@, str_views(table@)),
        decreases names@.len() - g,
    {
        if contains_any(names[g].as_str(), table) {
            assert(string_views(names@)[g as int] == names@[g as int]@);
            return true;
        }
        g = g + 1;
    }
    assert forall|j: int| 0 <= j < string_views(names@).len() implies !hits(#[trigger] string_views(names@)[j], str_views(table@)) by {
        assert(string_views(names@)[j] == names@[j]@);
    }
    false
}

} // verus!

verus! {

/// What `str::to_lowercase` returns for a string with characters `s`.
pub uninterp spec fn lower_of(s: Seq<char>) -> Seq<char>;

/// Relies on `str::to_lowercase`: the lowercase form of the string, which
/// depends on its characters alone.
#[verifier::external_body]
pub(crate) fn lowercase(s: &str) -> (r: String)
    ensures
        r@ == lower_of(s@),
{
    s.to_lowercase()
}

} // verus!
