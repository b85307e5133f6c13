//! Symbol tables: association lists from label name to 32-bit value,
//! looked up front-to-back. The passes keep names unique by checking
//! both tables before every insertion.
use vstd::prelude::*;

verus! {

/// View of a table as a sequence of (name, value) pairs.
pub open spec fn tab_view(t: Seq<(Vec<u8>, u32)>) -> Seq<(Seq<u8>, u32)> {
    t.map_values(|e: (Vec<u8>, u32)| (e.0@, e.1))
}

/// The value bound to `name` in `t[i..]`; the first matching entry wins.
pub open spec fn spec_lookup_from(t: Seq<(Seq<u8>, u32)>, i: int, name: Seq<u8>) -> Option<u32>
    decreases t.len() - i,
{
    if i < 0 || i >= t.len() {
        None
    } else if t[i].0 == name {
        Some(t[i].1)
    } else {
        spec_lookup_from(t, i + 1, name)
    }
}

/// The value bound to `name` in `t`, if any.
pub open spec fn spec_lookup(t: Seq<(Seq<u8>, u32)>, name: Seq<u8>) -> Option<u32> {
    spec_lookup_from(t, 0, name)
}

/// Byte-wise equality of two byte strings.
pub fn eq_bytes(a: &[u8], b: &[u8]) -> (r: bool)
    ensures
        r == (a@ == b@),
{
    if a.len() != b.len() {
        return false;
    }
    let mut i: usize = 0;
    while i < a.len()
        invariant
            i <= a@.len() == b@.len(),
            forall|j: int| 0 <= j < i ==> a@[j] == b@[j],
        decreases a@.len() - i,
    {
        if a[i] != b[i] {
            return false;
        }
        i = i + 1;
    }
    proof {
        assert(a@ =~= b@);
    }
    true
}

/// Looks `name` up in the table.
pub fn lookup(t: &Vec<(Vec<u8>, u32)>, name: &[u8]) -> (r: Option<u32>)
    ensures
        r == spec_lookup(tab_view(t@), name@),
{
    let ghost tv = tab_view(t@);
    let mut i: usize = 0;
    while i < t.len()
        invariant
            i <= t@.len(),
            tv == tab_view(t@),
            tv.len() == t@.len(),
            spec_lookup(tv, name@) == spec_lookup_from(tv, i as int, name@),
        decreases t@.len() - i,
    {
        assert(tv[i as int] == (t@[i as int].0@, t@[i as int].1));
        if eq_bytes(t[i].0.as_slice(), name) {
            return Some(t[i].1);
        }
        i = i + 1;
    }
    None
}

/// Appends an entry; callers keep names unique by looking them up first.
pub fn tab_insert(t: &mut Vec<(Vec<u8>, u32)>, name: Vec<u8>, val: u32)
    ensures
        tab_view(final (t)@) == tab_view(old(t)@).push((name@, val)),
{
    let ghost nv = name@;
    let ghost before = t@;
    t.push((name, val));
    proof {
        assert(tab_view(t@) =~= tab_view(before).push((nv, val)));
    }
}

/// Copies a label-definition word without its trailing `:`.
pub fn strip_colon(w: &[u8]) -> (r: Vec<u8>)
    requires
        w@.len() > 0,
    ensures
        r@ == w@.subrange(0, w@.len() - 1),
{
    let mut out: Vec<u8> = Vec::new();
    let mut i: usize = 0;
    assert(out@ =~= w@.subrange(0, 0));
    while i < w.len() - 1
        invariant
            w@.len() > 0,
            i <= w@.len() - 1,
            out@ == w@.subrange(0, i as int),
        decreases w@.len() - i,
    {
        out.push(w[i]);
        assert(w@.subrange(0, i as int).push(w@[i as int]) =~= w@.subrange(0, i + 1));
        i = i + 1;
    }
    out
}

} // verus!
