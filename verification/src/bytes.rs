//! Small helpers on byte buffers, each with the sequence it computes.

use vstd::prelude::*;
use vstd::slice::{slice_subrange, slice_to_vec};

verus! {

/// Appends `s` to `v`.
pub fn append(v: &mut Vec<u8>, s: &[u8])
    ensures
        final(v)@ == old(v)@ + s@,
{
    v.extend_from_slice(s);
    assert(v@ =~= old(v)@ + s@);
}

/// The bytes of `s` from `from` up to `to`, copied.
pub fn copy_range(s: &[u8], from: usize, to: usize) -> (out: Vec<u8>)
    requires
        from <= to <= s@.len(),
    ensures
        out@ == s@.subrange(from as int, to as int),
{
    slice_to_vec(slice_subrange(s, from, to))
}

/// The first position at or after `from` that holds `b`, or the length where
/// none does.
pub open spec fn first_at(s: Seq<u8>, from: int, b: u8) -> int
    decreases s.len() - from,
{
    if from >= s.len() {
        s.len() as int
    } else if s[from] == b {
        from
    } else {
        first_at(s, from + 1, b)
    }
}

/// `first_at` is the position at or after `from` that holds `b` and has
/// none before it, or the length.
pub proof fn lemma_first_at_is(s: Seq<u8>, from: int, b: u8, at: int)
    requires
        0 <= from <= at <= s.len(),
        at < s.len() ==> s[at] == b,
        forall|j: int| from <= j < at ==> s[j] != b,
    ensures
        first_at(s, from, b) == at,
    decreases at - from,
{
    if from < at {
        lemma_first_at_is(s, from + 1, b, at);
    }
}

/// Finds the first `b` at or after `from`.
pub fn find_byte(s: &[u8], from: usize, b: u8) -> (at: usize)
    requires
        from <= s@.len(),
    ensures
        at == first_at(s@, from as int, b),
        from <= at <= s@.len(),
{
    let mut i: usize = from;
    while i < s.len() && s[i] != b
        invariant
            from <= i <= s@.len(),
            forall|j: int| from <= j < i ==> s@[j] != b,
        decreases s@.len() - i,
    {
        i += 1;
    }
    proof {
        lemma_first_at_is(s@, from as int, b, i as int);
    }
    i
}

/// The last position before `end` that holds `b`, or -1 where none does.
pub open spec fn last_at(s: Seq<u8>, end: int, b: u8) -> int
    decreases end,
{
    if end <= 0 {
        -1
    } else if s[end - 1] == b {
        end - 1
    } else {
        last_at(s, end - 1, b)
    }
}

/// `last_at` is the position before `end` that holds `b` and has none behind
/// it, or -1.
pub proof fn lemma_last_at_is(s: Seq<u8>, end: int, b: u8, at: int)
    requires
        0 <= end <= s.len(),
        -1 <= at < end,
        at >= 0 ==> s[at] == b,
        forall|j: int| at < j < end ==> s[j] != b,
    ensures
        last_at(s, end, b) == at,
    decreases end,
{
    if end > 0 && at < end - 1 {
        lemma_last_at_is(s, end - 1, b, at);
    }
}

/// Finds the last `b` before `end`; gives the position after it, or zero
/// where there is none.
pub fn rfind_byte(s: &[u8], end: usize, b: u8) -> (after: usize)
    requires
        end <= s@.len(),
    ensures
        after == last_at(s@, end as int, b) + 1,
        after <= end,
{
    let mut i: usize = end;
    while i > 0 && s[i - 1] != b
        invariant
            i <= end <= s@.len(),
            forall|j: int| i <= j < end ==> s@[j] != b,
        decreases i,
    {
        i -= 1;
    }
    proof {
        lemma_last_at_is(s@, end as int, b, i - 1);
    }
    i
}

/// Whether two buffers hold the same bytes.
pub fn same_bytes(a: &[u8], b: &[u8]) -> (r: bool)
    ensures
        r == (a@ == b@),
{
    if a.len() != b.len() {
        return false;
    }
    let mut i: usize = 0;
    while i < a.len()
        invariant
            i <= a@.len(),
            a@.len() == b@.len(),
            forall|j: int| 0 <= j < i ==> a@[j] == b@[j],
        decreases a@.len() - i,
    {
        if a[i] != b[i] {
            return false;
        }
        i += 1;
    }
    assert(a@ =~= b@);
    true
}

} // verus!
