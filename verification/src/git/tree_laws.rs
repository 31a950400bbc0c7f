//! What holds of trees: the order of names is a total order, sorting gives
//! sorted entries and does not depend on the order of its input, and a
//! well-formed tree is read back from its body.

use crate::bytes::lemma_first_at_is;
use crate::error::GitError;
use crate::git::git_tree::{
    insert_entry, key, lemma_modes, lex_le, sorted, sorted_entries, spec_decode_entries,
    spec_decode_entry, spec_encode_entries, spec_encode_entry, strictly_sorted, TreeEntryView,
};
use crate::text::lemma_ascii_valid;
use vstd::prelude::*;
use vstd::utf8::encode_utf8;

verus! {

/// Of two names one comes before the other, or they are the same.
pub proof fn lemma_lex_total(a: Seq<u8>, b: Seq<u8>)
    ensures
        lex_le(a, b) || lex_le(b, a),
    decreases a.len(),
{
    if a.len() > 0 && b.len() > 0 && a[0] == b[0] {
        lemma_lex_total(a.skip(1), b.skip(1));
    }
}

/// Two names that each come before the other are the same.
pub proof fn lemma_lex_antisym(a: Seq<u8>, b: Seq<u8>)
    requires
        lex_le(a, b),
        lex_le(b, a),
    ensures
        a == b,
    decreases a.len(),
{
    if a.len() > 0 && b.len() > 0 {
        lemma_lex_antisym(a.skip(1), b.skip(1));
        assert(a =~= seq![a[0]] + a.skip(1));
        assert(b =~= seq![b[0]] + b.skip(1));
    } else {
        assert(a =~= b);
    }
}

/// What comes before a name that comes before a third, comes before the
/// third.
pub proof fn lemma_lex_trans(a: Seq<u8>, b: Seq<u8>, c: Seq<u8>)
    requires
        lex_le(a, b),
        lex_le(b, c),
    ensures
        lex_le(a, c),
    decreases a.len(),
{
    if a.len() > 0 && b.len() > 0 && c.len() > 0 && a[0] == b[0] && b[0] == c[0] {
        lemma_lex_trans(a.skip(1), b.skip(1), c.skip(1));
    }
}

/// Where an entry goes when it is inserted: behind the last entry whose
/// name is not greater.
pub proof fn lemma_insert_position(es: Seq<TreeEntryView>, e: TreeEntryView) -> (p: int)
    ensures
        0 <= p <= es.len(),
        insert_entry(es, e) == es.insert(p, e),
        p > 0 ==> lex_le(key(es[p - 1]), key(e)),
        forall|j: int| p <= j < es.len() ==> !lex_le(key(#[trigger] es[j]), key(e)),
    decreases es.len(),
{
    if es.len() == 0 || lex_le(key(es.last()), key(e)) {
        assert(es.insert(es.len() as int, e) =~= es.push(e));
        es.len() as int
    } else {
        let p = lemma_insert_position(es.drop_last(), e);
        assert(es.drop_last().insert(p, e).push(es.last()) =~= es.insert(p, e));
        assert forall|j: int| p <= j < es.len() implies !lex_le(key(#[trigger] es[j]), key(e)) by {
            if j < es.len() - 1 {
                assert(es.drop_last()[j] == es[j]);
            }
        }
        if p > 0 {
            assert(es.drop_last()[p - 1] == es[p - 1]);
        }
        p
    }
}

/// Inserting into sorted entries leaves them sorted.
pub proof fn lemma_insert_sorted(es: Seq<TreeEntryView>, e: TreeEntryView)
    requires
        sorted(es),
    ensures
        sorted(insert_entry(es, e)),
{
    let p = lemma_insert_position(es, e);
    let r = es.insert(p, e);
    assert forall|i: int, j: int| 0 <= i < j < r.len() implies lex_le(
        key(#[trigger] r[i]),
        key(#[trigger] r[j]),
    ) by {
        if j < p {
            assert(r[i] == es[i] && r[j] == es[j]);
        } else if j == p {
            assert(r[i] == es[i]);
            assert(r[j] == e);
            if i < p - 1 {
                lemma_lex_trans(key(es[i]), key(es[p - 1]), key(e));
            }
        } else if i == p {
            assert(r[j] == es[j - 1]);
            lemma_lex_total(key(es[j - 1]), key(e));
        } else if i < p {
            assert(r[i] == es[i] && r[j] == es[j - 1]);
        } else {
            assert(r[i] == es[i - 1] && r[j] == es[j - 1]);
        }
    }
}

/// Sorting gives sorted entries.
pub proof fn lemma_sorted_entries_sorted(es: Seq<TreeEntryView>)
    ensures
        sorted(sorted_entries(es)),
        sorted_entries(es).len() == es.len(),
    decreases es.len(),
{
    if es.len() > 0 {
        lemma_sorted_entries_sorted(es.drop_last());
        lemma_insert_sorted(sorted_entries(es.drop_last()), es.last());
        lemma_insert_position(sorted_entries(es.drop_last()), es.last());
    }
}

/// Sorting leaves sorted entries as they are.
pub proof fn lemma_sorted_fixed(es: Seq<TreeEntryView>)
    requires
        sorted(es),
    ensures
        sorted_entries(es) == es,
    decreases es.len(),
{
    if es.len() > 0 {
        let front = es.drop_last();
        assert(sorted(front)) by {
            assert forall|i: int, j: int| 0 <= i < j < front.len() implies lex_le(
                key(#[trigger] front[i]),
                key(#[trigger] front[j]),
            ) by {
                assert(front[i] == es[i] && front[j] == es[j]);
            }
        }
        lemma_sorted_fixed(front);
        if front.len() > 0 {
            assert(front.last() == es[es.len() - 2]);
            assert(lex_le(key(es[es.len() - 2]), key(es[es.len() - 1])));
        }
        assert(front.push(es.last()) =~= es);
    }
}

/// Whether no two entries have one name.
pub open spec fn distinct_names(es: Seq<TreeEntryView>) -> bool {
    forall|i: int, j: int| 0 <= i < j < es.len() ==> key(#[trigger] es[i]) != key(#[trigger] es[j])
}

/// Whether two lists hold the same entries, in whatever order.
pub open spec fn same_entries(a: Seq<TreeEntryView>, b: Seq<TreeEntryView>) -> bool {
    forall|x: TreeEntryView| a.contains(x) <==> b.contains(x)
}

/// Sorting keeps the entries, and keeps their names distinct.
#[verifier::rlimit(50)]
pub proof fn lemma_sorted_entries_same(es: Seq<TreeEntryView>)
    requires
        distinct_names(es),
    ensures
        same_entries(sorted_entries(es), es),
        distinct_names(sorted_entries(es)),
    decreases es.len(),
{
    if es.len() > 0 {
        let front = es.drop_last();
        let e = es.last();
        assert(distinct_names(front)) by {
            assert forall|i: int, j: int| 0 <= i < j < front.len() implies key(#[trigger] front[i])
                != key(#[trigger] front[j]) by {
                assert(front[i] == es[i] && front[j] == es[j]);
            }
        }
        lemma_sorted_entries_same(front);
        let s = sorted_entries(front);
        let p = lemma_insert_position(s, e);
        let r = s.insert(p, e);
        assert forall|x: TreeEntryView| r.contains(x) <==> es.contains(x) by {
            if r.contains(x) {
                let k = choose|k: int| 0 <= k < r.len() && r[k] == x;
                if k == p {
                    assert(es[es.len() - 1] == x);
                } else {
                    let k0 = if k < p {
                        k
                    } else {
                        k - 1
                    };
                    assert(s[k0] == x);
                    assert(s.contains(x));
                    assert(front.contains(x));
                    let q = choose|q: int| 0 <= q < front.len() && front[q] == x;
                    assert(es[q] == x);
                }
            }
            if es.contains(x) {
                let q = choose|q: int| 0 <= q < es.len() && es[q] == x;
                if q == es.len() - 1 {
                    assert(r[p] == x);
                } else {
                    assert(front[q] == x);
                    assert(front.contains(x));
                    assert(s.contains(x));
                    let k0 = choose|k0: int| 0 <= k0 < s.len() && s[k0] == x;
                    if k0 < p {
                        assert(r[k0] == x);
                    } else {
                        assert(r[k0 + 1] == x);
                    }
                }
            }
        }
        assert forall|i: int, j: int| 0 <= i < j < r.len() implies key(#[trigger] r[i]) != key(
            #[trigger] r[j],
        ) by {
            let other = |k: int| if k < p { k } else { k - 1 };
            if i == p || j == p {
                let k = if i == p {
                    other(j)
                } else {
                    other(i)
                };
                assert(s.contains(s[k]));
                assert(front.contains(s[k]));
                let q = choose|q: int| 0 <= q < front.len() && front[q] == s[k];
                assert(es[q] == s[k]);
                assert(key(es[q]) != key(es[es.len() - 1]));
            } else {
                assert(r[i] == s[other(i)] && r[j] == s[other(j)]);
            }
        }
    }
}

/// Two lists of entries that go strictly up by name and hold the same
/// entries are the same list.
#[verifier::rlimit(50)]
pub proof fn lemma_strictly_sorted_unique(a: Seq<TreeEntryView>, b: Seq<TreeEntryView>)
    requires
        strictly_sorted(a),
        strictly_sorted(b),
        same_entries(a, b),
    ensures
        a == b,
    decreases a.len(),
{
    if a.len() == 0 {
        if b.len() > 0 {
            assert(b.contains(b[0]));
            assert(a.contains(b[0]));
        }
        assert(a =~= b);
    } else {
        let m = a.last();
        assert(a.contains(m));
        assert(b.contains(m));
        let j = choose|j: int| 0 <= j < b.len() && b[j] == m;
        if j < b.len() - 1 {
            let top = b.last();
            assert(b.contains(top));
            assert(a.contains(top));
            let i = choose|i: int| 0 <= i < a.len() && a[i] == top;
            assert(lex_le(key(b[j]), key(b[b.len() - 1])));
            if i < a.len() - 1 {
                assert(lex_le(key(a[i]), key(a[a.len() - 1])));
                lemma_lex_antisym(key(top), key(m));
            }
        }
        assert(b.last() == m);
        let a0 = a.drop_last();
        let b0 = b.drop_last();
        assert(strictly_sorted(a0)) by {
            assert forall|i: int, k: int| 0 <= i < k < a0.len() implies lex_le(
                key(#[trigger] a0[i]),
                key(#[trigger] a0[k]),
            ) && key(a0[i]) != key(a0[k]) by {
                assert(a0[i] == a[i] && a0[k] == a[k]);
            }
        }
        assert(strictly_sorted(b0)) by {
            assert forall|i: int, k: int| 0 <= i < k < b0.len() implies lex_le(
                key(#[trigger] b0[i]),
                key(#[trigger] b0[k]),
            ) && key(b0[i]) != key(b0[k]) by {
                assert(b0[i] == b[i] && b0[k] == b[k]);
            }
        }
        assert forall|x: TreeEntryView| a0.contains(x) <==> b0.contains(x) by {
            if a0.contains(x) {
                let i = choose|i: int| 0 <= i < a0.len() && a0[i] == x;
                assert(a[i] == x);
                assert(key(a[i]) != key(a[a.len() - 1]));
                assert(a.contains(x));
                assert(b.contains(x));
                let k = choose|k: int| 0 <= k < b.len() && b[k] == x;
                assert(k < b.len() - 1);
                assert(b0[k] == x);
            }
            if b0.contains(x) {
                let i = choose|i: int| 0 <= i < b0.len() && b0[i] == x;
                assert(b[i] == x);
                assert(key(b[i]) != key(b[b.len() - 1]));
                assert(b.contains(x));
                assert(a.contains(x));
                let k = choose|k: int| 0 <= k < a.len() && a[k] == x;
                assert(k < a.len() - 1);
                assert(a0[k] == x);
            }
        }
        lemma_strictly_sorted_unique(a0, b0);
        assert(a =~= a0.push(m));
        assert(b =~= b0.push(m));
    }
}

/// Entries with distinct names, sorted, do not depend on the order in which
/// they were given; so the trees made of them have one body.
pub proof fn lemma_order_independent(a: Seq<TreeEntryView>, b: Seq<TreeEntryView>)
    requires
        distinct_names(a),
        distinct_names(b),
        same_entries(a, b),
    ensures
        sorted_entries(a) == sorted_entries(b),
        spec_encode_entries(sorted_entries(a)) == spec_encode_entries(sorted_entries(b)),
{
    let ra = sorted_entries(a);
    let rb = sorted_entries(b);
    lemma_sorted_entries_sorted(a);
    lemma_sorted_entries_sorted(b);
    lemma_sorted_entries_same(a);
    lemma_sorted_entries_same(b);
    assert(strictly_sorted(ra));
    assert(strictly_sorted(rb));
    assert(same_entries(ra, rb));
    lemma_strictly_sorted_unique(ra, rb);
}

/// Whether a tree can be written and read back: the names go strictly up,
/// no name holds a NUL, and every hash is twenty bytes.
pub open spec fn well_formed(es: Seq<TreeEntryView>) -> bool {
    &&& strictly_sorted(es)
    &&& forall|i: int| 0 <= i < es.len() ==> entry_ok(#[trigger] es[i])
}

/// Whether an entry can be written and read back.
pub open spec fn entry_ok(e: TreeEntryView) -> bool {
    !encode_utf8(e.name).contains(0u8) && e.hash.len() == 20
}

/// An entry is read back from what was written, whatever follows it.
#[verifier::rlimit(50)]
pub proof fn lemma_entry_roundtrip(e: TreeEntryView, rest: Seq<u8>)
    requires
        entry_ok(e),
    ensures
        spec_decode_entry(spec_encode_entry(e) + rest) == Ok::<(TreeEntryView, int), GitError>(
            (e, spec_encode_entry(e).len() as int),
        ),
{
    let mode = e.mode.spec_text();
    let name = encode_utf8(e.name);
    let s = spec_encode_entry(e) + rest;
    lemma_modes(e.mode);
    assert(s =~= mode + seq![32u8] + name + seq![0u8] + e.hash + rest);
    let sp = mode.len() as int;
    assert forall|j: int| 0 <= j < sp implies s[j] != 32u8 by {
        assert(s[j] == mode[j]);
    }
    lemma_first_at_is(s, 0, 32u8, sp);
    assert(s.subrange(0, sp) =~= mode);
    lemma_ascii_valid(mode);
    let name_start = sp + 1;
    let nul = name_start + name.len();
    assert forall|j: int| name_start <= j < nul implies s[j] != 0u8 by {
        assert(s[j] == name[j - name_start]);
        assert(name.contains(name[j - name_start]));
    }
    lemma_first_at_is(s, name_start, 0u8, nul);
    assert(s.subrange(name_start, nul) =~= name);
    vstd::utf8::encode_utf8_valid_utf8(e.name);
    vstd::utf8::encode_utf8_decode_utf8(e.name);
    assert(s.subrange(nul + 1, nul + 21) =~= e.hash);
}

/// Entries are read back from what was written.
pub proof fn lemma_entries_roundtrip(es: Seq<TreeEntryView>)
    requires
        forall|i: int| 0 <= i < es.len() ==> entry_ok(#[trigger] es[i]),
    ensures
        spec_decode_entries(spec_encode_entries(es)) == Ok::<Seq<TreeEntryView>, GitError>(es),
    decreases es.len(),
{
    if es.len() > 0 {
        let rest = spec_encode_entries(es.skip(1));
        let first = spec_encode_entry(es[0]);
        assert(entry_ok(es[0]));
        lemma_entry_roundtrip(es[0], rest);
        lemma_modes(es[0].mode);
        assert forall|i: int| 0 <= i < es.skip(1).len() implies entry_ok(
            #[trigger] es.skip(1)[i],
        ) by {
            assert(es.skip(1)[i] == es[i + 1]);
        }
        lemma_entries_roundtrip(es.skip(1));
        assert(first.len() > 0);
        assert((first + rest).len() == first.len() + rest.len());
        assert((first + rest).skip(first.len() as int) =~= rest);
        assert(seq![es[0]] + es.skip(1) =~= es);
        assert(spec_encode_entries(es) == first + rest);
    } else {
        assert(spec_encode_entries(es) =~= Seq::<u8>::empty());
        assert(es =~= Seq::<TreeEntryView>::empty());
    }
}

/// A well-formed tree is read back from its body as it was, and what is
/// read from any body is sorted.
pub proof fn lemma_tree_roundtrip(es: Seq<TreeEntryView>)
    requires
        well_formed(es),
    ensures
        spec_decode_entries(spec_encode_entries(es)) == Ok::<Seq<TreeEntryView>, GitError>(es),
        sorted_entries(es) == es,
        sorted(es),
{
    lemma_entries_roundtrip(es);
    lemma_sorted_fixed(es);
}

} // verus!
