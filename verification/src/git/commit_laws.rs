//! What holds of commits: a commit whose parts keep to the grammar is read
//! back from its body.

use crate::bytes::{lemma_first_at_is, lemma_last_at_is};
use crate::error::GitError;
use crate::git::commits::{
    effective_committer, first_value, header_end, header_key_end, header_value_end,
    header_value_start, kw_author, kw_committer, kw_parent, kw_tree, line, spec_actor,
    spec_decode_commit, spec_encode_actor, spec_encode_commit, spec_encode_parents, spec_hashes,
    spec_headers, spec_opt_actor, spec_tree_of, values_of, CommitActorView, CommitView,
};
use crate::hexcode::{hex_text, lemma_hex_roundtrip, lemma_hex_text_alphabet};
use crate::sha::spec_from_hex;
use crate::text::{decimal_text, is_digit, lemma_ascii_valid, lemma_decimal_roundtrip, text_of};
use vstd::prelude::*;
use vstd::utf8::{encode_utf8, valid_utf8, valid_utf8_concat};

verus! {

/// Whether an actor can be written and read back: no part holds a newline,
/// and neither the email nor the time zone holds a space.
pub open spec fn actor_ok(a: CommitActorView) -> bool {
    &&& !encode_utf8(a.name).contains(10u8)
    &&& !encode_utf8(a.email).contains(10u8)
    &&& !encode_utf8(a.email).contains(32u8)
    &&& !encode_utf8(a.timezone).contains(10u8)
    &&& !encode_utf8(a.timezone).contains(32u8)
}

/// Whether a commit can be written and read back: its hashes are twenty
/// bytes each, it names its committer, and both actors keep to the grammar.
pub open spec fn commit_ok(c: CommitView) -> bool {
    &&& c.tree_hash.len() == 20
    &&& forall|i: int| 0 <= i < c.parent_hash.len() ==> (#[trigger] c.parent_hash[i]).len() == 20
    &&& actor_ok(c.author)
    &&& c.committer matches Some(committer) && actor_ok(committer)
}

/// An actor is read back from what was written.
#[verifier::rlimit(50)]
pub proof fn lemma_actor_roundtrip(a: CommitActorView)
    requires
        actor_ok(a),
    ensures
        spec_actor(spec_encode_actor(a)) == Ok::<CommitActorView, GitError>(a),
        !spec_encode_actor(a).contains(10u8),
        valid_utf8(spec_encode_actor(a)),
{
    let name = encode_utf8(a.name);
    let email = encode_utf8(a.email);
    let digits = decimal_text(a.epoch as nat);
    let zone = encode_utf8(a.timezone);
    let v = spec_encode_actor(a);
    lemma_decimal_roundtrip(a.epoch as nat);
    let x = name.len() as int;
    let y = x + 3 + email.len();
    let z = y + 1 + digits.len();
    assert(v.len() == z + 1 + zone.len());
    assert forall|j: int| 0 <= j < v.len() implies #[trigger] v[j] == (if j < x {
        name[j]
    } else if j == x {
        32u8
    } else if j == x + 1 {
        60u8
    } else if j < y - 1 {
        email[j - x - 2]
    } else if j == y - 1 {
        62u8
    } else if j == y {
        32u8
    } else if j < z {
        digits[j - y - 1]
    } else if j == z {
        32u8
    } else {
        zone[j - z - 1]
    }) by {}
    assert forall|j: int| z < j < v.len() implies v[j] != 32u8 by {
        assert(zone.contains(zone[j - z - 1]));
    }
    lemma_last_at_is(v, v.len() as int, 32u8, z);
    assert forall|j: int| y < j < z implies v[j] != 32u8 by {
        assert(is_digit(digits[j - y - 1]));
    }
    lemma_last_at_is(v, z, 32u8, y);
    assert forall|j: int| x < j < y implies v[j] != 32u8 by {
        if x + 1 < j < y - 1 {
            assert(email.contains(email[j - x - 2]));
        }
    }
    lemma_last_at_is(v, y, 32u8, x);
    let token = v.subrange(x + 1, y);
    assert(v.subrange(0, x) =~= name);
    assert(token.subrange(1, token.len() - 1) =~= email);
    assert(v.subrange(y + 1, z) =~= digits);
    assert(v.subrange(z + 1, v.len() as int) =~= zone);
    vstd::utf8::encode_utf8_valid_utf8(a.name);
    vstd::utf8::encode_utf8_decode_utf8(a.name);
    vstd::utf8::encode_utf8_valid_utf8(a.email);
    vstd::utf8::encode_utf8_decode_utf8(a.email);
    vstd::utf8::encode_utf8_valid_utf8(a.timezone);
    vstd::utf8::encode_utf8_decode_utf8(a.timezone);
    assert(valid_utf8(v)) by {
        let open = seq![32u8, 60u8];
        let close = seq![62u8, 32u8];
        let space = seq![32u8];
        lemma_ascii_valid(open);
        lemma_ascii_valid(close);
        lemma_ascii_valid(space);
        assert forall|j: int| 0 <= j < digits.len() implies digits[j] < 128 by {
            assert(is_digit(digits[j]));
        }
        lemma_ascii_valid(digits);
        valid_utf8_concat(name, open);
        valid_utf8_concat(name + open, email);
        valid_utf8_concat(name + open + email, close);
        valid_utf8_concat(name + open + email + close, digits);
        valid_utf8_concat(name + open + email + close + digits, space);
        valid_utf8_concat(name + open + email + close + digits + space, zone);
    }
    assert(!v.contains(10u8)) by {
        if v.contains(10u8) {
            let j = choose|j: int| 0 <= j < v.len() && v[j] == 10u8;
            if j < x {
                assert(name.contains(name[j]));
            } else if x + 1 < j < y - 1 {
                assert(email.contains(email[j - x - 2]));
            } else if y < j < z {
                assert(is_digit(digits[j - y - 1]));
            } else if j > z {
                assert(zone.contains(zone[j - z - 1]));
            }
        }
    }
}

/// Whether a header key can stand at the start of a line: it is not empty,
/// holds neither a space nor a newline, and is UTF-8.
pub open spec fn key_ok(key: Seq<u8>) -> bool {
    key.len() > 0 && !key.contains(32u8) && !key.contains(10u8) && valid_utf8(key)
}

/// The four keys can stand at the start of a line, and differ.
pub proof fn lemma_keys()
    ensures
        key_ok(kw_tree()),
        key_ok(kw_parent()),
        key_ok(kw_author()),
        key_ok(kw_committer()),
        kw_tree() != kw_parent(),
        kw_tree() != kw_author(),
        kw_tree() != kw_committer(),
        kw_parent() != kw_author(),
        kw_parent() != kw_committer(),
        kw_author() != kw_committer(),
{
    assert(kw_tree().len() == 4 && kw_parent().len() == 6 && kw_author().len() == 6
        && kw_committer().len() == 9);
    assert(kw_parent()[0] != kw_author()[0]);
    let t = kw_tree();
    let p = kw_parent();
    let a = kw_author();
    let c = kw_committer();
    lemma_ascii_valid(t);
    lemma_ascii_valid(p);
    lemma_ascii_valid(a);
    lemma_ascii_valid(c);
    assert(!t.contains(32u8) && !t.contains(10u8)) by {
        assert forall|j: int| 0 <= j < t.len() implies t[j] > 32 by {}
    }
    assert(!p.contains(32u8) && !p.contains(10u8)) by {
        assert forall|j: int| 0 <= j < p.len() implies p[j] > 32 by {}
    }
    assert(!a.contains(32u8) && !a.contains(10u8)) by {
        assert forall|j: int| 0 <= j < a.len() implies a[j] > 32 by {}
    }
    assert(!c.contains(32u8) && !c.contains(10u8)) by {
        assert forall|j: int| 0 <= j < c.len() implies c[j] > 32 by {}
    }
}

/// The headers that follow one more line, where reading `rest` gives
/// headers.
pub open spec fn with_line(
    key: Seq<u8>,
    value: Seq<u8>,
    rest: Result<(Seq<(Seq<u8>, Seq<u8>)>, int), GitError>,
) -> Result<(Seq<(Seq<u8>, Seq<u8>)>, int), GitError> {
    match rest {
        Ok((pairs, n)) => Ok((seq![(key, value)] + pairs, line(key, value).len() + n)),
        Err(e) => Err(e),
    }
}

/// One header line in front of `rest` is read as its pair, in front of what
/// is read from `rest`.
#[verifier::rlimit(50)]
pub proof fn lemma_header_line(key: Seq<u8>, value: Seq<u8>, rest: Seq<u8>)
    requires
        key_ok(key),
        !value.contains(10u8),
        valid_utf8(value),
    ensures
        spec_headers(line(key, value) + rest) == with_line(key, value, spec_headers(rest)),
{
    let l = line(key, value);
    let s = l + rest;
    let k = key.len() as int;
    let nl = k + 1 + value.len();
    assert(s =~= key + seq![32u8] + value + seq![10u8] + rest);
    assert(s[0] == key[0]);
    assert(key.contains(key[0]));
    assert forall|j: int| 0 <= j < k implies s[j] != 32u8 by {
        assert(key.contains(key[j]));
    }
    lemma_first_at_is(s, 0, 32u8, k);
    assert forall|j: int| k + 1 <= j < nl implies s[j] != 10u8 by {
        assert(value.contains(value[j - k - 1]));
    }
    lemma_first_at_is(s, k + 1, 10u8, nl);
    assert(header_key_end(s) == k);
    assert(header_value_start(s) == k + 1);
    assert(header_value_end(s) == nl);
    assert(header_end(s) == nl + 1);
    assert(s.skip(nl + 1) =~= rest);
    assert(s.subrange(0, k) =~= key);
    assert(s.subrange(k + 1, nl) =~= value);
}

/// The pair of each parent line.
pub open spec fn parent_pairs(ps: Seq<Seq<u8>>) -> Seq<(Seq<u8>, Seq<u8>)> {
    Seq::new(ps.len(), |i: int| (kw_parent(), hex_text(ps[i])))
}

/// The headers that follow the parent lines, where reading `rest` gives
/// headers.
pub open spec fn with_parents(
    ps: Seq<Seq<u8>>,
    rest: Result<(Seq<(Seq<u8>, Seq<u8>)>, int), GitError>,
) -> Result<(Seq<(Seq<u8>, Seq<u8>)>, int), GitError> {
    match rest {
        Ok((pairs, n)) => Ok((parent_pairs(ps) + pairs, spec_encode_parents(ps).len() + n)),
        Err(e) => Err(e),
    }
}

/// Hexadecimal text is UTF-8 and holds neither a newline nor a space.
pub proof fn lemma_hex_no_newline(data: Seq<u8>)
    ensures
        !hex_text(data).contains(10u8),
        !hex_text(data).contains(32u8),
        valid_utf8(hex_text(data)),
{
    lemma_hex_text_alphabet(data);
    lemma_ascii_valid(hex_text(data));
}

/// The parent lines in front of `rest` are read as their pairs, in front of
/// what is read from `rest`.
pub proof fn lemma_parent_lines(ps: Seq<Seq<u8>>, rest: Seq<u8>)
    ensures
        spec_headers(spec_encode_parents(ps) + rest) == with_parents(ps, spec_headers(rest)),
    decreases ps.len(),
{
    if ps.len() == 0 {
        assert(spec_encode_parents(ps) + rest =~= rest);
        match spec_headers(rest) {
            Ok((pairs, n)) => {
                assert(parent_pairs(ps) + pairs =~= pairs);
            },
            Err(e) => {},
        }
    } else {
        let first = line(kw_parent(), hex_text(ps[0]));
        let tail = spec_encode_parents(ps.skip(1));
        lemma_keys();
        lemma_hex_no_newline(ps[0]);
        lemma_header_line(kw_parent(), hex_text(ps[0]), tail + rest);
        lemma_parent_lines(ps.skip(1), rest);
        assert(spec_encode_parents(ps) + rest =~= first + (tail + rest));
        match spec_headers(rest) {
            Ok((pairs, n)) => {
                assert(seq![(kw_parent(), hex_text(ps[0]))] + (parent_pairs(ps.skip(1)) + pairs)
                    =~= parent_pairs(ps) + pairs);
            },
            Err(e) => {},
        }
    }
}

/// Among parent pairs, a key other than `parent` finds nothing.
pub proof fn lemma_first_value_past_parents(
    ps: Seq<Seq<u8>>,
    tail: Seq<(Seq<u8>, Seq<u8>)>,
    key: Seq<u8>,
)
    requires
        key != kw_parent(),
    ensures
        first_value(parent_pairs(ps) + tail, key) == first_value(tail, key),
    decreases ps.len(),
{
    let all = parent_pairs(ps) + tail;
    if ps.len() == 0 {
        assert(all =~= tail);
    } else {
        assert(all[0] == (kw_parent(), hex_text(ps[0])));
        assert(all.skip(1) =~= parent_pairs(ps.skip(1)) + tail);
        lemma_first_value_past_parents(ps.skip(1), tail, key);
    }
}

/// The hexadecimal text of each parent.
pub open spec fn parent_texts(ps: Seq<Seq<u8>>) -> Seq<Seq<u8>> {
    Seq::new(ps.len(), |i: int| hex_text(ps[i]))
}

/// The values of the parent pairs are the texts of the parents.
pub proof fn lemma_values_of_parents(ps: Seq<Seq<u8>>, tail: Seq<(Seq<u8>, Seq<u8>)>)
    ensures
        values_of(parent_pairs(ps) + tail, kw_parent()) == parent_texts(ps) + values_of(
            tail,
            kw_parent(),
        ),
    decreases ps.len(),
{
    let all = parent_pairs(ps) + tail;
    if ps.len() == 0 {
        assert(all =~= tail);
        assert(parent_texts(ps) + values_of(tail, kw_parent()) =~= values_of(tail, kw_parent()));
    } else {
        assert(all[0] == (kw_parent(), hex_text(ps[0])));
        assert(all.skip(1) =~= parent_pairs(ps.skip(1)) + tail);
        lemma_values_of_parents(ps.skip(1), tail);
        assert(seq![hex_text(ps[0])] + (parent_texts(ps.skip(1)) + values_of(tail, kw_parent()))
            =~= parent_texts(ps) + values_of(tail, kw_parent()));
    }
}

/// A hash of twenty bytes is read back from its hexadecimal text.
pub proof fn lemma_sha_hex_roundtrip(h: Seq<u8>)
    requires
        h.len() == 20,
    ensures
        spec_from_hex(hex_text(h)) == Ok::<Seq<u8>, GitError>(h),
{
    lemma_hex_roundtrip(h);
}

/// The parents are read back from their texts.
pub proof fn lemma_hashes_roundtrip(ps: Seq<Seq<u8>>)
    requires
        forall|i: int| 0 <= i < ps.len() ==> (#[trigger] ps[i]).len() == 20,
    ensures
        spec_hashes(parent_texts(ps)) == Ok::<Seq<Seq<u8>>, GitError>(ps),
    decreases ps.len(),
{
    let ts = parent_texts(ps);
    if ps.len() == 0 {
        assert(ps =~= Seq::<Seq<u8>>::empty());
    } else {
        lemma_sha_hex_roundtrip(ps[0]);
        assert forall|i: int| 0 <= i < ps.skip(1).len() implies (#[trigger] ps.skip(1)[i]).len()
            == 20 by {
            assert(ps.skip(1)[i] == ps[i + 1]);
        }
        lemma_hashes_roundtrip(ps.skip(1));
        assert(ts.skip(1) =~= parent_texts(ps.skip(1)));
        assert(ts[0] == hex_text(ps[0]));
        assert(seq![ps[0]] + ps.skip(1) =~= ps);
    }
}

/// A commit that keeps to the grammar is read back from its body as it was,
/// its parents in their order.
#[verifier::rlimit(50)]
pub proof fn lemma_commit_roundtrip(c: CommitView)
    requires
        commit_ok(c),
    ensures
        spec_decode_commit(spec_encode_commit(c)) == Ok::<CommitView, GitError>(c),
{
    let committer = c.committer.unwrap();
    let author_text = spec_encode_actor(c.author);
    let committer_text = spec_encode_actor(committer);
    let message = encode_utf8(c.message);
    let end = seq![10u8] + message;
    let l_committer = line(kw_committer(), committer_text);
    let l_author = line(kw_author(), author_text);
    let l_tree = line(kw_tree(), hex_text(c.tree_hash));
    let parents = spec_encode_parents(c.parent_hash);
    let s = spec_encode_commit(c);
    lemma_keys();
    lemma_actor_roundtrip(c.author);
    lemma_actor_roundtrip(committer);
    lemma_hex_no_newline(c.tree_hash);
    assert(effective_committer(c) == committer);
    assert(s =~= l_tree + (parents + (l_author + (l_committer + end))));
    assert(spec_headers(end) == Ok::<(Seq<(Seq<u8>, Seq<u8>)>, int), GitError>(
        (Seq::empty(), 1),
    ));
    lemma_header_line(kw_committer(), committer_text, end);
    lemma_header_line(kw_author(), author_text, l_committer + end);
    lemma_parent_lines(c.parent_hash, l_author + (l_committer + end));
    lemma_header_line(kw_tree(), hex_text(c.tree_hash), parents + (l_author + (l_committer + end)));
    let p_committer = (kw_committer(), committer_text);
    let p_author = (kw_author(), author_text);
    let p_tree = (kw_tree(), hex_text(c.tree_hash));
    let tail = seq![p_author] + (seq![p_committer] + Seq::<(Seq<u8>, Seq<u8>)>::empty());
    let after_tree = parent_pairs(c.parent_hash) + tail;
    let pairs = seq![p_tree] + after_tree;
    let n: int = (l_tree.len() + (parents.len() + (l_author.len() + (l_committer.len() + 1))))
        as int;
    assert(spec_headers(s) == Ok::<(Seq<(Seq<u8>, Seq<u8>)>, int), GitError>((pairs, n)));
    assert(s.skip(n) =~= message);
    vstd::utf8::encode_utf8_valid_utf8(c.message);
    vstd::utf8::encode_utf8_decode_utf8(c.message);
    // The tree is the first pair.
    assert(pairs[0] == p_tree);
    lemma_sha_hex_roundtrip(c.tree_hash);
    assert(spec_tree_of(pairs) == Ok::<Seq<u8>, GitError>(c.tree_hash));
    // The parents are the pairs after it.
    assert(pairs.skip(1) =~= after_tree);
    lemma_values_of_parents(c.parent_hash, tail);
    assert(tail[0] == p_author);
    assert(tail.skip(1) =~= seq![p_committer]);
    assert(tail.skip(1)[0] == p_committer);
    assert(tail.skip(1).skip(1) =~= Seq::<(Seq<u8>, Seq<u8>)>::empty());
    assert(values_of(tail.skip(1).skip(1), kw_parent()) =~= Seq::<Seq<u8>>::empty());
    assert(values_of(tail.skip(1), kw_parent()) =~= Seq::<Seq<u8>>::empty());
    assert(values_of(tail, kw_parent()) =~= Seq::<Seq<u8>>::empty());
    assert(values_of(pairs, kw_parent()) =~= parent_texts(c.parent_hash)) by {
        assert(values_of(pairs, kw_parent()) == values_of(after_tree, kw_parent()));
        assert(parent_texts(c.parent_hash) + Seq::<Seq<u8>>::empty() =~= parent_texts(
            c.parent_hash,
        ));
    }
    lemma_hashes_roundtrip(c.parent_hash);
    // The author and the committer follow the parents.
    lemma_first_value_past_parents(c.parent_hash, tail, kw_author());
    lemma_first_value_past_parents(c.parent_hash, tail, kw_committer());
    assert(first_value(pairs, kw_author()) == first_value(after_tree, kw_author()));
    assert(first_value(pairs, kw_committer()) == first_value(after_tree, kw_committer()));
    assert(first_value(tail, kw_author()) == Some(author_text));
    assert(first_value(tail.skip(1), kw_committer()) == Some(committer_text));
    assert(first_value(tail, kw_committer()) == Some(committer_text));
    assert(spec_opt_actor(pairs, kw_author()) == Ok::<Option<CommitActorView>, GitError>(
        Some(c.author),
    ));
    assert(spec_opt_actor(pairs, kw_committer()) == Ok::<Option<CommitActorView>, GitError>(
        Some(committer),
    ));
    assert(text_of(s.skip(n)) == Ok::<Seq<char>, GitError>(c.message));
}

} // verus!
