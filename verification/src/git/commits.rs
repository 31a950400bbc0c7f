//! Commits: a tree, parents, who wrote and who committed, and a message.

use crate::bytes::{append, copy_range, find_byte, first_at, last_at, rfind_byte, same_bytes};
use crate::error::GitError;
use crate::git::git_object_trait::{GitObject, GitObjectType};
use crate::hexcode::{hex_text, push_hex};
use crate::sha::{spec_from_hex, Sha};
use crate::text::{decimal_text, from_utf8_with_context, parse_u64, push_decimal, spec_parse_u64, text_of};
use vstd::prelude::*;
use vstd::slice::slice_subrange;
use vstd::utf8::{encode_utf8, valid_utf8};

verus! {

/// Who did something to a commit, and when.
#[derive(Debug, Clone, PartialEq, Eq)]
pub struct CommitActor {
    pub name: String,
    pub email: String,
    pub epoch: u64,
    pub timezone: String,
}

/// What a commit actor means.
pub struct CommitActorView {
    pub name: Seq<char>,
    pub email: Seq<char>,
    pub epoch: u64,
    pub timezone: Seq<char>,
}

impl View for CommitActor {
    type V = CommitActorView;

    open spec fn view(&self) -> CommitActorView {
        CommitActorView {
            name: self.name@,
            email: self.email@,
            epoch: self.epoch,
            timezone: self.timezone@,
        }
    }
}

/// A commit.
#[derive(Debug, Clone, PartialEq, Eq)]
pub struct Commit {
    pub tree_hash: Sha,
    pub parent_hash: Vec<Sha>,
    pub author: CommitActor,
    pub committer: Option<CommitActor>,
    pub commit_message: String,
}

/// What a commit means.
pub struct CommitView {
    pub tree_hash: Seq<u8>,
    pub parent_hash: Seq<Seq<u8>>,
    pub author: CommitActorView,
    pub committer: Option<CommitActorView>,
    pub message: Seq<char>,
}

/// The bytes of each identity of a list.
pub open spec fn shas_of(v: Seq<Sha>) -> Seq<Seq<u8>> {
    Seq::new(v.len(), |i: int| v[i]@)
}

/// The meaning of an optional actor.
pub open spec fn opt_actor(a: Option<CommitActor>) -> Option<CommitActorView> {
    match a {
        Some(actor) => Some(actor@),
        None => None,
    }
}

impl View for Commit {
    type V = CommitView;

    open spec fn view(&self) -> CommitView {
        CommitView {
            tree_hash: self.tree_hash@,
            parent_hash: shas_of(self.parent_hash@),
            author: self.author@,
            committer: opt_actor(self.committer),
            message: self.commit_message@,
        }
    }
}

/// The header key `tree`.
pub open spec fn kw_tree() -> Seq<u8> {
    seq![0x74u8, 0x72, 0x65, 0x65]
}

/// The header key `parent`.
pub open spec fn kw_parent() -> Seq<u8> {
    seq![0x70u8, 0x61, 0x72, 0x65, 0x6e, 0x74]
}

/// The header key `author`.
pub open spec fn kw_author() -> Seq<u8> {
    seq![0x61u8, 0x75, 0x74, 0x68, 0x6f, 0x72]
}

/// The header key `committer`.
pub open spec fn kw_committer() -> Seq<u8> {
    seq![0x63u8, 0x6f, 0x6d, 0x6d, 0x69, 0x74, 0x74, 0x65, 0x72]
}

/// One header line: key, space, value, newline.
pub open spec fn line(key: Seq<u8>, value: Seq<u8>) -> Seq<u8> {
    key + seq![32u8] + value + seq![10u8]
}

/// An actor as a header writes it: the name, the email in angle brackets,
/// the epoch in decimal and the time zone, with single spaces between.
pub open spec fn spec_encode_actor(a: CommitActorView) -> Seq<u8> {
    encode_utf8(a.name) + seq![32u8, 60u8] + encode_utf8(a.email) + seq![62u8, 32u8] + decimal_text(
        a.epoch as nat,
    ) + seq![32u8] + encode_utf8(a.timezone)
}

/// One `parent` line for each parent, in order.
pub open spec fn spec_encode_parents(ps: Seq<Seq<u8>>) -> Seq<u8>
    decreases ps.len(),
{
    if ps.len() == 0 {
        Seq::empty()
    } else {
        line(kw_parent(), hex_text(ps[0])) + spec_encode_parents(ps.skip(1))
    }
}

/// Who committed: the committer, or the author where there is none.
pub open spec fn effective_committer(c: CommitView) -> CommitActorView {
    match c.committer {
        Some(a) => a,
        None => c.author,
    }
}

/// A commit as it is written: the tree, the parents, the author and the
/// committer, one line each; a blank line; the message as it is.
pub open spec fn spec_encode_commit(c: CommitView) -> Seq<u8> {
    line(kw_tree(), hex_text(c.tree_hash)) + spec_encode_parents(c.parent_hash) + line(
        kw_author(),
        spec_encode_actor(c.author),
    ) + line(kw_committer(), spec_encode_actor(effective_committer(c))) + seq![10u8] + encode_utf8(
        c.message,
    )
}

/// Where the key of the first header line of `s` ends: at the first space.
pub open spec fn header_key_end(s: Seq<u8>) -> int {
    first_at(s, 0, 32u8)
}

/// Where the value of the first header line of `s` starts: behind the space.
pub open spec fn header_value_start(s: Seq<u8>) -> int {
    let sp = header_key_end(s);
    if sp < s.len() {
        sp + 1
    } else {
        s.len() as int
    }
}

/// Where the value of the first header line of `s` ends: at the next
/// newline.
pub open spec fn header_value_end(s: Seq<u8>) -> int {
    first_at(s, header_value_start(s), 10u8)
}

/// Where the first header line of `s` ends: behind its newline.
pub open spec fn header_end(s: Seq<u8>) -> int {
    let nl = header_value_end(s);
    if nl < s.len() {
        nl + 1
    } else {
        s.len() as int
    }
}

/// The header lines at the start of `s`, as pairs of key and value, and the
/// position after the blank line that ends them. Keys and values must be
/// UTF-8.
pub open spec fn spec_headers(s: Seq<u8>) -> Result<(Seq<(Seq<u8>, Seq<u8>)>, int), GitError>
    decreases s.len(),
{
    if s.len() == 0 {
        Err(GitError::MissingField)
    } else if s[0] == 10u8 {
        Ok((Seq::empty(), 1))
    } else {
        let next = header_end(s);
        if !valid_utf8(s.subrange(0, header_key_end(s))) || !valid_utf8(
            s.subrange(header_value_start(s), header_value_end(s)),
        ) {
            Err(GitError::InvalidUtf8)
        } else if 0 < next <= s.len() {
            match spec_headers(s.skip(next)) {
                Err(e) => Err(e),
                Ok((rest, n)) => Ok(
                    (
                        seq![
                            (
                                s.subrange(0, header_key_end(s)),
                                s.subrange(header_value_start(s), header_value_end(s)),
                            ),
                        ] + rest,
                        next + n,
                    ),
                ),
            }
        } else {
            Err(GitError::MissingField)
        }
    }
}

/// The value of the first pair with this key.
pub open spec fn first_value(pairs: Seq<(Seq<u8>, Seq<u8>)>, key: Seq<u8>) -> Option<Seq<u8>>
    decreases pairs.len(),
{
    if pairs.len() == 0 {
        None
    } else if pairs[0].0 == key {
        Some(pairs[0].1)
    } else {
        first_value(pairs.skip(1), key)
    }
}

/// The values of the pairs with this key, in order.
pub open spec fn values_of(pairs: Seq<(Seq<u8>, Seq<u8>)>, key: Seq<u8>) -> Seq<Seq<u8>>
    decreases pairs.len(),
{
    if pairs.len() == 0 {
        Seq::empty()
    } else if pairs[0].0 == key {
        seq![pairs[0].1] + values_of(pairs.skip(1), key)
    } else {
        values_of(pairs.skip(1), key)
    }
}

/// The identities that the values write; the first value that writes none
/// decides the error.
pub open spec fn spec_hashes(values: Seq<Seq<u8>>) -> Result<Seq<Seq<u8>>, GitError>
    decreases values.len(),
{
    if values.len() == 0 {
        Ok(Seq::empty())
    } else {
        match spec_from_hex(values[0]) {
            Err(e) => Err(e),
            Ok(h) => match spec_hashes(values.skip(1)) {
                Err(e) => Err(e),
                Ok(rest) => Ok(seq![h] + rest),
            },
        }
    }
}

/// The actor that a header value writes. The last three words are the email
/// in angle brackets, the epoch and the time zone; what stands before them
/// is the name.
pub open spec fn spec_actor(v: Seq<u8>) -> Result<CommitActorView, GitError> {
    let z = last_at(v, v.len() as int, 32u8);
    let y = last_at(v, z, 32u8);
    let x = last_at(v, y, 32u8);
    if z < 0 || y < 0 {
        Err(GitError::BadActor)
    } else {
        let name = if x < 0 {
            Seq::<u8>::empty()
        } else {
            v.subrange(0, x)
        };
        let email = v.subrange(x + 1, y);
        if email.len() < 2 || email[0] != 60u8 || email.last() != 62u8 {
            Err(GitError::BadActor)
        } else {
            match (
                text_of(name),
                text_of(email.subrange(1, email.len() - 1)),
                spec_parse_u64(v.subrange(y + 1, z)),
                text_of(v.subrange(z + 1, v.len() as int)),
            ) {
                (Err(e), _, _, _) => Err(e),
                (_, Err(e), _, _) => Err(e),
                (_, _, Err(e), _) => Err(e),
                (_, _, _, Err(e)) => Err(e),
                (Ok(name), Ok(email), Ok(epoch), Ok(timezone)) => Ok(
                    CommitActorView { name, email, epoch, timezone },
                ),
            }
        }
    }
}

/// The actor of the first pair with this key, where there is one.
pub open spec fn spec_opt_actor(pairs: Seq<(Seq<u8>, Seq<u8>)>, key: Seq<u8>) -> Result<
    Option<CommitActorView>,
    GitError,
> {
    match first_value(pairs, key) {
        None => Ok(None),
        Some(v) => match spec_actor(v) {
            Ok(a) => Ok(Some(a)),
            Err(e) => Err(e),
        },
    }
}

/// The tree of a commit with these headers.
pub open spec fn spec_tree_of(pairs: Seq<(Seq<u8>, Seq<u8>)>) -> Result<Seq<u8>, GitError> {
    match first_value(pairs, kw_tree()) {
        None => Err(GitError::MissingField),
        Some(v) => spec_from_hex(v),
    }
}

/// The commit that `s` writes. Headers may come in any order and unknown
/// ones are passed over; the first `tree`, `author` and `committer` count,
/// and every `parent`. The message is all that follows the blank line.
pub open spec fn spec_decode_commit(s: Seq<u8>) -> Result<CommitView, GitError> {
    match spec_headers(s) {
        Err(e) => Err(e),
        Ok((pairs, n)) => match (
            spec_tree_of(pairs),
            spec_hashes(values_of(pairs, kw_parent())),
            spec_opt_actor(pairs, kw_author()),
            spec_opt_actor(pairs, kw_committer()),
            text_of(s.skip(n)),
        ) {
            (Err(e), _, _, _, _) => Err(e),
            (_, Err(e), _, _, _) => Err(e),
            (_, _, Err(e), _, _) => Err(e),
            (_, _, Ok(None), _, _) => Err(GitError::MissingField),
            (_, _, _, Err(e), _) => Err(e),
            (_, _, _, _, Err(e)) => Err(e),
            (Ok(tree_hash), Ok(parent_hash), Ok(Some(author)), Ok(committer), Ok(message)) => Ok(
                CommitView { tree_hash, parent_hash, author, committer, message },
            ),
        },
    }
}

/// The meaning of pairs of buffers.
pub open spec fn pairs_of(v: Seq<(Vec<u8>, Vec<u8>)>) -> Seq<(Seq<u8>, Seq<u8>)> {
    Seq::new(v.len(), |i: int| (v[i].0@, v[i].1@))
}

/// The keys of the headers that make a commit.
#[derive(Clone, Copy)]
enum Key {
    Tree,
    Parent,
    Author,
    Committer,
}

impl Key {
    /// The key as a header writes it.
    spec fn spec_text(self) -> Seq<u8> {
        match self {
            Key::Tree => kw_tree(),
            Key::Parent => kw_parent(),
            Key::Author => kw_author(),
            Key::Committer => kw_committer(),
        }
    }

    /// The key as a header writes it.
    fn text(self) -> (r: Vec<u8>)
        ensures
            r@ == self.spec_text(),
    {
        let mut r: Vec<u8> = Vec::new();
        match self {
            Key::Tree => {
                r.push(0x74);
                r.push(0x72);
                r.push(0x65);
                r.push(0x65);
            },
            Key::Parent => {
                r.push(0x70);
                r.push(0x61);
                r.push(0x72);
                r.push(0x65);
                r.push(0x6e);
                r.push(0x74);
            },
            Key::Author => {
                r.push(0x61);
                r.push(0x75);
                r.push(0x74);
                r.push(0x68);
                r.push(0x6f);
                r.push(0x72);
            },
            Key::Committer => {
                r.push(0x63);
                r.push(0x6f);
                r.push(0x6d);
                r.push(0x6d);
                r.push(0x69);
                r.push(0x74);
                r.push(0x74);
                r.push(0x65);
                r.push(0x72);
            },
        }
        assert(r@ =~= self.spec_text());
        r
    }
}

/// Appends one header line.
fn push_line(out: &mut Vec<u8>, key: &[u8], value: &[u8])
    ensures
        final(out)@ == old(out)@ + line(key@, value@),
{
    append(out, key);
    out.push(32u8);
    append(out, value);
    out.push(10u8);
    assert(out@ =~= old(out)@ + line(key@, value@));
}

/// Reads the header lines at the start of `s`.
#[verifier::rlimit(50)]
fn read_headers(s: &[u8]) -> (r: Result<(Vec<(Vec<u8>, Vec<u8>)>, usize), GitError>)
    ensures
        match spec_headers(s@) {
            Ok((pairs, n)) => r matches Ok((v, pos)) && pairs_of(v@) == pairs && pos == n && pos
                <= s@.len(),
            Err(e) => r matches Err(re) && re == e,
        },
{
    let mut out: Vec<(Vec<u8>, Vec<u8>)> = Vec::new();
    let mut pos: usize = 0;
    assert(s@.skip(0) =~= s@);
    assert(pairs_of(out@) =~= Seq::<(Seq<u8>, Seq<u8>)>::empty());
    loop
        invariant
            pos <= s@.len(),
            spec_headers(s@) == match spec_headers(s@.skip(pos as int)) {
                Ok((rest, n)) => Ok::<(Seq<(Seq<u8>, Seq<u8>)>, int), GitError>(
                    (pairs_of(out@) + rest, pos + n),
                ),
                Err(e) => Err(e),
            },
        decreases s@.len() - pos,
    {
        if pos >= s.len() {
            return Err(GitError::MissingField);
        }
        let t = slice_subrange(s, pos, s.len());
        assert(t@ =~= s@.skip(pos as int));
        if t[0] == 10u8 {
            proof {
                assert(pairs_of(out@) + Seq::<(Seq<u8>, Seq<u8>)>::empty() =~= pairs_of(out@));
            }
            return Ok((out, pos + 1));
        }
        let sp = find_byte(t, 0, 32u8);
        let vstart: usize = if sp < t.len() {
            sp + 1
        } else {
            t.len()
        };
        let nl = find_byte(t, vstart, 10u8);
        let next: usize = if nl < t.len() {
            nl + 1
        } else {
            t.len()
        };
        let key = copy_range(t, 0, sp);
        let value = copy_range(t, vstart, nl);
        if from_utf8_with_context(copy_range(t, 0, sp)).is_err() {
            return Err(GitError::InvalidUtf8);
        }
        if from_utf8_with_context(copy_range(t, vstart, nl)).is_err() {
            return Err(GitError::InvalidUtf8);
        }
        proof {
            let ghost before = pairs_of(out@);
            assert(t@.skip(next as int) =~= s@.skip(pos + next));
            match spec_headers(s@.skip(pos + next)) {
                Ok((rest, n)) => {
                    assert(before + (seq![(key@, value@)] + rest) =~= (before + seq![
                        (key@, value@),
                    ]) + rest);
                },
                Err(e) => {},
            }
            assert(pairs_of(out@.push((key, value))) =~= before + seq![(key@, value@)]);
        }
        out.push((key, value));
        pos = pos + next;
    }
}

/// Finds the value of the first pair with this key.
fn find_value<'a>(pairs: &'a Vec<(Vec<u8>, Vec<u8>)>, key: &[u8]) -> (r: Option<&'a Vec<u8>>)
    ensures
        match first_value(pairs_of(pairs@), key@) {
            Some(v) => r matches Some(rv) && rv@ == v,
            None => r is None,
        },
{
    let mut i: usize = 0;
    assert(pairs_of(pairs@).skip(0) =~= pairs_of(pairs@));
    while i < pairs.len()
        invariant
            i <= pairs@.len(),
            first_value(pairs_of(pairs@), key@) == first_value(
                pairs_of(pairs@).skip(i as int),
                key@,
            ),
        decreases pairs@.len() - i,
    {
        let ghost rest = pairs_of(pairs@).skip(i as int);
        assert(rest[0] == pairs_of(pairs@)[i as int]);
        assert(rest.skip(1) =~= pairs_of(pairs@).skip(i + 1));
        if same_bytes(pairs[i].0.as_slice(), key) {
            return Some(&pairs[i].1);
        }
        i += 1;
    }
    None
}

/// Reads the identities of all the pairs with the key `parent`.
#[verifier::rlimit(50)]
fn read_parents(pairs: &Vec<(Vec<u8>, Vec<u8>)>) -> (r: Result<Vec<Sha>, GitError>)
    ensures
        match spec_hashes(values_of(pairs_of(pairs@), kw_parent())) {
            Ok(hs) => r matches Ok(v) && shas_of(v@) == hs,
            Err(e) => r matches Err(re) && re == e,
        },
{
    let key = Key::Parent.text();
    let mut out: Vec<Sha> = Vec::new();
    let mut i: usize = 0;
    let ghost all = pairs_of(pairs@);
    assert(all.skip(0) =~= all);
    assert(shas_of(out@) =~= Seq::<Seq<u8>>::empty());
    while i < pairs.len()
        invariant
            i <= pairs@.len(),
            all == pairs_of(pairs@),
            key@ == kw_parent(),
            spec_hashes(values_of(all, kw_parent())) == match spec_hashes(
                values_of(all.skip(i as int), kw_parent()),
            ) {
                Ok(rest) => Ok::<Seq<Seq<u8>>, GitError>(shas_of(out@) + rest),
                Err(e) => Err(e),
            },
        decreases pairs@.len() - i,
    {
        let ghost rest_pairs = all.skip(i as int);
        assert(rest_pairs[0] == all[i as int]);
        assert(rest_pairs.skip(1) =~= all.skip(i + 1));
        if same_bytes(pairs[i].0.as_slice(), key.as_slice()) {
            let ghost vals = values_of(rest_pairs, kw_parent());
            let ghost tail = values_of(all.skip(i + 1), kw_parent());
            assert(vals == seq![all[i as int].1] + tail);
            assert(vals[0] == all[i as int].1);
            assert(vals.skip(1) =~= tail);
            let sha = Sha::from_hex(pairs[i].1.as_slice())?;
            proof {
                let ghost before = shas_of(out@);
                match spec_hashes(tail) {
                    Ok(rest) => {
                        assert(before + (seq![sha@] + rest) =~= (before + seq![sha@]) + rest);
                    },
                    Err(e) => {},
                }
                assert(shas_of(out@.push(sha)) =~= before + seq![sha@]);
            }
            out.push(sha);
        }
        i += 1;
    }
    proof {
        assert(shas_of(out@) + Seq::<Seq<u8>>::empty() =~= shas_of(out@));
    }
    Ok(out)
}

impl CommitActor {
    /// Reads an actor from the value of an `author` or `committer` header.
    pub fn from_str(v: &[u8]) -> (r: Result<CommitActor, GitError>)
        ensures
            match spec_actor(v@) {
                Ok(a) => r matches Ok(actor) && actor@ == a,
                Err(e) => r matches Err(re) && re == e,
            },
    {
        let z1 = rfind_byte(v, v.len(), 32u8);
        if z1 == 0 {
            return Err(GitError::BadActor);
        }
        let z: usize = z1 - 1;
        let y1 = rfind_byte(v, z, 32u8);
        if y1 == 0 {
            return Err(GitError::BadActor);
        }
        let y: usize = y1 - 1;
        let x1 = rfind_byte(v, y, 32u8);
        let name_end: usize = if x1 == 0 {
            0
        } else {
            x1 - 1
        };
        let email = slice_subrange(v, x1, y);
        if email.len() < 2 || email[0] != 60u8 || email[email.len() - 1] != 62u8 {
            return Err(GitError::BadActor);
        }
        proof {
            if x1 == 0 {
                assert(v@.subrange(0, 0) =~= Seq::<u8>::empty());
            }
        }
        let name = from_utf8_with_context(copy_range(v, 0, name_end))?;
        let email = from_utf8_with_context(copy_range(email, 1, email.len() - 1))?;
        let epoch = parse_u64(slice_subrange(v, y + 1, z))?;
        let timezone = from_utf8_with_context(copy_range(v, z + 1, v.len()))?;
        Ok(CommitActor { name, email, epoch, timezone })
    }

    /// The actor as a header writes it.
    pub fn encode(&self) -> (r: Vec<u8>)
        ensures
            r@ == spec_encode_actor(self@),
    {
        let mut out: Vec<u8> = Vec::new();
        append(&mut out, self.name.as_str().as_bytes());
        out.push(32u8);
        out.push(60u8);
        append(&mut out, self.email.as_str().as_bytes());
        out.push(62u8);
        out.push(32u8);
        push_decimal(&mut out, self.epoch);
        out.push(32u8);
        append(&mut out, self.timezone.as_str().as_bytes());
        assert(out@ =~= spec_encode_actor(self@));
        out
    }
}

impl Commit {
    /// A commit of these parts.
    pub fn new(
        tree_hash: [u8; 20],
        parent_hashes: Vec<[u8; 20]>,
        author: CommitActor,
        committer: Option<CommitActor>,
        commit_message: String,
    ) -> (c: Commit)
        ensures
            c@.tree_hash == tree_hash@,
            c@.parent_hash == Seq::new(parent_hashes@.len(), |i: int| parent_hashes@[i]@),
            c@.author == author@,
            c@.committer == opt_actor(committer),
            c@.message == commit_message@,
    {
        let mut parents: Vec<Sha> = Vec::new();
        let mut i: usize = 0;
        while i < parent_hashes.len()
            invariant
                i <= parent_hashes@.len(),
                parents@.len() == i,
                forall|j: int| 0 <= j < i ==> parents@[j]@ == parent_hashes@[j]@,
            decreases parent_hashes@.len() - i,
        {
            parents.push(Sha::from(parent_hashes[i]));
            i += 1;
        }
        assert(shas_of(parents@) =~= Seq::new(parent_hashes@.len(), |i: int| parent_hashes@[i]@));
        Commit {
            tree_hash: Sha::from(tree_hash),
            parent_hash: parents,
            author,
            committer,
            commit_message,
        }
    }
}

impl GitObject for Commit {
    open spec fn spec_type() -> GitObjectType {
        GitObjectType::Commit
    }

    open spec fn spec_encode_body(v: CommitView) -> Seq<u8> {
        spec_encode_commit(v)
    }

    open spec fn spec_decode_body(body: Seq<u8>) -> Result<CommitView, GitError> {
        spec_decode_commit(body)
    }

    fn get_type() -> (t: GitObjectType) {
        GitObjectType::Commit
    }

    fn encode_body(&self) -> (r: Result<Vec<u8>, GitError>) {
        let mut out: Vec<u8> = Vec::new();
        let mut hex: Vec<u8> = Vec::new();
        push_hex(&mut hex, self.tree_hash.as_ref());
        push_line(&mut out, Key::Tree.text().as_slice(), hex.as_slice());
        let ghost head = out@;
        let ghost ps = shas_of(self.parent_hash@);
        let mut i: usize = 0;
        assert(ps.take(0) =~= Seq::<Seq<u8>>::empty());
        assert(out@ =~= head + spec_encode_parents(ps.take(0)));
        while i < self.parent_hash.len()
            invariant
                i <= self.parent_hash@.len(),
                ps == shas_of(self.parent_hash@),
                out@ == head + spec_encode_parents(ps.take(i as int)),
            decreases self.parent_hash@.len() - i,
        {
            let mut hex: Vec<u8> = Vec::new();
            push_hex(&mut hex, self.parent_hash[i].as_ref());
            proof {
                lemma_parents_push(ps.take(i as int), ps[i as int]);
                assert(ps.take(i as int).push(ps[i as int]) =~= ps.take(i + 1));
            }
            push_line(&mut out, Key::Parent.text().as_slice(), hex.as_slice());
            assert(out@ =~= head + spec_encode_parents(ps.take(i + 1)));
            i += 1;
        }
        assert(ps.take(i as int) =~= ps);
        push_line(&mut out, Key::Author.text().as_slice(), self.author.encode().as_slice());
        let committer = match &self.committer {
            Some(c) => c,
            None => &self.author,
        };
        push_line(&mut out, Key::Committer.text().as_slice(), committer.encode().as_slice());
        out.push(10u8);
        append(&mut out, self.commit_message.as_str().as_bytes());
        assert(out@ =~= spec_encode_commit(self@));
        Ok(out)
    }

    fn decode_body(from: Vec<u8>) -> (r: Result<Commit, GitError>) {
        let s = from.as_slice();
        let (pairs, n) = read_headers(s)?;
        let tree_hash = match find_value(&pairs, Key::Tree.text().as_slice()) {
            None => {
                return Err(GitError::MissingField);
            },
            Some(v) => Sha::from_hex(v.as_slice())?,
        };
        let parent_hash = read_parents(&pairs)?;
        let author = match find_value(&pairs, Key::Author.text().as_slice()) {
            None => {
                return Err(GitError::MissingField);
            },
            Some(v) => CommitActor::from_str(v.as_slice())?,
        };
        let committer = match find_value(&pairs, Key::Committer.text().as_slice()) {
            None => None,
            Some(v) => Some(CommitActor::from_str(v.as_slice())?),
        };
        let rest = copy_range(s, n, s.len());
        assert(rest@ =~= s@.skip(n as int));
        let commit_message = from_utf8_with_context(rest)?;
        Ok(Commit { tree_hash, parent_hash, author, committer, commit_message })
    }
}

/// Writing one more parent appends its line.
pub proof fn lemma_parents_push(ps: Seq<Seq<u8>>, p: Seq<u8>)
    ensures
        spec_encode_parents(ps.push(p)) == spec_encode_parents(ps) + line(kw_parent(), hex_text(p)),
    decreases ps.len(),
{
    if ps.len() == 0 {
        assert(ps.push(p).skip(1) =~= Seq::<Seq<u8>>::empty());
        assert(ps.push(p)[0] == p);
        assert(spec_encode_parents(Seq::<Seq<u8>>::empty()) =~= Seq::<u8>::empty());
        assert(spec_encode_parents(ps.push(p)) =~= line(kw_parent(), hex_text(p)) + Seq::<u8>::empty());
        assert(spec_encode_parents(ps.push(p)) =~= spec_encode_parents(ps) + line(
            kw_parent(),
            hex_text(p),
        ));
    } else {
        lemma_parents_push(ps.skip(1), p);
        assert(ps.push(p).skip(1) =~= ps.skip(1).push(p));
        assert(ps.push(p)[0] == ps[0]);
        assert(spec_encode_parents(ps.push(p)) =~= spec_encode_parents(ps) + line(
            kw_parent(),
            hex_text(p),
        ));
    }
}

} // verus!
