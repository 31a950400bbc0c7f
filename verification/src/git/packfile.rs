//! Packfiles: a header, objects one after the other, each a size and a zlib
//! stream, and a trailing digest.

use crate::compression::{decompress_slice, zlib_stream};
use crate::delta::{ops_of, spec_read_many, DeltaInstruction, DeltaOp};
use crate::error::GitError;
use crate::git::commits::{spec_decode_commit, Commit, CommitView};
use crate::git::git_blob::Blob;
use crate::git::git_object_trait::GitObject;
use crate::git::git_tree::{sorted_entries, spec_decode_entries, Tree, TreeEntryView};
use crate::sha::{digest_limit, sha1_of, Sha};
use vstd::prelude::*;
use vstd::slice::slice_subrange;

verus! {

/// 128 to the power of `n`.
pub open spec fn pow128(n: nat) -> nat
    decreases n,
{
    if n == 0 {
        1
    } else {
        128 * pow128((n - 1) as nat)
    }
}

/// The number that the low seven bits of each byte write, least significant
/// group first.
pub open spec fn plain_value(s: Seq<u8>) -> nat
    decreases s.len(),
{
    if s.len() == 0 {
        0
    } else {
        (s[0] % 128) as nat + 128 * plain_value(s.skip(1))
    }
}

/// The first position at or after `from` whose byte has no continuation bit,
/// or the length where every byte has one.
pub open spec fn varint_end(s: Seq<u8>, from: int) -> int
    decreases s.len() - from,
{
    if from >= s.len() {
        s.len() as int
    } else if s[from] < 128 {
        from
    } else {
        varint_end(s, from + 1)
    }
}

/// The variable-length integer at the start of `s`: its value, the object
/// type where the first byte carries one, and how many bytes it takes. With a
/// type, the first byte holds the type in bits 4 to 6 and the low four bits
/// of the value.
pub open spec fn spec_varint(s: Seq<u8>, with_type: bool) -> Result<
    (nat, Option<u8>, int),
    GitError,
> {
    let end = varint_end(s, 0);
    if end >= s.len() {
        Err(GitError::BadVarint)
    } else {
        let n = end + 1;
        let value = if with_type {
            (s[0] % 16) as nat + 16 * plain_value(s.subrange(1, n))
        } else {
            plain_value(s.subrange(0, n))
        };
        if value > usize::MAX {
            Err(GitError::BadVarint)
        } else {
            Ok(
                (
                    value,
                    if with_type {
                        Some(((s[0] / 16) % 8) as u8)
                    } else {
                        None
                    },
                    n,
                ),
            )
        }
    }
}

/// `varint_end` is the only position with its properties.
pub proof fn lemma_varint_end_is(s: Seq<u8>, from: int, at: int)
    requires
        0 <= from <= at <= s.len(),
        at < s.len() ==> s[at] < 128,
        forall|j: int| from <= j < at ==> s[j] >= 128,
    ensures
        varint_end(s, from) == at,
    decreases at - from,
{
    if from < at {
        lemma_varint_end_is(s, from + 1, at);
    }
}

/// One more byte adds its low seven bits at the next power of 128.
pub proof fn lemma_plain_push(t: Seq<u8>, b: u8)
    ensures
        plain_value(t.push(b)) == plain_value(t) + (b % 128) * pow128(t.len()),
    decreases t.len(),
{
    if t.len() == 0 {
        assert(t.push(b).skip(1) =~= Seq::<u8>::empty());
        assert(plain_value(Seq::<u8>::empty()) == 0);
        assert(t.push(b)[0] == b);
        assert(pow128(0) == 1);
    } else {
        lemma_plain_push(t.skip(1), b);
        assert(t.push(b).skip(1) =~= t.skip(1).push(b));
        assert(t.push(b)[0] == t[0]);
        let g = (b % 128) as int;
        let p = pow128((t.len() - 1) as nat) as int;
        let rest = plain_value(t.skip(1)) as int;
        assert(pow128(t.len()) == 128 * pow128((t.len() - 1) as nat));
        assert(t.skip(1).len() == t.len() - 1);
        assert(128 * (rest + g * p) == 128 * rest + g * (128 * p)) by (nonlinear_arith);
    }
}

/// Reads the variable-length integer that starts at `pos`: its value, the
/// object type where `get_obj_type` asks for it, and how many bytes it takes.
#[verifier::loop_isolation(false)]
#[verifier::rlimit(50)]
pub fn read_variable_length_integer(s: &[u8], pos: usize, get_obj_type: bool) -> (r: Result<
    (usize, Option<u8>, usize),
    GitError,
>)
    requires
        pos <= s@.len(),
    ensures
        match spec_varint(s@.skip(pos as int), get_obj_type) {
            Ok((value, t, n)) => r == Ok::<(usize, Option<u8>, usize), GitError>(
                (value as usize, t, n as usize),
            ) && 0 < n <= s@.len() - pos,
            Err(e) => r == Err::<(usize, Option<u8>, usize), GitError>(e),
        },
{
    let t = slice_subrange(s, pos, s.len());
    assert(t@ =~= s@.skip(pos as int));
    if t.len() == 0 {
        return Err(GitError::BadVarint);
    }
    let b0 = t[0];
    let g0: u8 = if get_obj_type {
        b0 % 16
    } else {
        b0 % 128
    };
    let w1: usize = if get_obj_type {
        16
    } else {
        128
    };
    let ty: Option<u8> = if get_obj_type {
        Some((b0 / 16) % 8)
    } else {
        None
    };
    let mut acc: usize = g0 as usize;
    let mut fits = true;
    let mut w: usize = w1;
    let mut w_fits = true;
    let mut i: usize = 1;
    let mut last = b0;
    let ghost mut pt: int = 0;
    let ghost mut pw: int = 1;
    let ghost mut total: int = g0 as int;
    let ghost mut wt: int = w1 as int;
    assert(t@.subrange(1, 1) =~= Seq::<u8>::empty());
    while last >= 128
        invariant
            1 <= i <= t@.len(),
            last == t@[i - 1],
            forall|j: int| 0 <= j < i - 1 ==> t@[j] >= 128,
            w1 == 16 || w1 == 128,
            pt == plain_value(t@.subrange(1, i as int)),
            pw == pow128((i - 1) as nat),
            total == g0 + w1 * pt,
            wt == w1 * pw,
            pt >= 0,
            pw >= 1,
            fits ==> acc == total,
            !fits ==> total > usize::MAX,
            w_fits ==> w == wt,
            !w_fits ==> wt > usize::MAX,
        decreases t@.len() - i,
    {
        if i >= t.len() {
            proof {
                lemma_varint_end_is(t@, 0, t@.len() as int);
            }
            return Err(GitError::BadVarint);
        }
        let b = t[i];
        let g: u8 = b % 128;
        proof {
            lemma_plain_push(t@.subrange(1, i as int), b);
            assert(t@.subrange(1, i as int).push(b) =~= t@.subrange(1, i + 1));
            let gi = g as int;
            let w1i = w1 as int;
            assert(w1i * (pt + gi * pw) == w1i * pt + gi * (w1i * pw)) by (nonlinear_arith);
            assert(w1i * (pw * 128) == (w1i * pw) * 128) by (nonlinear_arith);
            assert(gi >= 1 && wt > usize::MAX ==> gi * wt > usize::MAX) by (nonlinear_arith);
            assert(gi * wt >= 0) by (nonlinear_arith)
                requires
                    gi >= 0,
                    wt >= 0,
            ;
            assert(gi * (w as int) <= 127 * usize::MAX) by (nonlinear_arith)
                requires
                    0 <= gi <= 127,
                    0 <= w <= usize::MAX,
            ;
            assert(gi == 0 ==> gi * wt == 0) by (nonlinear_arith);
        }
        if g > 0 {
            if !w_fits {
                fits = false;
            } else if fits {
                let sum: u128 = acc as u128 + (g as u128) * (w as u128);
                if sum > usize::MAX as u128 {
                    fits = false;
                } else {
                    acc = sum as usize;
                }
            }
        }
        if w_fits {
            if w > usize::MAX / 128 {
                w_fits = false;
            } else {
                w = w * 128;
            }
        }
        proof {
            total = total + g * wt;
            pt = pt + g * pw;
            wt = wt * 128;
            pw = pw * 128;
        }
        last = b;
        i += 1;
    }
    proof {
        lemma_varint_end_is(t@, 0, i - 1);
        assert(t@.subrange(0, i as int).skip(1) =~= t@.subrange(1, i as int));
        assert(t@.subrange(0, i as int)[0] == t@[0]);
    }
    if !fits {
        return Err(GitError::BadVarint);
    }
    Ok((acc, ty, i))
}

/// Reads `N` bytes that start at `pos`.
#[verifier::loop_isolation(false)]
pub fn read_array<const N: usize>(s: &[u8], pos: usize) -> (r: Result<[u8; N], GitError>)
    requires
        pos <= s@.len(),
    ensures
        s@.len() - pos >= N ==> (r matches Ok(a) && a@ == s@.subrange(pos as int, pos + N)),
        s@.len() - pos < N ==> r == Err::<[u8; N], GitError>(GitError::Truncated),
{
    if s.len() - pos < N {
        return Err(GitError::Truncated);
    }
    let mut out: [u8; N] = vstd::array::array_fill_for_copy_types(0u8);
    let mut i: usize = 0;
    while i < N
        invariant
            i <= N,
            s@.len() - pos >= N,
            forall|j: int| 0 <= j < i ==> out@[j] == s@[pos + j],
        decreases N - i,
    {
        out[i] = s[pos + i];
        i += 1;
    }
    assert(out@ =~= s@.subrange(pos as int, pos + N));
    Ok(out)
}

/// A delta against a base that is named by its identity.
#[derive(Debug, Clone, PartialEq, Eq)]
pub struct ObjRefDelta {
    pub base_obj_size: usize,
    pub target_obj_size: usize,
    pub obj_name: Sha,
    pub instructions: Vec<DeltaInstruction>,
}

/// What a reference delta means.
pub struct RefDeltaView {
    pub base_obj_size: nat,
    pub target_obj_size: nat,
    pub obj_name: Seq<u8>,
    pub instructions: Seq<DeltaOp>,
}

impl View for ObjRefDelta {
    type V = RefDeltaView;

    open spec fn view(&self) -> RefDeltaView {
        RefDeltaView {
            base_obj_size: self.base_obj_size as nat,
            target_obj_size: self.target_obj_size as nat,
            obj_name: self.obj_name@,
            instructions: ops_of(self.instructions@),
        }
    }
}

/// One object of a pack.
#[derive(Debug, Clone, PartialEq, Eq)]
pub enum PackfileObject {
    Commit(Commit),
    Tree(Tree),
    Blob(Blob),
    ObjRefDelta(ObjRefDelta),
}

/// What an object of a pack means.
pub enum PackObjectView {
    Commit(CommitView),
    Tree(Seq<TreeEntryView>),
    Blob(Seq<u8>),
    ObjRefDelta(RefDeltaView),
}

impl View for PackfileObject {
    type V = PackObjectView;

    open spec fn view(&self) -> PackObjectView {
        match self {
            PackfileObject::Commit(c) => PackObjectView::Commit(c@),
            PackfileObject::Tree(t) => PackObjectView::Tree(t@),
            PackfileObject::Blob(b) => PackObjectView::Blob(b@),
            PackfileObject::ObjRefDelta(d) => PackObjectView::ObjRefDelta(d@),
        }
    }
}

/// The meaning of each object of a list.
pub open spec fn objects_of(v: Seq<PackfileObject>) -> Seq<PackObjectView> {
    Seq::new(v.len(), |i: int| v[i]@)
}

/// The delta that an inflated payload writes: the size of the base, the size
/// of the result, then instructions to the end.
pub open spec fn spec_delta_payload(obj_name: Seq<u8>, payload: Seq<u8>) -> Result<
    RefDeltaView,
    GitError,
> {
    match spec_varint(payload, false) {
        Err(e) => Err(e),
        Ok((base_obj_size, _, n1)) => match spec_varint(payload.skip(n1), false) {
            Err(e) => Err(e),
            Ok((target_obj_size, _, n2)) => match spec_read_many(payload.skip(n1 + n2)) {
                Err(e) => Err(e),
                Ok(instructions) => Ok(
                    RefDeltaView { base_obj_size, target_obj_size, obj_name, instructions },
                ),
            },
        },
    }
}

/// Whether a pack object of this type is one this library reads: commit,
/// tree, blob or reference delta.
pub open spec fn supported_type(t: u8) -> bool {
    t == 1 || t == 2 || t == 3 || t == 7
}

/// The object of pack type `t` whose inflated payload is `payload`, where
/// the header of the object announced `size` bytes. `obj_name` is the base
/// that a reference delta names.
pub open spec fn spec_object_of(t: u8, size: nat, obj_name: Seq<u8>, payload: Seq<u8>) -> Result<
    PackObjectView,
    GitError,
> {
    if !supported_type(t) {
        Err(GitError::UnsupportedObjectType)
    } else if payload.len() != size {
        Err(GitError::SizeMismatch)
    } else if t == 1 {
        match spec_decode_commit(payload) {
            Ok(c) => Ok(PackObjectView::Commit(c)),
            Err(e) => Err(e),
        }
    } else if t == 2 {
        match spec_decode_entries(payload) {
            Ok(es) => Ok(PackObjectView::Tree(sorted_entries(es))),
            Err(e) => Err(e),
        }
    } else if t == 3 {
        Ok(PackObjectView::Blob(payload))
    } else if obj_name.len() != 20 {
        Err(GitError::WrongHashLength)
    } else {
        match spec_delta_payload(obj_name, payload) {
            Ok(d) => Ok(PackObjectView::ObjRefDelta(d)),
            Err(e) => Err(e),
        }
    }
}

/// The object at the start of `content`, and how many bytes it takes.
pub open spec fn spec_decode_object(content: Seq<u8>) -> Result<(PackObjectView, nat), GitError> {
    match spec_varint(content, true) {
        Err(e) => Err(e),
        Ok((size, t, n)) => {
            let t = t.unwrap();
            let name_len: int = if t == 7 {
                20
            } else {
                0
            };
            if !supported_type(t) {
                Err(GitError::UnsupportedObjectType)
            } else if content.len() - n < name_len {
                Err(GitError::WrongHashLength)
            } else {
                match zlib_stream(content.skip(n + name_len)) {
                    None => Err(GitError::Decompress),
                    Some((payload, used)) => if used > content.len() - n - name_len {
                        Err(GitError::Decompress)
                    } else {
                        match spec_object_of(t, size, content.subrange(n, n + name_len), payload) {
                            Err(e) => Err(e),
                            Ok(obj) => Ok((obj, (n + name_len + used) as nat)),
                        }
                    },
                }
            }
        },
    }
}

impl PackfileObject {
    /// The object of pack type `obj_type` from its inflated payload.
    /// `expected_size` is the size that the header of the object announced,
    /// `obj_name` the base that a reference delta names.
    pub fn from_inflated(obj_type: u8, expected_size: usize, obj_name: &[u8], payload: Vec<u8>) -> (r:
        Result<PackfileObject, GitError>)
        ensures
            match spec_object_of(obj_type, expected_size as nat, obj_name@, payload@) {
                Ok(v) => r matches Ok(obj) && obj@ == v,
                Err(e) => r matches Err(re) && re == e,
            },
    {
        if !(obj_type == 1 || obj_type == 2 || obj_type == 3 || obj_type == 7) {
            return Err(GitError::UnsupportedObjectType);
        }
        if payload.len() != expected_size {
            return Err(GitError::SizeMismatch);
        }
        if obj_type == 1 {
            Ok(PackfileObject::Commit(Commit::decode_body(payload)?))
        } else if obj_type == 2 {
            Ok(PackfileObject::Tree(Tree::decode_body(payload)?))
        } else if obj_type == 3 {
            Ok(PackfileObject::Blob(Blob::new(payload)))
        } else {
            let obj_name = Sha::from_bytes(obj_name)?;
            let s = payload.as_slice();
            assert(s@.skip(0) =~= s@);
            let (base_obj_size, _, n1) = read_variable_length_integer(s, 0, false)?;
            let (target_obj_size, _, n2) = read_variable_length_integer(s, n1, false)?;
            let rest = slice_subrange(s, n1 + n2, s.len());
            assert(rest@ =~= s@.skip(n1 + n2));
            let instructions = DeltaInstruction::read_many(rest)?;
            Ok(
                PackfileObject::ObjRefDelta(
                    ObjRefDelta { base_obj_size, target_obj_size, obj_name, instructions },
                ),
            )
        }
    }

    /// Reads the object at the start of `content`; gives it with the number
    /// of bytes it takes.
    #[verifier::rlimit(50)]
    pub fn decode(content: &[u8]) -> (r: Result<(PackfileObject, u64), GitError>)
        ensures
            match spec_decode_object(content@) {
                Ok((v, n)) => r matches Ok((obj, used)) && obj@ == v && used == n && 0 < used
                    <= content@.len(),
                Err(e) => r matches Err(re) && re == e,
            },
    {
        assert(content@.skip(0) =~= content@);
        let (expected_size, obj_type, n) = read_variable_length_integer(content, 0, true)?;
        let obj_type: u8 = match obj_type {
            Some(t) => t,
            None => {
                return Err(GitError::BadVarint);
            },
        };
        if !(obj_type == 1 || obj_type == 2 || obj_type == 3 || obj_type == 7) {
            return Err(GitError::UnsupportedObjectType);
        }
        let name_len: usize = if obj_type == 7 {
            20
        } else {
            0
        };
        if content.len() - n < name_len {
            return Err(GitError::WrongHashLength);
        }
        let stream = slice_subrange(content, n + name_len, content.len());
        assert(stream@ =~= content@.skip(n + name_len));
        let (payload, used) = decompress_slice(stream)?;
        let room: usize = content.len() - n - name_len;
        if used > room as u64 {
            return Err(GitError::Decompress);
        }
        let obj = PackfileObject::from_inflated(
            obj_type,
            expected_size,
            slice_subrange(content, n, n + name_len),
            payload,
        )?;
        Ok((obj, (n + name_len) as u64 + used))
    }
}

/// A pack, read.
#[derive(Debug, Clone, PartialEq, Eq)]
pub struct Packfile {
    pub version: u32,
    pub checksum: Sha,
    pub chunks: Vec<PackfileObject>,
}

/// What a pack means.
pub struct PackView {
    pub version: u32,
    pub checksum: Seq<u8>,
    pub chunks: Seq<PackObjectView>,
}

impl View for Packfile {
    type V = PackView;

    open spec fn view(&self) -> PackView {
        PackView {
            version: self.version,
            checksum: self.checksum@,
            chunks: objects_of(self.chunks@),
        }
    }
}

/// The magic bytes `PACK`.
pub open spec fn pack_magic() -> Seq<u8> {
    seq![0x50u8, 0x41, 0x43, 0x4b]
}

/// The number that four bytes write, most significant first.
pub open spec fn be32(s: Seq<u8>) -> nat {
    (s[0] as nat) * 0x100_0000 + (s[1] as nat) * 0x1_0000 + (s[2] as nat) * 0x100 + s[3] as nat
}

/// `count` objects read one after the other from the start of `data`, and
/// how many bytes they take together.
pub open spec fn spec_objects(data: Seq<u8>, count: nat) -> Result<(Seq<PackObjectView>, nat), GitError>
    decreases count,
{
    if count == 0 {
        Ok((Seq::empty(), 0))
    } else {
        match spec_decode_object(data) {
            Err(e) => Err(e),
            Ok((obj, n)) => match spec_objects(data.skip(n as int), (count - 1) as nat) {
                Err(e) => Err(e),
                Ok((rest, m)) => Ok((seq![obj] + rest, n + m)),
            },
        }
    }
}

/// The pack that `s` writes: the magic bytes, version two, the number of
/// objects, the objects, and as the last twenty bytes the digest of all that
/// precedes them.
pub open spec fn spec_read_pack(s: Seq<u8>) -> Result<PackView, GitError> {
    if s.len() < 4 || s.subrange(0, 4) != pack_magic() {
        Err(GitError::BadPackHeader)
    } else if s.len() < 8 {
        Err(GitError::Truncated)
    } else if be32(s.subrange(4, 8)) != 2 {
        Err(GitError::UnsupportedVersion)
    } else if s.len() < 32 {
        Err(GitError::Truncated)
    } else {
        let count = be32(s.subrange(8, 12));
        let end = s.len() - 20;
        let checksum = s.subrange(end, s.len() as int);
        if end >= digest_limit() {
            Err(GitError::TooLarge)
        } else if sha1_of(s.subrange(0, end)) != checksum {
            Err(GitError::ChecksumMismatch)
        } else {
            match spec_objects(s.subrange(12, end), count) {
                Err(e) => Err(e),
                Ok((chunks, used)) => if used != end - 12 {
                    Err(GitError::CountMismatch)
                } else {
                    Ok(PackView { version: 2, checksum, chunks })
                },
            }
        }
    }
}

/// Reads four bytes as a number, most significant first.
fn read_be32(s: &[u8], pos: usize) -> (r: u32)
    requires
        pos + 4 <= s@.len(),
    ensures
        r == be32(s@.subrange(pos as int, pos + 4)),
{
    let a = s[pos] as u32;
    let b = s[pos + 1] as u32;
    let c = s[pos + 2] as u32;
    let d = s[pos + 3] as u32;
    a * 0x100_0000 + b * 0x1_0000 + c * 0x100 + d
}

impl Packfile {
    /// Reads a pack.
    #[verifier::loop_isolation(false)]
    #[verifier::rlimit(50)]
    pub fn read(s: &[u8]) -> (r: Result<Packfile, GitError>)
        ensures
            match spec_read_pack(s@) {
                Ok(v) => r matches Ok(pack) && pack@ == v,
                Err(e) => r matches Err(re) && re == e,
            },
    {
        if s.len() < 4 {
            return Err(GitError::BadPackHeader);
        }
        if !(s[0] == 0x50 && s[1] == 0x41 && s[2] == 0x43 && s[3] == 0x4b) {
            assert(s@.subrange(0, 4)[0] == s@[0]);
            assert(s@.subrange(0, 4)[1] == s@[1]);
            assert(s@.subrange(0, 4)[2] == s@[2]);
            assert(s@.subrange(0, 4)[3] == s@[3]);
            return Err(GitError::BadPackHeader);
        }
        assert(s@.subrange(0, 4) =~= pack_magic());
        if s.len() < 8 {
            return Err(GitError::Truncated);
        }
        let version = read_be32(s, 4);
        if version != 2 {
            return Err(GitError::UnsupportedVersion);
        }
        if s.len() < 32 {
            return Err(GitError::Truncated);
        }
        let count = read_be32(s, 8);
        let end: usize = s.len() - 20;
        let checksum = Sha::from_bytes(slice_subrange(s, end, s.len()))?;
        let digest = Sha::digest(slice_subrange(s, 0, end))?;
        if !(digest == checksum) {
            return Err(GitError::ChecksumMismatch);
        }
        let data = slice_subrange(s, 12, end);
        let mut chunks: Vec<PackfileObject> = Vec::new();
        let mut pos: usize = 0;
        let mut left: u32 = count;
        assert(data@.skip(0) =~= data@);
        assert(objects_of(chunks@) =~= Seq::<PackObjectView>::empty());
        while left > 0
            invariant
                pos <= data@.len(),
                spec_objects(data@, count as nat) == match spec_objects(
                    data@.skip(pos as int),
                    left as nat,
                ) {
                    Ok((rest, m)) => Ok::<(Seq<PackObjectView>, nat), GitError>(
                        (objects_of(chunks@) + rest, (pos + m) as nat),
                    ),
                    Err(e) => Err(e),
                },
            decreases left,
        {
            let ghost before = objects_of(chunks@);
            let tail = slice_subrange(data, pos, data.len());
            assert(tail@ =~= data@.skip(pos as int));
            let (obj, used) = PackfileObject::decode(tail)?;
            let next: usize = pos + used as usize;
            proof {
                assert(tail@.skip(used as int) =~= data@.skip(next as int));
                match spec_objects(data@.skip(next as int), (left - 1) as nat) {
                    Ok((rest, m)) => {
                        assert(before + (seq![obj@] + rest) =~= (before + seq![obj@]) + rest);
                    },
                    Err(e) => {},
                }
                assert(objects_of(chunks@.push(obj)) =~= before + seq![obj@]);
            }
            chunks.push(obj);
            pos = next;
            left = left - 1;
        }
        proof {
            assert(objects_of(chunks@) + Seq::<PackObjectView>::empty() =~= objects_of(chunks@));
        }
        if pos != data.len() {
            return Err(GitError::CountMismatch);
        }
        Ok(Packfile { version, checksum, chunks })
    }
}

} // verus!
