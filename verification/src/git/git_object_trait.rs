//! What blobs, trees and commits have in common: a type, a body, a header
//! that frames the body, an identity, and a place in the store.

use crate::bytes::{append, copy_range, find_byte, first_at, lemma_first_at_is, same_bytes};
use crate::compression::{compress, zlib_deflated};
use crate::error::GitError;
use crate::sha::{digest_limit, sha1_of, Sha};
use crate::text::{
    decimal_text, lemma_decimal_roundtrip, parse_u64, push_decimal, spec_parse_u64, FromText,
};
use vstd::prelude::*;

verus! {

/// The three kinds of object.
#[derive(Debug, Clone, Copy, PartialEq, Eq, Structural)]
pub enum GitObjectType {
    Blob,
    Tree,
    Commit,
}

impl GitObjectType {
    /// The name of the kind, as written in a header: `blob`, `tree` or
    /// `commit`.
    pub open spec fn spec_name(self) -> Seq<u8> {
        match self {
            GitObjectType::Blob => seq![0x62u8, 0x6c, 0x6f, 0x62],
            GitObjectType::Tree => seq![0x74u8, 0x72, 0x65, 0x65],
            GitObjectType::Commit => seq![0x63u8, 0x6f, 0x6d, 0x6d, 0x69, 0x74],
        }
    }

    /// The kind that `text` names.
    pub open spec fn spec_named(text: Seq<u8>) -> Option<GitObjectType> {
        if text == GitObjectType::Blob.spec_name() {
            Some(GitObjectType::Blob)
        } else if text == GitObjectType::Tree.spec_name() {
            Some(GitObjectType::Tree)
        } else if text == GitObjectType::Commit.spec_name() {
            Some(GitObjectType::Commit)
        } else {
            None
        }
    }

    /// The name of the kind.
    pub fn name(&self) -> (r: Vec<u8>)
        ensures
            r@ == self.spec_name(),
    {
        let mut r: Vec<u8> = Vec::new();
        match self {
            GitObjectType::Blob => {
                r.push(0x62);
                r.push(0x6c);
                r.push(0x6f);
                r.push(0x62);
            },
            GitObjectType::Tree => {
                r.push(0x74);
                r.push(0x72);
                r.push(0x65);
                r.push(0x65);
            },
            GitObjectType::Commit => {
                r.push(0x63);
                r.push(0x6f);
                r.push(0x6d);
                r.push(0x6d);
                r.push(0x69);
                r.push(0x74);
            },
        }
        assert(r@ =~= self.spec_name());
        r
    }

    /// The name of the kind, as a string.
    pub fn as_ref(&self) -> (r: &'static str)
        ensures
            vstd::utf8::encode_utf8(r@) == self.spec_name(),
    {
        let r = match self {
            GitObjectType::Blob => "blob",
            GitObjectType::Tree => "tree",
            GitObjectType::Commit => "commit",
        };
        proof {
            reveal_strlit("blob");
            reveal_strlit("tree");
            reveal_strlit("commit");
            assert(vstd::utf8::is_ascii_chars(r@));
            vstd::utf8::is_ascii_chars_encode_utf8(r@);
            assert(vstd::utf8::encode_utf8(r@) =~= self.spec_name());
        }
        r
    }
}

impl FromText for GitObjectType {
    open spec fn spec_from_text(text: Seq<u8>) -> Result<GitObjectType, GitError> {
        match GitObjectType::spec_named(text) {
            Some(t) => Ok(t),
            None => Err(GitError::UnknownType),
        }
    }

    fn from_text(text: &[u8]) -> (r: Result<GitObjectType, GitError>) {
        if same_bytes(text, GitObjectType::Blob.name().as_slice()) {
            Ok(GitObjectType::Blob)
        } else if same_bytes(text, GitObjectType::Tree.name().as_slice()) {
            Ok(GitObjectType::Tree)
        } else if same_bytes(text, GitObjectType::Commit.name().as_slice()) {
            Ok(GitObjectType::Commit)
        } else {
            Err(GitError::UnknownType)
        }
    }
}

/// The header of an object: its kind, a space, the length of its body in
/// decimal, and a NUL.
pub open spec fn header_of(t: GitObjectType, size: nat) -> Seq<u8> {
    t.spec_name() + seq![32u8] + decimal_text(size) + seq![0u8]
}

/// An object as it is digested and stored: header, then body.
pub open spec fn framed(t: GitObjectType, body: Seq<u8>) -> Seq<u8> {
    header_of(t, body.len()) + body
}

/// The kind and body that `data` frames.
pub open spec fn spec_parse_frame(data: Seq<u8>) -> Result<(GitObjectType, Seq<u8>), GitError> {
    let nul = first_at(data, 0, 0u8);
    if nul >= data.len() {
        Err(GitError::CorruptHeader)
    } else {
        let header = data.subrange(0, nul);
        let body = data.subrange(nul + 1, data.len() as int);
        let sp = first_at(header, 0, 32u8);
        if sp >= header.len() {
            Err(GitError::CorruptHeader)
        } else {
            match (
                GitObjectType::spec_named(header.subrange(0, sp)),
                spec_parse_u64(header.subrange(sp + 1, header.len() as int)),
            ) {
                (Some(t), Ok(size)) => if body.len() == size {
                    Ok((t, body))
                } else {
                    Err(GitError::SizeMismatch)
                },
                _ => Err(GitError::CorruptHeader),
            }
        }
    }
}

/// Splits framed data into the kind it names and its body.
pub fn parse_frame(data: &[u8]) -> (r: Result<(GitObjectType, Vec<u8>), GitError>)
    ensures
        match spec_parse_frame(data@) {
            Ok((t, body)) => r matches Ok((rt, rbody)) && rt == t && rbody@ == body,
            Err(e) => r == Err::<(GitObjectType, Vec<u8>), GitError>(e),
        },
{
    let nul = find_byte(data, 0, 0u8);
    if nul >= data.len() {
        return Err(GitError::CorruptHeader);
    }
    let header = vstd::slice::slice_subrange(data, 0, nul);
    let sp = find_byte(header, 0, 32u8);
    if sp >= header.len() {
        return Err(GitError::CorruptHeader);
    }
    let kind = GitObjectType::from_text(vstd::slice::slice_subrange(header, 0, sp));
    let size = parse_u64(vstd::slice::slice_subrange(header, sp + 1, header.len()));
    match (kind, size) {
        (Ok(t), Ok(size)) => {
            let body_len: usize = data.len() - nul - 1;
            if body_len as u64 == size {
                Ok((t, copy_range(data, nul + 1, data.len())))
            } else {
                Err(GitError::SizeMismatch)
            }
        },
        _ => Err(GitError::CorruptHeader),
    }
}

/// No byte of a kind's name is a space or a NUL, and the three names differ.
pub proof fn lemma_names(t: GitObjectType)
    ensures
        forall|i: int| 0 <= i < t.spec_name().len() ==> t.spec_name()[i] > 32,
        GitObjectType::spec_named(t.spec_name()) == Some(t),
        t.spec_name().len() > 0,
{
    let b = GitObjectType::Blob.spec_name();
    let tr = GitObjectType::Tree.spec_name();
    let c = GitObjectType::Commit.spec_name();
    assert(b[0] != tr[0]);
    assert(b.len() != c.len());
    assert(tr.len() != c.len());
}

/// What was framed is what is found in the frame.
pub proof fn lemma_frame_roundtrip(t: GitObjectType, body: Seq<u8>)
    requires
        body.len() <= u64::MAX,
    ensures
        spec_parse_frame(framed(t, body)) == Ok::<(GitObjectType, Seq<u8>), GitError>((t, body)),
{
    let name = t.spec_name();
    let digits = decimal_text(body.len());
    let head = name + seq![32u8] + digits;
    let data = framed(t, body);
    lemma_names(t);
    lemma_decimal_roundtrip(body.len());
    assert(data =~= head + seq![0u8] + body);
    assert forall|j: int| 0 <= j < head.len() implies data[j] != 0u8 by {
        if j < name.len() {
            assert(data[j] == name[j]);
        } else if j == name.len() {
        } else {
            assert(data[j] == digits[j - name.len() - 1]);
            assert(crate::text::is_digit(digits[j - name.len() - 1]));
        }
    }
    lemma_first_at_is(data, 0, 0u8, head.len() as int);
    let header = data.subrange(0, head.len() as int);
    assert(header =~= head);
    assert forall|j: int| 0 <= j < name.len() implies header[j] != 32u8 by {
        assert(header[j] == name[j]);
    }
    lemma_first_at_is(header, 0, 32u8, name.len() as int);
    assert(header.subrange(0, name.len() as int) =~= name);
    assert(header.subrange(name.len() as int + 1, header.len() as int) =~= digits);
    assert(data.subrange(head.len() as int + 1, data.len() as int) =~= body);
}

/// An object ready for the store: where it goes below the repository root,
/// and the bytes of its file.
#[derive(Debug, Clone, PartialEq, Eq)]
pub struct LooseObject {
    /// The identity of the object.
    pub sha: Sha,
    /// The zlib stream of the framed object.
    pub content: Vec<u8>,
}

/// A blob, a tree or a commit.
pub trait GitObject: Sized + View {
    /// The kind of these objects.
    spec fn spec_type() -> GitObjectType;

    /// The body of an object with this meaning.
    spec fn spec_encode_body(v: Self::V) -> Seq<u8>;

    /// The meaning of the object with this body.
    spec fn spec_decode_body(body: Seq<u8>) -> Result<Self::V, GitError>;

    /// The kind of these objects.
    fn get_type() -> (t: GitObjectType)
        ensures
            t == Self::spec_type(),
    ;

    /// The body of this object.
    fn encode_body(&self) -> (r: Result<Vec<u8>, GitError>)
        ensures
            r matches Ok(body) && body@ == Self::spec_encode_body(self@),
    ;

    /// The object with this body.
    fn decode_body(from: Vec<u8>) -> (r: Result<Self, GitError>)
        ensures
            match Self::spec_decode_body(from@) {
                Ok(v) => r matches Ok(obj) && obj@ == v,
                Err(e) => r matches Err(re) && re == e,
            },
    ;

    /// The header that frames this object's body.
    fn get_header(&self) -> (r: Result<Vec<u8>, GitError>)
        ensures
            r matches Ok(header) && header@ == header_of(
                Self::spec_type(),
                Self::spec_encode_body(self@).len(),
            ),
    {
        let body = self.encode_body()?;
        let mut header = Self::get_type().name();
        header.push(32u8);
        push_decimal(&mut header, body.len() as u64);
        header.push(0u8);
        assert(header@ =~= header_of(Self::spec_type(), body@.len()));
        Ok(header)
    }

    /// This object, framed by its header.
    fn encode_uncompressed(&self) -> (r: Result<Vec<u8>, GitError>)
        ensures
            r matches Ok(data) && data@ == framed(Self::spec_type(), Self::spec_encode_body(self@)),
    {
        let mut buf = self.get_header()?;
        let body = self.encode_body()?;
        append(&mut buf, body.as_slice());
        Ok(buf)
    }

    /// The identity of this object: the digest of its framed form.
    fn sha1(&self) -> (r: Result<Sha, GitError>)
        ensures
            match r {
                Ok(sha) => sha@ == sha1_of(framed(Self::spec_type(), Self::spec_encode_body(self@)))
                    && framed(Self::spec_type(), Self::spec_encode_body(self@)).len()
                    < digest_limit(),
                Err(e) => e == GitError::TooLarge && framed(
                    Self::spec_type(),
                    Self::spec_encode_body(self@),
                ).len() >= digest_limit(),
            },
    {
        let data = self.encode_uncompressed()?;
        Sha::digest(data.as_slice())
    }

    /// The zlib stream of this object's framed form.
    fn encode(&self) -> (r: Result<Vec<u8>, GitError>)
        ensures
            match zlib_deflated(framed(Self::spec_type(), Self::spec_encode_body(self@))) {
                Some(stream) => r matches Ok(out) && out@ == stream,
                None => r matches Err(e) && e == GitError::Decompress,
            },
    {
        compress(self.encode_uncompressed()?)
    }

    /// What the store must hold for this object: its identity, which names
    /// its file, and the zlib stream of its framed form.
    fn write(&self) -> (r: Result<LooseObject, GitError>)
        ensures
            match zlib_deflated(framed(Self::spec_type(), Self::spec_encode_body(self@))) {
                Some(stream) => match r {
                    Ok(loose) => loose.content@ == stream && loose.sha@ == sha1_of(
                        framed(Self::spec_type(), Self::spec_encode_body(self@)),
                    ) && framed(Self::spec_type(), Self::spec_encode_body(self@)).len()
                        < digest_limit(),
                    Err(e) => e == GitError::TooLarge && framed(
                        Self::spec_type(),
                        Self::spec_encode_body(self@),
                    ).len() >= digest_limit(),
                },
                None => r matches Err(e) && e == GitError::Decompress,
            },
    {
        let content = self.encode()?;
        let sha = self.sha1()?;
        Ok(LooseObject { sha, content })
    }
}

} // verus!
