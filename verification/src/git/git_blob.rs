//! Blobs: bytes, kept as they are.

use crate::compression::{decompress, zlib_inflated};
use crate::error::GitError;
use crate::git::git_object_trait::{parse_frame, spec_parse_frame, GitObject, GitObjectType};
use vstd::prelude::*;

verus! {

/// A blob: the content of a file.
#[derive(Debug, Clone, PartialEq, Eq)]
pub struct Blob(pub Vec<u8>);

impl View for Blob {
    type V = Seq<u8>;

    open spec fn view(&self) -> Seq<u8> {
        self.0@
    }
}

impl Blob {
    /// A blob with this content.
    pub fn new(content: Vec<u8>) -> (b: Blob)
        ensures
            b@ == content@,
    {
        Blob(content)
    }

    /// The content.
    pub fn content(&self) -> (r: &[u8])
        ensures
            r@ == self@,
    {
        self.0.as_slice()
    }

    /// The content, as the one field of the blob.
    pub fn get_first_index(&self) -> (r: &[u8])
        ensures
            r@ == self@,
    {
        self.0.as_slice()
    }

    /// The content, as the one field of the blob.
    pub fn get_blob_first_index(&self) -> (r: &[u8])
        ensures
            r@ == self@,
    {
        self.0.as_slice()
    }

    /// The blob that a file of the store holds.
    pub fn decode(raw_content: Vec<u8>) -> (r: Result<Blob, GitError>)
        ensures
            match spec_decode_blob(raw_content@) {
                Ok(content) => r matches Ok(blob) && blob@ == content,
                Err(e) => r matches Err(re) && re == e,
            },
    {
        let data = decompress(raw_content)?;
        let (t, body) = parse_frame(data.as_slice())?;
        match t {
            GitObjectType::Blob => Ok(Blob(body)),
            _ => Err(GitError::UnknownType),
        }
    }
}

/// The content of the blob that a file of the store holds: the file is a
/// zlib stream of a header, which must say `blob`, and a body.
pub open spec fn spec_decode_blob(raw: Seq<u8>) -> Result<Seq<u8>, GitError> {
    match zlib_inflated(raw) {
        None => Err(GitError::Decompress),
        Some(data) => match spec_parse_frame(data) {
            Err(e) => Err(e),
            Ok((t, body)) => if t == GitObjectType::Blob {
                Ok(body)
            } else {
                Err(GitError::UnknownType)
            },
        },
    }
}

impl GitObject for Blob {
    open spec fn spec_type() -> GitObjectType {
        GitObjectType::Blob
    }

    open spec fn spec_encode_body(v: Seq<u8>) -> Seq<u8> {
        v
    }

    open spec fn spec_decode_body(body: Seq<u8>) -> Result<Seq<u8>, GitError> {
        Ok(body)
    }

    fn get_type() -> (t: GitObjectType) {
        GitObjectType::Blob
    }

    fn encode_body(&self) -> (r: Result<Vec<u8>, GitError>) {
        Ok(self.0.clone())
    }

    fn decode_body(from: Vec<u8>) -> (r: Result<Blob, GitError>) {
        Ok(Blob(from))
    }
}

/// A blob's body is its content, and reading a body back gives the content.
pub proof fn lemma_blob_roundtrip(content: Seq<u8>)
    ensures
        Blob::spec_decode_body(Blob::spec_encode_body(content)) == Ok::<Seq<u8>, GitError>(content),
{
}

} // verus!
