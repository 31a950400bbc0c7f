//! Any of the three kinds of object, as one type.

use crate::compression::{decompress, zlib_deflated, zlib_inflated};
use crate::error::GitError;
use crate::git::commits::{spec_decode_commit, spec_encode_commit, Commit, CommitView};
use crate::git::git_blob::Blob;
use crate::git::git_object_trait::{
    framed, parse_frame, spec_parse_frame, GitObject, GitObjectType, LooseObject,
};
use crate::git::git_tree::{spec_decode_entries, spec_encode_entries, sorted_entries, Tree, TreeEntryView};
use crate::sha::{digest_limit, sha1_of, Sha};
use vstd::prelude::*;

verus! {

/// A blob, a tree or a commit.
#[derive(Debug, Clone, PartialEq, Eq)]
pub enum AnyGitObject {
    Blob(Blob),
    Tree(Tree),
    Commit(Commit),
}

/// What an object means.
pub enum ObjectView {
    Blob(Seq<u8>),
    Tree(Seq<TreeEntryView>),
    Commit(CommitView),
}

impl View for AnyGitObject {
    type V = ObjectView;

    open spec fn view(&self) -> ObjectView {
        match self {
            AnyGitObject::Blob(blob) => ObjectView::Blob(blob@),
            AnyGitObject::Tree(tree) => ObjectView::Tree(tree@),
            AnyGitObject::Commit(commit) => ObjectView::Commit(commit@),
        }
    }
}

/// The kind of an object.
pub open spec fn type_of(v: ObjectView) -> GitObjectType {
    match v {
        ObjectView::Blob(_) => GitObjectType::Blob,
        ObjectView::Tree(_) => GitObjectType::Tree,
        ObjectView::Commit(_) => GitObjectType::Commit,
    }
}

/// The body of an object.
pub open spec fn body_of(v: ObjectView) -> Seq<u8> {
    match v {
        ObjectView::Blob(content) => content,
        ObjectView::Tree(entries) => spec_encode_entries(entries),
        ObjectView::Commit(commit) => spec_encode_commit(commit),
    }
}

/// The object of kind `t` with this body.
pub open spec fn spec_from_body(t: GitObjectType, body: Seq<u8>) -> Result<ObjectView, GitError> {
    match t {
        GitObjectType::Blob => Ok(ObjectView::Blob(body)),
        GitObjectType::Tree => match spec_decode_entries(body) {
            Ok(es) => Ok(ObjectView::Tree(sorted_entries(es))),
            Err(e) => Err(e),
        },
        GitObjectType::Commit => match spec_decode_commit(body) {
            Ok(c) => Ok(ObjectView::Commit(c)),
            Err(e) => Err(e),
        },
    }
}

/// The object that `data`, a header and a body, writes.
pub open spec fn spec_decode_framed(data: Seq<u8>) -> Result<ObjectView, GitError> {
    match spec_parse_frame(data) {
        Err(e) => Err(e),
        Ok((t, body)) => spec_from_body(t, body),
    }
}

/// The object that a file of the store holds: a zlib stream of a header and
/// a body.
pub open spec fn spec_decode(raw: Seq<u8>) -> Result<ObjectView, GitError> {
    match zlib_inflated(raw) {
        None => Err(GitError::Decompress),
        Some(data) => spec_decode_framed(data),
    }
}

/// The identity of an object: the digest of its header and body.
pub open spec fn identity(v: ObjectView) -> Seq<u8> {
    sha1_of(framed(type_of(v), body_of(v)))
}

/// Whether an object can be written and read back: any blob, a tree that is
/// well formed, a commit that keeps to the grammar.
pub open spec fn object_ok(v: ObjectView) -> bool {
    match v {
        ObjectView::Blob(_) => true,
        ObjectView::Tree(entries) => crate::git::tree_laws::well_formed(entries),
        ObjectView::Commit(commit) => crate::git::commit_laws::commit_ok(commit),
    }
}

/// An object that can be written is read back from its header and body as
/// it was, and so keeps its identity.
pub proof fn lemma_object_roundtrip(v: ObjectView)
    requires
        object_ok(v),
        body_of(v).len() <= u64::MAX,
    ensures
        spec_decode_framed(framed(type_of(v), body_of(v))) == Ok::<ObjectView, GitError>(v),
{
    crate::git::git_object_trait::lemma_frame_roundtrip(type_of(v), body_of(v));
    match v {
        ObjectView::Blob(_) => {},
        ObjectView::Tree(entries) => {
            crate::git::tree_laws::lemma_tree_roundtrip(entries);
        },
        ObjectView::Commit(commit) => {
            crate::git::commit_laws::lemma_commit_roundtrip(commit);
        },
    }
}

impl AnyGitObject {
    /// The kind of this object.
    pub fn get_type(&self) -> (t: GitObjectType)
        ensures
            t == type_of(self@),
    {
        match self {
            AnyGitObject::Blob(_) => GitObjectType::Blob,
            AnyGitObject::Tree(_) => GitObjectType::Tree,
            AnyGitObject::Commit(_) => GitObjectType::Commit,
        }
    }

    /// The body of this object.
    pub fn encode_body(&self) -> (r: Result<Vec<u8>, GitError>)
        ensures
            r matches Ok(body) && body@ == body_of(self@),
    {
        match self {
            AnyGitObject::Blob(blob) => blob.encode_body(),
            AnyGitObject::Tree(tree) => tree.encode_body(),
            AnyGitObject::Commit(commit) => commit.encode_body(),
        }
    }

    /// What the store must hold for this object: its identity, which names
    /// its file, and the zlib stream of its header and body.
    pub fn write(&self) -> (r: Result<LooseObject, GitError>)
        ensures
            match zlib_deflated(framed(type_of(self@), body_of(self@))) {
                Some(stream) => match r {
                    Ok(loose) => loose.content@ == stream && loose.sha@ == identity(self@) && framed(
                        type_of(self@),
                        body_of(self@),
                    ).len() < digest_limit(),
                    Err(e) => e == GitError::TooLarge && framed(
                        type_of(self@),
                        body_of(self@),
                    ).len() >= digest_limit(),
                },
                None => r matches Err(e) && e == GitError::Decompress,
            },
    {
        match self {
            AnyGitObject::Blob(blob) => blob.write(),
            AnyGitObject::Tree(tree) => tree.write(),
            AnyGitObject::Commit(commit) => commit.write(),
        }
    }

    /// The identity of this object.
    pub fn sha1(&self) -> (r: Result<Sha, GitError>)
        ensures
            match r {
                Ok(sha) => sha@ == identity(self@) && framed(type_of(self@), body_of(self@)).len()
                    < digest_limit(),
                Err(e) => e == GitError::TooLarge && framed(type_of(self@), body_of(self@)).len()
                    >= digest_limit(),
            },
    {
        match self {
            AnyGitObject::Blob(blob) => blob.sha1(),
            AnyGitObject::Tree(tree) => tree.sha1(),
            AnyGitObject::Commit(commit) => commit.sha1(),
        }
    }

    /// The object of kind `t` with this body.
    pub fn from_body(t: GitObjectType, body: Vec<u8>) -> (r: Result<AnyGitObject, GitError>)
        ensures
            match spec_from_body(t, body@) {
                Ok(v) => r matches Ok(obj) && obj@ == v,
                Err(e) => r matches Err(re) && re == e,
            },
    {
        match t {
            GitObjectType::Blob => Ok(AnyGitObject::Blob(Blob::decode_body(body)?)),
            GitObjectType::Tree => Ok(AnyGitObject::Tree(Tree::decode_body(body)?)),
            GitObjectType::Commit => Ok(AnyGitObject::Commit(Commit::decode_body(body)?)),
        }
    }

    /// The object that `data`, a header and a body, writes.
    pub fn decode_framed(data: &[u8]) -> (r: Result<AnyGitObject, GitError>)
        ensures
            match spec_decode_framed(data@) {
                Ok(v) => r matches Ok(obj) && obj@ == v,
                Err(e) => r matches Err(re) && re == e,
            },
    {
        let (t, body) = parse_frame(data)?;
        AnyGitObject::from_body(t, body)
    }

    /// The object that a file of the store holds.
    pub fn decode(raw_content: Vec<u8>) -> (r: Result<AnyGitObject, GitError>)
        ensures
            match spec_decode(raw_content@) {
                Ok(v) => r matches Ok(obj) && obj@ == v,
                Err(e) => r matches Err(re) && re == e,
            },
    {
        let data = decompress(raw_content)?;
        AnyGitObject::decode_framed(data.as_slice())
    }

    /// The blob, where this object is one.
    pub fn try_as_blob(self) -> (r: Option<Blob>)
        ensures
            match self {
                AnyGitObject::Blob(blob) => r == Some(blob),
                _ => r is None,
            },
    {
        match self {
            AnyGitObject::Blob(blob) => Some(blob),
            _ => None,
        }
    }

    /// The tree, where this object is one.
    pub fn try_as_tree(self) -> (r: Option<Tree>)
        ensures
            match self {
                AnyGitObject::Tree(tree) => r == Some(tree),
                _ => r is None,
            },
    {
        match self {
            AnyGitObject::Tree(tree) => Some(tree),
            _ => None,
        }
    }

    /// The commit, where this object is one.
    pub fn try_as_commit(self) -> (r: Option<Commit>)
        ensures
            match self {
                AnyGitObject::Commit(commit) => r == Some(commit),
                _ => r is None,
            },
    {
        match self {
            AnyGitObject::Commit(commit) => Some(commit),
            _ => None,
        }
    }

    /// The blob, where this object is one.
    pub fn try_as_blob_ref(&self) -> (r: Option<&Blob>)
        ensures
            match self {
                AnyGitObject::Blob(blob) => r == Some(blob),
                _ => r is None,
            },
    {
        match self {
            AnyGitObject::Blob(blob) => Some(blob),
            _ => None,
        }
    }

    /// The tree, where this object is one.
    pub fn try_as_tree_ref(&self) -> (r: Option<&Tree>)
        ensures
            match self {
                AnyGitObject::Tree(tree) => r == Some(tree),
                _ => r is None,
            },
    {
        match self {
            AnyGitObject::Tree(tree) => Some(tree),
            _ => None,
        }
    }

    /// The commit, where this object is one.
    pub fn try_as_commit_ref(&self) -> (r: Option<&Commit>)
        ensures
            match self {
                AnyGitObject::Commit(commit) => r == Some(commit),
                _ => r is None,
            },
    {
        match self {
            AnyGitObject::Commit(commit) => Some(commit),
            _ => None,
        }
    }
}

} // verus!
