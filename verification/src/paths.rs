//! Where the store keeps an object: below the root of a repository, in
//! `.git/objects`, in a directory named by the first two digits of its
//! identity, in a file named by the rest.

use crate::git::git_object_trait::LooseObject;
use crate::hexcode::{hex_chars, lemma_hex_chars_bytes};
use vstd::prelude::*;
use vstd::utf8::is_ascii_chars;

verus! {

/// `rel` below `root`: with a `/` between them, unless `root` is empty or
/// ends in one.
pub open spec fn joined_path(root: Seq<char>, rel: Seq<char>) -> Seq<char> {
    if root.len() == 0 || root.last() == '/' {
        root + rel
    } else {
        root + seq!['/'] + rel
    }
}

/// The directory of the object `sha1` below the repository at `root`.
pub open spec fn spec_folder_path(sha1: Seq<char>, root: Seq<char>) -> Seq<char> {
    joined_path(root, ".git/objects/"@ + sha1.subrange(0, 2))
}

/// The file of the object `sha1` below the repository at `root`.
pub open spec fn spec_file_path(sha1: Seq<char>, root: Seq<char>) -> Seq<char> {
    joined_path(spec_folder_path(sha1, root), sha1.subrange(2, sha1.len() as int))
}

/// `rel` below `root`.
pub fn join_path(root: &str, rel: &str) -> (r: String)
    ensures
        r@ == joined_path(root@, rel@),
{
    let n = root.unicode_len();
    let mut r = String::from_str(root);
    if n > 0 && root.get_char(n - 1) != '/' {
        proof {
            reveal_strlit("/");
            assert("/"@ =~= seq!['/']);
        }
        r.append("/");
    }
    r.append(rel);
    r
}

/// The directory of the object `sha1` below the repository at `path`.
pub fn get_object_folder_path(sha1: &str, path: &str) -> (r: String)
    requires
        is_ascii_chars(sha1@),
        sha1@.len() >= 2,
    ensures
        r@ == spec_folder_path(sha1@, path@),
{
    let mut rel = String::from_str(".git/objects/");
    rel.append(sha1.substring_ascii(0, 2));
    join_path(path, rel.as_str())
}

/// The file of the object `sha1` below the repository at `path`.
pub fn get_object_file_path(sha1: &str, path: &str) -> (r: String)
    requires
        is_ascii_chars(sha1@),
        sha1@.len() >= 2,
    ensures
        r@ == spec_file_path(sha1@, path@),
{
    let folder = get_object_folder_path(sha1, path);
    let n = sha1.unicode_len();
    join_path(folder.as_str(), sha1.substring_ascii(2, n))
}

impl LooseObject {
    /// The directory of this object below the repository at `root`.
    pub fn folder_path(&self, root: &str) -> (r: String)
        ensures
            r@ == spec_folder_path(hex_chars(self.sha@), root@),
    {
        let hex = self.sha.to_hex();
        proof {
            lemma_hex_chars_bytes(self.sha@);
        }
        get_object_folder_path(hex.as_str(), root)
    }

    /// The file of this object below the repository at `root`.
    pub fn file_path(&self, root: &str) -> (r: String)
        ensures
            r@ == spec_file_path(hex_chars(self.sha@), root@),
    {
        let hex = self.sha.to_hex();
        proof {
            lemma_hex_chars_bytes(self.sha@);
        }
        get_object_file_path(hex.as_str(), root)
    }
}

} // verus!
