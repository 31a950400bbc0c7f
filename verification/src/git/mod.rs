//! Objects and how they are written down.

pub mod any_git_object;
pub mod checkout;
pub mod commit_laws;
pub mod commits;
pub mod file_tree;
pub mod git_blob;
pub mod git_client;
pub mod git_object_trait;
pub mod git_tree;
pub mod object_map;
pub mod packfile;
pub mod pkt_line;
pub mod refs;
pub mod tree_laws;
pub mod upload_pack;
