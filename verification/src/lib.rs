//! The core of a minimal Git-compatible object store and clone client.
//!
//! - [`git::git_blob`], [`git::git_tree`], [`git::commits`] and
//!   [`git::any_git_object`] hold the three kinds of object, how their bodies
//!   are written and read, and their identity; [`git::git_object_trait`] holds
//!   what they share, the header that frames a body.
//! - [`git::pkt_line`], [`git::refs`] and [`git::upload_pack`] hold the framing
//!   and the messages of the smart HTTP protocol.
//! - [`git::packfile`] and [`delta`] read packs and delta instructions;
//!   [`git::object_map`] resolves deltas into objects.
//! - [`git::checkout`], [`git::file_tree`] and [`git::git_client`] decide what
//!   a checkout, a directory and a clone write; nothing here touches the disk
//!   or the network.
//!
//! Every function states what it computes over sequences of bytes and
//! characters, and is proved to compute it. Hexadecimal text is written and
//! read by the `hex` crate; what zlib streams, SHA-1 digests and addresses
//! are is left to the `flate2`, `sha` and `url` crates.

pub mod bytes;
pub mod compression;
pub mod delta;
pub mod error;
pub mod git;
pub mod hexcode;
pub mod paths;
pub mod sha;
pub mod text;
