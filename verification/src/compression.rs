//! zlib, as the `flate2` crate implements it.

use crate::error::GitError;
use flate2::read::ZlibDecoder as ZlibReadDecoder;
use flate2::write::{ZlibDecoder, ZlibEncoder};
use std::io::{Read, Write};
use vstd::prelude::*;

verus! {

/// The zlib stream that compressing `data` at the default level gives, where
/// compression succeeds.
pub uninterp spec fn zlib_deflated(data: Seq<u8>) -> Option<Seq<u8>>;

/// The data that the zlib stream `data` holds, where it is one whole stream.
pub uninterp spec fn zlib_inflated(data: Seq<u8>) -> Option<Seq<u8>>;

/// The data of the zlib stream that `data` starts with, and how many bytes of
/// `data` that stream takes.
pub uninterp spec fn zlib_stream(data: Seq<u8>) -> Option<(Seq<u8>, nat)>;

/// The bytes of an optional buffer.
pub open spec fn opt_bytes(r: Option<Vec<u8>>) -> Option<Seq<u8>> {
    match r {
        Some(v) => Some(v@),
        None => None,
    }
}

/// `flate2::write::ZlibEncoder` at the default level, fed `input` and
/// finished: the stream it wrote, or nothing where it reported an error.
#[verifier::external_body]
fn deflate(input: &[u8]) -> (r: Option<Vec<u8>>)
    ensures
        opt_bytes(r) == zlib_deflated(input@),
{
    let mut encoder = ZlibEncoder::new(Vec::new(), Default::default());
    encoder.write_all(input).ok()?;
    encoder.finish().ok()
}

/// `flate2::write::ZlibDecoder`, fed `input` and finished: the data it
/// wrote, or nothing where it reported an error.
#[verifier::external_body]
fn inflate(input: &[u8]) -> (r: Option<Vec<u8>>)
    ensures
        opt_bytes(r) == zlib_inflated(input@),
{
    let mut decoder = ZlibDecoder::new(Vec::new());
    decoder.write_all(input).ok()?;
    decoder.finish().ok()
}

/// `flate2::read::ZlibDecoder` over `content`, read to its end: the data it
/// gave with its `total_in`, or nothing where it reported an error.
#[verifier::external_body]
fn inflate_prefix(content: &[u8]) -> (r: Option<(Vec<u8>, u64)>)
    ensures
        match r {
            Some((data, used)) => zlib_stream(content@) == Some((data@, used as nat)),
            None => zlib_stream(content@) is None,
        },
{
    let mut decoder = ZlibReadDecoder::new(content);
    let mut buff = vec![];
    decoder.read_to_end(&mut buff).ok()?;
    Some((buff, decoder.total_in()))
}

/// Compresses `input` into one zlib stream.
pub fn compress(input: Vec<u8>) -> (r: Result<Vec<u8>, GitError>)
    ensures
        match zlib_deflated(input@) {
            Some(stream) => r matches Ok(out) && out@ == stream,
            None => r == Err::<Vec<u8>, GitError>(GitError::Decompress),
        },
{
    match deflate(input.as_slice()) {
        Some(out) => Ok(out),
        None => Err(GitError::Decompress),
    }
}

/// Inflates `input`, which must be one whole zlib stream.
pub fn decompress(input: Vec<u8>) -> (r: Result<Vec<u8>, GitError>)
    ensures
        match zlib_inflated(input@) {
            Some(data) => r matches Ok(out) && out@ == data,
            None => r == Err::<Vec<u8>, GitError>(GitError::Decompress),
        },
{
    match inflate(input.as_slice()) {
        Some(out) => Ok(out),
        None => Err(GitError::Decompress),
    }
}

/// Inflates the zlib stream at the start of `content`; gives its data and
/// how many bytes of `content` it took.
pub fn decompress_slice(content: &[u8]) -> (r: Result<(Vec<u8>, u64), GitError>)
    ensures
        match zlib_stream(content@) {
            Some((data, used)) => r matches Ok((out, n)) && out@ == data && n == used,
            None => r == Err::<(Vec<u8>, u64), GitError>(GitError::Decompress),
        },
{
    match inflate_prefix(content) {
        Some((out, n)) => Ok((out, n)),
        None => Err(GitError::Decompress),
    }
}

} // verus!
