//! Pkt-lines: frames with a length of four hexadecimal digits in front.

use crate::bytes::{append, copy_range};
use crate::error::GitError;
use crate::hexcode::{
    decode_hex, hex_decoded, hex_digit, hex_text, lemma_hex_decoded_len, lemma_hex_roundtrip,
    push_hex,
};
use crate::text::{from_utf8_with_context, text_of};
use vstd::prelude::*;
use vstd::slice::slice_subrange;
use vstd::utf8::encode_utf8;

verus! {

/// One frame.
#[derive(Debug, Clone, PartialEq, Eq)]
pub enum PktLine {
    /// Text; on the wire a newline follows it.
    StringDataPkt(String),
    /// Bytes as they are.
    BinaryDataPkt(Vec<u8>),
    /// The frame `0000`, which carries nothing.
    FlushPkt,
}

/// What a frame means.
pub enum PktView {
    Text(Seq<char>),
    Binary(Seq<u8>),
    Flush,
}

impl View for PktLine {
    type V = PktView;

    open spec fn view(&self) -> PktView {
        match self {
            PktLine::StringDataPkt(s) => PktView::Text(s@),
            PktLine::BinaryDataPkt(data) => PktView::Binary(data@),
            PktLine::FlushPkt => PktView::Flush,
        }
    }
}

/// The meaning of each frame of a list.
pub open spec fn pkts_of(v: Seq<PktLine>) -> Seq<PktView> {
    Seq::new(v.len(), |i: int| v[i]@)
}

/// The hexadecimal digits of `n`, without leading zeros.
pub open spec fn hex_number(n: nat) -> Seq<u8>
    decreases n,
{
    if n < 16 {
        seq![hex_digit(n as int)]
    } else {
        hex_number(n / 16).push(hex_digit((n % 16) as int))
    }
}

/// A frame length as written: four hexadecimal digits, or more where four do
/// not suffice.
pub open spec fn length_text(n: nat) -> Seq<u8> {
    if n < 0x1_0000 {
        hex_text(seq![(n / 256) as u8, (n % 256) as u8])
    } else {
        hex_number(n)
    }
}

/// The frame length that four hexadecimal digits write.
pub open spec fn spec_length(digits: Seq<u8>) -> Option<nat> {
    match hex_decoded(digits) {
        Some(v) => Some((v[0] as nat) * 256 + v[1] as nat),
        None => None,
    }
}

/// A frame on the wire. Text of `n` bytes is framed as length `n + 5`, the
/// text and a newline; `n` bytes as length `n + 4` and the bytes; the flush
/// frame is `0000`.
pub open spec fn spec_to_bytes(p: PktView) -> Seq<u8> {
    match p {
        PktView::Text(t) => length_text(encode_utf8(t).len() + 5) + encode_utf8(t) + seq![10u8],
        PktView::Binary(data) => length_text(data.len() + 4) + data,
        PktView::Flush => seq![0x30u8, 0x30, 0x30, 0x30],
    }
}

/// The frame at the start of `s`, and how many bytes it takes. The length
/// counts its own four digits; a payload that ends in a newline is text, and
/// the newline is no part of it.
pub open spec fn spec_read(s: Seq<u8>) -> Result<(PktView, int), GitError> {
    if s.len() < 4 {
        Err(GitError::PktTruncated)
    } else {
        match spec_length(s.subrange(0, 4)) {
            None => Err(GitError::BadPktLength),
            Some(len) => if len == 0 {
                Ok((PktView::Flush, 4))
            } else if len <= 4 {
                Err(GitError::PktTooShort)
            } else if s.len() < len {
                Err(GitError::PktTruncated)
            } else {
                let payload = s.subrange(4, len as int);
                if payload.last() == 10u8 {
                    match text_of(payload.drop_last()) {
                        Ok(t) => Ok((PktView::Text(t), len as int)),
                        Err(e) => Err(e),
                    }
                } else {
                    Ok((PktView::Binary(payload), len as int))
                }
            },
        }
    }
}

/// All the frames of `s`, read one after the other to its end.
pub open spec fn spec_read_many(s: Seq<u8>) -> Result<Seq<PktView>, GitError>
    decreases s.len(),
{
    if s.len() == 0 {
        Ok(Seq::empty())
    } else {
        match spec_read(s) {
            Err(e) => Err(e),
            Ok((p, n)) => if 0 < n <= s.len() {
                match spec_read_many(s.skip(n)) {
                    Err(e) => Err(e),
                    Ok(rest) => Ok(seq![p] + rest),
                }
            } else {
                Err(GitError::PktTruncated)
            },
        }
    }
}

/// The frames on the wire, one after the other.
pub open spec fn spec_all_bytes(ps: Seq<PktView>) -> Seq<u8>
    decreases ps.len(),
{
    if ps.len() == 0 {
        Seq::empty()
    } else {
        spec_all_bytes(ps.drop_last()) + spec_to_bytes(ps.last())
    }
}

/// Appends the hexadecimal digits of `n`.
fn push_hex_number(out: &mut Vec<u8>, n: u128)
    ensures
        final(out)@ == old(out)@ + hex_number(n as nat),
    decreases n,
{
    if n >= 16 {
        push_hex_number(out, n / 16);
    }
    let d: u8 = (n % 16) as u8;
    let c: u8 = if d < 10 {
        48 + d
    } else {
        87 + d
    };
    out.push(c);
    assert(out@ =~= old(out)@ + hex_number(n as nat));
}

/// Appends a frame length.
fn push_length(out: &mut Vec<u8>, n: u128)
    ensures
        final(out)@ == old(out)@ + length_text(n as nat),
{
    if n < 0x1_0000 {
        let mut two: Vec<u8> = Vec::new();
        two.push((n / 256) as u8);
        two.push((n % 256) as u8);
        assert(two@ =~= seq![(n / 256) as u8, (n % 256) as u8]);
        push_hex(out, two.as_slice());
    } else {
        push_hex_number(out, n);
    }
}

impl PktLine {
    /// Reads the frame that starts at `pos`; gives it with the position
    /// after it.
    pub fn read(s: &[u8], pos: usize) -> (r: Result<(PktLine, usize), GitError>)
        requires
            pos <= s@.len(),
        ensures
            match spec_read(s@.skip(pos as int)) {
                Ok((p, n)) => r matches Ok((pkt, next)) && pkt@ == p && next == pos + n && pos
                    < next <= s@.len(),
                Err(e) => r matches Err(re) && re == e,
            },
    {
        let t = slice_subrange(s, pos, s.len());
        assert(t@ =~= s@.skip(pos as int));
        if t.len() < 4 {
            return Err(GitError::PktTruncated);
        }
        let len: usize = match decode_hex(slice_subrange(t, 0, 4)) {
            None => {
                return Err(GitError::BadPktLength);
            },
            Some(v) => {
                proof {
                    lemma_hex_decoded_len(t@.subrange(0, 4));
                }
                assert(v@.len() == 2);
                (v[0] as usize) * 256 + v[1] as usize
            },
        };
        if len == 0 {
            return Ok((PktLine::FlushPkt, pos + 4));
        }
        if len <= 4 {
            return Err(GitError::PktTooShort);
        }
        if t.len() < len {
            return Err(GitError::PktTruncated);
        }
        if t[len - 1] == 10u8 {
            let text = copy_range(t, 4, len - 1);
            assert(text@ =~= t@.subrange(4, len as int).drop_last());
            Ok((PktLine::StringDataPkt(from_utf8_with_context(text)?), pos + len))
        } else {
            Ok((PktLine::BinaryDataPkt(copy_range(t, 4, len)), pos + len))
        }
    }

    /// Reads frames from `s` until it is used up.
    pub fn read_many(s: &[u8]) -> (r: Result<Vec<PktLine>, GitError>)
        ensures
            match spec_read_many(s@) {
                Ok(ps) => r matches Ok(v) && pkts_of(v@) == ps,
                Err(e) => r matches Err(re) && re == e,
            },
    {
        let mut out: Vec<PktLine> = Vec::new();
        let mut pos: usize = 0;
        assert(s@.skip(0) =~= s@);
        assert(pkts_of(out@) =~= Seq::<PktView>::empty());
        while pos < s.len()
            invariant
                pos <= s@.len(),
                spec_read_many(s@) == match spec_read_many(s@.skip(pos as int)) {
                    Ok(rest) => Ok::<Seq<PktView>, GitError>(pkts_of(out@) + rest),
                    Err(e) => Err(e),
                },
            decreases s@.len() - pos,
        {
            let ghost before = pkts_of(out@);
            let (pkt, next) = PktLine::read(s, pos)?;
            proof {
                assert(s@.skip(pos as int).skip(next - pos) =~= s@.skip(next as int));
                match spec_read_many(s@.skip(next as int)) {
                    Ok(rest) => {
                        assert(before + (seq![pkt@] + rest) =~= (before + seq![pkt@]) + rest);
                    },
                    Err(e) => {},
                }
                assert(pkts_of(out@.push(pkt)) =~= before + seq![pkt@]);
            }
            out.push(pkt);
            pos = next;
        }
        proof {
            assert(pkts_of(out@) + Seq::<PktView>::empty() =~= pkts_of(out@));
        }
        Ok(out)
    }

    /// The frame as it goes on the wire.
    pub fn to_bytes(&self) -> (r: Vec<u8>)
        ensures
            r@ == spec_to_bytes(self@),
    {
        let mut out: Vec<u8> = Vec::new();
        match self {
            PktLine::StringDataPkt(s) => {
                let bytes = s.as_str().as_bytes();
                push_length(&mut out, bytes.len() as u128 + 5);
                append(&mut out, bytes);
                out.push(10u8);
                assert(out@ =~= spec_to_bytes(self@));
            },
            PktLine::BinaryDataPkt(data) => {
                push_length(&mut out, data.len() as u128 + 4);
                append(&mut out, data.as_slice());
                assert(out@ =~= spec_to_bytes(self@));
            },
            PktLine::FlushPkt => {
                out.push(0x30);
                out.push(0x30);
                out.push(0x30);
                out.push(0x30);
                assert(out@ =~= spec_to_bytes(self@));
            },
        }
        out
    }

    /// The frames as they go on the wire, one after the other.
    pub fn all_to_bytes(lines: &Vec<PktLine>) -> (r: Vec<u8>)
        ensures
            r@ == spec_all_bytes(pkts_of(lines@)),
    {
        let ghost ps = pkts_of(lines@);
        let mut out: Vec<u8> = Vec::new();
        let mut i: usize = 0;
        assert(ps.take(0) =~= Seq::<PktView>::empty());
        while i < lines.len()
            invariant
                i <= lines@.len(),
                ps == pkts_of(lines@),
                out@ == spec_all_bytes(ps.take(i as int)),
            decreases lines@.len() - i,
        {
            proof {
                assert(ps.take(i + 1).drop_last() =~= ps.take(i as int));
                assert(ps.take(i + 1).last() == lines@[i as int]@);
            }
            let bytes = lines[i].to_bytes();
            append(&mut out, bytes.as_slice());
            i += 1;
        }
        assert(ps.take(i as int) =~= ps);
        out
    }

    /// The text, where this frame carries text.
    pub fn try_as_string_data_pkt(self) -> (r: Option<String>)
        ensures
            match self {
                PktLine::StringDataPkt(s) => r == Some(s),
                _ => r is None,
            },
    {
        match self {
            PktLine::StringDataPkt(s) => Some(s),
            _ => None,
        }
    }
}

/// Whether a frame comes back as it was written: text and bytes must fit a
/// length of four digits, and bytes must be some and not end in a newline,
/// which marks text.
pub open spec fn survives(p: PktView) -> bool {
    match p {
        PktView::Text(t) => encode_utf8(t).len() + 5 < 0x1_0000,
        PktView::Binary(data) => 0 < data.len() && data.len() + 4 < 0x1_0000 && data.last() != 10u8,
        PktView::Flush => true,
    }
}

/// A length below 65536 is read back from its four digits.
pub proof fn lemma_length_roundtrip(n: nat)
    requires
        n < 0x1_0000,
    ensures
        length_text(n).len() == 4,
        spec_length(length_text(n)) == Some(n),
{
    let two = seq![(n / 256) as u8, (n % 256) as u8];
    lemma_hex_roundtrip(two);
}

/// The flush frame is `0000`.
pub proof fn lemma_flush_bytes()
    ensures
        spec_to_bytes(PktView::Flush) == seq![0x30u8, 0x30, 0x30, 0x30],
{
}

/// Reading a written frame gives the frame back, whatever follows it.
#[verifier::rlimit(50)]
pub proof fn lemma_pkt_roundtrip(p: PktView, rest: Seq<u8>)
    requires
        survives(p),
    ensures
        spec_read(spec_to_bytes(p) + rest) == Ok::<(PktView, int), GitError>(
            (p, spec_to_bytes(p).len() as int),
        ),
{
    let w = spec_to_bytes(p);
    let s = w + rest;
    match p {
        PktView::Text(t) => {
            let body = encode_utf8(t);
            let n = (body.len() + 5) as nat;
            lemma_length_roundtrip(n);
            assert(s.subrange(0, 4) =~= length_text(n));
            assert(s.subrange(4, n as int) =~= body + seq![10u8]);
            assert((body + seq![10u8]).drop_last() =~= body);
            vstd::utf8::encode_utf8_valid_utf8(t);
            vstd::utf8::encode_utf8_decode_utf8(t);
        },
        PktView::Binary(data) => {
            let n = (data.len() + 4) as nat;
            lemma_length_roundtrip(n);
            assert(s.subrange(0, 4) =~= length_text(n));
            assert(s.subrange(4, n as int) =~= data);
        },
        PktView::Flush => {
            let zero = seq![0u8, 0u8];
            lemma_hex_roundtrip(zero);
            assert(hex_text(zero) =~= seq![0x30u8, 0x30, 0x30, 0x30]) by {
                reveal(hex_text);
            }
            assert(s.subrange(0, 4) =~= hex_text(zero));
        },
    }
}

} // verus!
